//! Spelling rules, the manifest and the store's decisions, and git's side of the boundary.

use std::sync::Arc;

use herdr_reviewr::answers::{
    Answers, Exit, Mtime, Query, Reply, Run, SnapFile, Step, StoreText, Topic,
};
use herdr_reviewr::cache::{cat_cache, ancestor_cache, ANCESTORS, CONTENTS, CONTENT_BYTES};
use herdr_reviewr::content;
use herdr_reviewr::counts::{count_changes, diff_counts, text_counts, text_line_count};
use herdr_reviewr::disk::{join, temp_name, DiskOp};
use herdr_reviewr::git::{
    self, BaseStatus, GitFail, ResolvedBase, Worktree, WorktreeEntry,
};
use herdr_reviewr::manifest::Manifest;
use herdr_reviewr::model::{kind_of, ChangeKind, ChangedFile, Scope, StatusEntry};
use herdr_reviewr::outside::LineChange;
use herdr_reviewr::paths::{path_bytes, path_text};
use herdr_reviewr::store::{parse_pick, Pending, Pick, Places, Store};
use herdr_reviewr::text;
use herdr_reviewr::vcs::{self, BranchEnds, Tip, VcsKind};

fn places() -> Places {
    Places {
        override_dir: None,
        state_dir: Some("/home/u/.local/state".to_string()),
        data_dir: Some("/home/u/.local/share".to_string()),
        temp_dir: "/tmp".to_string(),
    }
}

fn words(list: &[&str]) -> Vec<String> {
    list.iter().map(|s| s.to_string()).collect()
}

// --- text --------------------------------------------------------------------------------

#[test]
fn lines_and_trims_are_those_of_str() {
    for s in ["", "a", "a\n", "a\r\nb", "\n\n", "a\rb\n", " \u{3000}x\t\n ", "\u{85}", "é\nü", "a\r", "a\n\r"] {
        let want: Vec<String> = s.lines().map(str::to_string).collect();
        assert_eq!(text::split_lines(s), want, "{s:?}");
        assert_eq!(text::trim(s), s.trim(), "{s:?}");
        assert_eq!(text::contains(s, "a\r"), s.contains("a\r"));
        let want = s.split_once('\n').map(|(a, b)| (a.to_string(), b.to_string()));
        assert_eq!(text::split_at_first(s, '\n'), want);
    }
    for (a, b) in [("a", "b"), ("a", "ab"), ("é", "z"), ("\u{ffff}", "\u{10000}"), ("x", "x")] {
        assert_eq!(text::precedes(a, b), a < b, "{a:?} {b:?}");
        assert_eq!(text::precedes(b, a), b < a, "{a:?} {b:?}");
    }
}

#[test]
fn paths_join_and_take_a_temporary_name() {
    assert_eq!(join("/a", "b"), "/a/b");
    assert_eq!(join("/a/", "b"), "/a/b");
    assert_eq!(join("", "b"), "b");
    assert_eq!(join("/a", "/b"), "/b");
    for name in ["base-pick", "ab12", "ab12.json", ".json", "a.b.c", "x."] {
        let want = std::path::Path::new(name).with_extension("tmp");
        assert_eq!(temp_name(name), want.to_str().unwrap(), "{name}");
    }
}

// --- counts --------------------------------------------------------------------------------

#[test]
fn a_section_without_a_name_counts_nowhere() {
    let m = diff_counts("+stray\n-stray\ndiff --git a/x b/x\nBinary file x has changed\n");
    assert!(m.is_empty());
    assert!(diff_counts("").is_empty());
    // A line inside a hunk is content, whatever it looks like.
    let m = diff_counts(
        "diff --git a/x b/x\n--- a/x\n+++ b/x\n@@ -1 +1 @@\n+++ b/other\n--- a/other\n@@ -9 +9 @@\n+y\n",
    );
    assert_eq!(m.len(), 1);
    assert_eq!(*m.get("x").unwrap(), (2, 1));
}

#[test]
fn counts_take_bytes_that_are_no_utf8() {
    assert_eq!(text_counts(b"a\n\xff\n", b"a\n\xff\nb\n"), (1, 0));
    assert_eq!(text_counts(b"same\n", b"same\n"), (0, 0));
    assert_eq!(text_line_count(b"\n\n"), 2);
    let changes = vec![LineChange::Kept, LineChange::Added, LineChange::Removed, LineChange::Added];
    assert_eq!(count_changes(&changes), (2, 1));
}

#[test]
fn a_path_that_a_status_lists_twice_is_listed_once() {
    let entry = |path: &str, status: &str| StatusEntry {
        path: path.to_string(),
        status: status.to_string(),
        copy: None,
    };
    let mut a = Answers::new();
    let out = |bytes: &[u8]| {
        Reply::Run(Run::Ended(Exit {
            code: Some(0),
            stdout: bytes.to_vec(),
            stderr: Vec::new(),
        }))
    };
    a.add(Topic::Run, words(&["/r", "status", "-mardu", "-C", "-Tjson"]), out(b"json"));
    a.add(
        Topic::ParseStatus,
        words(&["json"]),
        Reply::Status(Some(vec![
            entry("b", "M"),
            entry("a", "A"),
            entry("b", "A"),
            entry("c", "C"),
        ])),
    );
    a.add(
        Topic::Run,
        words(&["/r", "diff", "--git", "--no-binary"]),
        out(b"diff --git a/b b/b\n--- a/b\n+++ b/b\n@@ -1 +1 @@\n+x\n"),
    );
    let row = |path: &str, kind, additions| ChangedFile {
        path: path.to_string(),
        kind,
        additions,
        deletions: 0,
        previous_path: None,
    };
    assert_eq!(
        herdr_reviewr::sl::changed_set("/r", None, None, &a),
        Step::Done(Ok(vec![
            row("a", ChangeKind::Added, 0),
            row("b", ChangeKind::Modified, 1),
        ]))
    );
}

#[test]
fn status_codes_map_to_kinds() {
    let kind = |status: &str, copy: Option<&str>| {
        kind_of(&StatusEntry {
            path: "p".to_string(),
            status: status.to_string(),
            copy: copy.map(str::to_string),
        })
    };
    assert_eq!(kind("M", None), Some(ChangeKind::Modified));
    assert_eq!(kind("A", None), Some(ChangeKind::Added));
    assert_eq!(kind("A", Some("q")), Some(ChangeKind::Renamed));
    assert_eq!(kind("R", None), Some(ChangeKind::Deleted));
    assert_eq!(kind("!", None), Some(ChangeKind::Deleted));
    assert_eq!(kind("?", None), Some(ChangeKind::Untracked));
    assert_eq!(kind("C", None), None);
}

// --- spellings -------------------------------------------------------------------------------

#[test]
fn a_hash_prefix_completes_and_paints_once() {
    let oid = "0123456789abcdef0123456789abcdef01234567";
    assert_eq!(vcs::abbreviate_oid(VcsKind::Git, oid), "0123456");
    assert_eq!(vcs::abbreviate_oid(VcsKind::Sapling, oid), "0123456789ab");
    assert_eq!(vcs::abbreviate_oid(VcsKind::Git, "abc"), "abc");
    assert_eq!(vcs::complete_pick_spelling(VcsKind::Git, "0123", oid), "0123456");
    assert_eq!(vcs::complete_pick_spelling(VcsKind::Sapling, "0123", oid), oid);
    assert_eq!(vcs::complete_pick_spelling(VcsKind::Sapling, "main", oid), "main");
    assert_eq!(vcs::complete_pick_spelling(VcsKind::Git, "", oid), "");
    let paint = |k, s: &str| vcs::rev_paint(k, s, oid);
    assert_eq!(paint(VcsKind::Sapling, oid), ("0123456789ab".to_string(), None));
    assert_eq!(paint(VcsKind::Git, "012"), ("0123456".to_string(), None));
    assert_eq!(
        paint(VcsKind::Git, "main"),
        ("main".to_string(), Some("0123456".to_string()))
    );
    assert_eq!(vcs::uncommitted_base(VcsKind::Git), "HEAD");
    assert_eq!(vcs::uncommitted_base(VcsKind::Sapling), ".");
}

#[test]
fn a_pick_text_is_a_spelling_or_one_commit() {
    let plain = |s: &str| Some(Pick { base: s.to_string(), tip: None });
    assert_eq!(parse_pick(" main \n"), plain("main"));
    assert_eq!(parse_pick("a^..b"), plain("a^..b"));
    assert_eq!(parse_pick("^.."), plain("^.."));
    assert_eq!(
        parse_pick("beef^..beef"),
        Some(Pick { base: "beef^".to_string(), tip: Some("beef".to_string()) })
    );
    assert_eq!(parse_pick("-bad"), None);
    assert_eq!(parse_pick(" \n"), None);
    assert_eq!(parse_pick(""), None);
}

#[test]
fn a_worktree_key_is_the_digest_of_its_path() {
    assert_eq!(
        git::worktree_key("abc"),
        "ba7816bf8f01cfea414140de5dae2223b00361a396177a9cb410ff61f20015ad"
    );
    let key = git::worktree_key("/r");
    let dir = |p: &Places| Store::open("/r", p).dir().to_string();
    assert_eq!(dir(&places()), format!("/home/u/.local/state/herdr-reviewr/sl/{key}"));
    let mut p = places();
    p.state_dir = None;
    assert_eq!(dir(&p), format!("/home/u/.local/share/herdr-reviewr/sl/{key}"));
    p.data_dir = None;
    assert_eq!(dir(&p), format!("/tmp/herdr-reviewr/sl/{key}"));
    p.override_dir = Some("/qa".to_string());
    assert_eq!(dir(&p), format!("/qa/herdr-reviewr/sl/{key}"));
}

#[test]
fn an_override_is_the_state_root_of_the_machine() {
    let p = Places::of_user(Some("/qa".to_string()), "/t".to_string());
    assert_eq!(p.temp_dir, "/t");
    assert_eq!(p.override_dir.as_deref(), Some("/qa"));
    // The user's own directories are those that the platform names.
    let told = |d: &Option<String>| d.as_ref().map(|d| path_bytes(d));
    let named = |d: Option<std::path::PathBuf>| d.map(|d| d.into_os_string().into_encoded_bytes());
    assert_eq!(told(&p.state_dir), named(dirs::state_dir()));
    assert_eq!(told(&p.data_dir), named(dirs::data_local_dir()));
    let key = git::worktree_key("/r");
    assert_eq!(Store::open("/r", &p).dir(), format!("/qa/herdr-reviewr/sl/{key}"));
}

#[test]
fn a_path_keeps_every_byte_in_its_text() {
    assert_eq!(path_text(b"/home/u"), "/home/u");
    assert_eq!(path_text("/h\u{e9}".as_bytes()), "/h\u{e9}");
    assert_eq!(path_text(b"/st\xffate"), "/st\0\u{ff}ate");
    for path in [&b""[..], b"/a b", "/h\u{e9}/\u{20ac}".as_bytes(), b"/\xff\xfe/\x80", b"/\xc3"] {
        assert_eq!(path_bytes(&path_text(path)), path);
        let named = format!("{}/herdr-reviewr", path_text(path));
        assert_eq!(path_bytes(&named), [path, b"/herdr-reviewr"].concat());
    }
    // The store stands under that very directory.
    let mut p = places();
    p.state_dir = Some(path_text(b"/st\xffate"));
    let key = git::worktree_key("/r");
    let dir = path_bytes(Store::open("/r", &p).dir());
    assert_eq!(dir, [b"/st\xffate/herdr-reviewr/sl/", key.as_bytes()].concat());
}

// --- the manifest ------------------------------------------------------------------------------

fn manifest(parent: &str, files: &[(&str, Option<&str>)]) -> Manifest {
    let mut m = Manifest::new(parent);
    for (path, hash) in files {
        m.record(path.to_string(), hash.map(str::to_string));
    }
    m
}

#[test]
fn manifest_id_is_stable_and_content_sensitive() {
    let manifest = |parent: &str, path: &str| manifest(parent, &[(path, Some("abc"))]);
    assert_eq!(manifest("p", "a.rs").id(), manifest("p", "a.rs").id());
    assert_ne!(manifest("p", "a.rs").id(), manifest("p", "b.rs").id());
    assert_ne!(manifest("p", "a.rs").id(), manifest("q", "a.rs").id());
    assert!(manifest("p", "a.rs").id().starts_with("snap:"));
    let id = manifest("p", "a.rs").id();
    assert_eq!(id.len(), 69);
    assert!(id[5..].chars().all(|c| c.is_ascii_digit() || ('a'..='f').contains(&c)));
}

#[test]
fn a_manifest_serializes_as_json_in_order_of_path() {
    let m = manifest("p\"\\\n\u{1}é", &[("b", None), ("a\t", Some("x")), ("b", Some("y"))]);
    assert_eq!(
        m.canonical(),
        "{\"parent\":\"p\\\"\\\\\\n\\u0001é\",\"files\":{\"a\\t\":\"x\",\"b\":\"y\"}}"
    );
    assert_eq!(manifest("p", &[]).canonical(), "{\"parent\":\"p\",\"files\":{}}");
    assert_eq!(manifest("p", &[("a", None)]).canonical(), "{\"parent\":\"p\",\"files\":{\"a\":null}}");
    let value: serde_json::Value = serde_json::from_str(&m.canonical()).unwrap();
    assert_eq!(value.get("parent").unwrap().as_str(), Some("p\"\\\n\u{1}é"));
    assert_eq!(m.get("b"), Some(&Some("y".to_string())));
    assert_eq!(m.get("c"), None);
    // The id is the digest of that text.
    let digest = <sha2::Sha256 as sha2::Digest>::digest(m.canonical().as_bytes());
    let mut want = "snap:".to_string();
    for b in digest.iter() {
        want.push_str(&format!("{b:02x}"));
    }
    assert_eq!(m.id(), want);
}

// --- the store -----------------------------------------------------------------------------------

/// A state directory in memory, whose clock moves with every write.
struct Files {
    files: std::collections::BTreeMap<String, (i64, Vec<u8>)>,
    clock: i64,
}

impl Files {
    fn new() -> Files {
        Files { files: std::collections::BTreeMap::new(), clock: 0 }
    }

    fn names(&self, dir: &str) -> Vec<String> {
        let head = format!("{dir}/");
        self.files.keys().filter_map(|p| p.strip_prefix(&head)).map(str::to_string).collect()
    }

    fn parse(bytes: &[u8]) -> Option<Manifest> {
        let value: serde_json::Value = serde_json::from_slice(bytes).ok()?;
        let mut m = Manifest::new(value.get("parent")?.as_str()?);
        for (path, hash) in value.get("files")?.as_object()? {
            m.record(path.clone(), hash.as_str().map(str::to_string));
        }
        Some(m)
    }

    fn answer(&mut self, q: &Query) -> Reply {
        let w = &q.words;
        match q.topic {
            Topic::StoreText => Reply::StoreText(match self.files.get(&w[0]) {
                Some((_, b)) => StoreText::Text(String::from_utf8(b.clone()).unwrap()),
                None => StoreText::Missing,
            }),
            Topic::StoreManifest => {
                Reply::Manifest(self.files.get(&w[0]).and_then(|(_, b)| Files::parse(b)))
            }
            Topic::StoreBytes => Reply::Bytes(self.files.get(&w[0]).map(|(_, b)| b.clone())),
            Topic::Snaps => Reply::Snaps(
                self.names(&w[0])
                    .into_iter()
                    .map(|name| {
                        let secs = self.files[&format!("{}/{name}", w[0])].0;
                        SnapFile { name, modified: Mtime { secs, nanos: 0 } }
                    })
                    .collect(),
            ),
            Topic::Kept => Reply::Kept(
                self.names(&w[0])
                    .iter()
                    .filter_map(|n| Files::parse(&self.files[&format!("{}/{n}", w[0])].1))
                    .collect(),
            ),
            Topic::Blobs => Reply::Blobs(self.names(&w[0])),
            Topic::Disk | Topic::Sweep => {
                for op in &q.ops {
                    self.clock += 1;
                    match op {
                        DiskOp::CreateDirs(_) => {}
                        DiskOp::Write(p, b) => {
                            self.files.insert(p.clone(), (self.clock, b.clone()));
                        }
                        DiskOp::Rename(a, b) => {
                            let f = self.files.remove(a).unwrap();
                            self.files.insert(b.clone(), f);
                        }
                        DiskOp::Remove(p) => {
                            self.files.remove(p);
                        }
                    }
                }
                if q.topic == Topic::Disk { Reply::Disk(Ok(())) } else { Reply::Swept }
            }
            other => panic!("{other:?}"),
        }
    }

    fn drive<T>(&mut self, op: impl Fn(&Answers) -> Step<T>) -> T {
        let mut answers = Answers::new();
        loop {
            match op(&answers) {
                Step::Done(t) => return t,
                Step::Ask(qs) => {
                    for q in qs {
                        let reply = self.answer(&q);
                        answers.add(q.topic, q.words, reply);
                    }
                }
            }
        }
    }

    fn manifest(&mut self, store: &Store, id: &str) -> Option<Manifest> {
        let found = store.manifest_path(id).and_then(|p| self.files.get(&p).map(|f| f.1.clone()));
        let mut answers = Answers::new();
        let parsed = found.as_ref().and_then(|b| Files::parse(b));
        if let Some(path) = store.manifest_path(id) {
            answers.add(Topic::StoreManifest, vec![path], Reply::Manifest(parsed));
        }
        match store.load_manifest(id, &answers) {
            Step::Done(m) => m.cloned(),
            Step::Ask(_) => panic!("answered"),
        }
    }

    fn blob(&mut self, store: &Store, hash: &str) -> Option<Vec<u8>> {
        let path = join(&store.blobs_dir(), hash);
        let mut answers = Answers::new();
        let bytes = self.files.get(&path).map(|f| f.1.clone());
        answers.add(Topic::StoreBytes, vec![path], Reply::Bytes(bytes));
        match store.read_blob(hash, &answers) {
            Step::Done(b) => b.cloned(),
            Step::Ask(_) => panic!("answered"),
        }
    }
}

#[test]
fn store_roundtrips_pick_baseline_and_blobs() {
    let mut dir = Files::new();
    let store = Store::at("/s".to_string());
    // Pick: absent, written, cleared. A malformed spelling is no pick.
    assert_eq!(dir.drive(|a| store.read_base_pick(a)).unwrap(), None);
    dir.drive(|a| store.write_base_pick("remote/main", a)).unwrap();
    assert_eq!(
        dir.drive(|a| store.read_base_pick(a)).unwrap(),
        Some(Pick { base: "remote/main".to_string(), tip: None })
    );
    dir.drive(|a| store.clear_base_pick(a)).unwrap();
    assert_eq!(dir.drive(|a| store.read_base_pick(a)).unwrap(), None);
    dir.drive(|a| store.write_base_pick("-bad", a)).unwrap();
    assert_eq!(dir.drive(|a| store.read_base_pick(a)).unwrap(), None);
    // Baseline: a pointer without a manifest reads as no baseline; a persisted pending
    // roundtrips manifest and blob.
    assert_eq!(dir.drive(|a| store.read_baseline(a)), None);
    let manifest = manifest("p", &[("kept.rs", Some("aa11")), ("gone.rs", None)]);
    let id = manifest.id();
    dir.files.insert(store.baseline_path(), (0, id.clone().into_bytes()));
    assert_eq!(dir.drive(|a| store.read_baseline(a)), None);
    let pending = Pending {
        id: id.clone(),
        manifest: manifest.clone(),
        blobs: vec![("aa11".to_string(), Arc::new(b"hello".to_vec()))],
    };
    dir.drive(|a| store.persist(&pending, a)).unwrap();
    assert_eq!(dir.drive(|a| store.read_baseline(a)), Some(id.clone()));
    assert_eq!(dir.manifest(&store, &id), Some(manifest));
    assert_eq!(dir.blob(&store, "aa11"), Some(b"hello".to_vec()));
    // A name that is no hash reads nothing.
    assert_eq!(dir.blob(&store, "../x"), None);
    assert_eq!(store.manifest_path("snap:../x"), None);
    assert_eq!(store.manifest_path("ab"), None);
    assert!(dir.files.keys().all(|p| p.starts_with("/s/") && !p.ends_with(".tmp")));
}

#[test]
fn persist_keeps_a_recent_tail_and_prunes_the_rest() {
    let mut dir = Files::new();
    let store = Store::at("/s".to_string());
    let mut ids = Vec::new();
    for i in 0..6 {
        let hash = format!("aa{i:02}");
        let file = format!("f{i}.rs");
        let manifest = manifest(&format!("p{i}"), &[(file.as_str(), Some(hash.as_str()))]);
        let id = manifest.id();
        let blobs = vec![(hash, Arc::new(format!("v{i}").into_bytes()))];
        let pending = Pending { id: id.clone(), manifest, blobs };
        dir.drive(|a| store.persist(&pending, a)).unwrap();
        ids.push(id);
    }
    assert_eq!(dir.drive(|a| store.read_baseline(a)), Some(ids[5].clone()));
    // The newest and a recent tail survive, so a sibling pane's live baseline is never yanked;
    // only the oldest fall off.
    assert!(dir.manifest(&store, &ids[5]).is_some());
    assert!(dir.manifest(&store, &ids[1]).is_some(), "the kept tail survives");
    assert!(dir.manifest(&store, &ids[0]).is_none(), "the oldest is pruned");
    assert_eq!(dir.blob(&store, "aa00"), None, "a pruned manifest's blob goes with it");
    assert_eq!(dir.blob(&store, "aa05"), Some(b"v5".to_vec()));
}

#[test]
fn a_malformed_pending_id_is_an_error() {
    let mut dir = Files::new();
    let store = Store::at("/s".to_string());
    let pending = Pending {
        id: "snap:zz".to_string(),
        manifest: manifest("p", &[]),
        blobs: Vec::new(),
    };
    let e = dir.drive(|a| store.persist(&pending, a));
    assert_eq!(e, Err(GitFail("a pending id is well-formed".to_string())));
    assert!(dir.files.is_empty());
}

// --- the caches ------------------------------------------------------------------------------------

fn cat(cache: &mut herdr_reviewr::cache::PinnedCache<Vec<u8>>, path: &str, bytes: &[u8]) {
    let mut answers = Answers::new();
    let exit = Exit { code: Some(0), stdout: bytes.to_vec(), stderr: Vec::new() };
    answers.add(
        Topic::Run,
        words(&["/r", "cat", "-r", "n", "--", path]),
        Reply::Run(Run::Ended(exit)),
    );
    let got = content::cat_cached("/r", "n", path, cache, &answers);
    assert_eq!(got, Step::Done(Ok(Some(bytes.to_vec()))));
}

#[test]
fn a_full_content_cache_starts_over() {
    let mut cache = cat_cache();
    for i in 0..CONTENTS {
        cat(&mut cache, &format!("f{i}"), b"x");
    }
    assert!(content::content_is_cached("n", "f0", &cache));
    cat(&mut cache, "one more", b"x");
    assert!(content::content_is_cached("n", "one more", &cache));
    assert!(!content::content_is_cached("n", "f0", &cache));
    // So does one that holds too many bytes.
    let mut cache = cat_cache();
    cat(&mut cache, "big", &vec![0; CONTENT_BYTES]);
    assert!(content::content_is_cached("n", "big", &cache));
    cat(&mut cache, "small", b"x");
    assert!(content::content_is_cached("n", "small", &cache));
    assert!(!content::content_is_cached("n", "big", &cache));
}

#[test]
fn a_full_ancestor_cache_starts_over() {
    let mut cache = ancestor_cache();
    for i in 0..ANCESTORS {
        cache.hold_ancestor(&format!("b{i}"), "p", Some("m".to_string()));
    }
    assert!(cache.get("b0", "p").is_some());
    cache.hold_ancestor("b0", "q", None);
    assert_eq!(cache.get("b0", "q"), Some(&None));
    assert!(cache.get("b0", "p").is_none());
}

// --- the boundary -----------------------------------------------------------------------------------

#[test]
fn kind_at_reads_markers_and_git_wins_a_dual_root() {
    let kind = |marks: &[&str]| {
        let mut answers = Answers::new();
        loop {
            match vcs::kind_at("/r", &answers) {
                Step::Done(k) => return k,
                Step::Ask(qs) => {
                    for q in qs {
                        let there = marks.iter().any(|m| q.words[0] == format!("/r/{m}"));
                        answers.add(q.topic, q.words, Reply::Flag(there));
                    }
                }
            }
        }
    };
    assert_eq!(kind(&[]), VcsKind::Git, "no marker defaults to git");
    assert_eq!(kind(&[".hg"]), VcsKind::Sapling);
    assert_eq!(kind(&[".hg", ".git"]), VcsKind::Git, "git claims a dual-marker root");
    assert_eq!(kind(&[".sl"]), VcsKind::Sapling);
    assert_eq!(VcsKind::default(), VcsKind::Git);
}

#[test]
fn git_answers_for_a_git_worktree() {
    let p = places();
    let mut a = Answers::new();
    let file = ChangedFile {
        path: "f".to_string(),
        kind: ChangeKind::Added,
        additions: 1,
        deletions: 2,
        previous_path: Some("e".to_string()),
    };
    let fail = GitFail("no".to_string());
    let status = BaseStatus {
        winner: Some(ResolvedBase::Branch { name: "main".to_string(), oid: "1".to_string() }),
        skipped: Some("dev".to_string()),
    };
    let git = VcsKind::Git;
    // Unanswered, each asks git its own question.
    assert_eq!(
        vcs::changed_files(git, "/r", Scope::Branch, Some("b"), Some("t"), &a),
        Step::Ask(vec![Query {
            topic: Topic::GitChangedFiles,
            words: words(&["/r", "branch", "b"]),
            ops: Vec::new(),
        }])
    );
    a.add(Topic::GitRoot, words(&["/r/x"]), Reply::Root(Worktree::Root("/r".to_string())));
    a.add(Topic::GitIsRepo, words(&["/r"]), Reply::Flag(true));
    a.add(
        Topic::GitChangedFiles,
        words(&["/r", "uncommitted"]),
        Reply::Files(Ok(vec![file.clone()])),
    );
    a.add(
        Topic::GitChangedAgainstTree,
        words(&["/r", "tree"]),
        Reply::Files(Err(fail.clone())),
    );
    a.add(
        Topic::GitFileContent,
        words(&["/r", "HEAD", "f"]),
        Reply::Plain("text".to_string()),
    );
    a.add(Topic::GitMergeBase, words(&["/r", "1"]), Reply::Rev(Some("0".to_string())));
    a.add(Topic::GitResolveBase, words(&["/r"]), Reply::Base(Ok(status.clone())));
    a.add(Topic::GitResolveSpelling, words(&["/r", "x"]), Reply::Resolved(Ok(None)));
    a.add(Topic::GitDefaultBranch, words(&["/r"]), Reply::Name(Ok(Some("main".to_string()))));
    a.add(
        Topic::GitListBranches,
        words(&["/r", "main"]),
        Reply::Names(Ok(words(&["main", "dev"]))),
    );
    a.add(Topic::GitWritePick, words(&["/r", "dev"]), Reply::Done(Ok(())));
    a.add(Topic::GitClearPick, words(&["/r"]), Reply::Done(Err(fail.clone())));
    a.add(
        Topic::GitBaseline,
        vec!["/r".to_string(), git::worktree_key("/r")],
        Reply::Rev(Some("tree".to_string())),
    );
    let entry = WorktreeEntry { path: "f".to_string(), is_dir: false, ignored: true };
    a.add(Topic::GitAllFiles, words(&["/r"]), Reply::Entries(Ok(vec![entry.clone()])));

    assert_eq!(vcs::resolve_repo("/r/x", &a), Step::Done(("/r".to_string(), git)));
    assert_eq!(vcs::worktree_of(git, "/r/x", &a), Step::Done(Worktree::Root("/r".to_string())));
    assert_eq!(vcs::is_repo(git, "/r", &a), Step::Done(true));
    assert_eq!(
        vcs::changed_files(git, "/r", Scope::Uncommitted, None, None, &a),
        Step::Done(Ok(vec![file]))
    );
    assert_eq!(vcs::changed_against_tree(git, "/r", "tree", &p, &a), Step::Done(Err(fail.clone())));
    assert_eq!(
        vcs::file_content(git, "/r", "HEAD", "f", &p, &a),
        Step::Done("text".to_string())
    );
    let mut cache = ancestor_cache();
    assert_eq!(
        vcs::merge_base(git, "/r", "1", &mut cache, &a),
        Step::Done(Some("0".to_string()))
    );
    let ends = BranchEnds { base: status, tip: None };
    assert_eq!(vcs::resolve_base(git, "/r", None, &p, &a), Step::Done(Ok(ends.clone())));
    assert_eq!(
        vcs::read_revs(git, "/r", Scope::Branch, &ends, None, &a),
        Step::Done((Some("0".to_string()), None))
    );
    assert_eq!(
        vcs::read_revs(git, "/r", Scope::Uncommitted, &ends, None, &a),
        Step::Done((Some("HEAD".to_string()), None))
    );
    assert_eq!(vcs::resolve_spelling(git, "/r", "x", &a), Step::Done(Ok(None)));
    assert_eq!(
        vcs::default_branch_name(git, "/r", &a),
        Step::Done(Ok(Some("main".to_string())))
    );
    assert_eq!(
        vcs::list_branches(git, "/r", Some("main"), &a),
        Step::Done(Ok(words(&["main", "dev"])))
    );
    assert_eq!(vcs::write_base_pick(git, "/r", "dev", &p, &a), Step::Done(Ok(())));
    assert_eq!(vcs::clear_base_pick(git, "/r", &p, &a), Step::Done(Err(fail)));
    assert_eq!(vcs::seed_baseline(git, "/r", &p, &a), Step::Done(Some("tree".to_string())));
    assert_eq!(vcs::all_files(git, "/r", &a), Step::Done(Ok(vec![entry])));
    assert_eq!(vcs::base_is_chain_fallback(git, "/r", "x", &p, &a), Step::Done(false));
    assert!(matches!(vcs::list_stack(git, "/r", &a), Step::Done(Ok(v)) if v.is_empty()));
}

#[test]
fn an_empty_range_has_neither_base_nor_tip() {
    let ends = BranchEnds::default();
    assert_eq!(ends.base.winner, None);
    assert_eq!(ends.base.skipped, None);
    assert_eq!(ends.tip, None);
    assert_eq!(Tip::default().oid, "");
    let a = Answers::new();
    assert_eq!(
        vcs::read_revs(VcsKind::Sapling, "/r", Scope::Branch, &ends, None, &a),
        Step::Done((None, None))
    );
}

#[test]
fn an_answer_of_the_wrong_shape_is_no_answer() {
    let mut a = Answers::new();
    a.add(Topic::GitIsRepo, words(&["/r"]), Reply::Rev(None));
    assert!(matches!(vcs::is_repo(VcsKind::Git, "/r", &a), Step::Ask(_)));
    a.add(Topic::GitIsRepo, words(&["/r"]), Reply::Flag(false));
    assert_eq!(vcs::is_repo(VcsKind::Git, "/r", &a), Step::Done(false));
}
