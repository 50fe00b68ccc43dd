//! The Sapling backend against a small repository held in memory, which answers each question as
//! `sl` and the file system would.

use std::collections::{BTreeMap, BTreeSet};

use herdr_reviewr::answers::{
    Answers, Exit, IoFail, Mtime, Query, Reply, Run, SnapFile, Stat, Step, StoreText, Topic,
};
use herdr_reviewr::cache::{ancestor_cache, cat_cache, PinnedCache};
use herdr_reviewr::content;
use herdr_reviewr::disk::DiskOp;
use herdr_reviewr::git::{GitFail, ResolvedBase, Worktree};
use herdr_reviewr::manifest::Manifest;
use herdr_reviewr::model::{ChangeKind, ChangedFile, Scope, StatusEntry};
use herdr_reviewr::store::{Pick, Places, Store};
use herdr_reviewr::turn::TurnStore;
use herdr_reviewr::vcs::{self, VcsKind};
use herdr_reviewr::{base, last_turn, sl};
use sha2::Digest;

const ROOT: &str = "/work/repo";

/// One commit of the repository.
struct Commit {
    node: String,
    parent: Option<String>,
    files: BTreeMap<String, Vec<u8>>,
    desc: String,
    public: bool,
    successor: Option<String>,
}

/// A repository, its worktree, and the state directory beside it.
struct World {
    commits: Vec<Commit>,
    at: Option<String>,
    worktree: BTreeMap<String, Vec<u8>>,
    known: BTreeSet<String>,
    copies: BTreeMap<String, String>,
    bookmarks: BTreeMap<String, String>,
    mtimes: BTreeMap<String, i64>,
    clock: i64,
    disk: BTreeMap<String, Vec<u8>>,
    disk_times: BTreeMap<String, i64>,
    commands: Vec<Vec<String>>,
    broken: bool,
    failing: Option<(String, i32, String)>,
    disk_fails_at: Option<usize>,
    contents: PinnedCache<Vec<u8>>,
    ancestors: PinnedCache<String>,
    reads: usize,
}

fn places() -> Places {
    Places {
        override_dir: Some("/state".to_string()),
        state_dir: None,
        data_dir: None,
        temp_dir: "/tmp".to_string(),
    }
}

fn hex(bytes: &[u8]) -> String {
    let digest = sha2::Sha256::digest(bytes);
    let mut s = String::new();
    for b in digest.iter() {
        s.push_str(&format!("{b:02x}"));
    }
    s
}

fn is_hex(s: &str) -> bool {
    s.bytes().all(|b| b.is_ascii_hexdigit())
}

impl World {
    fn new() -> World {
        World {
            commits: Vec::new(),
            at: None,
            worktree: BTreeMap::new(),
            known: BTreeSet::new(),
            copies: BTreeMap::new(),
            bookmarks: BTreeMap::new(),
            mtimes: BTreeMap::new(),
            clock: 0,
            disk: BTreeMap::new(),
            disk_times: BTreeMap::new(),
            commands: Vec::new(),
            broken: false,
            failing: None,
            disk_fails_at: None,
            contents: cat_cache(),
            ancestors: ancestor_cache(),
            reads: 0,
        }
    }

    // --- what a person does in the worktree ---

    fn write(&mut self, rel: &str, contents: &str) {
        self.write_bytes(rel, contents.as_bytes().to_vec());
    }

    fn write_bytes(&mut self, rel: &str, contents: Vec<u8>) {
        self.clock += 1;
        self.mtimes.insert(rel.to_string(), self.clock);
        self.worktree.insert(rel.to_string(), contents);
    }

    fn delete(&mut self, rel: &str) {
        self.worktree.remove(rel);
    }

    fn sl_rm(&mut self, rel: &str) {
        self.worktree.remove(rel);
        self.known.remove(rel);
    }

    fn sl_mv(&mut self, from: &str, to: &str) {
        let bytes = self.worktree.remove(from).unwrap();
        self.known.remove(from);
        self.write_bytes(to, bytes);
        self.known.insert(to.to_string());
        self.copies.insert(to.to_string(), from.to_string());
    }

    fn sl_cp(&mut self, from: &str, to: &str) {
        let bytes = self.worktree[from].clone();
        self.write_bytes(to, bytes);
        self.known.insert(to.to_string());
        self.copies.insert(to.to_string(), from.to_string());
    }

    fn commit_all(&mut self, msg: &str) {
        let files = self.worktree.clone();
        self.known = files.keys().cloned().collect();
        self.copies.clear();
        let parent = self.at.clone();
        self.add_commit(files, msg, parent);
    }

    fn add_commit(&mut self, files: BTreeMap<String, Vec<u8>>, msg: &str, parent: Option<String>) {
        let seed = format!("{} {} {:?}", self.commits.len(), msg, parent);
        let node = hex(seed.as_bytes())[..40].to_string();
        self.commits.push(Commit {
            node: node.clone(),
            parent,
            files,
            desc: msg.to_string(),
            public: false,
            successor: None,
        });
        self.at = Some(node);
    }

    fn amend(&mut self) {
        let old = self.parent();
        let (desc, parent) = {
            let c = self.commit(&old).unwrap();
            (c.desc.clone(), c.parent.clone())
        };
        let files = self.worktree.clone();
        self.known = files.keys().cloned().collect();
        self.add_commit(files, &desc, parent);
        let new = self.parent();
        let c = self.commits.iter_mut().find(|c| c.node == old).unwrap();
        c.successor = Some(new);
    }

    fn goto(&mut self, node: &str) {
        let files = self.commit(node).unwrap().files.clone();
        self.known = files.keys().cloned().collect();
        self.worktree = files;
        self.at = Some(node.to_string());
    }

    fn parent(&self) -> String {
        self.at.clone().unwrap()
    }

    fn commit(&self, node: &str) -> Option<&Commit> {
        self.commits.iter().find(|c| c.node == node)
    }

    fn ancestors_of(&self, node: &str) -> Vec<String> {
        let mut out = Vec::new();
        let mut at = Some(node.to_string());
        while let Some(n) = at {
            at = self.commit(&n).and_then(|c| c.parent.clone());
            out.push(n);
        }
        out
    }

    // --- what `sl` answers ---

    fn side(&self, rev: Option<&str>) -> BTreeMap<String, Vec<u8>> {
        let node = rev.map(str::to_string).or_else(|| self.at.clone());
        node.and_then(|n| self.commit(&n).map(|c| c.files.clone())).unwrap_or_default()
    }

    fn status(&self, revs: &[String]) -> Vec<(String, char, Option<String>)> {
        let old = self.side(revs.first().map(String::as_str));
        let mut out = Vec::new();
        if revs.len() == 2 {
            let new = self.side(Some(&revs[1]));
            for (p, b) in &new {
                match old.get(p) {
                    None => out.push((p.clone(), 'A', None)),
                    Some(o) if o != b => out.push((p.clone(), 'M', None)),
                    Some(_) => {}
                }
            }
            for p in old.keys() {
                if !new.contains_key(p) {
                    out.push((p.clone(), 'R', None));
                }
            }
            return out;
        }
        for p in &self.known {
            match (old.get(p), self.worktree.get(p)) {
                (Some(o), Some(n)) if o != n => out.push((p.clone(), 'M', None)),
                (None, Some(_)) => out.push((p.clone(), 'A', self.copies.get(p).cloned())),
                (_, None) => out.push((p.clone(), '!', None)),
                _ => {}
            }
        }
        for p in old.keys() {
            if !self.known.contains(p) {
                out.push((p.clone(), 'R', None));
            }
        }
        for p in self.worktree.keys() {
            if !self.known.contains(p) {
                out.push((p.clone(), '?', None));
            }
        }
        out
    }

    fn status_json(&self, revs: &[String]) -> String {
        let mut rows = Vec::new();
        for (path, code, copy) in self.status(revs) {
            let mut row = serde_json::Map::new();
            row.insert("path".to_string(), serde_json::Value::String(path));
            row.insert("status".to_string(), serde_json::Value::String(code.to_string()));
            if let Some(copy) = copy {
                row.insert("copy".to_string(), serde_json::Value::String(copy));
            }
            rows.push(serde_json::Value::Object(row));
        }
        serde_json::Value::Array(rows).to_string()
    }

    fn diff(&self, revs: &[String]) -> String {
        let old = self.side(revs.first().map(String::as_str));
        let new = if revs.len() == 2 { self.side(Some(&revs[1])) } else { self.worktree.clone() };
        let mut out = String::new();
        for (path, code, copy) in self.status(revs) {
            if code == '?' || code == '!' {
                continue;
            }
            let from = copy.clone().unwrap_or_else(|| path.clone());
            let a = old.get(&from).cloned().unwrap_or_default();
            let b = new.get(&path).cloned().unwrap_or_default();
            out.push_str(&format!("diff --git a/{from} b/{path}\n"));
            if a.contains(&0) || b.contains(&0) {
                out.push_str(&format!("Binary file {path} has changed\n"));
                continue;
            }
            if a == b {
                continue;
            }
            out.push_str(&if old.contains_key(&from) {
                format!("--- a/{from}\n")
            } else {
                "--- /dev/null\n".to_string()
            });
            out.push_str(&if code == 'R' {
                "+++ /dev/null\n".to_string()
            } else {
                format!("+++ b/{path}\n")
            });
            out.push_str("@@ -1 +1 @@\n");
            let a = String::from_utf8(a).unwrap();
            let b = String::from_utf8(b).unwrap();
            for change in similar::TextDiff::from_lines(&a, &b).iter_all_changes() {
                out.push_str(&format!("{}{}", change.tag(), change.value()));
            }
        }
        out
    }

    fn resolve(&self, name: &str) -> Result<Option<String>, String> {
        if let Some(node) = self.bookmarks.get(name) {
            return Ok(Some(node.clone()));
        }
        let hits: Vec<&Commit> =
            self.commits.iter().filter(|c| is_hex(name) && c.node.starts_with(name)).collect();
        match hits.len() {
            0 => Err(format!("abort: unknown revision '{name}'!\n")),
            1 => Ok(Some(hits[0].node.clone())),
            _ => Err(format!("abort: 00changelog.i@{name}: ambiguous identifier!\n")),
        }
    }

    fn live(&self, node: &str) -> String {
        let mut at = node.to_string();
        while let Some(next) = self.commit(&at).and_then(|c| c.successor.clone()) {
            at = next;
        }
        at
    }

    /// The nodes of one of the revsets that the backend writes.
    fn revset(&self, revset: &str) -> Result<Vec<String>, String> {
        let between = |s: &str, a: &str, b: &str| -> Option<String> {
            s.strip_prefix(a).and_then(|s| s.strip_suffix(b)).map(str::to_string)
        };
        if revset == "sort((draft() & ::successors(.)):: - obsolete(), -rev)" {
            let roots: Vec<String> = self
                .ancestors_of(&self.live(&self.parent()))
                .into_iter()
                .filter(|n| !self.commit(n).unwrap().public)
                .collect();
            return Ok(self
                .commits
                .iter()
                .rev()
                .filter(|c| c.successor.is_none() && !c.public)
                .filter(|c| self.ancestors_of(&c.node).iter().any(|n| roots.contains(n)))
                .map(|c| c.node.clone())
                .collect());
        }
        if let Some(inner) = between(revset, "ancestor(", ")") {
            let (a, b) = inner.split_once(", ").unwrap();
            let mine = self.ancestors_of(b);
            return Ok(self.ancestors_of(a).into_iter().filter(|n| mine.contains(n)).take(1).collect());
        }
        let inner = between(revset, "limit(", ", 1)").expect("every probe is bounded");
        if inner == "last(public() & ::.)" {
            return Ok(self
                .ancestors_of(&self.parent())
                .into_iter()
                .filter(|n| self.commit(n).unwrap().public)
                .take(1)
                .collect());
        }
        if let Some(node) = between(&inner, "last(successors(id(", ")) - obsolete())") {
            return self.resolve(&node).map(|n| n.map(|n| self.live(&n)).into_iter().collect());
        }
        if let Some(node) = between(&inner, "id(", ")^") {
            let up = self.commit(&node).unwrap().parent.clone();
            return Ok(vec![up.unwrap_or_else(|| "0".repeat(40))]);
        }
        if let Some(node) = between(&inner, "id(", ")") {
            return self.resolve(&node).map(|n| n.into_iter().collect());
        }
        if inner.contains(' ') {
            return Err("abort: parse error at 3: invalid token\n".to_string());
        }
        // A bare number is a local revision number.
        if let Ok(n) = inner.parse::<usize>() {
            return Ok(self.commits.get(n).map(|c| c.node.clone()).into_iter().collect());
        }
        self.resolve(&inner).map(|n| n.into_iter().collect())
    }

    fn log(&self, revset: &str, template: &str) -> (i32, String, String) {
        match self.revset(revset) {
            Err(e) => (255, String::new(), e),
            Ok(nodes) => {
                let mut out = String::new();
                for n in nodes {
                    let desc = self.commit(&n).map(|c| c.desc.clone()).unwrap_or_default();
                    let line = desc.lines().next().unwrap_or("").to_string();
                    let text = template
                        .replace("{node|short}", &n[..12])
                        .replace("{node}", &n)
                        .replace("{phabdiff}", "")
                        .replace("{desc|firstline}", &line);
                    out.push_str(&text);
                }
                (0, out, String::new())
            }
        }
    }

    fn run(&mut self, cwd: &str, args: &[String]) -> Run {
        self.commands.push(args.to_vec());
        if self.broken {
            return Run::Failed("No such file or directory (os error 2)".to_string());
        }
        if let Some((command, code, stderr)) = &self.failing {
            if *command == args[0] {
                return Run::Ended(Exit {
                    code: Some(*code),
                    stdout: Vec::new(),
                    stderr: stderr.clone().into_bytes(),
                });
            }
        }
        let (code, out, err): (i32, Vec<u8>, String) = match args[0].as_str() {
            "root" => {
                if cwd == ROOT || cwd.starts_with(&format!("{ROOT}/")) {
                    (0, format!("{ROOT}\n").into_bytes(), String::new())
                } else {
                    (255, Vec::new(), "abort: no repository found\n".to_string())
                }
            }
            "whereami" => (0, format!("{}\n", self.parent()).into_bytes(), String::new()),
            "status" => {
                assert_eq!(&args[..4], ["status", "-mardu", "-C", "-Tjson"]);
                let revs: Vec<String> = args[4..]
                    .chunks(2)
                    .map(|c| {
                        assert_eq!(c[0], "--rev");
                        c[1].clone()
                    })
                    .collect();
                (0, self.status_json(&revs).into_bytes(), String::new())
            }
            "diff" => {
                // The flag is under test: `sl` aborts on one it does not know.
                assert_eq!(&args[..3], ["diff", "--git", "--no-binary"]);
                let revs: Vec<String> = args[3..]
                    .chunks(2)
                    .map(|c| {
                        assert_eq!(c[0], "-r");
                        c[1].clone()
                    })
                    .collect();
                (0, self.diff(&revs).into_bytes(), String::new())
            }
            "log" => {
                let (code, out, err) = self.log(&args[2], &args[4]);
                (code, out.into_bytes(), err)
            }
            "cat" => {
                self.reads += 1;
                match self.commit(&args[2]).and_then(|c| c.files.get(&args[4])) {
                    Some(bytes) => (0, bytes.clone(), String::new()),
                    None => (1, Vec::new(), "no such file in rev\n".to_string()),
                }
            }
            "bookmarks" => {
                let mut out = String::new();
                for name in self.bookmarks.keys() {
                    out.push_str(&args[2].replace("{bookmark}", name));
                }
                (0, out.into_bytes(), String::new())
            }
            other => panic!("unexpected command {other}"),
        };
        Run::Ended(Exit { code: Some(code), stdout: out, stderr: err.into_bytes() })
    }

    // --- what the file system answers ---

    fn perform(&mut self, ops: &[DiskOp]) -> Result<(), IoFail> {
        for (at, op) in ops.iter().enumerate() {
            if self.disk_fails_at == Some(at) {
                return Err(IoFail { at, missing: false, message: "disk full".to_string() });
            }
            self.clock += 1;
            match op {
                DiskOp::CreateDirs(_) => {}
                DiskOp::Write(p, b) => {
                    self.disk.insert(p.clone(), b.clone());
                    self.disk_times.insert(p.clone(), self.clock);
                }
                DiskOp::Rename(a, b) => {
                    let bytes = self.disk.remove(a).unwrap();
                    self.disk.insert(b.clone(), bytes);
                    self.disk_times.insert(b.clone(), self.clock);
                }
                DiskOp::Remove(p) => {
                    if self.disk.remove(p).is_none() {
                        let message = "No such file or directory".to_string();
                        return Err(IoFail { at, missing: true, message });
                    }
                }
            }
        }
        Ok(())
    }

    fn names_in(&self, dir: &str) -> Vec<String> {
        let head = format!("{dir}/");
        self.disk.keys().filter_map(|p| p.strip_prefix(&head)).map(str::to_string).collect()
    }

    fn answer(&mut self, q: &Query) -> Reply {
        let w = &q.words;
        assert!(q.ops.is_empty() || [Topic::Disk, Topic::Sweep].contains(&q.topic));
        let rel = |p: &str| p.strip_prefix("/work/repo/").unwrap().to_string();
        match q.topic {
            Topic::Run => Reply::Run(self.run(&w[0], &w[1..])),
            Topic::ParseStatus => Reply::Status(parse_status(&w[0])),
            Topic::Cat => {
                let mut cache = cat_cache();
                std::mem::swap(&mut cache, &mut self.contents);
                let r = drive(self, |a| content::answer_content(q, &mut cache, a));
                std::mem::swap(&mut cache, &mut self.contents);
                r
            }
            Topic::MergeBase => {
                let mut cache = ancestor_cache();
                std::mem::swap(&mut cache, &mut self.ancestors);
                let r = drive(self, |a| content::answer_ancestor(q, &mut cache, a));
                std::mem::swap(&mut cache, &mut self.ancestors);
                r
            }
            Topic::File => {
                self.reads += 1;
                Reply::Bytes(self.worktree.get(&rel(&w[0])).cloned())
            }
            Topic::Stat => {
                let path = rel(&w[0]);
                Reply::Stat(self.worktree.get(&path).map(|b| Stat {
                    mtime: self.mtimes.get(&path).map(|t| Mtime { secs: *t, nanos: 0 }),
                    len: b.len() as u64,
                }))
            }
            Topic::Exists => Reply::Flag(w[0] == "/work/repo/.sl"),
            Topic::IsDir => Reply::Flag(
                w[0] == "/work" || w[0] == ROOT || {
                    let head = format!("{}/", w[0]);
                    self.worktree.keys().any(|p| format!("{ROOT}/{p}").starts_with(&head))
                },
            ),
            Topic::StoreText => Reply::StoreText(match self.disk.get(&w[0]) {
                None => StoreText::Missing,
                Some(b) => match String::from_utf8(b.clone()) {
                    Ok(t) => StoreText::Text(t),
                    Err(_) => StoreText::Failed("stream did not contain valid UTF-8".to_string()),
                },
            }),
            Topic::StoreManifest => {
                Reply::Manifest(self.disk.get(&w[0]).and_then(|b| parse_manifest(b)))
            }
            Topic::StoreBytes => Reply::Bytes(self.disk.get(&w[0]).cloned()),
            Topic::Snaps => Reply::Snaps(
                self.names_in(&w[0])
                    .into_iter()
                    .map(|name| {
                        let secs = self.disk_times[&format!("{}/{name}", w[0])];
                        SnapFile { name, modified: Mtime { secs, nanos: 0 } }
                    })
                    .collect(),
            ),
            Topic::Kept => Reply::Kept(
                self.names_in(&w[0])
                    .iter()
                    .filter_map(|n| parse_manifest(&self.disk[&format!("{}/{n}", w[0])]))
                    .collect(),
            ),
            Topic::Blobs => Reply::Blobs(self.names_in(&w[0])),
            Topic::Disk => Reply::Disk(self.perform(&q.ops)),
            Topic::Sweep => {
                for op in &q.ops {
                    match op {
                        DiskOp::Remove(p) => self.disk.remove(p),
                        other => panic!("a sweep only removes: {other:?}"),
                    };
                }
                Reply::Swept
            }
            Topic::GitRoot => Reply::Root(Worktree::Outside),
            other => panic!("a Sapling worktree asks nothing of git: {other:?}"),
        }
    }

    // --- the operations, driven to their end ---

    fn changed(&mut self, scope: Scope, base: Option<&str>, tip: Option<&str>) -> Vec<ChangedFile> {
        self.try_changed(scope, base, tip).unwrap()
    }

    fn try_changed(
        &mut self,
        scope: Scope,
        base: Option<&str>,
        tip: Option<&str>,
    ) -> Result<Vec<ChangedFile>, GitFail> {
        drive(self, |a| vcs::changed_files(VcsKind::Sapling, ROOT, scope, base, tip, a))
    }

    fn resolve_base(&mut self, flag: Option<&str>) -> vcs::BranchEnds {
        drive(self, |a| vcs::resolve_base(VcsKind::Sapling, ROOT, flag, &places(), a)).unwrap()
    }

    fn pick(&mut self, name: &str) {
        drive(self, |a| vcs::write_base_pick(VcsKind::Sapling, ROOT, name, &places(), a)).unwrap()
    }

    fn content(&mut self, rev: &str, path: &str) -> String {
        drive(self, |a| vcs::file_content(VcsKind::Sapling, ROOT, rev, path, &places(), a))
    }

    fn stack(&mut self) -> Vec<base::StackCommit> {
        drive(self, |a| vcs::list_stack(VcsKind::Sapling, ROOT, a)).unwrap()
    }

    fn against(&mut self, id: &str) -> Result<Vec<ChangedFile>, GitFail> {
        drive(self, |a| {
            assert!(last_turn::is_diffable(ROOT, id, &places(), a));
            vcs::changed_against_tree(VcsKind::Sapling, ROOT, id, &places(), a)
        })
    }

    fn snapshot(&mut self, turn: &mut TurnStore) -> String {
        drive(self, |a| turn.snapshot(a)).unwrap()
    }
}

fn drive<T>(world: &mut World, mut op: impl FnMut(&Answers) -> Step<T>) -> T {
    let mut answers = Answers::new();
    for _ in 0..50 {
        match op(&answers) {
            Step::Done(t) => return t,
            Step::Ask(qs) => {
                assert!(!qs.is_empty(), "a step that is not done asks something");
                for q in qs {
                    let reply = world.answer(&q);
                    answers.add(q.topic, q.words, reply);
                }
            }
        }
    }
    panic!("the operation never ends")
}

fn parse_status(json: &str) -> Option<Vec<StatusEntry>> {
    let value: serde_json::Value = serde_json::from_str(json).ok()?;
    let mut out = Vec::new();
    for row in value.as_array()? {
        out.push(StatusEntry {
            path: row.get("path")?.as_str()?.to_string(),
            status: row.get("status")?.as_str()?.to_string(),
            copy: row.get("copy").and_then(|c| c.as_str()).map(str::to_string),
        });
    }
    Some(out)
}

fn parse_manifest(bytes: &[u8]) -> Option<Manifest> {
    let value: serde_json::Value = serde_json::from_slice(bytes).ok()?;
    let mut m = Manifest::new(value.get("parent")?.as_str()?);
    for (path, hash) in value.get("files")?.as_object()? {
        m.record(path.clone(), hash.as_str().map(str::to_string));
    }
    Some(m)
}

fn by_path<'a>(files: &'a [ChangedFile], p: &str) -> &'a ChangedFile {
    files.iter().find(|f| f.path == p).unwrap_or_else(|| panic!("{p}"))
}

fn paths(files: &[ChangedFile]) -> Vec<&str> {
    files.iter().map(|f| f.path.as_str()).collect()
}

/// Three commits, each adding one file of its own, plus one uncommitted edit.
fn stacked_repo(r: &mut World) {
    for msg in ["first commit", "second commit", "third commit"] {
        r.write(&format!("{}.txt", msg.split(' ').next().unwrap()), "committed\n");
        r.commit_all(msg);
    }
    r.write("dirty.txt", "uncommitted\n");
}

#[test]
fn resolve_repo_finds_the_sl_root_and_kind_from_a_subdir() {
    let mut r = World::new();
    r.write("sub/dir/f.txt", "x\n");
    let (root, kind) = drive(&mut r, |a| vcs::resolve_repo("/work/repo/sub/dir", a));
    assert_eq!(kind, VcsKind::Sapling);
    assert_eq!(root, ROOT);
    assert_eq!(drive(&mut r, |a| vcs::kind_at(&root, a)), VcsKind::Sapling);
    assert!(drive(&mut r, |a| vcs::is_repo(VcsKind::Sapling, &root, a)));
    // A path that no repository holds is a git target; so is one that does not exist.
    let (root, kind) = drive(&mut r, |a| vcs::resolve_repo("/work", a));
    assert_eq!((root.as_str(), kind), ("/work", VcsKind::Git));
    let gone = drive(&mut r, |a| sl::root_of("/nowhere", a));
    assert_eq!(gone, Worktree::Outside);
    // "sl said no" stays apart from "sl could not run".
    r.broken = true;
    let unknown = drive(&mut r, |a| vcs::worktree_of(VcsKind::Sapling, ROOT, a));
    assert_eq!(unknown, Worktree::Unknown);
}

#[test]
fn uncommitted_scope_lists_kinds_and_counts() {
    let mut r = World::new();
    r.write("a.txt", "one\ntwo\n");
    r.write("b.txt", "gone\n");
    r.write("d.txt", "x\ny\nz\n");
    r.commit_all("base");
    r.write("a.txt", "one\ntwo\nthree\n");
    r.sl_rm("b.txt");
    r.write("c.txt", "1\n2\n3\n");
    // A plain `rm` (status `!`, never `sl rm`'d) is how agents delete files.
    r.delete("d.txt");
    let files = r.changed(Scope::Uncommitted, None, None);
    assert_eq!(by_path(&files, "a.txt").kind, ChangeKind::Modified);
    assert_eq!((by_path(&files, "a.txt").additions, by_path(&files, "a.txt").deletions), (1, 0));
    assert_eq!(by_path(&files, "b.txt").kind, ChangeKind::Deleted);
    assert_eq!(by_path(&files, "c.txt").kind, ChangeKind::Untracked);
    assert_eq!(by_path(&files, "c.txt").additions, 3);
    assert_eq!(by_path(&files, "d.txt").kind, ChangeKind::Deleted);
    assert_eq!(
        by_path(&files, "d.txt").deletions,
        3,
        "a plain-rm deletion still counts its old side"
    );
    assert_eq!(files.len(), 4);
    assert_eq!(paths(&files), ["a.txt", "b.txt", "c.txt", "d.txt"], "sorted by path");
    // Every command only read.
    for c in &r.commands {
        assert!(["status", "diff", "whereami", "cat"].contains(&c[0].as_str()), "{c:?}");
    }
}

#[test]
fn a_digit_only_spelling_never_resolves_as_a_local_revision_number() {
    let mut r = World::new();
    r.write("a.txt", "a\n");
    r.commit_all("first");
    r.write("a.txt", "b\n");
    r.commit_all("second");
    // Bare in a revset, `0` is local revision zero: resolving it would let a pasted digit-only
    // prefix pin an arbitrary ancient commit. Any answer must be a hash that starts with it.
    let hit = drive(&mut r, |a| vcs::resolve_spelling(VcsKind::Sapling, ROOT, "0", a)).unwrap();
    if let Some(hit) = hit {
        assert!(hit.oid().starts_with('0'), "digit-only resolved as a revnum: {hit:?}");
    }
    assert_eq!(r.commands.last().unwrap()[2], "limit(id(0), 1)");
    // A real hash prefix still resolves.
    let parent = r.parent();
    let spelling = parent[..12].to_string();
    let hit = drive(&mut r, |a| vcs::resolve_spelling(VcsKind::Sapling, ROOT, &spelling, a));
    assert_eq!(hit.unwrap().expect("a unique prefix resolves").oid(), parent);
}

#[test]
fn a_rename_carries_its_previous_path() {
    let mut r = World::new();
    r.write("old.txt", "keep this line\n");
    r.commit_all("base");
    r.sl_mv("old.txt", "new.txt");
    let files = r.changed(Scope::Uncommitted, None, None);
    let renamed = files.iter().find(|f| f.path == "new.txt").expect("the rename lists");
    assert_eq!(renamed.kind, ChangeKind::Renamed);
    assert_eq!(renamed.previous_path.as_deref(), Some("old.txt"));
    // The move's `R old.txt` record folds into the rename, matching git's single row.
    assert_eq!(files.len(), 1, "{files:?}");
}

#[test]
fn a_copy_reviews_as_an_added_file_because_its_source_stays() {
    let mut r = World::new();
    r.write("orig.txt", "one\ntwo\n");
    r.commit_all("base");
    r.sl_cp("orig.txt", "copy.txt");
    r.write("copy.txt", "one\ntwo\nthree\n");
    let files = r.changed(Scope::Uncommitted, None, None);
    assert_eq!(files.len(), 1, "orig.txt is untouched, so only the copy lists: {files:?}");
    let copy = &files[0];
    assert_eq!(copy.path, "copy.txt");
    assert_eq!(
        copy.kind,
        ChangeKind::Added,
        "naming a live file as the source would read as a move"
    );
    assert_eq!(copy.previous_path, None);
    // `sl diff` measures the copy against its source, +1. The whole new file is the addition.
    assert_eq!((copy.additions, copy.deletions), (3, 0));
}

#[test]
fn branch_scope_diffs_committed_and_dirty_work_against_a_flag_base() {
    let mut r = World::new();
    r.write("a.txt", "a\n");
    r.write("b.txt", "b\n");
    r.commit_all("base");
    let base = r.parent();
    r.write("a.txt", "a\nchanged in commit\n");
    r.commit_all("stack commit");
    r.write("b.txt", "b\ndirty edit\n");
    let status = r.resolve_base(Some(&base));
    let winner = status.base.winner.expect("the flag resolves");
    assert_eq!(winner.oid(), base);
    let files = r.changed(Scope::Branch, Some(winner.oid()), None);
    assert_eq!(paths(&files), ["a.txt", "b.txt"], "committed and dirty changes both list");
    assert!(files.iter().all(|f| f.kind == ChangeKind::Modified));
    assert_eq!(files[0].additions, 1);
    // With no base, or with the turn's scope, there is nothing to list.
    assert!(r.changed(Scope::Branch, None, None).is_empty());
    assert!(r.changed(Scope::LastTurn, Some(&base), None).is_empty());
}

#[test]
fn a_repo_with_no_public_commits_has_no_default_base() {
    let mut r = World::new();
    r.write("a.txt", "a\n");
    r.commit_all("draft only");
    let status = r.resolve_base(None);
    assert!(status.base.winner.is_none(), "an empty public() is a no-base state, not an error");
    assert!(status.base.skipped.is_none());
}

#[test]
fn the_public_base_records_its_whole_node() {
    let mut r = World::new();
    r.write("a.txt", "a\n");
    r.commit_all("landed");
    let public = r.parent();
    r.commits[0].public = true;
    r.commit_all("draft");
    let ends = r.resolve_base(None);
    let want = ResolvedBase::Rev { spelling: public.clone(), oid: public.clone() };
    assert_eq!(ends.base.winner, Some(want));
    assert_eq!(ends.tip, None);
    // An empty flag is no flag.
    assert_eq!(r.resolve_base(Some("")), ends);
    let fallback = |r: &mut World, s: &str| {
        drive(r, |a| vcs::base_is_chain_fallback(VcsKind::Sapling, ROOT, s, &places(), a))
    };
    assert!(fallback(&mut r, &public));
    r.pick("main");
    assert!(!fallback(&mut r, "main"));
    assert!(fallback(&mut r, &public));
}

#[test]
fn an_unknown_flag_spelling_is_skipped_never_an_error() {
    let mut r = World::new();
    r.write("a.txt", "a\n");
    r.commit_all("base");
    let status = r.resolve_base(Some("no-such-name"));
    assert!(status.base.winner.is_none());
    assert_eq!(status.base.skipped.as_deref(), Some("no-such-name"));
}

#[test]
fn a_flag_wins_over_a_pick_and_a_pick_over_the_public_base() {
    let mut r = World::new();
    r.write("a.txt", "a\n");
    r.commit_all("landed");
    r.commits[0].public = true;
    r.commit_all("draft");
    let draft = r.parent();
    r.bookmarks.insert("mine".to_string(), draft.clone());
    r.pick("mine");
    let rev = |spelling: &str, oid: &str| {
        Some(ResolvedBase::Rev { spelling: spelling.to_string(), oid: oid.to_string() })
    };
    let public = r.commits[0].node.clone();
    assert_eq!(r.resolve_base(Some(&public)).base.winner, rev(&public, &public));
    let ends = r.resolve_base(Some("gone"));
    assert_eq!(ends.base.winner, rev("mine", &draft));
    assert_eq!(ends.base.skipped.as_deref(), Some("gone"));
    // A pick that went away is skipped by its spelling, behind the flag that was skipped first.
    r.bookmarks.clear();
    let ends = r.resolve_base(None);
    assert_eq!(ends.base.winner, rev(&public, &public));
    assert_eq!(ends.base.skipped.as_deref(), Some("mine"));
    assert_eq!(r.resolve_base(Some("gone")).base.skipped.as_deref(), Some("gone"));
    // A malformed revset and an ambiguous prefix are misses too.
    assert_eq!(r.resolve_base(Some("a b")).base.skipped.as_deref(), Some("a b"));
    // An option is never handed to `sl`.
    let before = r.commands.len();
    assert_eq!(r.resolve_base(Some("-rf")).base.skipped.as_deref(), Some("-rf"));
    assert!(r.commands[before..].iter().all(|c| !c.contains(&"-rf".to_string())));
}

#[test]
fn an_ambiguous_prefix_is_skipped_and_a_broken_repository_is_not() {
    let mut r = World::new();
    r.write("a.txt", "a\n");
    r.commit_all("base");
    r.failing = Some((
        "log".to_string(),
        255,
        "abort: 00changelog.i@abcd: ambiguous identifier!\n".to_string(),
    ));
    let ends = r.resolve_base(Some("abcd"));
    assert_eq!(ends.base.skipped.as_deref(), Some("abcd"));
    r.failing = Some(("log".to_string(), 255, " abort: repository is locked \n".to_string()));
    let e = drive(&mut r, |a| {
        vcs::resolve_base(VcsKind::Sapling, ROOT, Some("abcd"), &places(), a)
    });
    assert_eq!(
        e,
        Err(GitFail(
            "sl [\"log\", \"-r\", \"limit(id(abcd), 1)\", \"-T\", \"{node}\"]: \
             abort: repository is locked"
                .to_string()
        ))
    );
    r.broken = true;
    let e = drive(&mut r, |a| vcs::resolve_spelling(VcsKind::Sapling, ROOT, "main", a));
    assert_eq!(
        e,
        Err(GitFail(
            "sl [\"log\", \"-r\", \"limit(main, 1)\", \"-T\", \"{node}\"]: \
             No such file or directory (os error 2)"
                .to_string()
        ))
    );
}

#[test]
fn a_dormant_pick_names_its_node_abbreviated() {
    let mut r = World::new();
    r.write("a.txt", "a\n");
    r.commit_all("base");
    // A pick records all 40 hex digits, so the whole node would fill the header.
    let gone = "0123456789abcdef0123456789abcdef01234567";
    r.pick(&format!("{gone}^..{gone}"));
    let ends = r.resolve_base(None);
    assert_eq!(ends.base.skipped.as_deref(), Some(&gone[..7]));
    assert_eq!(ends.tip, None);
}

#[test]
fn file_content_reads_at_a_rev_and_absence_is_empty() {
    let mut r = World::new();
    r.write("a.txt", "committed content\n");
    r.commit_all("base");
    let rev = r.parent();
    r.write("a.txt", "worktree content\n");
    assert_eq!(r.content(&rev, "a.txt"), "committed content\n");
    assert_eq!(r.content(&rev, "nope.txt"), "");
    // The `uncommitted` old side pins `.` to the parent before reading.
    assert_eq!(r.content(vcs::uncommitted_base(VcsKind::Sapling), "a.txt"), "committed content\n");
    // A content that was read is read once, and so is an absence.
    let reads = r.reads;
    assert_eq!(r.content(&rev, "a.txt"), "committed content\n");
    assert_eq!(r.content(".", "nope.txt"), "");
    assert_eq!(r.reads, reads);
    assert!(vcs::content_is_cached(VcsKind::Sapling, &rev, "a.txt", &r.contents));
    assert!(!vcs::content_is_cached(VcsKind::Git, &rev, "a.txt", &r.contents));
    assert!(!vcs::content_is_cached(VcsKind::Sapling, ".", "a.txt", &r.contents));
}

#[test]
fn a_warm_read_lands_in_the_cache() {
    let mut r = World::new();
    r.write("a.txt", "one\n");
    r.write("b.txt", "two\n");
    r.commit_all("base");
    let rev = r.parent();
    assert!(!vcs::content_is_cached(VcsKind::Sapling, &rev, "a.txt", &r.contents));
    drive(&mut r, |a| vcs::warm_content(VcsKind::Sapling, ROOT, ".", "a.txt", &places(), a));
    assert!(vcs::content_is_cached(VcsKind::Sapling, &rev, "a.txt", &r.contents));
    drive(&mut r, |a| vcs::preload_content(VcsKind::Sapling, ROOT, &rev, "b.txt", &places(), a));
    assert!(vcs::content_is_cached(VcsKind::Sapling, &rev, "b.txt", &r.contents));
    assert!(!vcs::content_is_cached(VcsKind::Git, &rev, "b.txt", &r.contents));
    // A file that is absent there is cached as absent.
    drive(&mut r, |a| vcs::preload_content(VcsKind::Sapling, ROOT, &rev, "none", &places(), a));
    assert!(vcs::content_is_cached(VcsKind::Sapling, &rev, "none", &r.contents));
    // git warms nothing, and asks nothing.
    drive(&mut r, |a| vcs::warm_content(VcsKind::Git, ROOT, &rev, "a.txt", &places(), a));
    drive(&mut r, |a| vcs::preload_content(VcsKind::Git, ROOT, &rev, "a.txt", &places(), a));
}

#[test]
fn a_failed_read_is_not_cached() {
    let mut r = World::new();
    r.write("a.txt", "one\n");
    r.commit_all("base");
    let rev = r.parent();
    r.failing = Some(("cat".to_string(), 255, "abort: locked\n".to_string()));
    assert_eq!(r.content(&rev, "a.txt"), "");
    let mut cache = cat_cache();
    let e = drive(&mut r, |a| content::cat_cached(ROOT, &rev, "a.txt", &mut cache, a));
    assert_eq!(
        e,
        Err(GitFail(format!(
            "sl [\"cat\", \"-r\", \"{rev}\", \"--\", \"a.txt\"] failed: abort: locked"
        )))
    );
    r.failing = None;
    assert_eq!(r.content(&rev, "a.txt"), "one\n");
}

#[test]
fn a_turn_snapshot_promotes_and_diffs_against_the_store() {
    let mut r = World::new();
    r.write("a.txt", "one\n");
    r.write("clean.txt", "clean\n");
    r.commit_all("base");
    // The turn starts with a.txt already dirty: its bytes at the turn start are the baseline
    // side, stored as a blob.
    r.write("a.txt", "one\ntwo\n");
    let mut turn = TurnStore::open(ROOT.to_string(), &places());
    let candidate = r.snapshot(&mut turn);
    turn.pin_candidate(&candidate);
    // The turn edits a dirty file and a clean one; the divergence check promotes.
    r.write("a.txt", "one\ntwo\nthree\n");
    r.write("clean.txt", "clean\nedited\n");
    let now = r.snapshot(&mut turn);
    assert_ne!(now, candidate, "the digest moves with the worktree");
    drive(&mut r, |a| turn.persist_baseline(&candidate, a)).unwrap();
    assert_eq!(drive(&mut r, |a| turn.read_baseline(a)), Some(candidate.clone()));
    // The last-turn changeset: both edits, counted against the snapshot bytes.
    let files = r.against(&candidate).unwrap();
    assert_eq!(files.len(), 2);
    assert_eq!(by_path(&files, "a.txt").kind, ChangeKind::Modified);
    assert_eq!((by_path(&files, "a.txt").additions, by_path(&files, "a.txt").deletions), (1, 0));
    assert_eq!(by_path(&files, "clean.txt").kind, ChangeKind::Modified);
    // Old sides: the dirty file reads its stored blob, the clean file reads the parent.
    assert_eq!(r.content(&candidate, "a.txt"), "one\ntwo\n");
    assert_eq!(r.content(&candidate, "clean.txt"), "clean\n");
    // A restart seeds the persisted baseline back.
    let seeded = drive(&mut r, |a| vcs::seed_baseline(VcsKind::Sapling, ROOT, &places(), a));
    assert_eq!(seeded, Some(candidate));
    // Nothing was written inside the repository.
    assert!(r.disk.keys().all(|p| p.starts_with("/state/herdr-reviewr/sl/")));
}

#[test]
fn last_turn_diffs_a_sapling_worktree_against_the_snapshot_baseline() {
    let mut r = World::new();
    r.write("a.txt", "one\n");
    r.commit_all("base");
    let mut turn = TurnStore::open(ROOT.to_string(), &places());
    assert_eq!(drive(&mut r, |a| turn.read_baseline(a)), None, "no baseline until a turn");
    let baseline = r.snapshot(&mut turn);
    turn.pin_candidate(&baseline);
    // The turn edits a known file, adds an untracked one, and commits a third change.
    r.write("a.txt", "one\ntwo\n");
    r.write("new.txt", "fresh\n");
    r.write("committed.txt", "landed mid-turn\n");
    r.commit_all("a commit made during the turn");
    r.snapshot(&mut turn);
    drive(&mut r, |a| turn.persist_baseline(&baseline, a)).unwrap();
    let files = r.against(&baseline).unwrap();
    assert_eq!(
        paths(&files),
        ["a.txt", "committed.txt", "new.txt"],
        "a commit made during the turn stays in the turn's diff"
    );
    let a = by_path(&files, "a.txt");
    assert_eq!((a.kind, a.additions), (ChangeKind::Modified, 1));
    // The baseline side is the turn's start, not the working-copy parent the commit moved.
    assert_eq!(r.content(&baseline, "a.txt"), "one\n");
}

#[test]
fn the_last_turn_lists_a_dirty_file_exactly_where_it_differs() {
    let mut r = World::new();
    for f in ["back.txt", "edited.txt", "gone.txt", "left.txt"] {
        r.write(f, "base\n");
    }
    r.commit_all("base");
    r.write("edited.txt", "base\ndirty\n");
    r.write("left.txt", "base\ndirty\n");
    r.write("added.txt", "1\n2\n");
    r.delete("back.txt");
    r.delete("gone.txt");
    let mut turn = TurnStore::open(ROOT.to_string(), &places());
    let id = r.snapshot(&mut turn);
    drive(&mut r, |a| turn.persist_baseline(&id, a)).unwrap();
    // Nothing moved: nothing lists.
    assert_eq!(r.against(&id).unwrap(), Vec::<ChangedFile>::new());
    r.write("edited.txt", "base\ndirty\nmore\n");
    r.write("back.txt", "it is back\n");
    r.delete("added.txt");
    // An untracked file, from a clean start.
    r.write("note.txt", "untracked\n");
    let files = r.against(&id).unwrap();
    assert_eq!(paths(&files), ["added.txt", "back.txt", "edited.txt", "note.txt"]);
    let row = |p: &str| {
        let f = by_path(&files, p);
        (f.kind, f.additions, f.deletions)
    };
    assert_eq!(row("added.txt"), (ChangeKind::Deleted, 0, 2));
    assert_eq!(row("back.txt"), (ChangeKind::Added, 1, 0));
    assert_eq!(row("edited.txt"), (ChangeKind::Modified, 1, 0));
    assert_eq!(row("note.txt"), (ChangeKind::Added, 1, 0), "the baseline has no untracked files");
    assert_eq!(r.content(&id, "gone.txt"), "", "a file that was absent reads as empty");
}

#[test]
fn the_last_turn_counts_a_plain_deletion_and_folds_a_move() {
    let mut r = World::new();
    r.write("old.txt", "same\n");
    r.write("lost.txt", "1\n2\n3\n");
    r.commit_all("base");
    let mut turn = TurnStore::open(ROOT.to_string(), &places());
    let id = r.snapshot(&mut turn);
    drive(&mut r, |a| turn.persist_baseline(&id, a)).unwrap();
    r.sl_mv("old.txt", "new.txt");
    r.delete("lost.txt");
    let files = r.against(&id).unwrap();
    assert_eq!(paths(&files), ["lost.txt", "new.txt"]);
    assert_eq!((files[0].kind, files[0].deletions), (ChangeKind::Deleted, 3));
    assert_eq!(files[1].kind, ChangeKind::Renamed);
    assert_eq!(files[1].previous_path.as_deref(), Some("old.txt"));
}

#[test]
fn the_last_turn_lists_a_copy_under_its_source() {
    let mut r = World::new();
    r.write("orig.txt", "one\ntwo\n");
    r.commit_all("base");
    let mut turn = TurnStore::open(ROOT.to_string(), &places());
    let id = r.snapshot(&mut turn);
    drive(&mut r, |a| turn.persist_baseline(&id, a)).unwrap();
    r.sl_cp("orig.txt", "copy.txt");
    r.write("copy.txt", "one\ntwo\nthree\n");
    let files = r.against(&id).unwrap();
    assert_eq!(paths(&files), ["copy.txt"]);
    assert_eq!(files[0].kind, ChangeKind::Renamed);
    assert_eq!(files[0].previous_path.as_deref(), Some("orig.txt"));
    assert_eq!((files[0].additions, files[0].deletions), (1, 0), "counted against its source");
}

#[test]
fn an_id_follows_the_parent_the_dirty_set_and_the_contents() {
    let mut r = World::new();
    r.write("a.txt", "one\n");
    r.write("b.txt", "two\n");
    r.commit_all("base");
    let base = r.parent();
    let mut turn = TurnStore::open(ROOT.to_string(), &places());
    let clean = r.snapshot(&mut turn);
    r.write("a.txt", "dirty\n");
    let dirty = r.snapshot(&mut turn);
    assert_ne!(dirty, clean, "another dirty set");
    turn.pin_candidate(&dirty);
    r.write("a.txt", "other\n");
    let other = r.snapshot(&mut turn);
    assert_ne!(other, dirty, "another content");
    r.delete("a.txt");
    let absent = r.snapshot(&mut turn);
    assert!(![&clean, &dirty, &other].contains(&&absent), "an absence is no content");
    r.write("a.txt", "dirty\n");
    assert_eq!(r.snapshot(&mut turn), dirty, "the same worktree again");
    let mut fresh = TurnStore::open(ROOT.to_string(), &places());
    assert_eq!(r.snapshot(&mut fresh), dirty, "in another host too");
    r.write("a.txt", "one\n");
    assert_eq!(r.snapshot(&mut turn), clean);
    r.write("b.txt", "landed\n");
    r.commit_all("next");
    r.write("a.txt", "dirty\n");
    let moved = r.snapshot(&mut turn);
    assert_ne!(r.parent(), base);
    assert_ne!(moved, dirty, "another parent");
    // Snapshots alone persisted nothing, and the pinned one still promotes as it was.
    assert_eq!(drive(&mut r, |a| turn.read_baseline(a)), None);
    drive(&mut r, |a| turn.persist_baseline(&dirty, a)).unwrap();
    let reopened = TurnStore::open(ROOT.to_string(), &places());
    assert_eq!(drive(&mut r, |a| reopened.read_baseline(a)), Some(dirty.clone()));
    assert_eq!(r.content(&dirty, "a.txt"), "dirty\n");
    assert_eq!(r.content(&dirty, "b.txt"), "two\n");
}

#[test]
fn a_missing_baseline_and_a_missing_blob_are_errors() {
    let mut r = World::new();
    r.write("a.txt", "one\n");
    r.commit_all("base");
    let id = format!("snap:{}", "ab".repeat(32));
    assert_eq!(
        r.against(&id),
        Err(GitFail(format!("turn baseline {id} is missing from the snapshot store")))
    );
    assert_eq!(
        r.against("snap:not-hex"),
        Err(GitFail("turn baseline snap:not-hex is missing from the snapshot store".to_string()))
    );
    assert_eq!(r.content(&id, "a.txt"), "");
    r.write("a.txt", "two\n");
    let mut turn = TurnStore::open(ROOT.to_string(), &places());
    let id = r.snapshot(&mut turn);
    drive(&mut r, |a| turn.persist_baseline(&id, a)).unwrap();
    r.disk.retain(|p, _| !p.contains("/blobs/"));
    assert_eq!(r.against(&id), Err(GitFail("baseline blob for a.txt is missing".to_string())));
    assert_eq!(r.content(&id, "a.txt"), "");
}

#[test]
fn a_snapshot_reads_a_file_again_only_when_its_stat_moves() {
    let mut r = World::new();
    r.write("a.txt", "one\n");
    r.commit_all("base");
    r.write("a.txt", "two\n");
    r.write("b.txt", "new\n");
    let mut turn = TurnStore::open(ROOT.to_string(), &places());
    let first = r.snapshot(&mut turn);
    let reads = r.reads;
    assert_eq!(reads, 2);
    assert_eq!(r.snapshot(&mut turn), first);
    assert_eq!(r.reads, reads, "an unmoved stat skips the read");
    r.write("b.txt", "newer\n");
    let second = r.snapshot(&mut turn);
    assert_ne!(second, first);
    assert_eq!(r.reads, reads + 1);
    // Back to the bytes it had, back to the id it had.
    r.write("b.txt", "new\n");
    assert_eq!(r.snapshot(&mut turn), first);
}

#[test]
fn a_candidate_outlives_later_snapshots_and_a_failed_persist() {
    let mut r = World::new();
    r.write("a.txt", "one\n");
    r.commit_all("base");
    r.write("a.txt", "turn start\n");
    let mut turn = TurnStore::open(ROOT.to_string(), &places());
    let candidate = r.snapshot(&mut turn);
    turn.pin_candidate("snap:other");
    turn.pin_candidate(&candidate);
    r.write("a.txt", "mid turn\n");
    let later = r.snapshot(&mut turn);
    r.disk_fails_at = Some(3);
    let e = drive(&mut r, |a| turn.persist_baseline(&candidate, a));
    assert_eq!(e, Err(GitFail("writing a baseline blob".to_string())));
    assert_eq!(drive(&mut r, |a| turn.read_baseline(a)), None);
    r.disk_fails_at = None;
    drive(&mut r, |a| turn.persist_baseline(&candidate, a)).unwrap();
    assert_eq!(r.content(&candidate, "a.txt"), "turn start\n");
    // The candidate was given up with its promotion; the latest snapshot still stands.
    let missing = GitFail("no pending snapshot matches the promoted baseline".to_string());
    assert_eq!(drive(&mut r, |a| turn.persist_baseline(&candidate, a)), Err(missing.clone()));
    drive(&mut r, |a| turn.persist_baseline(&later, a)).unwrap();
    assert_eq!(drive(&mut r, |a| turn.persist_baseline(&later, a)), Err(missing));
    assert_eq!(drive(&mut r, |a| turn.read_baseline(a)), Some(later));
}

#[test]
fn a_crash_anywhere_in_a_persist_leaves_a_live_baseline() {
    for stop in 0..14 {
        let mut r = World::new();
        r.write("a.txt", "one\n");
        r.commit_all("base");
        r.write("a.txt", "first\n");
        let mut turn = TurnStore::open(ROOT.to_string(), &places());
        let first = r.snapshot(&mut turn);
        drive(&mut r, |a| turn.persist_baseline(&first, a)).unwrap();
        r.write("a.txt", "second\n");
        r.write("b.txt", "more\n");
        let second = r.snapshot(&mut turn);
        r.disk_fails_at = Some(stop);
        let e = drive(&mut r, |a| turn.persist_baseline(&second, a));
        let context = match stop {
            0 => "creating the blob dir",
            1 => "creating the manifest dir",
            2..=7 => "writing a baseline blob",
            8..=10 => "writing the baseline manifest",
            _ => "writing the baseline pointer",
        };
        assert_eq!(e, Err(GitFail(context.to_string())), "{stop}");
        r.disk_fails_at = None;
        let live = drive(&mut r, |a| turn.read_baseline(a));
        assert_eq!(live, Some(first.clone()), "the previous baseline stays live at {stop}");
        assert_eq!(r.content(&first, "a.txt"), "first\n");
        // The bytes were kept for the retry.
        drive(&mut r, |a| turn.persist_baseline(&second, a)).unwrap();
        assert_eq!(drive(&mut r, |a| turn.read_baseline(a)), Some(second.clone()));
        assert_eq!(r.content(&second, "b.txt"), "more\n");
        assert_eq!(r.content(&first, "a.txt"), "first\n", "a sibling's baseline still reads");
    }
}

#[test]
fn a_snapshot_needs_a_parent_and_a_status() {
    let mut r = World::new();
    r.write("a.txt", "one\n");
    r.commit_all("base");
    let mut turn = TurnStore::open(ROOT.to_string(), &places());
    r.failing = Some(("whereami".to_string(), 255, String::new()));
    let e = drive(&mut r, |a| turn.snapshot(a));
    assert_eq!(e, Err(GitFail("sl whereami gave no parent".to_string())));
    r.failing = Some(("status".to_string(), 255, "abort: \u{fffd} locked\n".to_string()));
    let e = drive(&mut r, |a| turn.snapshot(a));
    assert_eq!(
        e,
        Err(GitFail(
            "sl [\"status\", \"-mardu\", \"-C\", \"-Tjson\"] failed: abort: \u{fffd} locked"
                .to_string()
        ))
    );
}

#[test]
fn a_failed_command_fails_the_build_whole() {
    let mut r = World::new();
    r.write("a.txt", "one\n");
    r.commit_all("base");
    // A clean worktree needs no diff.
    assert!(r.changed(Scope::Uncommitted, None, None).is_empty());
    assert!(r.commands.iter().all(|c| c[0] != "diff"));
    r.write("a.txt", "two\n");
    r.failing = Some(("diff".to_string(), 1, "  abort: no\n".to_string()));
    assert_eq!(
        r.try_changed(Scope::Uncommitted, None, None),
        Err(GitFail("sl [\"diff\", \"--git\", \"--no-binary\"] failed: abort: no".to_string()))
    );
    r.failing = None;
    r.broken = true;
    assert_eq!(
        r.try_changed(Scope::Uncommitted, None, None),
        Err(GitFail("running sl [\"status\", \"-mardu\", \"-C\", \"-Tjson\"]".to_string()))
    );
    // A status that is no JSON is an error too.
    let args: Vec<String> =
        ["status", "-mardu", "-C", "-Tjson"].iter().map(|s| s.to_string()).collect();
    let mut answers = Answers::new();
    let mut words = vec![ROOT.to_string()];
    words.extend(args);
    let exit = Exit { code: Some(0), stdout: b"not json".to_vec(), stderr: Vec::new() };
    answers.add(Topic::Run, words, Reply::Run(Run::Ended(exit)));
    answers.add(Topic::ParseStatus, vec!["not json".to_string()], Reply::Status(None));
    let step = sl::changed_files(ROOT, Scope::Uncommitted, None, None, &answers);
    assert_eq!(step, Step::Done(Err(GitFail("parsing sl status -Tjson".to_string()))));
}

#[test]
fn a_commit_pick_reviews_that_commit_against_its_own_parent() {
    let mut r = World::new();
    stacked_repo(&mut r);
    // `.^` is the second commit, so the range under review is `second^ → second`.
    let node = r.commits[1].node.clone();
    let parent = r.commits[0].node.clone();
    r.pick(&format!("{node}^..{node}"));
    let ends = r.resolve_base(None);
    let tip = ends.tip.clone().expect("the pick pins the far end");
    assert_eq!(tip.oid, node);
    assert_eq!(tip.title, "second commit");
    let base = ends.base.winner.clone().unwrap();
    assert_eq!(base.oid(), parent);
    let files = r.changed(Scope::Branch, Some(base.oid()), Some(&tip.oid));
    assert_eq!(
        paths(&files),
        ["second.txt"],
        "one commit's own changes: not the commit above it, not the uncommitted edit"
    );
    // Both sides of an open file read at the ends of that range.
    let revs = drive(&mut r, |a| {
        vcs::read_revs(VcsKind::Sapling, ROOT, Scope::Branch, &ends, None, a)
    });
    assert_eq!(revs, (Some(parent), Some(node)));
    let revs = drive(&mut r, |a| {
        vcs::read_revs(VcsKind::Sapling, ROOT, Scope::Uncommitted, &ends, None, a)
    });
    assert_eq!(revs, (Some(".".to_string()), None));
    let revs = drive(&mut r, |a| {
        vcs::read_revs(VcsKind::Sapling, ROOT, Scope::LastTurn, &ends, Some("snap:1"), a)
    });
    assert_eq!(revs, (Some("snap:1".to_string()), None));
}

#[test]
fn a_commit_pick_follows_the_commit_through_an_amend() {
    let mut r = World::new();
    for msg in ["first commit", "second commit"] {
        r.write(&format!("{}.txt", msg.split(' ').next().unwrap()), "committed\n");
        r.commit_all(msg);
    }
    let node = r.parent();
    let parent = r.commits[0].node.clone();
    r.pick(&format!("{node}^..{node}"));
    // The reviewed commit is where the agent applies its fix, and `amend` replaces its node.
    r.write("second.txt", "committed\namended\n");
    r.write("extra.txt", "the amend added this\n");
    r.amend();
    let amended = r.parent();
    assert_ne!(amended, node, "the amend replaces the node");
    let ends = r.resolve_base(None);
    let tip = ends.tip.expect("the pick follows its successor");
    assert_eq!(tip.oid, amended);
    let base = ends.base.winner.unwrap();
    assert_eq!(base.oid(), parent);
    let files = r.changed(Scope::Branch, Some(base.oid()), Some(&tip.oid));
    assert_eq!(
        paths(&files),
        ["extra.txt", "second.txt"],
        "the amended content is what is under review"
    );
}

#[test]
fn a_pick_on_the_root_commit_is_skipped_for_want_of_a_parent() {
    let mut r = World::new();
    r.write("a.txt", "one\n");
    r.commit_all("the root commit");
    let node = r.parent();
    r.pick(&format!("{node}^..{node}"));
    // A root commit's parent is the null node, so the range has no far end to diff from.
    let ends = r.resolve_base(None);
    assert_eq!(ends.tip, None);
    assert_eq!(ends.base.winner, None, "the repo has no public commit to fall back to");
    assert_eq!(
        ends.base.skipped.as_deref(),
        Some(&node[..7]),
        "the pick reports as skipped, named by its abbreviated node"
    );
}

#[test]
fn the_stack_lists_the_draft_commits_connected_to_the_working_copy() {
    let mut r = World::new();
    stacked_repo(&mut r);
    let stack = r.stack();
    assert_eq!(
        stack.iter().map(|c| c.title.as_str()).collect::<Vec<_>>(),
        ["third commit", "second commit", "first commit"],
        "newest first, the working-copy parent included: it is a commit to review"
    );
    assert!(r.parent().starts_with(&stack[0].node));
    // A git repository offers no stack rows; a recent commit is typed there.
    assert!(drive(&mut r, |a| vcs::list_stack(VcsKind::Git, ROOT, a)).unwrap().is_empty());
    // `sl prev` to amend a lower commit is the review loop; the commits above stay offered.
    let second = r.commits[1].node.clone();
    r.goto(&second);
    let stack = r.stack();
    assert_eq!(
        stack.iter().map(|c| c.title.as_str()).collect::<Vec<_>>(),
        ["third commit", "second commit", "first commit"],
        "the draft descendants of `.` are still commits to review"
    );
}

#[test]
fn the_stack_offers_the_live_successor_of_an_obsolete_working_copy_parent() {
    let mut r = World::new();
    r.write("a.txt", "one\n");
    r.commit_all("first commit");
    r.write("b.txt", "two\n");
    r.commit_all("second commit");
    let stale = r.parent();
    // The amend that leaves the working copy behind. It happens whenever the commit under `.` is
    // rewritten from elsewhere, and `sl` lets one sit on the dead node.
    r.write("b.txt", "two, amended\n");
    r.amend();
    let live = r.parent();
    assert_ne!(live, stale);
    r.goto(&stale);
    assert_eq!(r.parent(), stale, "the working copy is parked on the obsolete commit");
    let stack = r.stack();
    let nodes = stack.iter().map(|c| c.node.as_str()).collect::<Vec<_>>();
    assert!(
        nodes.iter().any(|n| live.starts_with(n)),
        "the row names the commit that replaced the dead one; got {nodes:?}"
    );
    assert!(
        !nodes.iter().any(|n| stale.starts_with(n)),
        "the dead node is never offered as a commit to review; got {nodes:?}"
    );
}

#[test]
fn a_changed_binary_costs_no_payload_and_leaves_its_neighbour_alone() {
    let mut r = World::new();
    let forward: Vec<u8> = (0..=255u8).cycle().take(400_000).collect();
    let backward: Vec<u8> = (0..=255u8).rev().cycle().take(400_000).collect();
    r.write_bytes("img.bin", forward);
    r.write("t.txt", "hello\n");
    r.commit_all("base");
    r.write_bytes("img.bin", backward);
    r.write("t.txt", "hello\nworld\n");
    let files = r.changed(Scope::Uncommitted, None, None);
    assert_eq!(by_path(&files, "img.bin").kind, ChangeKind::Modified);
    let counts = |p: &str| (by_path(&files, p).additions, by_path(&files, p).deletions);
    assert_eq!(counts("img.bin"), (0, 0));
    assert_eq!(counts("t.txt"), (1, 0));
}

#[test]
fn bookmarks_list_by_name_and_their_failure_is_an_error() {
    let mut r = World::new();
    r.write("a.txt", "one\n");
    r.commit_all("base");
    let none: Vec<String> = Vec::new();
    let list = |r: &mut World| drive(r, |a| vcs::list_branches(VcsKind::Sapling, ROOT, None, a));
    assert_eq!(list(&mut r), Ok(none));
    let node = r.parent();
    r.bookmarks.insert("abc".to_string(), node.clone());
    r.bookmarks.insert("main".to_string(), node.clone());
    assert_eq!(list(&mut r), Ok(vec!["abc".to_string(), "main".to_string()]));
    // A three-letter bookmark of hex digits is a name.
    let hit = drive(&mut r, |a| vcs::resolve_spelling(VcsKind::Sapling, ROOT, "abc", a));
    assert_eq!(hit, Ok(Some(ResolvedBase::Rev { spelling: "abc".to_string(), oid: node })));
    r.failing = Some(("bookmarks".to_string(), 255, "abort: no\n".to_string()));
    let want = GitFail("sl [\"bookmarks\", \"-T\", \"{bookmark}\\n\"]: abort: no".to_string());
    assert_eq!(list(&mut r), Err(want));
    r.failing = Some(("log".to_string(), 255, "unknown revision\n".to_string()));
    assert!(drive(&mut r, |a| vcs::list_stack(VcsKind::Sapling, ROOT, a)).is_err());
}

#[test]
fn a_merge_base_is_pinned_cached_and_never_cached_from_a_failure() {
    let mut r = World::new();
    r.write("a.txt", "one\n");
    r.commit_all("trunk");
    let trunk = r.parent();
    r.write("b.txt", "two\n");
    r.commit_all("landed later");
    let base = r.parent();
    r.goto(&trunk);
    r.write("c.txt", "three\n");
    r.commit_all("mine");
    let mine = r.parent();
    let merge = |r: &mut World, c: &mut PinnedCache<String>| {
        drive(r, |a| vcs::merge_base(VcsKind::Sapling, ROOT, &base, c, a))
    };
    let mut cache = ancestor_cache();
    r.failing = Some(("log".to_string(), 255, "abort: locked\n".to_string()));
    assert_eq!(merge(&mut r, &mut cache), None);
    // The caller can tell why.
    let mut answers = Answers::new();
    let mut why = None;
    for _ in 0..3 {
        let step = vcs::merge_base(VcsKind::Sapling, ROOT, &base, &mut cache, &answers);
        why = content::merge_base_failure(ROOT, &base, &cache, &answers);
        if let Step::Ask(qs) = step {
            assert_eq!(why, None);
            for q in qs {
                let reply = r.answer(&q);
                answers.add(q.topic, q.words, reply);
            }
        }
    }
    let revset = format!("ancestor({base}, {mine})");
    let want = format!("sl [\"log\", \"-r\", \"{revset}\", \"-T\", \"{{node}}\"] failed: abort: locked");
    assert_eq!(why, Some(want));
    r.failing = None;
    assert_eq!(merge(&mut r, &mut cache), Some(trunk.clone()));
    assert_eq!(r.commands.last().unwrap()[2], format!("ancestor({base}, {mine})"));
    let before = r.commands.len();
    assert_eq!(merge(&mut r, &mut cache), Some(trunk.clone()));
    assert_eq!(r.commands.len(), before + 1, "only the parent is pinned anew");
    // The branch scope runs from that merge base.
    let files = r.changed(Scope::Branch, Some(&base), None);
    assert_eq!(paths(&files), ["c.txt"]);
    let ends = vcs::BranchEnds {
        base: herdr_reviewr::git::BaseStatus {
            winner: Some(ResolvedBase::Rev { spelling: "b".to_string(), oid: base.clone() }),
            skipped: None,
        },
        tip: None,
    };
    let revs = drive(&mut r, |a| {
        vcs::read_revs(VcsKind::Sapling, ROOT, Scope::Branch, &ends, None, a)
    });
    assert_eq!(revs, (Some(trunk), None));
    // The answer to the range's question is held under the pinned parent.
    let held = r.ancestors.get(&base, &mine).cloned();
    assert_eq!(held, Some(revs.0));
}

#[test]
fn a_merge_in_progress_pins_to_the_first_parent() {
    let mut answers = Answers::new();
    let exit = Exit { code: Some(0), stdout: b" aaaa \nbbbb\n".to_vec(), stderr: Vec::new() };
    answers.add(
        Topic::Run,
        vec![ROOT.to_string(), "whereami".to_string()],
        Reply::Run(Run::Ended(exit)),
    );
    assert_eq!(sl::parent_rev(ROOT, &answers), Step::Done(Some("aaaa".to_string())));
}

#[test]
fn a_pick_is_recorded_read_and_cleared() {
    let mut r = World::new();
    let store = Store::open(ROOT, &places());
    let read = |r: &mut World| drive(r, |a| store.read_base_pick(a));
    assert_eq!(read(&mut r), Ok(None));
    r.pick("remote/main");
    assert_eq!(read(&mut r), Ok(Some(Pick { base: "remote/main".to_string(), tip: None })));
    r.pick("ab12^..ab12");
    let both = Pick { base: "ab12^".to_string(), tip: Some("ab12".to_string()) };
    assert_eq!(read(&mut r), Ok(Some(both)));
    drive(&mut r, |a| vcs::clear_base_pick(VcsKind::Sapling, ROOT, &places(), a)).unwrap();
    assert_eq!(read(&mut r), Ok(None));
    // Nothing to clear is no failure.
    drive(&mut r, |a| vcs::clear_base_pick(VcsKind::Sapling, ROOT, &places(), a)).unwrap();
    r.disk_fails_at = Some(0);
    let e = drive(&mut r, |a| vcs::clear_base_pick(VcsKind::Sapling, ROOT, &places(), a));
    assert_eq!(e, Err(GitFail("clearing the base pick: disk full".to_string())));
    let e = drive(&mut r, |a| {
        vcs::write_base_pick(VcsKind::Sapling, ROOT, "x", &places(), a)
    });
    assert_eq!(e, Err(GitFail("writing the base pick: disk full".to_string())));
    r.disk.insert(store.pick_path(), vec![0xff]);
    let fail = GitFail("reading the base pick: stream did not contain valid UTF-8".to_string());
    assert_eq!(read(&mut r), Err(fail.clone()));
    let e = drive(&mut r, |a| vcs::resolve_base(VcsKind::Sapling, ROOT, None, &places(), a));
    assert_eq!(e, Err(fail));
    // A failed read keeps the row.
    assert!(!drive(&mut r, |a| {
        vcs::base_is_chain_fallback(VcsKind::Sapling, ROOT, "x", &places(), a)
    }));
}

#[test]
fn a_sapling_worktree_lists_no_files_and_has_no_default_branch() {
    let answers = Answers::new();
    assert_eq!(vcs::all_files(VcsKind::Sapling, ROOT, &answers), Step::Done(Ok(Vec::new())));
    let none: Option<String> = None;
    assert_eq!(
        vcs::default_branch_name(VcsKind::Sapling, ROOT, &answers),
        Step::Done(Ok(none))
    );
}

#[test]
fn more_answers_change_no_result() {
    let mut r = World::new();
    r.write("a.txt", "one\n");
    r.commit_all("base");
    r.write("a.txt", "one\ntwo\n");
    let mut answers = Answers::new();
    let op = |a: &Answers| sl::changed_files(ROOT, Scope::Uncommitted, None, None, a);
    let done = loop {
        match op(&answers) {
            Step::Done(files) => break files,
            Step::Ask(qs) => {
                for q in qs {
                    let reply = r.answer(&q);
                    answers.add(q.topic, q.words, reply);
                }
            }
        }
    };
    answers.add(Topic::File, vec!["/work/repo/a.txt".to_string()], Reply::Bytes(None));
    answers.add(Topic::MergeBase, vec![ROOT.to_string(), "x".to_string()], Reply::Rev(None));
    assert_eq!(op(&answers), Step::Done(done));
}
