//! The last turn's changed files: the live worktree against a turn baseline.

use vstd::prelude::*;
use vstd::string::*;

use crate::answers::{self, Answers, Next, Query, Question, Reply, Run, Step, Topic};
use crate::counts;
use crate::disk;
use crate::git::GitFail;
use crate::manifest::{self, Manifest, ManifestView};
use crate::model::{self, ChangeKind, ChangedFile, Entry, FileRow, StatusEntry};
use crate::rows::{self, Build, Pass};
use crate::sl;
use crate::store::{self, Places, Store};
use crate::text;

verus! {

broadcast use vstd::string::group_string_axioms;

/// The row of a file that was dirty at the turn start: how its content differs from what it was.
/// A file that is as it was has none.
pub open spec fn dirty_row(
    path: Seq<char>,
    base: Option<Seq<u8>>,
    current: Option<Seq<u8>>,
) -> Option<FileRow> {
    match (base, current) {
        (None, None) => None,
        (None, Some(c)) => Some(
            FileRow {
                path,
                kind: ChangeKind::Added,
                additions: counts::line_total(c) as u32,
                deletions: 0,
                previous_path: None,
            },
        ),
        (Some(b), None) => Some(
            FileRow {
                path,
                kind: ChangeKind::Deleted,
                additions: 0,
                deletions: counts::line_total(b) as u32,
                previous_path: None,
            },
        ),
        (Some(b), Some(c)) => if b == c {
            None
        } else {
            Some(
                FileRow {
                    path,
                    kind: ChangeKind::Modified,
                    additions: counts::counts_between(b, c).0,
                    deletions: counts::counts_between(b, c).1,
                    previous_path: None,
                },
            )
        },
    }
}

/// One file of a manifest: its path, and the hash of its content where it had one.
pub type Dirty = (Seq<char>, Option<Seq<char>>);

/// Where the files that were dirty at the turn start are read: the worktree and the store.
pub struct Turn {
    pub root: Seq<char>,
    pub dir: Seq<char>,
}

impl Turn {
    /// The baseline content of a file, once read.
    pub open spec fn base(self, file: Dirty, a: Answers) -> Option<Option<Seq<u8>>> {
        match file.1 {
            None => Some(None),
            Some(hash) => match store::blob_step(self.dir, hash, a) {
                Next::Ask(_) => None,
                Next::Done(blob) => Some(blob),
            },
        }
    }

    /// The worktree content of a file, once read.
    pub open spec fn current(self, file: Dirty, a: Answers) -> Option<Option<Seq<u8>>> {
        a.bytes_of(Topic::File, disk::joined(self.root, file.0))
    }

    /// Whether a file's blob is gone from the store.
    pub open spec fn lost(self, file: Dirty, a: Answers) -> bool {
        file.1 is Some && self.base(file, a) == Some(None::<Seq<u8>>)
    }

    /// The questions that a file still needs answered.
    pub open spec fn asks(self, file: Dirty, a: Answers) -> Seq<Question> {
        let blob = match file.1 {
            None => seq![],
            Some(hash) => match store::blob_step(self.dir, hash, a) {
                Next::Ask(q) => q,
                Next::Done(_) => seq![],
            },
        };
        if self.current(file, a) is None {
            blob + answers::one(Topic::File, seq![disk::joined(self.root, file.0)])
        } else {
            blob
        }
    }

    /// The questions that the first `n` files still need answered.
    pub open spec fn all_asks(self, files: Seq<Dirty>, n: nat, a: Answers) -> Seq<Question>
        decreases n,
    {
        if n == 0 {
            seq![]
        } else {
            self.all_asks(files, (n - 1) as nat, a) + self.asks(files[n - 1], a)
        }
    }

    /// The first file of the first `n` whose blob is gone.
    pub open spec fn first_lost(self, files: Seq<Dirty>, n: nat, a: Answers) -> Option<Seq<char>>
        decreases n,
    {
        if n == 0 {
            None
        } else if let Some(path) = self.first_lost(files, (n - 1) as nat, a) {
            Some(path)
        } else if self.lost(files[n - 1], a) {
            Some(files[n - 1].0)
        } else {
            None
        }
    }

    /// The row of a file, where it differs from its baseline.
    pub open spec fn row(self, file: Dirty, a: Answers) -> Option<FileRow> {
        dirty_row(file.0, self.base(file, a)->0, self.current(file, a)->0)
    }

    /// The rows of the first `n` files.
    pub open spec fn rows(self, files: Seq<Dirty>, n: nat, a: Answers) -> Seq<FileRow>
        decreases n,
    {
        if n == 0 {
            seq![]
        } else {
            let done = self.rows(files, (n - 1) as nat, a);
            match self.row(files[n - 1], a) {
                Some(row) => done.push(row),
                None => done,
            }
        }
    }
}

/// Whether a file's two contents, where both are there and differ, have countable lines.
pub open spec fn pair_fits(turn: Turn, file: Dirty, a: Answers) -> bool {
    turn.base(file, a) matches Some(Some(b)) ==> (turn.current(file, a) matches Some(Some(c)) ==> b
        == c || counts::countable(b, c))
}

/// Whether the lines of every changed file that was dirty at the turn start are countable.
pub open spec fn diffable(root: Seq<char>, dir: Seq<char>, id: Seq<char>, a: Answers) -> bool {
    store::load_step(dir, id, a) matches Next::Done(Some(m)) ==> forall|i: int|
        0 <= i < m.files.len() ==> pair_fits(Turn { root, dir }, #[trigger] m.files[i], a)
}

/// The records of the first `n` whose path was clean at the turn start.
pub open spec fn fresh(entries: Seq<Entry>, files: Seq<Dirty>, n: nat) -> Seq<Entry>
    decreases n,
{
    if n == 0 {
        seq![]
    } else {
        let done = fresh(entries, files, (n - 1) as nat);
        let e = entries[n - 1];
        if manifest::recorded(files, e.path) is Some {
            done
        } else {
            done.push(e)
        }
    }
}

/// The changed files between a turn baseline and the worktree: the files that were dirty at the
/// turn start against their stored contents, and every other file that the status pass from the
/// baseline's parent lists.
pub open spec fn turn_step(root: Seq<char>, dir: Seq<char>, id: Seq<char>, a: Answers) -> Next<
    Result<Seq<FileRow>, Seq<char>>,
> {
    match store::load_step(dir, id, a) {
        Next::Ask(q) => Next::Ask(q),
        Next::Done(None) => Next::Done(
            Err("turn baseline "@ + id + " is missing from the snapshot store"@),
        ),
        Next::Done(Some(m)) => match sl::status_step(root, Some(m.parent), None, a) {
            Next::Ask(q) => Next::Ask(q),
            Next::Done(Err(e)) => Next::Done(Err(e)),
            Next::Done(Ok(now)) => {
                let turn = Turn { root, dir };
                let n = m.files.len();
                let asks = turn.all_asks(m.files, n, a);
                let clean = fresh(now, m.files, now.len());
                if asks.len() > 0 {
                    Next::Ask(asks)
                } else if let Some(path) = turn.first_lost(m.files, n, a) {
                    Next::Done(Err("baseline blob for "@ + path + " is missing"@))
                } else if clean.len() == 0 {
                    Next::Done(Ok(model::sorted(turn.rows(m.files, n, a))))
                } else {
                    match sl::diff_step(root, Some(m.parent), None, a) {
                        Next::Ask(q) => Next::Ask(q),
                        Next::Done(Err(e)) => Next::Done(Err(e)),
                        Next::Done(Ok(counts)) => {
                            let b = Build {
                                root,
                                old: Some(m.parent),
                                to: None,
                                all: now,
                                entries: clean,
                                counts,
                                turn: true,
                            };
                            let more = b.all_missing(clean.len(), a);
                            if more.len() > 0 {
                                Next::Ask(more)
                            } else {
                                Next::Done(
                                    Ok(model::sorted(turn.rows(m.files, n, a) + b.rows(clean.len(), a))),
                                )
                            }
                        },
                    }
                }
            },
        },
    }
}

/// The baseline content of a file, once read.
fn base_of<'a>(store: &Store, hash: &Option<String>, answers: &'a Answers) -> (r: Option<
    Option<&'a Vec<u8>>,
>)
    ensures
        rows::seen(r) == (Turn { root: seq![], dir: store.place() }).base(
            (seq![], hash.deep_view()),
            *answers,
        ),
{
    match hash {
        None => Some(None),
        Some(hash) => match store.read_blob(hash.as_str(), answers) {
            Step::Ask(_) => None,
            Step::Done(blob) => Some(blob),
        },
    }
}

/// The worktree content of a file, once read.
fn current_of<'a>(root: &str, path: &str, answers: &'a Answers) -> (r: Option<Option<&'a Vec<u8>>>)
    ensures
        rows::seen(r) == answers.bytes_of(Topic::File, disk::joined(root@, path@)),
{
    let at = disk::join(root, path);
    match answers.bytes(Topic::File, at.as_str()) {
        None => None,
        Some(Some(bytes)) => Some(Some(bytes)),
        Some(None) => Some(None),
    }
}

/// Add the questions that a file still needs answered.
fn ask_dirty(
    root: &str,
    store: &Store,
    path: &str,
    hash: &Option<String>,
    answers: &Answers,
    qs: &mut Vec<Query>,
)
    ensures
        final(qs).deep_view() == old(qs).deep_view() + (Turn {
            root: root@,
            dir: store.place(),
        }).asks((path@, hash.deep_view()), *answers),
{
    let ghost before = qs.deep_view();
    if let Some(hash) = hash {
        if let Step::Ask(more) = store.read_blob(hash.as_str(), answers) {
            let mut more = more;
            let ghost asked = more.deep_view();
            qs.append(&mut more);
            assert(qs.deep_view() =~= before + asked);
        }
    }
    let ghost between = qs.deep_view();
    if current_of(root, path, answers).is_none() {
        let at = disk::join(root, path);
        let q = answers::query(Topic::File, answers::words1(at.as_str()));
        let ghost asked = q.deep_view();
        qs.push(q);
        assert(qs.deep_view() =~= between + seq![asked]);
    }
    assert(qs.deep_view() =~= before + (Turn { root: root@, dir: store.place() }).asks(
        (path@, hash.deep_view()),
        *answers,
    ));
}

/// The row of a file that was dirty at the turn start.
fn compare(path: &str, base: Option<&Vec<u8>>, current: Option<&Vec<u8>>) -> (r: Option<
    ChangedFile,
>)
    requires
        base matches Some(b) ==> (current matches Some(c) ==> b@ == c@ || counts::countable(
            b@,
            c@,
        )),
    ensures
        r.deep_view() == dirty_row(
            path@,
            match base {
                Some(b) => Some(b@),
                None => None,
            },
            match current {
                Some(c) => Some(c@),
                None => None,
            },
        ),
{
    let (kind, n): (ChangeKind, (u32, u32)) = match (base, current) {
        (None, None) => {
            return None;
        },
        (None, Some(_)) => (ChangeKind::Added, (rows::lines_of(current), 0)),
        (Some(_), None) => (ChangeKind::Deleted, (0, rows::lines_of(base))),
        (Some(b), Some(c)) => {
            if text::same_bytes(b.as_slice(), c.as_slice()) {
                return None;
            }
            (ChangeKind::Modified, counts::text_counts(b.as_slice(), c.as_slice()))
        },
    };
    Some(
        ChangedFile {
            path: path.to_owned(),
            kind,
            additions: n.0,
            deletions: n.1,
            previous_path: None,
        },
    )
}

/// The records whose path was clean at the turn start.
fn fresh_entries<'a>(entries: &'a Vec<StatusEntry>, m: &Manifest) -> (r: Vec<&'a StatusEntry>)
    ensures
        r.deep_view() == fresh(entries.deep_view(), m.deep_view().files, entries@.len()),
{
    let ghost es = entries.deep_view();
    let ghost files = m.deep_view().files;
    let mut out: Vec<&'a StatusEntry> = Vec::new();
    assert(out.deep_view() =~= seq![]);
    let mut i: usize = 0;
    while i < entries.len()
        invariant
            es == entries.deep_view(),
            files == m.deep_view().files,
            i <= entries.len(),
            out.deep_view() == fresh(es, files, i as nat),
        decreases entries.len() - i,
    {
        let e = &entries[i];
        assert(es[i as int] == e.deep_view());
        let ghost done = out.deep_view();
        if m.get(e.path.as_str()).is_none() {
            out.push(e);
            assert(out.deep_view() =~= done.push(es[i as int]));
        }
        i = i + 1;
    }
    out
}

/// The changed files between the persisted baseline `id` and the live worktree. A path in the
/// baseline's dirty set compares the stored bytes against the worktree; every other path that
/// `sl status --rev <parent>` lists had the parent's content at the turn start, so that its kind
/// and counts come from that status plus one `sl diff`. Commits made during the turn stay in the
/// diff either way.
pub fn changed_against_snapshot(root: &str, id: &str, places: &Places, answers: &Answers) -> (r:
    Step<Result<Vec<ChangedFile>, GitFail>>)
    requires
        diffable(root@, store::store_dir(places.base(), root@), id@, *answers),
    ensures
        answers::tried(r) == turn_step(
            root@,
            store::store_dir(places.base(), root@),
            id@,
            *answers,
        ),
{
    let store = Store::open(root, places);
    let m = match store.load_manifest(id, answers) {
        Step::Ask(q) => {
            return Step::Ask(q);
        },
        Step::Done(None) => {
            let mut message = "turn baseline ".to_owned();
            message.append(id);
            message.append(" is missing from the snapshot store");
            return Step::Done(Err(GitFail(message)));
        },
        Step::Done(Some(m)) => m,
    };
    let now = match sl::status_entries(root, Some(m.parent.as_str()), None, answers) {
        Step::Ask(q) => {
            return Step::Ask(q);
        },
        Step::Done(Err(e)) => {
            return Step::Done(Err(e));
        },
        Step::Done(Ok(now)) => now,
    };
    let ghost a = *answers;
    let ghost files = m.deep_view().files;
    let ghost turn = Turn { root: root@, dir: store.place() };
    // What the dirty files still need answered.
    let mut qs: Vec<Query> = Vec::new();
    assert(qs.deep_view() =~= seq![]);
    let mut i: usize = 0;
    while i < m.files.len()
        invariant
            a == *answers,
            files == m.deep_view().files,
            turn == (Turn { root: root@, dir: store.place() }),
            i <= m.files.len(),
            qs.deep_view() == turn.all_asks(files, i as nat, a),
        decreases m.files.len() - i,
    {
        assert(files[i as int] == (m.files@[i as int].0@, m.files@[i as int].1.deep_view()));
        ask_dirty(root, &store, m.files[i].0.as_str(), &m.files[i].1, answers, &mut qs);
        i = i + 1;
    }
    if qs.len() > 0 {
        return Step::Ask(qs);
    }
    // The turn-start-dirty files: the stored bytes are the baseline side.
    let mut out: Vec<ChangedFile> = Vec::new();
    assert(out.deep_view() =~= seq![]);
    let mut i: usize = 0;
    while i < m.files.len()
        invariant
            a == *answers,
            diffable(root@, store.place(), id@, a),
            store.place() == store::store_dir(places.base(), root@),
            store::load_step(store.place(), id@, a) == Next::Done(Some(m.deep_view())),
            sl::status_step(root@, Some(m.parent@), None, a) == Next::<
                Result<Seq<Entry>, Seq<char>>,
            >::Done(Ok(now.deep_view())),
            files == m.deep_view().files,
            turn == (Turn { root: root@, dir: store.place() }),
            turn.all_asks(files, files.len(), a).len() == 0,
            i <= m.files.len(),
            turn.first_lost(files, i as nat, a) is None,
            out.deep_view() == model::sorted(turn.rows(files, i as nat, a)),
            model::in_order(out.deep_view()),
        decreases m.files.len() - i,
    {
        let path = m.files[i].0.as_str();
        let hash = &m.files[i].1;
        assert(files[i as int] == (path@, hash.deep_view()));
        let ghost file = files[i as int];
        proof {
            lemma_no_asks(turn, files, files.len(), i as int, a);
        }
        let base = base_of(&store, hash, answers);
        let current = current_of(root, path, answers);
        assert(rows::seen(base) == turn.base(file, a));
        assert(rows::seen(current) == turn.current(file, a));
        proof {
            lemma_diffable(root@, store.place(), id@, m.deep_view(), i as int, a);
        }
        match (base, current) {
            (Some(base), Some(current)) => {
                if hash.is_some() && base.is_none() {
                    let mut message = "baseline blob for ".to_owned();
                    message.append(path);
                    message.append(" is missing");
                    proof {
                        lemma_first_lost(turn, files, (i + 1) as nat, files.len(), a);
                    }
                    return Step::Done(Err(GitFail(message)));
                }
                if let Some(row) = compare(path, base, current) {
                    proof {
                        let done = turn.rows(files, i as nat, a);
                        assert(done.push(row.deep_view()).drop_last() =~= done);
                    }
                    model::add_row(&mut out, row);
                }
            },
            _ => {
                assert(false);
            },
        }
        i = i + 1;
    }
    // The files the turn touched from a clean start.
    let entries = fresh_entries(now, m);
    let ghost clean = entries.deep_view();
    if entries.len() == 0 {
        return Step::Done(Ok(out));
    }
    let counts = match sl::diff(root, Some(m.parent.as_str()), None, answers) {
        Step::Ask(q) => {
            return Step::Ask(q);
        },
        Step::Done(Err(e)) => {
            return Step::Done(Err(e));
        },
        Step::Done(Ok(counts)) => counts,
    };
    let pass = Pass {
        root,
        old: Some(m.parent.as_str()),
        to: None,
        all: now,
        entries: &entries,
        counts: &counts,
        turn: true,
    };
    let ghost b = pass.build();
    let more = pass.missing(answers);
    if more.len() > 0 {
        return Step::Ask(more);
    }
    let ghost dirty = turn.rows(files, files.len(), a);
    let mut k: usize = 0;
    assert(dirty + b.rows(0, a) =~= dirty);
    while k < entries.len()
        invariant
            a == *answers,
            b == pass.build(),
            clean == entries.deep_view(),
            b.entries == clean,
            pass.entries@ == entries@,
            k <= entries.len(),
            out.deep_view() == model::sorted(dirty + b.rows(k as nat, a)),
            model::in_order(out.deep_view()),
        decreases entries.len() - k,
    {
        let e = entries[k];
        assert(clean[k as int] == e.deep_view());
        let ghost done = b.rows(k as nat, a);
        if pass.shows(e) {
            let row = pass.row(e, answers);
            proof {
                let all = dirty + done.push(row.deep_view());
                assert(all.drop_last() =~= dirty + done);
            }
            model::add_row(&mut out, row);
        }
        k = k + 1;
    }
    Step::Done(Ok(out))
}

/// Whether the lines of every changed file that was dirty at the turn start are countable: what
/// `changed_against_snapshot` needs of the answers.
pub fn is_diffable(root: &str, id: &str, places: &Places, answers: &Answers) -> (b: bool)
    ensures
        b == diffable(root@, store::store_dir(places.base(), root@), id@, *answers),
{
    let store = Store::open(root, places);
    let ghost turn = Turn { root: root@, dir: store.place() };
    if let Step::Done(Some(m)) = store.load_manifest(id, answers) {
        let ghost files = m.deep_view().files;
        let mut i: usize = 0;
        while i < m.files.len()
            invariant
                files == m.deep_view().files,
                turn == (Turn { root: root@, dir: store.place() }),
                i <= m.files.len(),
                forall|k: int| 0 <= k < i ==> pair_fits(turn, #[trigger] files[k], *answers),
                store.place() == store::store_dir(places.base(), root@),
                store::load_step(store.place(), id@, *answers) == Next::Done(Some(m.deep_view())),
            decreases m.files.len() - i,
        {
            let path = m.files[i].0.as_str();
            let hash = &m.files[i].1;
            assert(files[i as int] == (path@, hash.deep_view()));
            let base = base_of(&store, hash, answers);
            let current = current_of(root, path, answers);
            assert(rows::seen(base) == turn.base(files[i as int], *answers));
            assert(rows::seen(current) == turn.current(files[i as int], *answers));
            if let (Some(Some(b)), Some(Some(c))) = (base, current) {
                if !text::same_bytes(b.as_slice(), c.as_slice()) && !counts::can_count(
                    b.as_slice(),
                    c.as_slice(),
                ) {
                    assert(!pair_fits(turn, m.deep_view().files[i as int], *answers));
                    proof {
                        if diffable(root@, store.place(), id@, *answers) {
                            lemma_diffable(
                                root@,
                                store.place(),
                                id@,
                                m.deep_view(),
                                i as int,
                                *answers,
                            );
                        }
                    }
                    return false;
                }
            }
            i = i + 1;
        }
    }
    true
}

/// What an answerable last turn says of one file.
proof fn lemma_diffable(
    root: Seq<char>,
    dir: Seq<char>,
    id: Seq<char>,
    m: ManifestView,
    i: int,
    a: Answers,
)
    requires
        store::load_step(dir, id, a) == Next::Done(Some(m)),
        0 <= i < m.files.len(),
        diffable(root, dir, id, a),
    ensures
        pair_fits(Turn { root, dir }, m.files[i], a),
{
    assert(store::load_step(dir, id, a)->Done_0->0 == m);
    assert(forall|k: int|
        0 <= k < m.files.len() ==> pair_fits(Turn { root, dir }, #[trigger] m.files[k], a));
}

/// Where no file needs an answer, none of them does.
proof fn lemma_no_asks(turn: Turn, files: Seq<Dirty>, n: nat, i: int, a: Answers)
    requires
        turn.all_asks(files, n, a).len() == 0,
        0 <= i < n <= files.len(),
    ensures
        turn.base(files[i], a) is Some,
        turn.current(files[i], a) is Some,
    decreases n,
{
    if i < n - 1 {
        lemma_no_asks(turn, files, (n - 1) as nat, i, a);
    }
}

/// The first lost file among some is the first lost file among more.
proof fn lemma_first_lost(turn: Turn, files: Seq<Dirty>, k: nat, n: nat, a: Answers)
    requires
        k <= n <= files.len(),
        turn.first_lost(files, k, a) is Some,
    ensures
        turn.first_lost(files, n, a) == turn.first_lost(files, k, a),
    decreases n,
{
    if k < n {
        lemma_first_lost(turn, files, k, (n - 1) as nat, a);
    }
}

// --- what the last turn lists -------------------------------------------------------------------

/// A row stands for a file that was dirty at the turn start exactly where its content differs from
/// what it was.
pub proof fn law_dirty_file_is_listed_where_it_differs(
    path: Seq<char>,
    base: Option<Seq<u8>>,
    current: Option<Seq<u8>>,
)
    ensures
        dirty_row(path, base, current) is Some <==> base != current,
        dirty_row(path, base, current) matches Some(row) ==> {
            &&& row.path == path
            &&& row.kind == ChangeKind::Added <==> base is None
            &&& row.kind == ChangeKind::Deleted <==> current is None
        },
{
}

proof fn lemma_dirty_rows(turn: Turn, files: Seq<Dirty>, n: nat, path: Seq<char>, a: Answers)
    requires
        n <= files.len(),
        manifest::ascending(files),
    ensures
        model::lists(turn.rows(files, n, a), path) <==> exists|i: int|
            0 <= i < n && (#[trigger] files[i]).0 == path && turn.row(files[i], a) is Some,
    decreases n,
{
    if n > 0 {
        let m = (n - 1) as nat;
        let done = turn.rows(files, m, a);
        let out = turn.rows(files, n, a);
        let last = files[n - 1];
        lemma_dirty_rows(turn, files, m, path, a);
        if let Some(row) = turn.row(last, a) {
            assert(row.path == last.0);
            assert(out == done.push(row));
            if model::lists(done, path) {
                let i = choose|i: int| 0 <= i < done.len() && #[trigger] done[i].path == path;
                assert(out[i].path == path);
            }
            if model::lists(out, path) {
                let i = choose|i: int| 0 <= i < out.len() && #[trigger] out[i].path == path;
                if i < done.len() {
                    assert(done[i].path == path);
                } else {
                    assert(files[n - 1].0 == path);
                }
            }
            if last.0 == path {
                assert(out[done.len() as int].path == path);
            }
        }
    }
}

proof fn lemma_fresh_rows(b: Build, n: nat, path: Seq<char>, a: Answers)
    requires
        n <= b.entries.len(),
        model::lists(b.rows(n, a), path),
    ensures
        exists|i: int| 0 <= i < n && (#[trigger] b.entries[i]).path == path,
    decreases n,
{
    let m = (n - 1) as nat;
    let done = b.rows(m, a);
    let out = b.rows(n, a);
    let i = choose|i: int| 0 <= i < out.len() && #[trigger] out[i].path == path;
    if i < done.len() {
        assert(out[i] == done[i]);
        assert(done[i].path == path);
        lemma_fresh_rows(b, m, path, a);
    } else {
        assert(b.entries[n - 1].path == path);
    }
}

proof fn lemma_fresh(entries: Seq<Entry>, files: Seq<Dirty>, n: nat, i: int)
    requires
        n <= entries.len(),
        0 <= i < fresh(entries, files, n).len(),
    ensures
        manifest::recorded(files, fresh(entries, files, n)[i].path) is None,
    decreases n,
{
    if n > 0 {
        let done = fresh(entries, files, (n - 1) as nat);
        if i < done.len() {
            lemma_fresh(entries, files, (n - 1) as nat, i);
        }
    }
}

/// The build of the files that were clean at the turn start.
spec fn turn_build(root: Seq<char>, m: ManifestView, now: Seq<Entry>, a: Answers) -> Build {
    Build {
        root,
        old: Some(m.parent),
        to: None,
        all: now,
        entries: fresh(now, m.files, now.len()),
        counts: match sl::diff_step(root, Some(m.parent), None, a) {
            Next::Done(Ok(counts)) => counts,
            _ => Map::empty(),
        },
        turn: true,
    }
}

/// Of the files that were dirty at the turn start, the last turn lists exactly those whose current
/// content differs from their baseline content, whatever was committed meanwhile.
pub proof fn law_last_turn_lists_what_differs(
    root: Seq<char>,
    dir: Seq<char>,
    id: Seq<char>,
    m: manifest::ManifestView,
    i: int,
    rows: Seq<FileRow>,
    a: Answers,
)
    requires
        store::load_step(dir, id, a) == Next::Done(Some(m)),
        manifest::ascending(m.files),
        turn_step(root, dir, id, a) == Next::<Result<Seq<FileRow>, Seq<char>>>::Done(Ok(rows)),
        0 <= i < m.files.len(),
    ensures
        ({
            let turn = Turn { root, dir };
            &&& turn.base(m.files[i], a) is Some
            &&& turn.current(m.files[i], a) is Some
            &&& model::lists(rows, m.files[i].0) <==> turn.base(m.files[i], a) != turn.current(
                m.files[i],
                a,
            )
        }),
{
    let turn = Turn { root, dir };
    let file = m.files[i];
    let n = m.files.len();
    lemma_no_asks(turn, m.files, n, i, a);
    let now = match sl::status_step(root, Some(m.parent), None, a) {
        Next::Done(Ok(now)) => now,
        _ => seq![],
    };
    let clean = fresh(now, m.files, now.len());
    let dirty = turn.rows(m.files, n, a);
    let b = turn_build(root, m, now, a);
    let all = dirty + b.rows(clean.len(), a);
    if clean.len() == 0 {
        assert(all =~= dirty);
    }
    assert(rows == model::sorted(all));
    model::law_sorting_keeps_every_row(all);
    lemma_dirty_rows(turn, m.files, n, file.0, a);
    law_dirty_file_is_listed_where_it_differs(
        file.0,
        turn.base(file, a)->0,
        turn.current(file, a)->0,
    );
    // Each path stands once in the manifest.
    assert forall|j: int| 0 <= j < n && (#[trigger] m.files[j]).0 == file.0 implies j == i by {
        text::lemma_before_irreflexive(file.0);
        if j < i {
            assert(text::before(m.files[j].0, m.files[i].0));
        } else if i < j {
            assert(text::before(m.files[i].0, m.files[j].0));
        }
    }
    assert(model::lists(dirty, file.0) <==> turn.row(file, a) is Some);
    // No other row has the path.
    manifest::lemma_recorded_at(m.files, i);
    assert(model::lists(all, file.0) <==> model::lists(dirty, file.0)) by {
        if model::lists(dirty, file.0) {
            let j = choose|j: int| 0 <= j < dirty.len() && #[trigger] dirty[j].path == file.0;
            assert(all[j].path == file.0);
        }
        if model::lists(all, file.0) {
            let j = choose|j: int| 0 <= j < all.len() && #[trigger] all[j].path == file.0;
            if j < dirty.len() {
                assert(dirty[j].path == file.0);
            } else {
                let more = b.rows(clean.len(), a);
                assert(more[j - dirty.len()].path == file.0);
                lemma_fresh_rows(b, clean.len(), file.0, a);
                let k = choose|k: int|
                    0 <= k < clean.len() && (#[trigger] b.entries[k]).path == file.0;
                lemma_fresh(now, m.files, now.len(), k);
            }
        }
    }
    assert(model::lists(rows, file.0) <==> model::lists(all, file.0)) by {
        if model::lists(all, file.0) {
            let j = choose|j: int| 0 <= j < all.len() && #[trigger] all[j].path == file.0;
            assert(all.contains(all[j]));
            assert(rows.contains(all[j]));
            let k = choose|k: int| 0 <= k < rows.len() && rows[k] == all[j];
            assert(rows[k].path == file.0);
        }
        if model::lists(rows, file.0) {
            let j = choose|j: int| 0 <= j < rows.len() && #[trigger] rows[j].path == file.0;
            assert(rows.contains(rows[j]));
            assert(all.contains(rows[j]));
            let k = choose|k: int| 0 <= k < all.len() && all[k] == rows[j];
            assert(all[k].path == file.0);
        }
    }
}

/// Whether no two records have one path.
pub open spec fn entries_once(entries: Seq<Entry>) -> bool {
    forall|i: int, j: int|
        0 <= i < j < entries.len() ==> (#[trigger] entries[i]).path != (#[trigger] entries[j]).path
}

proof fn lemma_dirty_rows_once(turn: Turn, files: Seq<Dirty>, n: nat, a: Answers)
    requires
        n <= files.len(),
        manifest::ascending(files),
    ensures
        model::paths_once(turn.rows(files, n, a)),
        forall|i: int|
            0 <= i < turn.rows(files, n, a).len() ==> {
                let row = #[trigger] turn.rows(files, n, a)[i];
                row.kind != ChangeKind::Untracked && manifest::recorded(files, row.path) is Some
            },
    decreases n,
{
    if n > 0 {
        let m = (n - 1) as nat;
        let done = turn.rows(files, m, a);
        let out = turn.rows(files, n, a);
        let last = files[n - 1];
        lemma_dirty_rows_once(turn, files, m, a);
        lemma_dirty_rows(turn, files, m, last.0, a);
        manifest::lemma_recorded_at(files, n - 1);
        if let Some(row) = turn.row(last, a) {
            assert(out == done.push(row));
            assert forall|i: int, j: int| 0 <= i < j < out.len() implies #[trigger] out[i].path
                != #[trigger] out[j].path by {
                assert(out[i] == done[i]);
                if j < done.len() {
                    assert(out[j] == done[j]);
                } else if out[i].path == last.0 {
                    assert(done[i].path == last.0);
                    assert(model::lists(done, last.0));
                    let k = choose|k: int|
                        0 <= k < m && (#[trigger] files[k]).0 == last.0 && turn.row(
                            files[k],
                            a,
                        ) is Some;
                    assert(text::before(files[k].0, files[n - 1].0));
                    text::lemma_before_irreflexive(last.0);
                }
            }
            assert forall|i: int| 0 <= i < out.len() implies ({
                let row = #[trigger] out[i];
                row.kind != ChangeKind::Untracked && manifest::recorded(files, row.path) is Some
            }) by {
                if i < done.len() {
                    assert(out[i] == done[i]);
                }
            }
        }
    }
}

proof fn lemma_fresh_rows_once(b: Build, n: nat, a: Answers)
    requires
        n <= b.entries.len(),
        b.turn,
    ensures
        entries_once(b.entries) ==> model::paths_once(b.rows(n, a)),
        forall|i: int|
            0 <= i < b.rows(n, a).len() ==> (#[trigger] b.rows(n, a)[i]).kind
                != ChangeKind::Untracked,
    decreases n,
{
    if n > 0 {
        let m = (n - 1) as nat;
        let done = b.rows(m, a);
        let out = b.rows(n, a);
        let e = b.entries[n - 1];
        lemma_fresh_rows_once(b, m, a);
        if b.shows(e) {
            assert(out == done.push(b.row(e, a)));
            if entries_once(b.entries) {
                assert forall|i: int, j: int| 0 <= i < j < out.len() implies #[trigger] out[i].path
                    != #[trigger] out[j].path by {
                    assert(out[i] == done[i]);
                    if j < done.len() {
                        assert(out[j] == done[j]);
                    } else if out[i].path == e.path {
                        assert(done[i].path == e.path);
                        assert(model::lists(done, e.path));
                        lemma_fresh_rows(b, m, e.path, a);
                        let k = choose|k: int|
                            0 <= k < m && (#[trigger] b.entries[k]).path == e.path;
                        assert(b.entries[k].path != b.entries[n - 1].path);
                    }
                }
            }
            assert forall|i: int| 0 <= i < out.len() implies (#[trigger] out[i]).kind
                != ChangeKind::Untracked by {
                if i < done.len() {
                    assert(out[i] == done[i]);
                }
            }
        }
    }
}

proof fn lemma_fresh_entries(entries: Seq<Entry>, files: Seq<Dirty>, n: nat)
    requires
        n <= entries.len(),
    ensures
        forall|i: int|
            0 <= i < fresh(entries, files, n).len() ==> exists|k: int|
                0 <= k < n && entries[k] == #[trigger] fresh(entries, files, n)[i],
        entries_once(entries) ==> entries_once(fresh(entries, files, n)),
    decreases n,
{
    if n > 0 {
        let m = (n - 1) as nat;
        let done = fresh(entries, files, m);
        let out = fresh(entries, files, n);
        let e = entries[n - 1];
        lemma_fresh_entries(entries, files, m);
        assert forall|i: int| 0 <= i < out.len() implies exists|k: int|
            0 <= k < n && entries[k] == #[trigger] out[i] by {
            if i < done.len() {
                assert(out[i] == done[i]);
                let k = choose|k: int| 0 <= k < m && entries[k] == done[i];
                assert(entries[k] == out[i]);
            } else {
                assert(entries[n - 1] == out[i]);
            }
        }
        if entries_once(entries) && out.len() > done.len() {
            assert forall|i: int, j: int| 0 <= i < j < out.len() implies (#[trigger] out[i]).path
                != (#[trigger] out[j]).path by {
                assert(out[i] == done[i]);
                if j < done.len() {
                    assert(out[j] == done[j]);
                } else {
                    let k = choose|k: int| 0 <= k < m && entries[k] == done[i];
                    assert(entries[k].path != entries[n - 1].path);
                }
            }
        }
    }
}

/// What the last turn lists, in which order: its rows stand in ascending order of path, each path
/// once where the status pass names each path once; none is untracked; and every listed path was
/// dirty at the turn start or stands in the status pass from the baseline's parent.
pub proof fn law_last_turn_lists_known_paths_in_order(
    root: Seq<char>,
    dir: Seq<char>,
    id: Seq<char>,
    m: ManifestView,
    now: Seq<Entry>,
    rows: Seq<FileRow>,
    a: Answers,
)
    requires
        store::load_step(dir, id, a) == Next::Done(Some(m)),
        manifest::ascending(m.files),
        sl::status_step(root, Some(m.parent), None, a) == Next::<
            Result<Seq<Entry>, Seq<char>>,
        >::Done(Ok(now)),
        turn_step(root, dir, id, a) == Next::<Result<Seq<FileRow>, Seq<char>>>::Done(Ok(rows)),
    ensures
        model::in_order(rows),
        entries_once(now) ==> model::strictly_in_order(rows),
        forall|i: int|
            0 <= i < rows.len() ==> {
                let row = #[trigger] rows[i];
                &&& row.kind != ChangeKind::Untracked
                &&& manifest::recorded(m.files, row.path) is Some || exists|k: int|
                    0 <= k < now.len() && (#[trigger] now[k]).path == row.path
            },
{
    let turn = Turn { root, dir };
    let n = m.files.len();
    let clean = fresh(now, m.files, now.len());
    let dirty = turn.rows(m.files, n, a);
    let b = turn_build(root, m, now, a);
    let more = b.rows(clean.len(), a);
    let all = dirty + more;
    if clean.len() == 0 {
        assert(all =~= dirty);
    }
    assert(rows == model::sorted(all));
    model::law_sorting_keeps_every_row(all);
    lemma_dirty_rows_once(turn, m.files, n, a);
    lemma_fresh_rows_once(b, clean.len(), a);
    lemma_fresh_entries(now, m.files, now.len());
    assert forall|i: int| 0 <= i < more.len() implies manifest::recorded(
        m.files,
        (#[trigger] more[i]).path,
    ) is None && exists|k: int| 0 <= k < now.len() && (#[trigger] now[k]).path == more[i].path by {
        assert(model::lists(more, more[i].path));
        lemma_fresh_rows(b, clean.len(), more[i].path, a);
        let j = choose|j: int| 0 <= j < clean.len() && (#[trigger] b.entries[j]).path == more[i].path;
        lemma_fresh(now, m.files, now.len(), j);
        let k = choose|k: int| 0 <= k < now.len() && now[k] == clean[j];
        assert(now[k].path == more[i].path);
    }
    if entries_once(now) {
        assert forall|i: int, j: int| 0 <= i < j < all.len() implies #[trigger] all[i].path
            != #[trigger] all[j].path by {
            let d = dirty.len();
            if j < d {
                assert(all[i] == dirty[i] && all[j] == dirty[j]);
            } else if i < d {
                assert(all[i] == dirty[i] && all[j] == more[j - d]);
            } else {
                assert(all[i] == more[i - d] && all[j] == more[j - d]);
            }
        }
        model::law_sorting_distinct_paths_is_strict(all);
    }
    assert forall|i: int| 0 <= i < rows.len() implies ({
        let row = #[trigger] rows[i];
        &&& row.kind != ChangeKind::Untracked
        &&& manifest::recorded(m.files, row.path) is Some || exists|k: int|
            0 <= k < now.len() && (#[trigger] now[k]).path == row.path
    }) by {
        assert(rows.contains(rows[i]));
        assert(all.contains(rows[i]));
        let j = choose|j: int| 0 <= j < all.len() && all[j] == rows[i];
        if j < dirty.len() {
            assert(all[j] == dirty[j]);
        } else {
            assert(all[j] == more[j - dirty.len()]);
        }
    }
}

/// Every dirty row has the path of a file of the manifest.
pub(crate) proof fn lemma_dirty_row_path(turn: Turn, files: Seq<Dirty>, n: nat, j: int, a: Answers)
    requires
        n <= files.len(),
        0 <= j < turn.rows(files, n, a).len(),
    ensures
        exists|i: int| 0 <= i < n && (#[trigger] files[i]).0 == turn.rows(files, n, a)[j].path,
    decreases n,
{
    if n > 0 {
        let done = turn.rows(files, (n - 1) as nat, a);
        if j < done.len() {
            lemma_dirty_row_path(turn, files, (n - 1) as nat, j, a);
            let i = choose|i: int| 0 <= i < n - 1 && (#[trigger] files[i]).0 == done[j].path;
            assert(files[i].0 == turn.rows(files, n, a)[j].path);
        } else {
            assert(files[n - 1].0 == turn.rows(files, n, a)[j].path);
        }
    }
}

/// The row of a dirty file that differs is among the dirty rows.
proof fn lemma_dirty_row_of(turn: Turn, files: Seq<Dirty>, n: nat, i: int, a: Answers)
    requires
        0 <= i < n <= files.len(),
        turn.row(files[i], a) is Some,
    ensures
        turn.rows(files, n, a).contains(turn.row(files[i], a)->0),
    decreases n,
{
    let done = turn.rows(files, (n - 1) as nat, a);
    let out = turn.rows(files, n, a);
    let row = turn.row(files[i], a)->0;
    if i < n - 1 {
        lemma_dirty_row_of(turn, files, (n - 1) as nat, i, a);
        let j = choose|j: int| 0 <= j < done.len() && done[j] == row;
        assert(out[j] == row);
    } else {
        assert(out[done.len() as int] == row);
    }
}

/// Where no file is lost, none of them is.
proof fn lemma_not_lost(turn: Turn, files: Seq<Dirty>, n: nat, i: int, a: Answers)
    requires
        turn.first_lost(files, n, a) is None,
        0 <= i < n <= files.len(),
    ensures
        !turn.lost(files[i], a),
    decreases n,
{
    if i < n - 1 {
        lemma_not_lost(turn, files, (n - 1) as nat, i, a);
    }
}

/// The last turn compares what the store holds of a file that was dirty at the turn start with what
/// the worktree holds now. It ends in rows only where both were read and no stored content is
/// missing. A file that the baseline holds nothing of is added, with its lines; one that is gone is
/// deleted, with the stored lines; and one whose bytes differ is modified, with the lines that the
/// two contents differ in. None of these names a previous path.
pub proof fn law_last_turn_compares_the_store_with_the_worktree(
    root: Seq<char>,
    dir: Seq<char>,
    id: Seq<char>,
    m: ManifestView,
    i: int,
    out: Seq<FileRow>,
    a: Answers,
)
    requires
        store::load_step(dir, id, a) == Next::Done(Some(m)),
        turn_step(root, dir, id, a) == Next::<Result<Seq<FileRow>, Seq<char>>>::Done(Ok(out)),
        0 <= i < m.files.len(),
    ensures
        ({
            let path = m.files[i].0;
            let now = a.reply(Topic::File, seq![disk::joined(root, path)]);
            let row = |kind: ChangeKind, n: (u32, u32)|
                FileRow { path, kind, additions: n.0, deletions: n.1, previous_path: None };
            &&& now matches Some(Reply::Bytes(_))
            &&& m.files[i].1 is None ==> (now matches Some(Reply::Bytes(Some(c))) ==> out.contains(
                row(ChangeKind::Added, (counts::line_total(c@) as u32, 0)),
            ))
            &&& m.files[i].1 matches Some(hash) ==> {
                let kept = a.reply(
                    Topic::StoreBytes,
                    seq![disk::joined(disk::joined(dir, "blobs"@), hash)],
                );
                &&& text::all_hex(hash)
                &&& kept matches Some(Reply::Bytes(Some(b))) && {
                    &&& now == Some(Reply::Bytes(None::<Vec<u8>>)) ==> out.contains(
                        row(ChangeKind::Deleted, (0, counts::line_total(b@) as u32)),
                    )
                    &&& now matches Some(Reply::Bytes(Some(c))) ==> b@ != c@ ==> out.contains(
                        row(ChangeKind::Modified, counts::counts_between(b@, c@)),
                    )
                }
            }
        }),
{
    let turn = Turn { root, dir };
    let n = m.files.len();
    let file = m.files[i];
    lemma_no_asks(turn, m.files, n, i, a);
    lemma_not_lost(turn, m.files, n, i, a);
    let now = match sl::status_step(root, Some(m.parent), None, a) {
        Next::Done(Ok(now)) => now,
        _ => seq![],
    };
    let clean = fresh(now, m.files, now.len());
    let dirty = turn.rows(m.files, n, a);
    let b = turn_build(root, m, now, a);
    let all = dirty + b.rows(clean.len(), a);
    if clean.len() == 0 {
        assert(all =~= dirty);
    }
    assert(out == model::sorted(all));
    model::law_sorting_keeps_every_row(all);
    if turn.row(file, a) is Some {
        lemma_dirty_row_of(turn, m.files, n, i, a);
        let row = turn.row(file, a)->0;
        let j = choose|j: int| 0 <= j < dirty.len() && dirty[j] == row;
        assert(all[j] == row);
        assert(all.contains(row));
        assert(out.contains(row));
    }
}

/// A last turn that cannot be told is an error, never an empty list: where the baseline is not in the
/// store, where its status pass does not succeed, and where the store lost a content of it, of which
/// the first is named.
pub proof fn law_untold_last_turn_is_an_error(
    root: Seq<char>,
    dir: Seq<char>,
    id: Seq<char>,
    m: ManifestView,
    i: int,
    a: Answers,
)
    ensures
        store::load_step(dir, id, a) == Next::Done(None::<ManifestView>) ==> turn_step(
            root,
            dir,
            id,
            a,
        ) == Next::<Result<Seq<FileRow>, Seq<char>>>::Done(
            Err("turn baseline "@ + id + " is missing from the snapshot store"@),
        ),
        store::load_step(dir, id, a) == Next::Done(Some(m)) ==> {
            let words = seq![root, "status"@, "-mardu"@, "-C"@, "-Tjson"@, "--rev"@, m.parent];
            let end = turn_step(root, dir, id, a);
            &&& a.reply(Topic::Run, words) is None ==> end == Next::<
                Result<Seq<FileRow>, Seq<char>>,
            >::Ask(seq![Question { topic: Topic::Run, words, acts: seq![] }])
            &&& a.reply(Topic::Run, words) matches Some(Reply::Run(Run::Ended(exit))) ==> exit.code
                != Some(0i32) ==> (end matches Next::Done(Err(_)))
            &&& a.reply(Topic::Run, words) matches Some(Reply::Run(Run::Failed(_)))
                ==> (end matches Next::Done(Err(_)))
            &&& end is Done && 0 <= i < m.files.len() && m.files[i].1 is Some && (!text::all_hex(
                m.files[i].1->0,
            ) || a.reply(
                Topic::StoreBytes,
                seq![disk::joined(disk::joined(dir, "blobs"@), m.files[i].1->0)],
            ) == Some(Reply::Bytes(None::<Vec<u8>>))) ==> (end matches Next::Done(Err(_))) && ((forall|
                k: int,
            |
                0 <= k < i && (#[trigger] m.files[k]).1 is Some ==> text::all_hex(m.files[k].1->0)
                    && (a.reply(
                    Topic::StoreBytes,
                    seq![disk::joined(disk::joined(dir, "blobs"@), m.files[k].1->0)],
                ) matches Some(Reply::Bytes(Some(_))))) ==> end == Next::<
                Result<Seq<FileRow>, Seq<char>>,
            >::Done(Err("baseline blob for "@ + m.files[i].0 + " is missing"@)) || (sl::status_step(
                root,
                Some(m.parent),
                None,
                a,
            ) matches Next::Done(Err(_))))
        },
{
    if let Next::Done(Some(m)) = store::load_step(dir, id, a) {
        let words = seq![root, "status"@, "-mardu"@, "-C"@, "-Tjson"@, "--rev"@, m.parent];
        assert(seq![root] + sl::status_args(Some(m.parent), None) =~= words);
        if let Next::Done(Ok(rows)) = turn_step(root, dir, id, a) {
            if 0 <= i < m.files.len() {
                lemma_not_lost(Turn { root, dir }, m.files, m.files.len(), i, a);
            }
        }
        if 0 <= i < m.files.len() && (forall|k: int|
            0 <= k < i && (#[trigger] m.files[k]).1 is Some ==> text::all_hex(m.files[k].1->0) && (
            a.reply(
                Topic::StoreBytes,
                seq![disk::joined(disk::joined(dir, "blobs"@), m.files[k].1->0)],
            ) matches Some(Reply::Bytes(Some(_))))) {
            let turn = Turn { root, dir };
            lemma_none_lost(turn, m.files, i as nat, a);
            if turn.lost(m.files[i], a) {
                lemma_first_lost(turn, m.files, (i + 1) as nat, m.files.len(), a);
            }
        }
    }
}

proof fn lemma_none_lost(turn: Turn, files: Seq<Dirty>, n: nat, a: Answers)
    requires
        n <= files.len(),
        forall|k: int| 0 <= k < n ==> !turn.lost(#[trigger] files[k], a),
    ensures
        turn.first_lost(files, n, a) is None,
    decreases n,
{
    if n > 0 {
        lemma_none_lost(turn, files, (n - 1) as nat, a);
        assert(!turn.lost(files[n - 1], a));
    }
}

/// What a file needs, the last turn asks.
proof fn lemma_dirty_asked(turn: Turn, files: Seq<Dirty>, n: nat, i: int, q: Question, a: Answers)
    requires
        0 <= i < n <= files.len(),
        turn.asks(files[i], a).contains(q),
    ensures
        turn.all_asks(files, n, a).contains(q),
    decreases n,
{
    let done = turn.all_asks(files, (n - 1) as nat, a);
    let last = turn.asks(files[n - 1], a);
    if i < n - 1 {
        lemma_dirty_asked(turn, files, (n - 1) as nat, i, q, a);
        let j = choose|j: int| 0 <= j < done.len() && done[j] == q;
        assert((done + last)[j] == q);
    } else {
        let j = choose|j: int| 0 <= j < last.len() && last[j] == q;
        assert((done + last)[done.len() + j] == q);
    }
}

/// The last turn asks for what it compares: of a file that was dirty at the turn start the stored
/// content and the one in the worktree; and once these are there, where a clean file was touched,
/// for the diff from the baseline's parent.
pub proof fn law_last_turn_asks_for_what_it_compares(
    root: Seq<char>,
    dir: Seq<char>,
    id: Seq<char>,
    m: ManifestView,
    now: Seq<Entry>,
    i: int,
    k: int,
    a: Answers,
)
    requires
        store::load_step(dir, id, a) == Next::Done(Some(m)),
        sl::status_step(root, Some(m.parent), None, a) == Next::<
            Result<Seq<Entry>, Seq<char>>,
        >::Done(Ok(now)),
    ensures
        ({
            let end = turn_step(root, dir, id, a);
            let words = seq![root, "diff"@, "--git"@, "--no-binary"@, "-r"@, m.parent];
            &&& 0 <= i < m.files.len() ==> {
                let at = disk::joined(root, m.files[i].0);
                &&& a.reply(Topic::File, seq![at]) is None ==> (end matches Next::Ask(qs)
                    && qs.contains(
                    Question { topic: Topic::File, words: seq![at], acts: seq![] },
                ))
                &&& m.files[i].1 matches Some(hash) ==> {
                    let blob = disk::joined(disk::joined(dir, "blobs"@), hash);
                    text::all_hex(hash) && a.reply(Topic::StoreBytes, seq![blob]) is None ==> (
                    end matches Next::Ask(qs) && qs.contains(
                        Question { topic: Topic::StoreBytes, words: seq![blob], acts: seq![] },
                    ))
                }
            }
            &&& (forall|j: int|
                0 <= j < m.files.len() ==> (a.reply(
                    Topic::File,
                    seq![disk::joined(root, (#[trigger] m.files[j]).0)],
                ) matches Some(Reply::Bytes(_))) && (m.files[j].1 matches Some(hash)
                    ==> text::all_hex(hash) && (a.reply(
                    Topic::StoreBytes,
                    seq![disk::joined(disk::joined(dir, "blobs"@), hash)],
                ) matches Some(Reply::Bytes(Some(_)))))) && 0 <= k < now.len() && (forall|j: int|
                0 <= j < m.files.len() ==> (#[trigger] m.files[j]).0 != now[k].path) && a.reply(
                Topic::Run,
                words,
            ) is None ==> end == Next::<Result<Seq<FileRow>, Seq<char>>>::Ask(
                seq![Question { topic: Topic::Run, words, acts: seq![] }],
            )
        }),
{
    let turn = Turn { root, dir };
    let n = m.files.len();
    let words = seq![root, "diff"@, "--git"@, "--no-binary"@, "-r"@, m.parent];
    assert(seq![root] + sl::diff_args(Some(m.parent), None) =~= words);
    if 0 <= i < n {
        let file = m.files[i];
        let at = disk::joined(root, file.0);
        let asks = turn.asks(file, a);
        if a.reply(Topic::File, seq![at]) is None {
            let q = Question { topic: Topic::File, words: seq![at], acts: seq![] };
            assert(asks.last() == q);
            assert(asks[asks.len() - 1] == q);
            lemma_dirty_asked(turn, m.files, n, i, q, a);
        }
        if let Some(hash) = file.1 {
            let blob = disk::joined(disk::joined(dir, "blobs"@), hash);
            if text::all_hex(hash) && a.reply(Topic::StoreBytes, seq![blob]) is None {
                let q = Question { topic: Topic::StoreBytes, words: seq![blob], acts: seq![] };
                assert(asks[0] == q);
                lemma_dirty_asked(turn, m.files, n, i, q, a);
            }
        }
    }
    if (forall|j: int|
        0 <= j < m.files.len() ==> (a.reply(
            Topic::File,
            seq![disk::joined(root, (#[trigger] m.files[j]).0)],
        ) matches Some(Reply::Bytes(_))) && (m.files[j].1 matches Some(hash) ==> text::all_hex(hash)
            && (a.reply(
            Topic::StoreBytes,
            seq![disk::joined(disk::joined(dir, "blobs"@), hash)],
        ) matches Some(Reply::Bytes(Some(_)))))) && 0 <= k < now.len() && (forall|j: int|
        0 <= j < m.files.len() ==> (#[trigger] m.files[j]).0 != now[k].path) {
        assert forall|j: int| 0 <= j < n implies turn.asks(#[trigger] m.files[j], a).len() == 0
            && !turn.lost(m.files[j], a) by {}
        lemma_nothing_asked(turn, m.files, n, a);
        lemma_none_lost(turn, m.files, n, a);
        manifest::lemma_recorded(m.files, now[k].path);
        lemma_some_fresh(now, m.files, now.len(), k);
    }
}

proof fn lemma_nothing_asked(turn: Turn, files: Seq<Dirty>, n: nat, a: Answers)
    requires
        n <= files.len(),
        forall|j: int| 0 <= j < n ==> turn.asks(#[trigger] files[j], a).len() == 0,
    ensures
        turn.all_asks(files, n, a).len() == 0,
    decreases n,
{
    if n > 0 {
        lemma_nothing_asked(turn, files, (n - 1) as nat, a);
        assert(turn.asks(files[n - 1], a).len() == 0);
    }
}

proof fn lemma_some_fresh(now: Seq<Entry>, files: Seq<Dirty>, n: nat, k: int)
    requires
        0 <= k < n <= now.len(),
        manifest::recorded(files, now[k].path) is None,
    ensures
        fresh(now, files, n).len() > 0,
    decreases n,
{
    if k < n - 1 {
        lemma_some_fresh(now, files, (n - 1) as nat, k);
    }
}

} // verus!
