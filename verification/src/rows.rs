//! The rows of a build: which status records become changed files, as what kind, and what their
//! counts are read from.

use vstd::hash_map::StringHashMap;
use vstd::prelude::*;
use vstd::string::*;

use crate::answers::{self, Answers, Next, Query, Question, Step, Topic};
use crate::counts;
use crate::disk;
use crate::git::GitFail;
use crate::model::{self, ChangeKind, ChangedFile, Entry, FileRow, StatusEntry};
use crate::text;

verus! {

broadcast use vstd::string::group_string_axioms;

/// Whether a status pass lists `path` as deleted.
pub open spec fn removed(entries: Seq<Entry>, path: Seq<char>) -> bool {
    exists|i: int|
        0 <= i < entries.len() && (#[trigger] entries[i]).path == path && model::entry_kind(
            entries[i],
        ) == Some(ChangeKind::Deleted)
}

/// Whether an added file of a status pass was copied from `path`.
pub open spec fn source(entries: Seq<Entry>, path: Seq<char>) -> bool {
    exists|i: int|
        0 <= i < entries.len() && (#[trigger] entries[i]).status == "A"@ && entries[i].copy == Some(
            path,
        )
}

/// Where a row's counts come from.
pub enum Side {
    /// The diff.
    Diff,
    /// The lines of the new side.
    New,
    /// The lines of the old side.
    Old,
}

/// What the rows of one build are made from: the repository, the two ends, the records of the
/// status pass, the records that become rows, the counts of the diff, and whether the old side is
/// a turn baseline.
pub struct Build {
    pub root: Seq<char>,
    pub old: Option<Seq<char>>,
    pub to: Option<Seq<char>>,
    pub all: Seq<Entry>,
    pub entries: Seq<Entry>,
    pub counts: Map<Seq<char>, (u32, u32)>,
    pub turn: bool,
}

impl Build {
    /// Whether a record is a copy whose source stays, in a build that tells one from a move. Against
    /// a turn baseline every copy is listed as a move, with the counts of the diff.
    pub open spec fn copied(self, e: Entry) -> bool {
        !self.turn && model::entry_kind(e) == Some(ChangeKind::Renamed) && !removed(
            self.all,
            e.copy->0,
        )
    }

    /// Whether a record becomes a row: it has a kind, and it is not the old name of a move, which
    /// folds into the row of the new name.
    pub open spec fn shows(self, e: Entry) -> bool {
        match model::entry_kind(e) {
            None => false,
            Some(ChangeKind::Deleted) => !source(self.entries, e.path),
            Some(_) => true,
        }
    }

    /// The kind of a row. A copy whose source stays is an added file, and a turn baseline has no
    /// untracked files.
    pub open spec fn kind(self, e: Entry) -> ChangeKind {
        let kind = model::entry_kind(e)->0;
        if self.copied(e) || (self.turn && kind == ChangeKind::Untracked) {
            ChangeKind::Added
        } else {
            kind
        }
    }

    /// Where a row's counts come from. An untracked file and a deletion outside `sl` never reach
    /// the diff; a copy's diff is against its source.
    pub open spec fn side(self, e: Entry) -> Side {
        match model::entry_kind(e) {
            Some(ChangeKind::Untracked) => Side::New,
            Some(ChangeKind::Deleted) => if self.counts.contains_key(e.path) {
                Side::Diff
            } else {
                Side::Old
            },
            _ => if self.copied(e) {
                Side::New
            } else {
                Side::Diff
            },
        }
    }

    /// The question for the new side of a file: its content at the far end, or in the worktree.
    pub open spec fn new_question(self, path: Seq<char>) -> Question {
        match self.to {
            Some(tip) => answers::question(Topic::Cat, seq![self.root, tip, path]),
            None => answers::question(Topic::File, seq![disk::joined(self.root, path)]),
        }
    }

    /// The content of the new side of a file.
    pub open spec fn new_content(self, path: Seq<char>, a: Answers) -> Option<Option<Seq<u8>>> {
        match self.to {
            Some(tip) => content_or_none(a.content_of(self.root, tip, path)),
            None => a.bytes_of(Topic::File, disk::joined(self.root, path)),
        }
    }

    /// The content of the old side of a file.
    pub open spec fn old_content(self, path: Seq<char>, a: Answers) -> Option<Option<Seq<u8>>> {
        match self.old {
            Some(rev) => content_or_none(a.content_of(self.root, rev, path)),
            None => Some(None),
        }
    }

    /// The question that a row still needs answered.
    pub open spec fn missing(self, e: Entry, a: Answers) -> Seq<Question> {
        match self.side(e) {
            Side::Diff => seq![],
            Side::New => if self.shows(e) && self.new_content(e.path, a) is None {
                seq![self.new_question(e.path)]
            } else {
                seq![]
            },
            Side::Old => if self.shows(e) && self.old_content(e.path, a) is None {
                answers::one(Topic::Cat, seq![self.root, self.old->0, e.path])
            } else {
                seq![]
            },
        }
    }

    /// The questions that the first `n` records still need answered.
    pub open spec fn all_missing(self, n: nat, a: Answers) -> Seq<Question>
        decreases n,
    {
        if n == 0 {
            seq![]
        } else {
            self.all_missing((n - 1) as nat, a) + self.missing(self.entries[n - 1], a)
        }
    }

    /// The counts of a row.
    pub open spec fn row_counts(self, e: Entry, a: Answers) -> (u32, u32) {
        match self.side(e) {
            Side::Diff => if self.counts.contains_key(e.path) {
                self.counts[e.path]
            } else {
                (0, 0)
            },
            Side::New => (line_count(self.new_content(e.path, a)), 0),
            Side::Old => (0, line_count(self.old_content(e.path, a))),
        }
    }

    /// The row of a record.
    pub open spec fn row(self, e: Entry, a: Answers) -> FileRow {
        FileRow {
            path: e.path,
            kind: self.kind(e),
            additions: self.row_counts(e, a).0,
            deletions: self.row_counts(e, a).1,
            previous_path: if self.copied(e) {
                None
            } else {
                e.copy
            },
        }
    }

    /// The rows of the first `n` records.
    pub open spec fn rows(self, n: nat, a: Answers) -> Seq<FileRow>
        decreases n,
    {
        if n == 0 {
            seq![]
        } else {
            let done = self.rows((n - 1) as nat, a);
            let e = self.entries[n - 1];
            if self.shows(e) {
                done.push(self.row(e, a))
            } else {
                done
            }
        }
    }

    /// Whether a row reads the old side.
    pub open spec fn reads_old(self) -> bool {
        exists|i: int|
            0 <= i < self.entries.len() && self.shows(#[trigger] self.entries[i]) && self.side(
                self.entries[i],
            ) is Old
    }
}

/// The content that a reply gives; a failed read gives none.
pub open spec fn content_or_none(r: Option<Result<Option<Seq<u8>>, Seq<char>>>) -> Option<
    Option<Seq<u8>>,
> {
    match r {
        None => None,
        Some(Ok(c)) => Some(c),
        Some(Err(_)) => Some(None),
    }
}

/// The lines of a content; an absent one has none.
pub open spec fn line_count(content: Option<Option<Seq<u8>>>) -> u32 {
    match content {
        Some(Some(bytes)) => counts::line_total(bytes) as u32,
        _ => 0,
    }
}

/// Whether a status pass lists `path` as deleted.
fn is_removed(entries: &Vec<StatusEntry>, path: &str) -> (b: bool)
    ensures
        b == removed(entries.deep_view(), path@),
{
    let ghost es = entries.deep_view();
    let mut i: usize = 0;
    while i < entries.len()
        invariant
            es == entries.deep_view(),
            i <= entries.len(),
            forall|j: int|
                0 <= j < i ==> !((#[trigger] es[j]).path == path@ && model::entry_kind(es[j])
                    == Some(ChangeKind::Deleted)),
        decreases entries.len() - i,
    {
        let e = &entries[i];
        assert(es[i as int] == e.deep_view());
        if text::same(e.path.as_str(), path) {
            if let Some(ChangeKind::Deleted) = model::kind_of(e) {
                return true;
            }
        }
        i = i + 1;
    }
    false
}

/// Whether an added file was copied from `path`.
fn is_source(entries: &Vec<&StatusEntry>, path: &str) -> (b: bool)
    ensures
        b == source(entries.deep_view(), path@),
{
    let ghost es = entries.deep_view();
    let mut i: usize = 0;
    while i < entries.len()
        invariant
            es == entries.deep_view(),
            i <= entries.len(),
            forall|j: int|
                0 <= j < i ==> !((#[trigger] es[j]).status == "A"@ && es[j].copy == Some(path@)),
        decreases entries.len() - i,
    {
        let e = entries[i];
        assert(es[i as int] == e.deep_view());
        if text::same(e.status.as_str(), "A") {
            if let Some(copy) = &e.copy {
                if text::same(copy.as_str(), path) {
                    return true;
                }
            }
        }
        i = i + 1;
    }
    false
}

/// The lines of a content; an absent one has none.
pub fn lines_of(content: Option<&Vec<u8>>) -> (n: u32)
    ensures
        n == (match content {
            Some(bytes) => counts::line_total(bytes@) as u32,
            None => 0,
        }),
{
    match content {
        Some(bytes) => counts::text_line_count(bytes.as_slice()),
        None => 0,
    }
}

/// What the rows of one build are made from.
#[derive(Clone, Copy)]
pub struct Pass<'a> {
    pub root: &'a str,
    pub old: Option<&'a str>,
    pub to: Option<&'a str>,
    pub all: &'a Vec<StatusEntry>,
    pub entries: &'a Vec<&'a StatusEntry>,
    pub counts: &'a StringHashMap<(u32, u32)>,
    pub turn: bool,
}

/// The view of an answered content.
pub open spec fn seen(r: Option<Option<&Vec<u8>>>) -> Option<Option<Seq<u8>>> {
    match r {
        None => None,
        Some(None) => Some(None),
        Some(Some(v)) => Some(Some(v@)),
    }
}

/// The content of a file at a revision; a failed read gives none.
pub fn content_at<'a>(root: &str, rev: &str, path: &str, answers: &'a Answers) -> (r: Option<
    Option<&'a Vec<u8>>,
>)
    ensures
        seen(r) == content_or_none(answers.content_of(root@, rev@, path@)),
{
    match answers.content(root, rev, path) {
        None => None,
        Some(Ok(Some(bytes))) => Some(Some(bytes)),
        Some(Ok(None)) => Some(None),
        Some(Err(_)) => Some(None),
    }
}

impl<'a> Pass<'a> {
    pub open spec fn build(self) -> Build {
        Build {
            root: self.root@,
            old: self.old.deep_view(),
            to: self.to.deep_view(),
            all: self.all.deep_view(),
            entries: self.entries.deep_view(),
            counts: self.counts@,
            turn: self.turn,
        }
    }

    fn copied(&self, e: &StatusEntry) -> (b: bool)
        ensures
            b == self.build().copied(e.deep_view()),
    {
        match (model::kind_of(e), &e.copy) {
            (Some(ChangeKind::Renamed), Some(copy)) => !self.turn && !is_removed(
                self.all,
                copy.as_str(),
            ),
            _ => false,
        }
    }

    pub fn shows(&self, e: &StatusEntry) -> (b: bool)
        ensures
            b == self.build().shows(e.deep_view()),
    {
        match model::kind_of(e) {
            None => false,
            Some(ChangeKind::Deleted) => !is_source(self.entries, e.path.as_str()),
            Some(_) => true,
        }
    }

    fn side(&self, e: &StatusEntry) -> (s: Side)
        ensures
            s == self.build().side(e.deep_view()),
    {
        match model::kind_of(e) {
            Some(ChangeKind::Untracked) => Side::New,
            Some(ChangeKind::Deleted) => {
                if self.counts.contains_key(e.path.as_str()) {
                    Side::Diff
                } else {
                    Side::Old
                }
            },
            _ => {
                if self.copied(e) {
                    Side::New
                } else {
                    Side::Diff
                }
            },
        }
    }

    fn new_content<'b>(&self, path: &str, answers: &'b Answers) -> (r: Option<Option<&'b Vec<u8>>>)
        ensures
            seen(r) == self.build().new_content(path@, *answers),
    {
        match self.to {
            Some(tip) => content_at(self.root, tip, path, answers),
            None => {
                let at = disk::join(self.root, path);
                match answers.bytes(Topic::File, at.as_str()) {
                    None => None,
                    Some(Some(bytes)) => Some(Some(bytes)),
                    Some(None) => Some(None),
                }
            },
        }
    }

    fn old_content<'b>(&self, path: &str, answers: &'b Answers) -> (r: Option<Option<&'b Vec<u8>>>)
        ensures
            seen(r) == self.build().old_content(path@, *answers),
    {
        match self.old {
            Some(rev) => content_at(self.root, rev, path, answers),
            None => Some(None),
        }
    }

    fn new_query(&self, path: &str) -> (q: Query)
        ensures
            q.deep_view() == self.build().new_question(path@),
    {
        match self.to {
            Some(tip) => answers::query(Topic::Cat, answers::words3(self.root, tip, path)),
            None => {
                let at = disk::join(self.root, path);
                answers::query(Topic::File, answers::words1(at.as_str()))
            },
        }
    }

    /// Add the question that a row still needs answered.
    fn ask_missing(&self, e: &StatusEntry, answers: &Answers, qs: &mut Vec<Query>)
        ensures
            final(qs).deep_view() == old(qs).deep_view() + self.build().missing(
                e.deep_view(),
                *answers,
            ),
    {
        let ghost before = qs.deep_view();
        if self.shows(e) {
            match self.side(e) {
                Side::Diff => {},
                Side::New => {
                    if self.new_content(e.path.as_str(), answers).is_none() {
                        qs.push(self.new_query(e.path.as_str()));
                    }
                },
                Side::Old => {
                    if let Some(rev) = self.old {
                        if self.old_content(e.path.as_str(), answers).is_none() {
                            qs.push(
                                answers::query(
                                    Topic::Cat,
                                    answers::words3(self.root, rev, e.path.as_str()),
                                ),
                            );
                        }
                    }
                },
            }
        }
        assert(qs.deep_view() =~= before + self.build().missing(e.deep_view(), *answers));
    }

    /// The questions that the rows still need answered.
    pub fn missing(&self, answers: &Answers) -> (qs: Vec<Query>)
        ensures
            qs.deep_view() == self.build().all_missing(self.entries@.len(), *answers),
    {
        let mut qs: Vec<Query> = Vec::new();
        assert(qs.deep_view() =~= seq![]);
        let mut i: usize = 0;
        while i < self.entries.len()
            invariant
                i <= self.entries.len(),
                qs.deep_view() == self.build().all_missing(i as nat, *answers),
            decreases self.entries.len() - i,
        {
            assert(self.build().entries[i as int] == self.entries@[i as int].deep_view());
            self.ask_missing(self.entries[i], answers, &mut qs);
            i = i + 1;
        }
        qs
    }

    pub fn row(&self, e: &StatusEntry, answers: &Answers) -> (row: ChangedFile)
        requires
            self.build().shows(e.deep_view()),
        ensures
            row.deep_view() == self.build().row(e.deep_view(), *answers),
    {
        let copied = self.copied(e);
        let kind = match model::kind_of(e) {
            Some(ChangeKind::Untracked) if self.turn => ChangeKind::Added,
            Some(kind) => {
                if copied {
                    ChangeKind::Added
                } else {
                    kind
                }
            },
            None => ChangeKind::Modified,
        };
        let n: (u32, u32) = match self.side(e) {
            Side::Diff => match self.counts.get(e.path.as_str()) {
                Some(n) => *n,
                None => (0, 0),
            },
            Side::New => match self.new_content(e.path.as_str(), answers) {
                Some(content) => (lines_of(content), 0),
                None => (0, 0),
            },
            Side::Old => match self.old_content(e.path.as_str(), answers) {
                Some(content) => (0, lines_of(content)),
                None => (0, 0),
            },
        };
        ChangedFile {
            path: e.path.clone(),
            kind,
            additions: n.0,
            deletions: n.1,
            previous_path: if copied {
                None
            } else {
                e.copy.clone()
            },
        }
    }

    pub fn reads_old(&self) -> (b: bool)
        ensures
            b == self.build().reads_old(),
    {
        let ghost es = self.build().entries;
        let mut i: usize = 0;
        while i < self.entries.len()
            invariant
                es == self.build().entries,
                i <= self.entries.len(),
                forall|j: int|
                    0 <= j < i ==> !(self.build().shows(#[trigger] es[j]) && self.build().side(
                        es[j],
                    ) is Old),
            decreases self.entries.len() - i,
        {
            let e = self.entries[i];
            assert(es[i as int] == e.deep_view());
            if self.shows(e) {
                if let Side::Old = self.side(e) {
                    return true;
                }
            }
            i = i + 1;
        }
        false
    }
}

/// The rows of a build, once all they read is answered.
pub open spec fn listed_step(b: Build, a: Answers) -> Next<Result<Seq<FileRow>, Seq<char>>> {
    let asks = b.all_missing(b.entries.len(), a);
    if asks.len() > 0 {
        Next::Ask(asks)
    } else {
        Next::Done(Ok(model::listing(b.rows(b.entries.len(), a))))
    }
}

/// The rows of a build, once all they read is answered.
pub fn listed(pass: &Pass, answers: &Answers) -> (r: Step<Result<Vec<ChangedFile>, GitFail>>)
    ensures
        answers::tried(r) == listed_step(pass.build(), *answers),
{
    let qs = pass.missing(answers);
    if qs.len() > 0 {
        return Step::Ask(qs);
    }
    let ghost b = pass.build();
    let mut rows: Vec<ChangedFile> = Vec::new();
    assert(rows.deep_view() =~= seq![]);
    let mut i: usize = 0;
    while i < pass.entries.len()
        invariant
            b == pass.build(),
            i <= pass.entries.len(),
            rows.deep_view() == model::listing(b.rows(i as nat, *answers)),
            model::in_order(rows.deep_view()),
        decreases pass.entries.len() - i,
    {
        let e = pass.entries[i];
        assert(b.entries[i as int] == e.deep_view());
        if pass.shows(e) {
            proof {
                let done = b.rows(i as nat, *answers);
                assert(done.push(b.row(e.deep_view(), *answers)).drop_last() =~= done);
            }
            model::add_new_row(&mut rows, pass.row(e, answers));
        }
        i = i + 1;
    }
    Step::Done(Ok(rows))
}

/// References to all of `entries`.
pub fn every<'a>(entries: &'a Vec<StatusEntry>) -> (r: Vec<&'a StatusEntry>)
    ensures
        r.deep_view() == entries.deep_view(),
{
    let mut out: Vec<&'a StatusEntry> = Vec::new();
    let mut i: usize = 0;
    while i < entries.len()
        invariant
            i <= entries.len(),
            out.deep_view() =~= entries.deep_view().take(i as int),
        decreases entries.len() - i,
    {
        let ghost done = out.deep_view();
        out.push(&entries[i]);
        assert(out.deep_view() =~= done.push(entries@[i as int].deep_view()));
        i = i + 1;
    }
    assert(out.deep_view() =~= entries.deep_view());
    out
}

// --- what the rows promise ---------------------------------------------------------------------------

/// A move is one row: the new name is renamed from the old one, and the record of the old name folds
/// into it.
pub proof fn law_move_is_one_row(b: Build, new: Entry, old: Entry, a: Answers)
    requires
        b.entries.contains(new),
        b.all.contains(old),
        new.status == "A"@,
        new.copy == Some(old.path),
        model::entry_kind(old) == Some(ChangeKind::Deleted),
    ensures
        b.shows(new),
        !b.shows(old),
        b.row(new, a).kind == ChangeKind::Renamed,
        b.row(new, a).previous_path == Some(old.path),
{
    reveal_strlit("A");
    reveal_strlit("M");
    assert("A"@[0] != "M"@[0]);
    let i = choose|i: int| 0 <= i < b.all.len() && b.all[i] == old;
    assert(b.all[i].path == old.path);
    let j = choose|j: int| 0 <= j < b.entries.len() && b.entries[j] == new;
    assert(b.entries[j].status == "A"@);
}

/// Outside the last turn, a copy whose source stays is an added file: it names no previous path, and
/// all its lines are additions.
pub proof fn law_copy_is_an_added_file(b: Build, e: Entry, a: Answers)
    requires
        !b.turn,
        e.status == "A"@,
        e.copy is Some,
        !removed(b.all, e.copy->0),
    ensures
        b.shows(e),
        b.row(e, a).kind == ChangeKind::Added,
        b.row(e, a).previous_path is None,
        b.row(e, a).additions == line_count(b.new_content(e.path, a)),
        b.row(e, a).deletions == 0,
{
    reveal_strlit("A");
    reveal_strlit("M");
    assert("A"@[0] != "M"@[0]);
}

/// In the last turn, a file that was clean at the turn start and has a copy source names that source
/// as its previous path, whether or not the source stays, and counts as the diff counts it.
pub proof fn law_copy_in_the_last_turn_is_a_move(b: Build, e: Entry, a: Answers)
    requires
        b.turn,
        e.status == "A"@,
        e.copy is Some,
    ensures
        b.shows(e),
        b.row(e, a).kind == ChangeKind::Renamed,
        b.row(e, a).previous_path == e.copy,
        (b.row(e, a).additions, b.row(e, a).deletions) == (if b.counts.contains_key(e.path) {
            b.counts[e.path]
        } else {
            (0u32, 0u32)
        }),
{
    reveal_strlit("A");
    reveal_strlit("M");
    assert("A"@[0] != "M"@[0]);
}

/// A build reads at most one content for each record that changed.
pub proof fn law_build_reads_one_content_per_change(b: Build, n: nat, a: Answers)
    ensures
        b.all_missing(n, a).len() <= n,
    decreases n,
{
    if n > 0 {
        law_build_reads_one_content_per_change(b, (n - 1) as nat, a);
    }
}

} // verus!
