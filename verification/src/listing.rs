//! What a list of changed files holds: which command it comes from, which records it lists, and what
//! each row says, in terms of what was answered.

use vstd::prelude::*;
use vstd::string::*;

use crate::answers::{Answers, Exit, Next, Question, Reply, Run, Topic};
use crate::counts;
use crate::disk;
use crate::last_turn;
use crate::manifest::{self, ManifestView};
use crate::model::{self, ChangeKind, Entry, FileRow, Scope, StatusEntry};
use crate::outside;
use crate::rows::{self, Build};
use crate::sl;
use crate::store;

verus! {

broadcast use vstd::string::group_string_axioms;

// --- what a build makes of its records -----------------------------------------------------------

/// The status codes are five.
proof fn lemma_statuses()
    ensures
        "M"@ != "A"@,
        "M"@ != "R"@,
        "M"@ != "!"@,
        "M"@ != "?"@,
        "A"@ != "R"@,
        "A"@ != "!"@,
        "A"@ != "?"@,
        "R"@ != "!"@,
        "R"@ != "?"@,
        "!"@ != "?"@,
{
    reveal_strlit("M");
    reveal_strlit("A");
    reveal_strlit("R");
    reveal_strlit("!");
    reveal_strlit("?");
    assert("M"@[0] == 'M' && "A"@[0] == 'A' && "R"@[0] == 'R' && "!"@[0] == '!' && "?"@[0] == '?');
}

/// Every row of a build is the row of a record that shows.
proof fn lemma_row_from(b: Build, n: nat, j: int, a: Answers)
    requires
        n <= b.entries.len(),
        0 <= j < b.rows(n, a).len(),
    ensures
        exists|k: int|
            0 <= k < n && b.shows(#[trigger] b.entries[k]) && b.rows(n, a)[j] == b.row(
                b.entries[k],
                a,
            ),
    decreases n,
{
    let m = (n - 1) as nat;
    let done = b.rows(m, a);
    if j < done.len() {
        lemma_row_from(b, m, j, a);
        let k = choose|k: int|
            0 <= k < m && b.shows(#[trigger] b.entries[k]) && done[j] == b.row(b.entries[k], a);
        assert(b.shows(b.entries[k]));
    } else {
        assert(b.shows(b.entries[n - 1]));
    }
}

/// Every record that shows has its row in a build.
proof fn lemma_row_of(b: Build, n: nat, k: int, a: Answers)
    requires
        0 <= k < n <= b.entries.len(),
        b.shows(b.entries[k]),
    ensures
        b.rows(n, a).contains(b.row(b.entries[k], a)),
    decreases n,
{
    let m = (n - 1) as nat;
    let done = b.rows(m, a);
    let out = b.rows(n, a);
    let row = b.row(b.entries[k], a);
    if k < m {
        lemma_row_of(b, m, k, a);
        let j = choose|j: int| 0 <= j < done.len() && done[j] == row;
        assert(out[j] == row);
    } else {
        assert(out[done.len() as int] == row);
    }
}

/// What the listing of a build holds.
proof fn lemma_listing(b: Build, a: Answers)
    ensures
        ({
            let n = b.entries.len();
            let out = model::listing(b.rows(n, a));
            &&& forall|j: int|
                0 <= j < out.len() ==> exists|k: int|
                    0 <= k < n && b.shows(#[trigger] b.entries[k]) && #[trigger] out[j] == b.row(
                        b.entries[k],
                        a,
                    )
            &&& forall|k: int|
                0 <= k < n && b.shows(#[trigger] b.entries[k]) ==> model::lists(
                    out,
                    b.entries[k].path,
                )
            &&& last_turn::entries_once(b.entries) ==> forall|k: int|
                0 <= k < n && b.shows(#[trigger] b.entries[k]) ==> out.contains(
                    b.row(b.entries[k], a),
                )
        }),
{
    let n = b.entries.len();
    let rs = b.rows(n, a);
    let out = model::listing(rs);
    model::law_listing_has_each_path_once(rs);
    assert forall|j: int| 0 <= j < out.len() implies exists|k: int|
        0 <= k < n && b.shows(#[trigger] b.entries[k]) && #[trigger] out[j] == b.row(
            b.entries[k],
            a,
        ) by {
        assert(out.contains(out[j]));
        assert(rs.contains(out[j]));
        let i = choose|i: int| 0 <= i < rs.len() && rs[i] == out[j];
        lemma_row_from(b, n, i, a);
    }
    assert forall|k: int| 0 <= k < n && b.shows(#[trigger] b.entries[k]) implies model::lists(
        out,
        b.entries[k].path,
    ) && (last_turn::entries_once(b.entries) ==> out.contains(b.row(b.entries[k], a))) by {
        lemma_row_of(b, n, k, a);
        let row = b.row(b.entries[k], a);
        let i = choose|i: int| 0 <= i < rs.len() && rs[i] == row;
        assert(rs[i].path == b.entries[k].path);
        assert(model::lists(rs, b.entries[k].path));
        if last_turn::entries_once(b.entries) {
            lemma_paths_once(b, n, a);
            assert(model::first_of_its_path(rs, i)) by {
                assert forall|j: int| 0 <= j < i implies (#[trigger] rs[j]).path != rs[i].path by {}
            }
            assert(out.contains(rs[i]));
        }
    }
}

/// Where the records name each path once, the rows do.
proof fn lemma_paths_once(b: Build, n: nat, a: Answers)
    requires
        n <= b.entries.len(),
        last_turn::entries_once(b.entries),
    ensures
        model::paths_once(b.rows(n, a)),
    decreases n,
{
    if n > 0 {
        let m = (n - 1) as nat;
        let done = b.rows(m, a);
        let out = b.rows(n, a);
        lemma_paths_once(b, m, a);
        assert forall|i: int, j: int| 0 <= i < j < out.len() implies #[trigger] out[i].path
            != #[trigger] out[j].path by {
            assert(out[i] == done[i]);
            if j < done.len() {
                assert(out[j] == done[j]);
            } else {
                lemma_row_from(b, m, i, a);
                let k = choose|k: int|
                    0 <= k < m && b.shows(#[trigger] b.entries[k]) && done[i] == b.row(
                        b.entries[k],
                        a,
                    );
                assert(b.entries[k].path != b.entries[n - 1].path);
            }
        }
    }
}

// --- what the rows say ---------------------------------------------------------------------------

/// Whether an added record names `path` as what it was copied from.
pub open spec fn moved_from(records: Seq<Entry>, path: Seq<char>) -> bool {
    exists|j: int|
        0 <= j < records.len() && (#[trigger] records[j]).status == "A"@ && records[j].copy == Some(
            path,
        )
}

/// Whether a record says that `path` was removed or is missing.
pub open spec fn gone_at(records: Seq<Entry>, path: Seq<char>) -> bool {
    exists|j: int|
        0 <= j < records.len() && (#[trigger] records[j]).path == path && (records[j].status == "R"@
            || records[j].status == "!"@)
}

/// Whether a record among others is to be listed: a change of a file that is there, or a removal
/// that is not the old name of a move.
pub open spec fn tells_change(records: Seq<Entry>, e: Entry) -> bool {
    ||| e.status == "M"@
    ||| e.status == "A"@
    ||| e.status == "?"@
    ||| (e.status == "R"@ || e.status == "!"@) && !moved_from(records, e.path)
}

/// The lines of a worktree file, as it was read.
pub open spec fn worktree_lines(root: Seq<char>, path: Seq<char>, a: Answers) -> u32 {
    match a.reply(Topic::File, seq![disk::joined(root, path)]) {
        Some(Reply::Bytes(Some(bytes))) => counts::line_total(bytes@) as u32,
        _ => 0,
    }
}

/// The lines of a file at a commit, as it was read.
pub open spec fn commit_lines(root: Seq<char>, rev: Seq<char>, path: Seq<char>, a: Answers) -> u32 {
    match a.reply(Topic::Cat, seq![root, rev, path]) {
        Some(Reply::Content(Ok(Some(bytes)))) => counts::line_total(bytes@) as u32,
        _ => 0,
    }
}

proof fn lemma_same_meaning(b: Build, e: Entry)
    ensures
        b.shows(e) <==> tells_change(b.entries, e),
        forall|p: Seq<char>| #[trigger] rows::removed(b.all, p) <==> gone_at(b.all, p),
{
    lemma_statuses();
    assert(rows::source(b.entries, e.path) <==> moved_from(b.entries, e.path)) by {
        if rows::source(b.entries, e.path) {
            let j = choose|j: int|
                0 <= j < b.entries.len() && (#[trigger] b.entries[j]).status == "A"@
                    && b.entries[j].copy == Some(e.path);
            assert(b.entries[j].status == "A"@);
        }
        if moved_from(b.entries, e.path) {
            let j = choose|j: int|
                0 <= j < b.entries.len() && (#[trigger] b.entries[j]).status == "A"@
                    && b.entries[j].copy == Some(e.path);
            assert(b.entries[j].status == "A"@);
        }
    }
    assert forall|p: Seq<char>| #[trigger] rows::removed(b.all, p) <==> gone_at(b.all, p) by {
        if rows::removed(b.all, p) {
            let j = choose|j: int|
                0 <= j < b.all.len() && (#[trigger] b.all[j]).path == p && model::entry_kind(
                    b.all[j],
                ) == Some(ChangeKind::Deleted);
            assert(b.all[j].path == p);
        }
        if gone_at(b.all, p) {
            let j = choose|j: int|
                0 <= j < b.all.len() && (#[trigger] b.all[j]).path == p && (b.all[j].status == "R"@
                    || b.all[j].status == "!"@);
            assert(b.all[j].path == p);
        }
    }
}

/// Where a build asks nothing, no record of it does.
proof fn lemma_none_missing(b: Build, n: nat, k: int, a: Answers)
    requires
        0 <= k < n <= b.entries.len(),
        b.all_missing(n, a).len() == 0,
    ensures
        b.missing(b.entries[k], a).len() == 0,
    decreases n,
{
    if k < n - 1 {
        lemma_none_missing(b, (n - 1) as nat, k, a);
    }
}

/// Whether a worktree file was read, be it there or not.
pub open spec fn worktree_read(root: Seq<char>, path: Seq<char>, a: Answers) -> bool {
    a.reply(Topic::File, seq![disk::joined(root, path)]) matches Some(Reply::Bytes(_))
}

/// Whether a file at a commit was read, be it there or not.
pub open spec fn commit_read(root: Seq<char>, rev: Seq<char>, path: Seq<char>, a: Answers) -> bool {
    a.reply(Topic::Cat, seq![root, rev, path]) matches Some(Reply::Content(_))
}

/// What a change set of two ends lists. It comes from one status pass and one diff between the ends.
/// Every record that tells a change has its path listed, and nothing else is listed. Where the pass
/// names each path once, each row says what its record and the diff say: its kind is the one that
/// the status code stands for, and its counts are the diff's pair for its path, or none; only a
/// file that the diff does not show counts its own lines, once read: an untracked one, a copy whose
/// source stays, and a removal that the diff leaves out.
pub proof fn law_change_set_says_what_status_and_diff_say(
    root: Seq<char>,
    from: Option<Seq<char>>,
    to: Option<Seq<char>>,
    status: Exit,
    list: Vec<StatusEntry>,
    diff: Exit,
    out: Seq<FileRow>,
    i: int,
    a: Answers,
)
    requires
        from is None ==> to is None,
        a.reply(
            Topic::Run,
            match (from, to) {
                (Some(f), Some(t)) => seq![
                    root,
                    "status"@,
                    "-mardu"@,
                    "-C"@,
                    "-Tjson"@,
                    "--rev"@,
                    f,
                    "--rev"@,
                    t,
                ],
                (Some(f), None) => seq![root, "status"@, "-mardu"@, "-C"@, "-Tjson"@, "--rev"@, f],
                _ => seq![root, "status"@, "-mardu"@, "-C"@, "-Tjson"@],
            },
        ) == Some(Reply::Run(Run::Ended(status))),
        status.code == Some(0i32),
        a.reply(Topic::ParseStatus, seq![outside::lossy(status.stdout@)]) == Some(
            Reply::Status(Some(list)),
        ),
        a.reply(
            Topic::Run,
            match (from, to) {
                (Some(f), Some(t)) => seq![
                    root,
                    "diff"@,
                    "--git"@,
                    "--no-binary"@,
                    "-r"@,
                    f,
                    "-r"@,
                    t,
                ],
                (Some(f), None) => seq![root, "diff"@, "--git"@, "--no-binary"@, "-r"@, f],
                _ => seq![root, "diff"@, "--git"@, "--no-binary"@],
            },
        ) == Some(Reply::Run(Run::Ended(diff))),
        diff.code == Some(0i32),
        sl::set_step(root, from, to, a) == Next::<Result<Seq<FileRow>, Seq<char>>>::Done(Ok(out)),
        0 <= i < list@.len(),
    ensures
        ({
            let es = list.deep_view();
            let e = es[i];
            let counts = counts::counts_of(outside::lossy(diff.stdout@));
            let (plus, minus) = if counts.contains_key(e.path) {
                counts[e.path]
            } else {
                (0u32, 0u32)
            };
            let lines = match to {
                Some(t) => commit_lines(root, t, e.path, a),
                None => worktree_lines(root, e.path, a),
            };
            let old_lines = match (from, sl::parent_step(root, a)) {
                (Some(f), _) => commit_lines(root, f, e.path, a),
                (None, Next::Done(Some(p))) => commit_lines(root, p, e.path, a),
                _ => 0,
            };
            let row = |kind: ChangeKind, n: (u32, u32), previous: Option<Seq<char>>|
                FileRow {
                    path: e.path,
                    kind,
                    additions: n.0,
                    deletions: n.1,
                    previous_path: previous,
                };
            &&& e.status == "?"@ || (e.status == "A"@ && e.copy is Some && !gone_at(es, e.copy->0))
                ==> (match to {
                Some(t) => commit_read(root, t, e.path, a),
                None => worktree_read(root, e.path, a),
            })
            &&& (e.status == "R"@ || e.status == "!"@) && !moved_from(es, e.path)
                && !counts.contains_key(e.path) ==> (match (from, sl::parent_step(root, a)) {
                (Some(f), _) => commit_read(root, f, e.path, a),
                (None, Next::Done(Some(p))) => commit_read(root, p, e.path, a),
                (None, Next::Done(None)) => true,
                (None, Next::Ask(_)) => false,
            })
            &&& tells_change(es, e) ==> model::lists(out, e.path)
            &&& forall|k: int|
                0 <= k < out.len() ==> exists|j: int|
                    0 <= j < es.len() && (#[trigger] out[k]).path == (#[trigger] es[j]).path
                        && tells_change(es, es[j])
            &&& last_turn::entries_once(es) && e.status == "M"@ ==> out.contains(
                row(ChangeKind::Modified, (plus, minus), e.copy),
            )
            &&& last_turn::entries_once(es) && e.status == "A"@ ==> (match e.copy {
                None => out.contains(row(ChangeKind::Added, (plus, minus), None)),
                Some(source) => if gone_at(es, source) {
                    out.contains(row(ChangeKind::Renamed, (plus, minus), Some(source)))
                } else {
                    out.contains(row(ChangeKind::Added, (lines, 0), None))
                },
            })
            &&& last_turn::entries_once(es) && e.status == "?"@ ==> out.contains(
                row(ChangeKind::Untracked, (lines, 0), e.copy),
            )
            &&& last_turn::entries_once(es) && (e.status == "R"@ || e.status == "!"@)
                && !moved_from(es, e.path) ==> out.contains(
                row(
                    ChangeKind::Deleted,
                    if counts.contains_key(e.path) {
                        (plus, minus)
                    } else {
                        (0, old_lines)
                    },
                    e.copy,
                ),
            )
        }),
{
    let es = list.deep_view();
    let e = es[i];
    let counts = counts::counts_of(outside::lossy(diff.stdout@));
    let sw = match (from, to) {
        (Some(f), Some(t)) => seq![
            root,
            "status"@,
            "-mardu"@,
            "-C"@,
            "-Tjson"@,
            "--rev"@,
            f,
            "--rev"@,
            t,
        ],
        (Some(f), None) => seq![root, "status"@, "-mardu"@, "-C"@, "-Tjson"@, "--rev"@, f],
        _ => seq![root, "status"@, "-mardu"@, "-C"@, "-Tjson"@],
    };
    let dw = match (from, to) {
        (Some(f), Some(t)) => seq![root, "diff"@, "--git"@, "--no-binary"@, "-r"@, f, "-r"@, t],
        (Some(f), None) => seq![root, "diff"@, "--git"@, "--no-binary"@, "-r"@, f],
        _ => seq![root, "diff"@, "--git"@, "--no-binary"@],
    };
    assert(seq![root] + sl::status_args(from, to) =~= sw);
    assert(seq![root] + sl::diff_args(from, to) =~= dw);
    assert(sl::status_step(root, from, to, a) == Next::<Result<Seq<Entry>, Seq<char>>>::Done(
        Ok(es),
    ));
    assert(sl::diff_step(root, from, to, a) == Next::<
        Result<Map<Seq<char>, (u32, u32)>, Seq<char>>,
    >::Done(Ok(counts)));
    let b0 = Build { root, old: from, to, all: es, entries: es, counts, turn: false };
    let old = match (from, sl::parent_step(root, a)) {
        (None, Next::Done(p)) if b0.reads_old() => p,
        _ => from,
    };
    let b = Build { old, ..b0 };
    assert(out == model::listing(b.rows(es.len(), a)));
    lemma_listing(b, a);
    lemma_none_missing(b, es.len(), i, a);
    lemma_statuses();
    lemma_same_meaning(b, e);
    assert(b.entries[i] == e);
    assert forall|k: int| 0 <= k < out.len() implies exists|j: int|
        0 <= j < es.len() && (#[trigger] out[k]).path == (#[trigger] es[j]).path && tells_change(
            es,
            es[j],
        ) by {
        let j = choose|j: int|
            0 <= j < es.len() && b.shows(#[trigger] b.entries[j]) && out[k] == b.row(
                b.entries[j],
                a,
            );
        lemma_same_meaning(b, es[j]);
        assert(out[k].path == es[j].path);
    }
    if e.status == "A"@ && e.copy is Some {
        assert(rows::removed(b.all, e.copy->0) <==> gone_at(b.all, e.copy->0));
    }
    if (e.status == "R"@ || e.status == "!"@) && !moved_from(es, e.path) && !counts.contains_key(
        e.path,
    ) {
        assert(b0.shows(b0.entries[i])) by {
            lemma_same_meaning(b0, e);
        }
        assert(b0.side(b0.entries[i]) is Old);
        assert(b0.reads_old());
    }
}

/// The question that runs `sl` with these words, the first of which is the directory.
spec fn run_question(words: Seq<Seq<char>>) -> Seq<Question> {
    seq![Question { topic: Topic::Run, words, acts: seq![] }]
}

/// What a build asks and where it ends without rows. It runs the status pass, has its output parsed,
/// and only for a pass that lists something runs the diff; a command that did not succeed and an
/// output that does not parse are errors, and a pass that lists nothing is no change.
proof fn lemma_set_asks(
    root: Seq<char>,
    from: Option<Seq<char>>,
    to: Option<Seq<char>>,
    sw: Seq<Seq<char>>,
    dw: Seq<Seq<char>>,
    a: Answers,
)
    requires
        sw == seq![root] + sl::status_args(from, to),
        dw == seq![root] + sl::diff_args(from, to),
    ensures
        ({
            let end = sl::set_step(root, from, to, a);
            &&& !(a.reply(Topic::Run, sw) matches Some(Reply::Run(_))) ==> end == Next::<
                Result<Seq<FileRow>, Seq<char>>,
            >::Ask(run_question(sw))
            &&& a.reply(Topic::Run, sw) matches Some(Reply::Run(Run::Failed(_))) ==> (end matches Next::Done(
                Err(_),
            ))
            &&& a.reply(Topic::Run, sw) matches Some(Reply::Run(Run::Ended(exit))) ==> {
                let json = outside::lossy(exit.stdout@);
                &&& exit.code != Some(0i32) ==> (end matches Next::Done(Err(_)))
                &&& exit.code == Some(0i32) ==> (match a.reply(Topic::ParseStatus, seq![json]) {
                    Some(Reply::Status(None)) => end == Next::<
                        Result<Seq<FileRow>, Seq<char>>,
                    >::Done(Err("parsing sl status -Tjson"@)),
                    Some(Reply::Status(Some(list))) => if list@.len() == 0 {
                        end == Next::<Result<Seq<FileRow>, Seq<char>>>::Done(Ok(seq![]))
                    } else {
                        match a.reply(Topic::Run, dw) {
                            Some(Reply::Run(Run::Ended(diff))) => diff.code != Some(0i32)
                                ==> (end matches Next::Done(Err(_))),
                            Some(Reply::Run(Run::Failed(_))) => (end matches Next::Done(Err(_))),
                            _ => end == Next::<Result<Seq<FileRow>, Seq<char>>>::Ask(
                                run_question(dw),
                            ),
                        }
                    },
                    _ => end == Next::<Result<Seq<FileRow>, Seq<char>>>::Ask(
                        seq![Question { topic: Topic::ParseStatus, words: seq![json], acts: seq![] }],
                    ),
                })
            }
        }),
{
    if let Some(Reply::Run(Run::Ended(exit))) = a.reply(Topic::Run, sw) {
        if let Some(Reply::Status(Some(list))) = a.reply(
            Topic::ParseStatus,
            seq![outside::lossy(exit.stdout@)],
        ) {
            assert(list.deep_view().len() == list@.len());
        }
    }
}

/// The uncommitted changes are the working copy against its parent, whatever the base: one status
/// pass without a revision, whose output is parsed, and for one that lists something one diff. A
/// command that did not succeed and an output that does not parse are errors, and a pass that lists
/// nothing is no change.
pub proof fn law_uncommitted_changes_are_asked_of_the_working_copy(root: Seq<char>, base: Option<Seq<char>>, tip: Option<Seq<char>>, a: Answers)
    ensures
        ({
            let end = sl::files_step(root, Scope::Uncommitted, base, tip, a);
            let sw = seq![root, "status"@, "-mardu"@, "-C"@, "-Tjson"@];
            let dw = seq![root, "diff"@, "--git"@, "--no-binary"@];
            &&& !(a.reply(Topic::Run, sw) matches Some(Reply::Run(_))) ==> end == Next::<
                Result<Seq<FileRow>, Seq<char>>,
            >::Ask(seq![Question { topic: Topic::Run, words: sw, acts: seq![] }])
            &&& a.reply(Topic::Run, sw) matches Some(Reply::Run(Run::Failed(_))) ==> (end matches Next::Done(
                Err(_),
            ))
            &&& a.reply(Topic::Run, sw) matches Some(Reply::Run(Run::Ended(exit))) ==> {
                let json = outside::lossy(exit.stdout@);
                &&& exit.code != Some(0i32) ==> (end matches Next::Done(Err(_)))
                &&& exit.code == Some(0i32) ==> (match a.reply(Topic::ParseStatus, seq![json]) {
                    Some(Reply::Status(None)) => end == Next::<
                        Result<Seq<FileRow>, Seq<char>>,
                    >::Done(Err("parsing sl status -Tjson"@)),
                    Some(Reply::Status(Some(list))) => if list@.len() == 0 {
                        end == Next::<Result<Seq<FileRow>, Seq<char>>>::Done(Ok(seq![]))
                    } else {
                        match a.reply(Topic::Run, dw) {
                            Some(Reply::Run(Run::Ended(diff))) => diff.code != Some(0i32)
                                ==> (end matches Next::Done(Err(_))),
                            Some(Reply::Run(Run::Failed(_))) => (end matches Next::Done(Err(_))),
                            _ => end == Next::<Result<Seq<FileRow>, Seq<char>>>::Ask(
                                seq![Question { topic: Topic::Run, words: dw, acts: seq![] }],
                            ),
                        }
                    },
                    _ => end == Next::<Result<Seq<FileRow>, Seq<char>>>::Ask(
                        seq![Question { topic: Topic::ParseStatus, words: seq![json], acts: seq![] }],
                    ),
                })
            }
        }),
{
    let sw = seq![root, "status"@, "-mardu"@, "-C"@, "-Tjson"@];
    let dw = seq![root, "diff"@, "--git"@, "--no-binary"@];
    assert(sw =~= seq![root] + sl::status_args(None, None));
    assert(dw =~= seq![root] + sl::diff_args(None, None));
    lemma_set_asks(root, None, None, sw, dw, a);
}

/// A `branch` range with a pinned far end is asked between the base itself and that end: one status
/// pass and one diff, each with both revisions, the base first. A
/// command that did not succeed and an output that does not parse are errors, and a pass that lists
/// nothing is no change.
pub proof fn law_commit_changes_are_asked_between_its_ends(root: Seq<char>, base: Seq<char>, tip: Seq<char>, a: Answers)
    ensures
        ({
            let end = sl::files_step(root, Scope::Branch, Some(base), Some(tip), a);
            let sw = seq![root, "status"@, "-mardu"@, "-C"@, "-Tjson"@, "--rev"@, base, "--rev"@, tip];
            let dw = seq![root, "diff"@, "--git"@, "--no-binary"@, "-r"@, base, "-r"@, tip];
            &&& !(a.reply(Topic::Run, sw) matches Some(Reply::Run(_))) ==> end == Next::<
                Result<Seq<FileRow>, Seq<char>>,
            >::Ask(seq![Question { topic: Topic::Run, words: sw, acts: seq![] }])
            &&& a.reply(Topic::Run, sw) matches Some(Reply::Run(Run::Failed(_))) ==> (end matches Next::Done(
                Err(_),
            ))
            &&& a.reply(Topic::Run, sw) matches Some(Reply::Run(Run::Ended(exit))) ==> {
                let json = outside::lossy(exit.stdout@);
                &&& exit.code != Some(0i32) ==> (end matches Next::Done(Err(_)))
                &&& exit.code == Some(0i32) ==> (match a.reply(Topic::ParseStatus, seq![json]) {
                    Some(Reply::Status(None)) => end == Next::<
                        Result<Seq<FileRow>, Seq<char>>,
                    >::Done(Err("parsing sl status -Tjson"@)),
                    Some(Reply::Status(Some(list))) => if list@.len() == 0 {
                        end == Next::<Result<Seq<FileRow>, Seq<char>>>::Done(Ok(seq![]))
                    } else {
                        match a.reply(Topic::Run, dw) {
                            Some(Reply::Run(Run::Ended(diff))) => diff.code != Some(0i32)
                                ==> (end matches Next::Done(Err(_))),
                            Some(Reply::Run(Run::Failed(_))) => (end matches Next::Done(Err(_))),
                            _ => end == Next::<Result<Seq<FileRow>, Seq<char>>>::Ask(
                                seq![Question { topic: Topic::Run, words: dw, acts: seq![] }],
                            ),
                        }
                    },
                    _ => end == Next::<Result<Seq<FileRow>, Seq<char>>>::Ask(
                        seq![Question { topic: Topic::ParseStatus, words: seq![json], acts: seq![] }],
                    ),
                })
            }
        }),
{
    let sw = seq![root, "status"@, "-mardu"@, "-C"@, "-Tjson"@, "--rev"@, base, "--rev"@, tip];
    let dw = seq![root, "diff"@, "--git"@, "--no-binary"@, "-r"@, base, "-r"@, tip];
    assert(sw =~= seq![root] + sl::status_args(Some(base), Some(tip)));
    assert(dw =~= seq![root] + sl::diff_args(Some(base), Some(tip)));
    lemma_set_asks(root, Some(base), Some(tip), sw, dw, a);
}

/// A `branch` range to the working copy is asked from the merge base: one status pass and one diff,
/// each with that one revision. A
/// command that did not succeed and an output that does not parse are errors, and a pass that lists
/// nothing is no change.
pub proof fn law_branch_changes_are_asked_from_the_merge_base(root: Seq<char>, base: Seq<char>, merge: String, a: Answers)
    requires
        a.reply(Topic::MergeBase, seq![root, base]) == Some(Reply::Rev(Some(merge))),
    ensures
        ({
            let end = sl::files_step(root, Scope::Branch, Some(base), None, a);
            let sw = seq![root, "status"@, "-mardu"@, "-C"@, "-Tjson"@, "--rev"@, merge@];
            let dw = seq![root, "diff"@, "--git"@, "--no-binary"@, "-r"@, merge@];
            &&& !(a.reply(Topic::Run, sw) matches Some(Reply::Run(_))) ==> end == Next::<
                Result<Seq<FileRow>, Seq<char>>,
            >::Ask(seq![Question { topic: Topic::Run, words: sw, acts: seq![] }])
            &&& a.reply(Topic::Run, sw) matches Some(Reply::Run(Run::Failed(_))) ==> (end matches Next::Done(
                Err(_),
            ))
            &&& a.reply(Topic::Run, sw) matches Some(Reply::Run(Run::Ended(exit))) ==> {
                let json = outside::lossy(exit.stdout@);
                &&& exit.code != Some(0i32) ==> (end matches Next::Done(Err(_)))
                &&& exit.code == Some(0i32) ==> (match a.reply(Topic::ParseStatus, seq![json]) {
                    Some(Reply::Status(None)) => end == Next::<
                        Result<Seq<FileRow>, Seq<char>>,
                    >::Done(Err("parsing sl status -Tjson"@)),
                    Some(Reply::Status(Some(list))) => if list@.len() == 0 {
                        end == Next::<Result<Seq<FileRow>, Seq<char>>>::Done(Ok(seq![]))
                    } else {
                        match a.reply(Topic::Run, dw) {
                            Some(Reply::Run(Run::Ended(diff))) => diff.code != Some(0i32)
                                ==> (end matches Next::Done(Err(_))),
                            Some(Reply::Run(Run::Failed(_))) => (end matches Next::Done(Err(_))),
                            _ => end == Next::<Result<Seq<FileRow>, Seq<char>>>::Ask(
                                seq![Question { topic: Topic::Run, words: dw, acts: seq![] }],
                            ),
                        }
                    },
                    _ => end == Next::<Result<Seq<FileRow>, Seq<char>>>::Ask(
                        seq![Question { topic: Topic::ParseStatus, words: seq![json], acts: seq![] }],
                    ),
                })
            }
        }),
{
    let sw = seq![root, "status"@, "-mardu"@, "-C"@, "-Tjson"@, "--rev"@, merge@];
    let dw = seq![root, "diff"@, "--git"@, "--no-binary"@, "-r"@, merge@];
    assert(sw =~= seq![root] + sl::status_args(Some(merge@), None));
    assert(dw =~= seq![root] + sl::diff_args(Some(merge@), None));
    lemma_set_asks(root, Some(merge@), None, sw, dw, a);
}

/// Which ends a scope has. The uncommitted changes have none; a `branch` range has the merge base, or
/// the base itself where the far end is pinned; where there is no base or no merge base nothing is
/// listed, and the last turn lists nothing here.
pub proof fn law_scopes_have_their_ends(
    root: Seq<char>,
    base: Seq<char>,
    tip: Option<Seq<char>>,
    far: Seq<char>,
    merge: String,
    a: Answers,
)
    ensures
        sl::files_step(root, Scope::Uncommitted, Some(base), tip, a) == sl::set_step(
            root,
            None,
            None,
            a,
        ),
        sl::files_step(root, Scope::Uncommitted, None, tip, a) == sl::set_step(root, None, None, a),
        sl::files_step(root, Scope::Branch, Some(base), Some(far), a) == sl::set_step(
            root,
            Some(base),
            Some(far),
            a,
        ),
        sl::files_step(root, Scope::Branch, None, tip, a) == Next::<
            Result<Seq<FileRow>, Seq<char>>,
        >::Done(Ok(seq![])),
        sl::files_step(root, Scope::LastTurn, Some(base), tip, a) == Next::<
            Result<Seq<FileRow>, Seq<char>>,
        >::Done(Ok(seq![])),
        sl::files_step(root, Scope::LastTurn, None, tip, a) == Next::<
            Result<Seq<FileRow>, Seq<char>>,
        >::Done(Ok(seq![])),
        a.reply(Topic::MergeBase, seq![root, base]) is None ==> sl::files_step(
            root,
            Scope::Branch,
            Some(base),
            None,
            a,
        ) == Next::<Result<Seq<FileRow>, Seq<char>>>::Ask(
            seq![Question { topic: Topic::MergeBase, words: seq![root, base], acts: seq![] }],
        ),
        a.reply(Topic::MergeBase, seq![root, base]) == Some(Reply::Rev(None::<String>))
            ==> sl::files_step(root, Scope::Branch, Some(base), None, a) == Next::<
            Result<Seq<FileRow>, Seq<char>>,
        >::Done(Ok(seq![])),
        a.reply(Topic::MergeBase, seq![root, base]) == Some(Reply::Rev(Some(merge)))
            ==> sl::files_step(root, Scope::Branch, Some(base), None, a) == sl::set_step(
            root,
            Some(merge@),
            None,
            a,
        ),
{
}

// --- the last turn -------------------------------------------------------------------------------

/// The last turn lists every file that the turn touched from a clean start. Of the status pass from
/// the baseline's parent, every record whose path the baseline does not record, and that tells a
/// change among such records, has its row: of the kind that its status code stands for, an
/// untracked file as an added one, with the diff's pair for its path or none; only an untracked
/// file and a removal that the diff leaves out count their own lines, once read. Where the pass
/// names each path once, a record that tells no change, such as the old name of a move, is not
/// listed.
pub proof fn law_last_turn_lists_every_clean_file_that_changed(
    root: Seq<char>,
    dir: Seq<char>,
    id: Seq<char>,
    m: ManifestView,
    status: Exit,
    list: Vec<StatusEntry>,
    diff: Exit,
    out: Seq<FileRow>,
    i: int,
    a: Answers,
)
    requires
        store::load_step(dir, id, a) == Next::Done(Some(m)),
        a.reply(
            Topic::Run,
            seq![root, "status"@, "-mardu"@, "-C"@, "-Tjson"@, "--rev"@, m.parent],
        ) == Some(Reply::Run(Run::Ended(status))),
        status.code == Some(0i32),
        a.reply(Topic::ParseStatus, seq![outside::lossy(status.stdout@)]) == Some(
            Reply::Status(Some(list)),
        ),
        a.reply(Topic::Run, seq![root, "diff"@, "--git"@, "--no-binary"@, "-r"@, m.parent]) == Some(
            Reply::Run(Run::Ended(diff)),
        ),
        diff.code == Some(0i32),
        last_turn::turn_step(root, dir, id, a) == Next::<Result<Seq<FileRow>, Seq<char>>>::Done(
            Ok(out),
        ),
        0 <= i < list@.len(),
        forall|k: int|
            0 <= k < m.files.len() ==> (#[trigger] m.files[k]).0 != list.deep_view()[i].path,
    ensures
        ({
            let es = list.deep_view();
            let e = es[i];
            let counts = counts::counts_of(outside::lossy(diff.stdout@));
            let (plus, minus) = if counts.contains_key(e.path) {
                counts[e.path]
            } else {
                (0u32, 0u32)
            };
            // A clean file that was added in the turn from this one.
            let moved = exists|j: int|
                0 <= j < es.len() && (#[trigger] es[j]).status == "A"@ && es[j].copy == Some(e.path)
                    && (forall|k: int|
                    0 <= k < m.files.len() ==> (#[trigger] m.files[k]).0 != es[j].path);
            let row = |kind: ChangeKind, n: (u32, u32)|
                FileRow {
                    path: e.path,
                    kind,
                    additions: n.0,
                    deletions: n.1,
                    previous_path: e.copy,
                };
            &&& e.status == "M"@ ==> out.contains(row(ChangeKind::Modified, (plus, minus)))
            &&& e.status == "A"@ && e.copy is None ==> out.contains(
                row(ChangeKind::Added, (plus, minus)),
            )
            &&& e.status == "A"@ && e.copy is Some ==> out.contains(
                row(ChangeKind::Renamed, (plus, minus)),
            )
            &&& e.status == "?"@ ==> worktree_read(root, e.path, a) && out.contains(
                row(ChangeKind::Added, (worktree_lines(root, e.path, a), 0)),
            )
            &&& (e.status == "R"@ || e.status == "!"@) && !moved && counts.contains_key(e.path)
                ==> out.contains(row(ChangeKind::Deleted, (plus, minus)))
            &&& (e.status == "R"@ || e.status == "!"@) && !moved && !counts.contains_key(e.path)
                ==> commit_read(root, m.parent, e.path, a) && out.contains(
                row(ChangeKind::Deleted, (0, commit_lines(root, m.parent, e.path, a))),
            )
            &&& last_turn::entries_once(es) && e.status != "M"@ && e.status != "A"@ && e.status
                != "?"@ && (moved || (e.status != "R"@ && e.status != "!"@)) ==> !model::lists(
                out,
                e.path,
            )
        }),
{
    let es = list.deep_view();
    let e = es[i];
    let counts = counts::counts_of(outside::lossy(diff.stdout@));
    assert(seq![root] + sl::status_args(Some(m.parent), None) =~= seq![
        root,
        "status"@,
        "-mardu"@,
        "-C"@,
        "-Tjson"@,
        "--rev"@,
        m.parent,
    ]);
    assert(seq![root] + sl::diff_args(Some(m.parent), None) =~= seq![
        root,
        "diff"@,
        "--git"@,
        "--no-binary"@,
        "-r"@,
        m.parent,
    ]);
    assert(sl::status_step(root, Some(m.parent), None, a) == Next::<
        Result<Seq<Entry>, Seq<char>>,
    >::Done(Ok(es)));
    assert(sl::diff_step(root, Some(m.parent), None, a) == Next::<
        Result<Map<Seq<char>, (u32, u32)>, Seq<char>>,
    >::Done(Ok(counts)));
    manifest::lemma_recorded(m.files, e.path);
    let clean = last_turn::fresh(es, m.files, es.len());
    lemma_fresh_has(es, m.files, es.len(), i);
    let k = choose|k: int| 0 <= k < clean.len() && #[trigger] clean[k] == e;
    let b = Build {
        root,
        old: Some(m.parent),
        to: None,
        all: es,
        entries: clean,
        counts,
        turn: true,
    };
    let dirty = (last_turn::Turn { root, dir }).rows(m.files, m.files.len(), a);
    let more = b.rows(clean.len(), a);
    assert(out == model::sorted(dirty + more));
    model::law_sorting_keeps_every_row(dirty + more);
    lemma_statuses();
    lemma_same_meaning(b, e);
    lemma_none_missing(b, clean.len(), k, a);
    if moved_from(clean, e.path) {
        let j = choose|j: int|
            0 <= j < clean.len() && (#[trigger] clean[j]).status == "A"@ && clean[j].copy == Some(
                e.path,
            );
        lemma_fresh_from(es, m.files, es.len(), j);
        let x = choose|x: int|
            0 <= x < es.len() && #[trigger] es[x] == clean[j] && manifest::recorded(
                m.files,
                es[x].path,
            ) is None;
        manifest::lemma_recorded(m.files, es[x].path);
        assert(es[x].status == "A"@);
        assert(forall|y: int| 0 <= y < m.files.len() ==> (#[trigger] m.files[y]).0 != es[x].path);
    }
    if b.shows(e) {
        lemma_row_of(b, clean.len(), k, a);
        let r = b.row(e, a);
        let j = choose|j: int| 0 <= j < more.len() && more[j] == r;
        assert((dirty + more)[dirty.len() + j] == r);
        assert((dirty + more).contains(r));
        assert(out.contains(r));
    }
    let moved = exists|j: int|
        0 <= j < es.len() && (#[trigger] es[j]).status == "A"@ && es[j].copy == Some(e.path) && (
        forall|k: int| 0 <= k < m.files.len() ==> (#[trigger] m.files[k]).0 != es[j].path);
    if moved {
        let j = choose|j: int|
            0 <= j < es.len() && (#[trigger] es[j]).status == "A"@ && es[j].copy == Some(e.path) && (
            forall|k: int| 0 <= k < m.files.len() ==> (#[trigger] m.files[k]).0 != es[j].path);
        manifest::lemma_recorded(m.files, es[j].path);
        lemma_fresh_has(es, m.files, es.len(), j);
        let x = choose|x: int| 0 <= x < clean.len() && #[trigger] clean[x] == es[j];
        assert(clean[x].status == "A"@);
        assert(moved_from(clean, e.path));
    }
    if last_turn::entries_once(es) && !b.shows(e) && model::lists(out, e.path) {
        let y = choose|y: int| 0 <= y < out.len() && #[trigger] out[y].path == e.path;
        assert(out.contains(out[y]));
        assert((dirty + more).contains(out[y]));
        let z = choose|z: int| 0 <= z < (dirty + more).len() && (dirty + more)[z] == out[y];
        if z < dirty.len() {
            assert(dirty[z] == out[y]);
            last_turn::lemma_dirty_row_path(
                last_turn::Turn { root, dir },
                m.files,
                m.files.len(),
                z,
                a,
            );
        } else {
            let w = z - dirty.len();
            assert(more[w] == out[y]);
            lemma_row_from(b, clean.len(), w, a);
            let x = choose|x: int|
                0 <= x < clean.len() && b.shows(#[trigger] b.entries[x]) && more[w] == b.row(
                    b.entries[x],
                    a,
                );
            lemma_fresh_from(es, m.files, es.len(), x);
            let v = choose|v: int|
                0 <= v < es.len() && #[trigger] es[v] == clean[x] && manifest::recorded(
                    m.files,
                    es[v].path,
                ) is None;
            assert(es[v].path == es[i].path);
            assert(v == i);
        }
    }
}

/// A record whose path the manifest does not record is among the clean ones.
proof fn lemma_fresh_has(es: Seq<Entry>, files: Seq<last_turn::Dirty>, n: nat, i: int)
    requires
        0 <= i < n <= es.len(),
        manifest::recorded(files, es[i].path) is None,
    ensures
        exists|k: int|
            0 <= k < last_turn::fresh(es, files, n).len() && #[trigger] last_turn::fresh(
                es,
                files,
                n,
            )[k] == es[i],
    decreases n,
{
    let done = last_turn::fresh(es, files, (n - 1) as nat);
    let out = last_turn::fresh(es, files, n);
    if i < n - 1 {
        lemma_fresh_has(es, files, (n - 1) as nat, i);
        let k = choose|k: int| 0 <= k < done.len() && #[trigger] done[k] == es[i];
        assert(out[k] == es[i]);
    } else {
        assert(out[done.len() as int] == es[i]);
    }
}

/// A clean record is one of the pass whose path the manifest does not record.
proof fn lemma_fresh_from(es: Seq<Entry>, files: Seq<last_turn::Dirty>, n: nat, k: int)
    requires
        n <= es.len(),
        0 <= k < last_turn::fresh(es, files, n).len(),
    ensures
        exists|i: int|
            0 <= i < n && #[trigger] es[i] == last_turn::fresh(es, files, n)[k]
                && manifest::recorded(files, es[i].path) is None,
    decreases n,
{
    if n > 0 {
        let done = last_turn::fresh(es, files, (n - 1) as nat);
        let out = last_turn::fresh(es, files, n);
        if k < done.len() {
            lemma_fresh_from(es, files, (n - 1) as nat, k);
            let i = choose|i: int|
                0 <= i < n - 1 && #[trigger] es[i] == done[k] && manifest::recorded(
                    files,
                    es[i].path,
                ) is None;
            assert(es[i] == out[k]);
        } else {
            assert(es[n - 1] == out[k]);
        }
    }
}

// --- what is still to be read ---------------------------------------------------------------------

/// What a record needs, its build asks.
proof fn lemma_asked(b: Build, n: nat, k: int, q: Question, a: Answers)
    requires
        0 <= k < n <= b.entries.len(),
        b.missing(b.entries[k], a).contains(q),
    ensures
        b.all_missing(n, a).contains(q),
    decreases n,
{
    let done = b.all_missing((n - 1) as nat, a);
    let last = b.missing(b.entries[n - 1], a);
    if k < n - 1 {
        lemma_asked(b, (n - 1) as nat, k, q, a);
        let j = choose|j: int| 0 <= j < done.len() && done[j] == q;
        assert((done + last)[j] == q);
    } else {
        let j = choose|j: int| 0 <= j < last.len() && last[j] == q;
        assert((done + last)[done.len() + j] == q);
    }
}

/// A change set asks for the contents whose lines it counts: of an untracked file and of a copy whose
/// source stays the new side, in the worktree or at the far end; of a removal that the diff leaves
/// out the old side, at the near end or at the working-copy parent.
pub proof fn law_change_set_asks_for_what_it_counts(
    root: Seq<char>,
    from: Option<Seq<char>>,
    to: Option<Seq<char>>,
    es: Seq<Entry>,
    counts: Map<Seq<char>, (u32, u32)>,
    i: int,
    a: Answers,
)
    requires
        from is None ==> to is None,
        sl::status_step(root, from, to, a) == Next::<Result<Seq<Entry>, Seq<char>>>::Done(Ok(es)),
        sl::diff_step(root, from, to, a) == Next::<
            Result<Map<Seq<char>, (u32, u32)>, Seq<char>>,
        >::Done(Ok(counts)),
        from is Some || sl::parent_step(root, a) is Done,
        0 <= i < es.len(),
    ensures
        ({
            let e = es[i];
            let end = sl::set_step(root, from, to, a);
            let new = match to {
                Some(t) => Question {
                    topic: Topic::Cat,
                    words: seq![root, t, e.path],
                    acts: seq![],
                },
                None => Question {
                    topic: Topic::File,
                    words: seq![disk::joined(root, e.path)],
                    acts: seq![],
                },
            };
            let near = match (from, sl::parent_step(root, a)) {
                (Some(f), _) => Some(f),
                (None, Next::Done(p)) => p,
                _ => None,
            };
            &&& (e.status == "?"@ || (e.status == "A"@ && e.copy is Some && !gone_at(
                es,
                e.copy->0,
            ))) && !(match to {
                Some(t) => commit_read(root, t, e.path, a),
                None => worktree_read(root, e.path, a),
            }) ==> (end matches Next::Ask(qs) && qs.contains(new))
            &&& (e.status == "R"@ || e.status == "!"@) && !moved_from(es, e.path)
                && !counts.contains_key(e.path) && near is Some && !commit_read(
                root,
                near->0,
                e.path,
                a,
            ) ==> (end matches Next::Ask(qs) && qs.contains(
                Question { topic: Topic::Cat, words: seq![root, near->0, e.path], acts: seq![] },
            ))
        }),
{
    let e = es[i];
    let b0 = Build { root, old: from, to, all: es, entries: es, counts, turn: false };
    let old = match (from, sl::parent_step(root, a)) {
        (None, Next::Done(p)) if b0.reads_old() => p,
        _ => from,
    };
    let b = Build { old, ..b0 };
    let end = sl::set_step(root, from, to, a);
    assert(end == rows::listed_step(b, a));
    lemma_statuses();
    lemma_same_meaning(b, e);
    lemma_same_meaning(b0, e);
    assert(b.entries[i] == e);
    if e.status == "A"@ && e.copy is Some {
        assert(rows::removed(b.all, e.copy->0) <==> gone_at(b.all, e.copy->0));
    }
    if (e.status == "R"@ || e.status == "!"@) && !moved_from(es, e.path) && !counts.contains_key(
        e.path,
    ) {
        assert(b0.shows(b0.entries[i]));
        assert(b0.side(b0.entries[i]) is Old);
        assert(b0.reads_old());
    }
    let ask = b.missing(e, a);
    if ask.len() > 0 {
        assert(ask.contains(ask[0]));
        lemma_asked(b, es.len(), i, ask[0], a);
        assert(b.all_missing(es.len(), a).len() > 0);
    }
}

/// Once the files that were dirty at the turn start are read, the last turn asks for the contents
/// whose lines it counts: of an untracked file the one in the worktree, and of a removal that the
/// diff leaves out the one at the baseline's parent.
pub proof fn law_last_turn_asks_for_what_it_counts(
    root: Seq<char>,
    dir: Seq<char>,
    id: Seq<char>,
    m: ManifestView,
    es: Seq<Entry>,
    counts: Map<Seq<char>, (u32, u32)>,
    i: int,
    a: Answers,
)
    requires
        store::load_step(dir, id, a) == Next::Done(Some(m)),
        sl::status_step(root, Some(m.parent), None, a) == Next::<
            Result<Seq<Entry>, Seq<char>>,
        >::Done(Ok(es)),
        sl::diff_step(root, Some(m.parent), None, a) == Next::<
            Result<Map<Seq<char>, (u32, u32)>, Seq<char>>,
        >::Done(Ok(counts)),
        (last_turn::Turn { root, dir }).all_asks(m.files, m.files.len(), a).len() == 0,
        (last_turn::Turn { root, dir }).first_lost(m.files, m.files.len(), a) is None,
        0 <= i < es.len(),
        forall|k: int| 0 <= k < m.files.len() ==> (#[trigger] m.files[k]).0 != es[i].path,
    ensures
        ({
            let e = es[i];
            let end = last_turn::turn_step(root, dir, id, a);
            let moved = exists|j: int|
                0 <= j < es.len() && (#[trigger] es[j]).status == "A"@ && es[j].copy == Some(e.path)
                    && (forall|k: int|
                    0 <= k < m.files.len() ==> (#[trigger] m.files[k]).0 != es[j].path);
            &&& e.status == "?"@ && !worktree_read(root, e.path, a) ==> (end matches Next::Ask(qs)
                && qs.contains(
                Question {
                    topic: Topic::File,
                    words: seq![disk::joined(root, e.path)],
                    acts: seq![],
                },
            ))
            &&& (e.status == "R"@ || e.status == "!"@) && !moved && !counts.contains_key(e.path)
                && !commit_read(root, m.parent, e.path, a) ==> (end matches Next::Ask(qs)
                && qs.contains(
                Question { topic: Topic::Cat, words: seq![root, m.parent, e.path], acts: seq![] },
            ))
        }),
{
    let e = es[i];
    manifest::lemma_recorded(m.files, e.path);
    let clean = last_turn::fresh(es, m.files, es.len());
    lemma_fresh_has(es, m.files, es.len(), i);
    let k = choose|k: int| 0 <= k < clean.len() && #[trigger] clean[k] == e;
    let b = Build {
        root,
        old: Some(m.parent),
        to: None,
        all: es,
        entries: clean,
        counts,
        turn: true,
    };
    lemma_statuses();
    lemma_same_meaning(b, e);
    if moved_from(clean, e.path) {
        let j = choose|j: int|
            0 <= j < clean.len() && (#[trigger] clean[j]).status == "A"@ && clean[j].copy == Some(
                e.path,
            );
        lemma_fresh_from(es, m.files, es.len(), j);
        let x = choose|x: int|
            0 <= x < es.len() && #[trigger] es[x] == clean[j] && manifest::recorded(
                m.files,
                es[x].path,
            ) is None;
        manifest::lemma_recorded(m.files, es[x].path);
        assert(es[x].status == "A"@);
        assert(forall|y: int| 0 <= y < m.files.len() ==> (#[trigger] m.files[y]).0 != es[x].path);
    }
    let ask = b.missing(e, a);
    if ask.len() > 0 {
        assert(ask.contains(ask[0]));
        lemma_asked(b, clean.len(), k, ask[0], a);
        assert(b.all_missing(clean.len(), a).len() > 0);
    }
}

} // verus!
