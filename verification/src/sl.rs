//! Read-only Sapling access: scopes, changed files, bases, and content at a revision.
//!
//! Every `sl` call only reads. It runs with `HGPLAIN=1`, with the repository root as its working
//! directory, and only its stdout is parsed: stderr carries warnings that would corrupt a parse of
//! the two together. The turn baseline and the base pick live in the snapshot store.

use vstd::hash_map::StringHashMap;
use vstd::prelude::*;
use vstd::string::*;

pub use crate::base::{
    list_bookmarks, list_stack, probe_revset, public_base, resolve_base, resolve_rev,
    resolve_spelling, StackCommit,
};
pub use crate::content::{
    abbreviate_node, cat_cached, complete_pick_spelling, content_is_cached, file_content,
    merge_base, warm_content,
};
pub use crate::last_turn::changed_against_snapshot;
pub use crate::store::Store;
pub use crate::turn::TurnStore;

use crate::answers::{
    self, Answers, Exit, Next, Query, Question, Reply, Run, RunView, Step, Topic,
};
use crate::counts;
use crate::git::{GitFail, Worktree, WorktreeView};
use crate::model::{self, ChangedFile, Entry, FileRow, Scope, StatusEntry};
use crate::outside;
use crate::rows::{self, Build, Pass};
use crate::text;

verus! {

broadcast use vstd::string::group_string_axioms;

/// The environment variable that every `sl` call sets to `1`.
pub const PLAIN: &'static str = "HGPLAIN";

// --- commands ------------------------------------------------------------------------------

/// The question that runs `sl` with `args` in `root`.
pub open spec fn ask_run(root: Seq<char>, args: Seq<Seq<char>>) -> Seq<Question> {
    answers::one(Topic::Run, seq![root] + args)
}

/// The stdout of a command that must succeed.
pub open spec fn sl_step(root: Seq<char>, args: Seq<Seq<char>>, a: Answers) -> Next<
    Result<Seq<char>, Seq<char>>,
> {
    match a.run_of(root, args) {
        None => Next::Ask(ask_run(root, args)),
        Some(RunView::Failed(_)) => Next::Done(Err("running sl "@ + outside::debug_words(args))),
        Some(RunView::Ended { code, stdout, stderr }) => if code == Some(0i32) {
            Next::Done(Ok(outside::lossy(stdout)))
        } else {
            Next::Done(
                Err(
                    "sl "@ + outside::debug_words(args) + " failed: "@ + text::trimmed(
                        outside::lossy(stderr),
                    ),
                ),
            )
        },
    }
}

pub(crate) fn ask_sl(root: &str, args: &Vec<String>) -> (qs: Vec<Query>)
    ensures
        qs.deep_view() == ask_run(root@, args.deep_view()),
{
    answers::ask_one(Topic::Run, answers::run_words(root, args))
}

/// Whether a command succeeded.
pub(crate) fn succeeded(code: Option<i32>) -> (b: bool)
    ensures
        b == (code == Some(0i32)),
{
    match code {
        Some(n) => n == 0,
        None => false,
    }
}

/// `sl <args>:` and a message.
pub(crate) fn complaint(args: &Vec<String>, between: &str, message: &str) -> (s: String)
    ensures
        s@ == "sl "@ + outside::debug_words(args.deep_view()) + between@ + message@,
{
    let mut s = "sl ".to_owned();
    s.append(outside::debug_text(args).as_str());
    s.append(between);
    s.append(message);
    s
}

/// Run `sl <args>` and return its stdout. A command that fails is an error.
pub(crate) fn sl(root: &str, args: &Vec<String>, answers: &Answers) -> (r: Step<Result<String, GitFail>>)
    ensures
        answers::tried(r) == sl_step(root@, args.deep_view(), *answers),
{
    match answers.run(root, args) {
        None => Step::Ask(ask_sl(root, args)),
        Some(Run::Failed(_)) => {
            let mut s = "running sl ".to_owned();
            s.append(outside::debug_text(args).as_str());
            Step::Done(Err(GitFail(s)))
        },
        Some(Run::Ended(exit)) => {
            if succeeded(exit.code) {
                Step::Done(Ok(outside::lossy_text(exit.stdout.as_slice())))
            } else {
                let stderr = outside::lossy_text(exit.stderr.as_slice());
                let said = text::trim(stderr.as_str());
                Step::Done(Err(GitFail(complaint(args, " failed: ", said.as_str()))))
            }
        },
    }
}

// --- the root and the parent -------------------------------------------------------------

pub open spec fn root_args() -> Seq<Seq<char>> {
    seq!["root"@]
}

/// The repository root that holds `path`. A directory that does not exist holds no worktree; a
/// command that could not run leaves the answer open.
pub open spec fn root_step(path: Seq<char>, a: Answers) -> Next<WorktreeView> {
    match a.flag_of(Topic::IsDir, path) {
        None => Next::Ask(answers::one(Topic::IsDir, seq![path])),
        Some(false) => Next::Done(WorktreeView::Outside),
        Some(true) => match a.run_of(path, root_args()) {
            None => Next::Ask(ask_run(path, root_args())),
            Some(RunView::Failed(_)) => Next::Done(WorktreeView::Unknown),
            Some(RunView::Ended { code, stdout, stderr }) => {
                let root = text::trimmed(outside::lossy(stdout));
                if code != Some(0i32) || root.len() == 0 {
                    Next::Done(WorktreeView::Outside)
                } else {
                    Next::Done(WorktreeView::Root(root))
                }
            },
        },
    }
}

/// Resolve `path` to its Sapling repository root, keeping "sl said no" (`Outside`) apart from "sl
/// could not run" (`Unknown`).
pub fn root_of(path: &str, answers: &Answers) -> (r: Step<Worktree>)
    ensures
        r.deep_view() == root_step(path@, *answers),
{
    match answers.flag(Topic::IsDir, path) {
        None => {
            return Step::Ask(answers::ask_one(Topic::IsDir, answers::words1(path)));
        },
        Some(false) => {
            return Step::Done(Worktree::Outside);
        },
        Some(true) => {},
    }
    let args = answers::words1("root");
    match answers.run(path, &args) {
        None => Step::Ask(ask_sl(path, &args)),
        Some(Run::Failed(_)) => Step::Done(Worktree::Unknown),
        Some(Run::Ended(exit)) => {
            if !succeeded(exit.code) {
                return Step::Done(Worktree::Outside);
            }
            let stdout = outside::lossy_text(exit.stdout.as_slice());
            let root = text::trim(stdout.as_str());
            if root.as_str().is_empty() {
                Step::Done(Worktree::Outside)
            } else {
                Step::Done(Worktree::Root(root))
            }
        },
    }
}

pub open spec fn whereami_args() -> Seq<Seq<char>> {
    seq!["whereami"@]
}

/// The first line of `out`, or nothing where it is blank.
pub open spec fn first_line(out: Seq<char>) -> Option<Seq<char>> {
    let ls = text::lines(out);
    let line = if ls.len() == 0 {
        seq![]
    } else {
        text::trimmed(ls[0])
    };
    if line.len() == 0 {
        None
    } else {
        Some(line)
    }
}

/// The working-copy parent: the first line that `sl whereami` prints.
pub open spec fn parent_step(root: Seq<char>, a: Answers) -> Next<Option<Seq<char>>> {
    match a.run_of(root, whereami_args()) {
        None => Next::Ask(ask_run(root, whereami_args())),
        Some(RunView::Failed(_)) => Next::Done(None),
        Some(RunView::Ended { code, stdout, stderr }) => if code == Some(0i32) {
            Next::Done(first_line(outside::lossy(stdout)))
        } else {
            Next::Done(None)
        },
    }
}

/// The working-copy parent node. A merge in progress prints two parents; the first line pins to
/// the first parent.
pub fn parent_rev(root: &str, answers: &Answers) -> (r: Step<Option<String>>)
    ensures
        r.deep_view() == parent_step(root@, *answers),
{
    let args = answers::words1("whereami");
    match answers.run(root, &args) {
        None => Step::Ask(ask_sl(root, &args)),
        Some(Run::Failed(_)) => Step::Done(None),
        Some(Run::Ended(exit)) => {
            if !succeeded(exit.code) {
                return Step::Done(None);
            }
            let stdout = outside::lossy_text(exit.stdout.as_slice());
            let ls = text::split_lines(stdout.as_str());
            let ghost all = ls.deep_view();
            if ls.len() == 0 {
                return Step::Done(None);
            }
            assert(all[0] == ls@[0]@);
            let line = text::trim(ls[0].as_str());
            if line.as_str().is_empty() {
                Step::Done(None)
            } else {
                Step::Done(Some(line))
            }
        },
    }
}

// --- status ----------------------------------------------------------------------------------

/// The arguments of the status pass from `from` to `to`: the working-copy parent and the working
/// copy where they are not given.
pub open spec fn status_args(from: Option<Seq<char>>, to: Option<Seq<char>>) -> Seq<Seq<char>> {
    seq!["status"@, "-mardu"@, "-C"@, "-Tjson"@] + with_flag("--rev"@, from) + with_flag(
        "--rev"@,
        to,
    )
}

/// An option and its value, where there is a value.
pub open spec fn with_flag(flag: Seq<char>, value: Option<Seq<char>>) -> Seq<Seq<char>> {
    match value {
        Some(v) => seq![flag, v],
        None => seq![],
    }
}

fn add_flag(args: &mut Vec<String>, flag: &str, value: Option<&str>)
    ensures
        final(args).deep_view() == old(args).deep_view() + with_flag(flag@, value.deep_view()),
{
    let ghost before = args.deep_view();
    if let Some(v) = value {
        args.push(flag.to_owned());
        args.push(v.to_owned());
    }
    assert(args.deep_view() =~= before + with_flag(flag@, value.deep_view()));
}

/// The dirty files between two ends.
pub open spec fn status_step(
    root: Seq<char>,
    from: Option<Seq<char>>,
    to: Option<Seq<char>>,
    a: Answers,
) -> Next<Result<Seq<Entry>, Seq<char>>> {
    match sl_step(root, status_args(from, to), a) {
        Next::Ask(q) => Next::Ask(q),
        Next::Done(Err(e)) => Next::Done(Err(e)),
        Next::Done(Ok(json)) => match a.status_of(json) {
            None => Next::Ask(answers::one(Topic::ParseStatus, seq![json])),
            Some(None) => Next::Done(Err("parsing sl status -Tjson"@)),
            Some(Some(entries)) => Next::Done(Ok(entries)),
        },
    }
}

/// The dirty files between two ends. The show set is explicit, so that a config cannot widen the
/// pass into a scan of clean files.
pub fn status_entries<'a>(
    root: &str,
    from: Option<&str>,
    to: Option<&str>,
    answers: &'a Answers,
) -> (r: Step<Result<&'a Vec<StatusEntry>, GitFail>>)
    ensures
        answers::tried(r) == status_step(root@, from.deep_view(), to.deep_view(), *answers),
{
    let mut args: Vec<String> = Vec::new();
    args.push("status".to_owned());
    args.push("-mardu".to_owned());
    args.push("-C".to_owned());
    args.push("-Tjson".to_owned());
    assert(args.deep_view() =~= seq!["status"@, "-mardu"@, "-C"@, "-Tjson"@]);
    add_flag(&mut args, "--rev", from);
    add_flag(&mut args, "--rev", to);
    match sl(root, &args, answers) {
        Step::Ask(q) => Step::Ask(q),
        Step::Done(Err(e)) => Step::Done(Err(e)),
        Step::Done(Ok(json)) => match answers.status(json.as_str()) {
            None => Step::Ask(
                answers::ask_one(Topic::ParseStatus, answers::words1(json.as_str())),
            ),
            Some(None) => Step::Done(Err(GitFail("parsing sl status -Tjson".to_owned()))),
            Some(Some(entries)) => Step::Done(Ok(entries)),
        },
    }
}

// --- changed files -----------------------------------------------------------------------------

/// The arguments of the diff between two ends. A binary's payload is left out: it counts nothing.
pub open spec fn diff_args(from: Option<Seq<char>>, to: Option<Seq<char>>) -> Seq<Seq<char>> {
    seq!["diff"@, "--git"@, "--no-binary"@] + with_flag("-r"@, from) + with_flag("-r"@, to)
}

/// The per-file counts of the diff between two ends.
pub open spec fn diff_step(
    root: Seq<char>,
    from: Option<Seq<char>>,
    to: Option<Seq<char>>,
    a: Answers,
) -> Next<Result<Map<Seq<char>, (u32, u32)>, Seq<char>>> {
    match sl_step(root, diff_args(from, to), a) {
        Next::Ask(q) => Next::Ask(q),
        Next::Done(Err(e)) => Next::Done(Err(e)),
        Next::Done(Ok(out)) => Next::Done(Ok(counts::counts_of(out))),
    }
}

/// The view of a diff step.
pub open spec fn counted(step: Step<Result<StringHashMap<(u32, u32)>, GitFail>>) -> Next<
    Result<Map<Seq<char>, (u32, u32)>, Seq<char>>,
> {
    match step {
        Step::Done(Ok(m)) => Next::Done(Ok(m@)),
        Step::Done(Err(e)) => Next::Done(Err(e.deep_view())),
        Step::Ask(qs) => Next::Ask(qs.deep_view()),
    }
}

/// The per-file counts of the diff between two ends.
pub(crate) fn diff(root: &str, from: Option<&str>, to: Option<&str>, answers: &Answers) -> (r: Step<
    Result<StringHashMap<(u32, u32)>, GitFail>,
>)
    ensures
        counted(r) == diff_step(root@, from.deep_view(), to.deep_view(), *answers),
{
    let mut args: Vec<String> = Vec::new();
    args.push("diff".to_owned());
    args.push("--git".to_owned());
    args.push("--no-binary".to_owned());
    assert(args.deep_view() =~= seq!["diff"@, "--git"@, "--no-binary"@]);
    add_flag(&mut args, "-r", from);
    add_flag(&mut args, "-r", to);
    match sl(root, &args, answers) {
        Step::Ask(q) => Step::Ask(q),
        Step::Done(Err(e)) => Step::Done(Err(e)),
        Step::Done(Ok(out)) => Step::Done(Ok(counts::diff_counts(out.as_str()))),
    }
}

/// The changed files between two ends: the files from one status pass, the counts from one diff.
/// Where a deletion never reached the diff, its old side counts, at the near end or at the
/// working-copy parent.
pub open spec fn set_step(
    root: Seq<char>,
    from: Option<Seq<char>>,
    to: Option<Seq<char>>,
    a: Answers,
) -> Next<Result<Seq<FileRow>, Seq<char>>> {
    match status_step(root, from, to, a) {
        Next::Ask(q) => Next::Ask(q),
        Next::Done(Err(e)) => Next::Done(Err(e)),
        Next::Done(Ok(entries)) => if entries.len() == 0 {
            Next::Done(Ok(seq![]))
        } else {
            match diff_step(root, from, to, a) {
                Next::Ask(q) => Next::Ask(q),
                Next::Done(Err(e)) => Next::Done(Err(e)),
                Next::Done(Ok(counts)) => {
                    let b = Build { root, old: from, to, all: entries, entries, counts, turn: false };
                    if from is None && b.reads_old() {
                        match parent_step(root, a) {
                            Next::Ask(q) => Next::Ask(q),
                            Next::Done(old) => rows::listed_step(Build { old, ..b }, a),
                        }
                    } else {
                        rows::listed_step(b, a)
                    }
                },
            }
        },
    }
}

/// One scope build: the file list from `sl status`, the counts from one `sl diff`.
pub fn changed_set(root: &str, from: Option<&str>, to: Option<&str>, answers: &Answers) -> (r: Step<
    Result<Vec<ChangedFile>, GitFail>,
>)
    ensures
        answers::tried(r) == set_step(root@, from.deep_view(), to.deep_view(), *answers),
{
    let all = match status_entries(root, from, to, answers) {
        Step::Ask(q) => {
            return Step::Ask(q);
        },
        Step::Done(Err(e)) => {
            return Step::Done(Err(e));
        },
        Step::Done(Ok(all)) => all,
    };
    if all.len() == 0 {
        let none: Vec<ChangedFile> = Vec::new();
        assert(none.deep_view() =~= seq![]);
        return Step::Done(Ok(none));
    }
    let counts = match diff(root, from, to, answers) {
        Step::Ask(q) => {
            return Step::Ask(q);
        },
        Step::Done(Err(e)) => {
            return Step::Done(Err(e));
        },
        Step::Done(Ok(counts)) => counts,
    };
    let entries = rows::every(all);
    let pass = Pass { root, old: from, to, all, entries: &entries, counts: &counts, turn: false };
    if from.is_none() && pass.reads_old() {
        match parent_rev(root, answers) {
            Step::Ask(q) => Step::Ask(q),
            Step::Done(old) => {
                let old = match &old {
                    Some(rev) => Some(rev.as_str()),
                    None => None,
                };
                rows::listed(
                    &Pass { root, old, to, all, entries: &entries, counts: &counts, turn: false },
                    answers,
                )
            },
        }
    } else {
        rows::listed(&pass, answers)
    }
}

/// The changed files for a scope. The `branch` scope runs from the base to the far end where one
/// is pinned, else from the merge base to the working copy; with no base it lists nothing. The
/// `last-turn` scope lists nothing here.
pub open spec fn files_step(
    root: Seq<char>,
    scope: Scope,
    base: Option<Seq<char>>,
    tip: Option<Seq<char>>,
    a: Answers,
) -> Next<Result<Seq<FileRow>, Seq<char>>> {
    match (scope, base, tip) {
        (Scope::Uncommitted, _, _) => set_step(root, None, None, a),
        (Scope::Branch, Some(base), Some(tip)) => set_step(root, Some(base), Some(tip), a),
        (Scope::Branch, Some(base), None) => match a.rev_of(
            Topic::MergeBase,
            seq![root, base],
        ) {
            None => Next::Ask(answers::one(Topic::MergeBase, seq![root, base])),
            Some(None) => Next::Done(Ok(seq![])),
            Some(Some(from)) => set_step(root, Some(from), None, a),
        },
        _ => Next::Done(Ok(seq![])),
    }
}

/// The changed files for `scope`, sorted by path. `last-turn` resolves through
/// [`changed_against_snapshot`], so it lists nothing here.
pub fn changed_files(
    root: &str,
    scope: Scope,
    branch_base: Option<&str>,
    branch_tip: Option<&str>,
    answers: &Answers,
) -> (r: Step<Result<Vec<ChangedFile>, GitFail>>)
    ensures
        answers::tried(r) == files_step(
            root@,
            scope,
            branch_base.deep_view(),
            branch_tip.deep_view(),
            *answers,
        ),
{
    let none: Vec<ChangedFile> = Vec::new();
    assert(none.deep_view() =~= seq![]);
    match (scope, branch_base, branch_tip) {
        (Scope::Uncommitted, _, _) => changed_set(root, None, None, answers),
        (Scope::Branch, Some(base), Some(tip)) => changed_set(
            root,
            Some(base),
            Some(tip),
            answers,
        ),
        (Scope::Branch, Some(base), None) => match answers.rev(
            Topic::MergeBase,
            answers::words2(root, base),
        ) {
            None => Step::Ask(answers::ask_one(Topic::MergeBase, answers::words2(root, base))),
            Some(None) => Step::Done(Ok(none)),
            Some(Some(from)) => changed_set(root, Some(from.as_str()), None, answers),
        },
        _ => Step::Done(Ok(none)),
    }
}

/// A failed command fails the build whole: a build that lists files had its status pass succeed,
/// and its diff too where the pass listed anything. What it lists has each path once, in order.
pub proof fn law_failed_command_fails_the_build(
    root: Seq<char>,
    from: Option<Seq<char>>,
    to: Option<Seq<char>>,
    rows: Seq<FileRow>,
    a: Answers,
)
    requires
        set_step(root, from, to, a) == Next::<Result<Seq<FileRow>, Seq<char>>>::Done(Ok(rows)),
    ensures
        sl_step(root, status_args(from, to), a) matches Next::Done(Ok(_)),
        rows.len() > 0 ==> (sl_step(root, diff_args(from, to), a) matches Next::Done(Ok(_))),
        model::strictly_in_order(rows),
{
    match status_step(root, from, to, a) {
        Next::Done(Ok(entries)) => {
            if entries.len() > 0 {
                if let Next::Done(Ok(counts)) = diff_step(root, from, to, a) {
                    let b = Build { root, old: from, to, all: entries, entries, counts, turn: false };
                    let n = entries.len();
                    model::law_listing_has_each_path_once(b.rows(n, a));
                    if let Next::Done(old) = parent_step(root, a) {
                        model::law_listing_has_each_path_once((Build { old, ..b }).rows(n, a));
                    }
                }
            }
        },
        _ => {},
    }
}

/// The working-copy parent is the first line that `sl whereami` prints, trimmed; a blank line, a
/// failed command and one that could not start tell none.
pub proof fn law_parent_is_the_first_line_of_whereami(root: Seq<char>, exit: Exit, a: Answers)
    ensures
        ({
            let words = seq![root, "whereami"@];
            let end = parent_step(root, a);
            let ls = text::lines(outside::lossy(exit.stdout@));
            &&& a.reply(Topic::Run, words) is None ==> end == Next::<Option<Seq<char>>>::Ask(
                seq![Question { topic: Topic::Run, words, acts: seq![] }],
            )
            &&& a.reply(Topic::Run, words) == Some(Reply::Run(Run::Ended(exit))) ==> end
                == Next::Done(
                if exit.code == Some(0i32) && ls.len() > 0 && text::trimmed(ls[0]).len() > 0 {
                    Some(text::trimmed(ls[0]))
                } else {
                    None
                },
            )
            &&& (a.reply(Topic::Run, words) matches Some(Reply::Run(Run::Failed(_)))) ==> end
                == Next::Done(None::<Seq<char>>)
        }),
{
    assert(seq![root] + whereami_args() =~= seq![root, "whereami"@]);
}

/// The root of a directory is what `sl root` prints there, trimmed. A directory that is not there,
/// a command that fails and a blank output are outside any repository; a command that could not
/// start tells nothing.
pub proof fn law_root_is_what_sl_root_prints(path: Seq<char>, exit: Exit, a: Answers)
    ensures
        ({
            let words = seq![path, "root"@];
            let end = root_step(path, a);
            let root = text::trimmed(outside::lossy(exit.stdout@));
            let there = a.reply(Topic::IsDir, seq![path]);
            &&& there is None ==> end == Next::<WorktreeView>::Ask(
                seq![Question { topic: Topic::IsDir, words: seq![path], acts: seq![] }],
            )
            &&& there == Some(Reply::Flag(false)) ==> end == Next::Done(WorktreeView::Outside)
            &&& there == Some(Reply::Flag(true)) ==> {
                &&& a.reply(Topic::Run, words) is None ==> end == Next::<WorktreeView>::Ask(
                    seq![Question { topic: Topic::Run, words, acts: seq![] }],
                )
                &&& a.reply(Topic::Run, words) == Some(Reply::Run(Run::Ended(exit))) ==> end
                    == Next::Done(
                    if exit.code == Some(0i32) && root.len() > 0 {
                        WorktreeView::Root(root)
                    } else {
                        WorktreeView::Outside
                    },
                )
                &&& (a.reply(Topic::Run, words) matches Some(Reply::Run(Run::Failed(_)))) ==> end
                    == Next::Done(WorktreeView::Unknown)
            }
        }),
{
    assert(seq![path] + root_args() =~= seq![path, "root"@]);
}

/// What a command that must succeed comes to: its output where it succeeded, else an error that names
/// it, with its complaint where it ran. Before it ran, it is what is asked. Every command is run with
/// `HGPLAIN`.
pub proof fn law_command_must_succeed(root: Seq<char>, args: Seq<Seq<char>>, a: Answers)
    ensures
        PLAIN@ == "HGPLAIN"@,
        sl_step(root, args, a) == (match a.reply(Topic::Run, seq![root] + args) {
            Some(Reply::Run(Run::Failed(_))) => Next::<Result<Seq<char>, Seq<char>>>::Done(
                Err("running sl "@ + outside::debug_words(args)),
            ),
            Some(Reply::Run(Run::Ended(exit))) => Next::Done(
                if exit.code == Some(0i32) {
                    Ok(outside::lossy(exit.stdout@))
                } else {
                    Err(
                        "sl "@ + outside::debug_words(args) + " failed: "@ + text::trimmed(
                            outside::lossy(exit.stderr@),
                        ),
                    )
                },
            ),
            _ => Next::Ask(
                seq![Question { topic: Topic::Run, words: seq![root] + args, acts: seq![] }],
            ),
        }),
{
}

} // verus!
