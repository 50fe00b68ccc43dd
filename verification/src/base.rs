//! Revisions by name: the base chain, typed spellings, and the rows of the base picker.

use vstd::prelude::*;
use vstd::string::*;

use crate::answers::{self, Answers, Exit, Next, Question, Reply, Run, RunView, Step, Topic};
use crate::git::{self, BaseStatus, BaseView, GitFail, ResolvedBase, StatusView};
use crate::outside;
use crate::sl;
use crate::store::{self, Pick, PickView, Places, Store};
use crate::text;
use crate::vcs::{BranchEnds, EndsView, Tip, TipView};

verus! {

broadcast use vstd::string::group_string_axioms;

// --- asking for revisions ----------------------------------------------------------------

/// `sl log` of a revset through a template.
pub open spec fn log_args(revset: Seq<char>, template: Seq<char>) -> Seq<Seq<char>> {
    seq!["log"@, "-r"@, revset, "-T"@, template]
}

pub(crate) fn log_words(revset: &str, template: &str) -> (args: Vec<String>)
    ensures
        args.deep_view() == log_args(revset@, template@),
{
    let mut args: Vec<String> = Vec::new();
    args.push("log".to_owned());
    args.push("-r".to_owned());
    args.push(revset.to_owned());
    args.push("-T".to_owned());
    args.push(template.to_owned());
    assert(args.deep_view() =~= log_args(revset@, template@));
    args
}

/// Whether a complaint says that the spelling names no one revision: an unknown name, a revset
/// that does not parse, or an ambiguous prefix.
pub open spec fn clean_miss(stderr: Seq<char>) -> bool {
    text::has_part(stderr, "unknown revision"@) || text::has_part(stderr, "parse error"@)
        || text::has_part(stderr, "ambiguous identifier"@)
}

/// The message of a command that could not start or that failed.
pub open spec fn failure(args: Seq<Seq<char>>, why: Seq<char>) -> Seq<char> {
    "sl "@ + outside::debug_words(args) + ": "@ + why
}

/// The stdout of a command, whose failure is a failure of the repository.
pub open spec fn list_step(root: Seq<char>, args: Seq<Seq<char>>, a: Answers) -> Next<
    Result<Seq<char>, Seq<char>>,
> {
    match a.run_of(root, args) {
        None => Next::Ask(sl::ask_run(root, args)),
        Some(RunView::Failed(e)) => Next::Done(Err(failure(args, e))),
        Some(RunView::Ended { code, stdout, stderr }) => if code == Some(0i32) {
            Next::Done(Ok(outside::lossy(stdout)))
        } else {
            Next::Done(Err(failure(args, text::trimmed(outside::lossy(stderr)))))
        },
    }
}

/// The stdout of a probe: none for a clean miss, and any other failure is the repository's.
pub open spec fn probe_step(root: Seq<char>, args: Seq<Seq<char>>, a: Answers) -> Next<
    Result<Option<Seq<char>>, Seq<char>>,
> {
    match list_step(root, args, a) {
        Next::Ask(q) => Next::Ask(q),
        Next::Done(Ok(out)) => Next::Done(Ok(Some(out))),
        Next::Done(Err(e)) => match a.run_of(root, args) {
            Some(RunView::Ended { code, stdout, stderr }) if clean_miss(
                outside::lossy(stderr),
            ) => Next::Done(Ok(None)),
            _ => Next::Done(Err(e)),
        },
    }
}

fn list(root: &str, args: &Vec<String>, answers: &Answers) -> (r: Step<Result<String, GitFail>>)
    ensures
        answers::tried(r) == list_step(root@, args.deep_view(), *answers),
{
    match answers.run(root, args) {
        None => Step::Ask(sl::ask_sl(root, args)),
        Some(Run::Failed(e)) => Step::Done(Err(GitFail(sl::complaint(args, ": ", e.as_str())))),
        Some(Run::Ended(exit)) => {
            if sl::succeeded(exit.code) {
                Step::Done(Ok(outside::lossy_text(exit.stdout.as_slice())))
            } else {
                let stderr = outside::lossy_text(exit.stderr.as_slice());
                let said = text::trim(stderr.as_str());
                Step::Done(Err(GitFail(sl::complaint(args, ": ", said.as_str()))))
            }
        },
    }
}

fn probe(root: &str, args: &Vec<String>, answers: &Answers) -> (r: Step<
    Result<Option<String>, GitFail>,
>)
    ensures
        answers::tried(r) == probe_step(root@, args.deep_view(), *answers),
{
    match list(root, args, answers) {
        Step::Ask(q) => Step::Ask(q),
        Step::Done(Ok(out)) => Step::Done(Ok(Some(out))),
        Step::Done(Err(e)) => {
            if let Some(Run::Ended(exit)) = answers.run(root, args) {
                let stderr = outside::lossy_text(exit.stderr.as_slice());
                if text::contains(stderr.as_str(), "unknown revision") || text::contains(
                    stderr.as_str(),
                    "parse error",
                ) || text::contains(stderr.as_str(), "ambiguous identifier") {
                    return Step::Done(Ok(None));
                }
            }
            Step::Done(Err(e))
        },
    }
}

/// Whether a spelling reads as a hash prefix: digits of any number, since bare in a revset they
/// would be a local revision number, or mixed hex from git's own abbreviation floor on.
pub open spec fn hex_shaped(spelling: Seq<char>) -> bool {
    text::all_digits(spelling) || (spelling.len() >= 4 && text::all_hex(spelling))
}

/// How a spelling stands in a revset.
pub open spec fn term(spelling: Seq<char>) -> Seq<char> {
    if hex_shaped(spelling) {
        "id("@ + spelling + ")"@
    } else {
        spelling
    }
}

/// A revset bounded to one answer.
pub open spec fn limited(revset: Seq<char>) -> Seq<char> {
    "limit("@ + revset + ", 1)"@
}

fn term_of(spelling: &str) -> (r: String)
    ensures
        r@ == term(spelling@),
{
    if text::only_digits(spelling) || (text::only_hex(spelling) && text::chars_of(spelling).len()
        >= 4) {
        let mut r = "id(".to_owned();
        r.append(spelling);
        r.append(")");
        r
    } else {
        spelling.to_owned()
    }
}

fn limit(revset: &str) -> (r: String)
    ensures
        r@ == limited(revset@),
{
    let mut r = "limit(".to_owned();
    r.append(revset);
    r.append(", 1)");
    r
}

/// The bounded revset one spelling probes. Digit-only always routes through `id()` whatever its
/// length. Mixed hex routes through `id()` from four characters on, so that a three-letter
/// bookmark named `abc` still resolves as a name.
pub fn probe_revset(spelling: &str) -> (r: String)
    ensures
        r@ == limited(term(spelling@)),
{
    let inner = term_of(spelling);
    limit(inner.as_str())
}

/// The node in a probe's output.
pub open spec fn node_in(out: Seq<char>) -> Option<Seq<char>> {
    let node = text::trimmed(out);
    if node.len() == 0 {
        None
    } else {
        Some(node)
    }
}

/// The full node of a spelling; none for a spelling that names no revision.
pub open spec fn rev_step(root: Seq<char>, spelling: Seq<char>, a: Answers) -> Next<
    Result<Option<Seq<char>>, Seq<char>>,
> {
    if !git::pick_shaped(spelling) {
        Next::Done(Ok(None))
    } else {
        match probe_step(root, log_args(limited(term(spelling)), "{node}"@), a) {
            Next::Ask(q) => Next::Ask(q),
            Next::Done(Err(e)) => Next::Done(Err(e)),
            Next::Done(Ok(None)) => Next::Done(Ok(None)),
            Next::Done(Ok(Some(out))) => Next::Done(Ok(node_in(out))),
        }
    }
}

/// The node in a probe's output.
pub(crate) fn find_node(out: &str) -> (r: Option<String>)
    ensures
        r.deep_view() == node_in(out@),
{
    let node = text::trim(out);
    if node.as_str().is_empty() {
        None
    } else {
        Some(node)
    }
}

/// Resolve one revision spelling to its full node, none for a spelling Sapling does not know. A
/// pick whose prefix went ambiguous goes dormant, and never fails a build.
pub fn resolve_rev(root: &str, spelling: &str, answers: &Answers) -> (r: Step<
    Result<Option<String>, GitFail>,
>)
    ensures
        answers::tried(r) == rev_step(root@, spelling@, *answers),
{
    if !git::pick_spelling_shaped(spelling) {
        return Step::Done(Ok(None));
    }
    let revset = probe_revset(spelling);
    let args = log_words(revset.as_str(), "{node}");
    match probe(root, &args, answers) {
        Step::Ask(q) => Step::Ask(q),
        Step::Done(Err(e)) => Step::Done(Err(e)),
        Step::Done(Ok(None)) => Step::Done(Ok(None)),
        Step::Done(Ok(Some(out))) => Step::Done(Ok(find_node(out.as_str()))),
    }
}

/// The last public ancestor of the working copy.
pub open spec fn public_step(root: Seq<char>, a: Answers) -> Next<
    Result<Option<Seq<char>>, Seq<char>>,
> {
    rev_step(root, "last(public() & ::.)"@, a)
}

/// The last public ancestor of the working copy, the default `branch` base. A repository with no
/// public commits has none, which is no error.
pub fn public_base(root: &str, answers: &Answers) -> (r: Step<Result<Option<String>, GitFail>>)
    ensures
        answers::tried(r) == public_step(root@, *answers),
{
    resolve_rev(root, "last(public() & ::.)", answers)
}

// --- a commit pick -----------------------------------------------------------------------------

/// Whether `node` is the null node, the parent of a root commit.
pub open spec fn null_node(node: Seq<char>) -> bool {
    forall|i: int| 0 <= i < node.len() ==> #[trigger] node[i] == '0'
}

/// The live commit that a picked node became: its newest successor that is not obsolete.
pub open spec fn tip_revset(node: Seq<char>) -> Seq<char> {
    limited("last(successors("@ + term(node) + ") - obsolete())"@)
}

/// A commit's own parent.
pub open spec fn parent_revset(oid: Seq<char>) -> Seq<char> {
    limited("id("@ + oid + ")^"@)
}

/// The commit in a tip probe's output; none where it names no commit.
pub open spec fn tip_in(out: Seq<char>) -> Option<TipView> {
    match text::cut(out, '\t') {
        None => None,
        Some((node, rest)) => match text::cut(rest, '\t') {
            None => None,
            Some((diff, title)) => if null_node(text::trimmed(node)) {
                None
            } else {
                Some(
                    TipView {
                        oid: text::trimmed(node),
                        diff: text::trimmed(diff),
                        title: text::trimmed(title),
                    },
                )
            },
        },
    }
}

/// The commit that a picked node became.
pub open spec fn tip_step(root: Seq<char>, node: Seq<char>, a: Answers) -> Next<
    Result<Option<TipView>, Seq<char>>,
> {
    match probe_step(
        root,
        log_args(tip_revset(node), "{node}\t{phabdiff}\t{desc|firstline}"@),
        a,
    ) {
        Next::Ask(q) => Next::Ask(q),
        Next::Done(Err(e)) => Next::Done(Err(e)),
        Next::Done(Ok(None)) => Next::Done(Ok(None)),
        Next::Done(Ok(Some(out))) => Next::Done(Ok(tip_in(out))),
    }
}

/// A commit's own parent; none for a root commit.
pub open spec fn commit_parent_step(root: Seq<char>, oid: Seq<char>, a: Answers) -> Next<
    Result<Option<Seq<char>>, Seq<char>>,
> {
    match probe_step(root, log_args(parent_revset(oid), "{node}"@), a) {
        Next::Ask(q) => Next::Ask(q),
        Next::Done(Err(e)) => Next::Done(Err(e)),
        Next::Done(Ok(None)) => Next::Done(Ok(None)),
        Next::Done(Ok(Some(out))) => if null_node(text::trimmed(out)) {
            Next::Done(Ok(None))
        } else {
            Next::Done(Ok(Some(text::trimmed(out))))
        },
    }
}

fn is_null_node(node: &str) -> (b: bool)
    ensures
        b == null_node(node@),
{
    let v = text::chars_of(node);
    let mut i: usize = 0;
    while i < v.len()
        invariant
            v@ == node@,
            i <= v.len(),
            forall|j: int| 0 <= j < i ==> #[trigger] node@[j] == '0',
        decreases v.len() - i,
    {
        if v[i] != '0' {
            assert(node@[i as int] != '0');
            return false;
        }
        i = i + 1;
    }
    true
}

/// The commit in a tip probe's output.
fn parse_tip(out: &str) -> (r: Option<Tip>)
    ensures
        r.deep_view() == tip_in(out@),
{
    match text::split_at_first(out, '\t') {
        None => None,
        Some((node, rest)) => match text::split_at_first(rest.as_str(), '\t') {
            None => None,
            Some((diff, title)) => {
                let oid = text::trim(node.as_str());
                if is_null_node(oid.as_str()) {
                    None
                } else {
                    Some(
                        Tip {
                            oid,
                            diff: text::trim(diff.as_str()),
                            title: text::trim(title.as_str()),
                        },
                    )
                }
            },
        },
    }
}

/// The commit that a picked node became: an amend replaces the node, and the pick follows.
pub fn resolve_tip(root: &str, node: &str, answers: &Answers) -> (r: Step<
    Result<Option<Tip>, GitFail>,
>)
    ensures
        answers::tried(r) == tip_step(root@, node@, *answers),
{
    let mut inner = "last(successors(".to_owned();
    let t = term_of(node);
    inner.append(t.as_str());
    inner.append(") - obsolete())");
    let revset = limit(inner.as_str());
    let args = log_words(revset.as_str(), "{node}\t{phabdiff}\t{desc|firstline}");
    match probe(root, &args, answers) {
        Step::Ask(q) => Step::Ask(q),
        Step::Done(Err(e)) => Step::Done(Err(e)),
        Step::Done(Ok(None)) => Step::Done(Ok(None)),
        Step::Done(Ok(Some(out))) => Step::Done(Ok(parse_tip(out.as_str()))),
    }
}

/// A commit's own parent; none for a root commit.
pub fn resolve_parent(root: &str, oid: &str, answers: &Answers) -> (r: Step<
    Result<Option<String>, GitFail>,
>)
    ensures
        answers::tried(r) == commit_parent_step(root@, oid@, *answers),
{
    let mut inner = "id(".to_owned();
    inner.append(oid);
    inner.append(")^");
    let revset = limit(inner.as_str());
    let args = log_words(revset.as_str(), "{node}");
    match probe(root, &args, answers) {
        Step::Ask(q) => Step::Ask(q),
        Step::Done(Err(e)) => Step::Done(Err(e)),
        Step::Done(Ok(None)) => Step::Done(Ok(None)),
        Step::Done(Ok(Some(out))) => {
            let node = text::trim(out.as_str());
            if is_null_node(node.as_str()) {
                Step::Done(Ok(None))
            } else {
                Step::Done(Ok(Some(node)))
            }
        },
    }
}

// --- the base chain ------------------------------------------------------------------------------

/// A base and, where the pick names one commit, the commit that ends the range.
pub struct Ends {
    pub base: BaseView,
    pub tip: Option<TipView>,
}

/// What a pick resolves to. A commit pick's ends are the commit and its own parent; an end that has
/// gone away skips the whole pick.
pub open spec fn pick_step(root: Seq<char>, pick: PickView, a: Answers) -> Next<
    Result<Option<Ends>, Seq<char>>,
> {
    match pick.tip {
        None => match rev_step(root, pick.base, a) {
            Next::Ask(q) => Next::Ask(q),
            Next::Done(Err(e)) => Next::Done(Err(e)),
            Next::Done(Ok(None)) => Next::Done(Ok(None)),
            Next::Done(Ok(Some(oid))) => Next::Done(
                Ok(Some(Ends { base: BaseView::Rev { spelling: pick.base, oid }, tip: None })),
            ),
        },
        Some(node) => match tip_step(root, node, a) {
            Next::Ask(q) => Next::Ask(q),
            Next::Done(Err(e)) => Next::Done(Err(e)),
            Next::Done(Ok(None)) => Next::Done(Ok(None)),
            Next::Done(Ok(Some(tip))) => match commit_parent_step(root, tip.oid, a) {
                Next::Ask(q) => Next::Ask(q),
                Next::Done(Err(e)) => Next::Done(Err(e)),
                Next::Done(Ok(None)) => Next::Done(Ok(None)),
                Next::Done(Ok(Some(oid))) => Next::Done(
                    Ok(Some(Ends { base: BaseView::Rev { spelling: oid, oid }, tip: Some(tip) })),
                ),
            },
        },
    }
}

/// The name that a skipped pick goes by: a commit's abbreviated node, or the spelling.
pub open spec fn pick_name(pick: PickView) -> Seq<char> {
    match pick.tip {
        Some(node) => git::abbreviation(node),
        None => pick.base,
    }
}

pub open spec fn ends(winner: Option<BaseView>, skipped: Option<Seq<char>>, tip: Option<TipView>) -> EndsView {
    EndsView { base: StatusView { winner, skipped }, tip }
}

/// The end of the chain: the public base.
pub open spec fn fallback_step(root: Seq<char>, skipped: Option<Seq<char>>, a: Answers) -> Next<
    Result<EndsView, Seq<char>>,
> {
    match public_step(root, a) {
        Next::Ask(q) => Next::Ask(q),
        Next::Done(Err(e)) => Next::Done(Err(e)),
        Next::Done(Ok(None)) => Next::Done(Ok(ends(None, skipped, None))),
        Next::Done(Ok(Some(oid))) => Next::Done(
            Ok(ends(Some(BaseView::Rev { spelling: oid, oid }), skipped, None)),
        ),
    }
}

/// The chain behind the flag: the worktree pick, then the public base.
pub open spec fn picked_step(
    root: Seq<char>,
    dir: Seq<char>,
    skipped: Option<Seq<char>>,
    a: Answers,
) -> Next<Result<EndsView, Seq<char>>> {
    match store::read_pick_step(dir, a) {
        Next::Ask(q) => Next::Ask(q),
        Next::Done(Err(e)) => Next::Done(Err(e)),
        Next::Done(Ok(None)) => fallback_step(root, skipped, a),
        Next::Done(Ok(Some(pick))) => match pick_step(root, pick, a) {
            Next::Ask(q) => Next::Ask(q),
            Next::Done(Err(e)) => Next::Done(Err(e)),
            Next::Done(Ok(Some(found))) => Next::Done(
                Ok(ends(Some(found.base), skipped, found.tip)),
            ),
            Next::Done(Ok(None)) => fallback_step(
                root,
                if skipped is Some {
                    skipped
                } else {
                    Some(pick_name(pick))
                },
                a,
            ),
        },
    }
}

/// The base chain: the flag, then the worktree pick, then the public base. A spelling that names no
/// revision is skipped, never an error.
pub open spec fn chain_step(
    root: Seq<char>,
    dir: Seq<char>,
    flag: Option<Seq<char>>,
    a: Answers,
) -> Next<Result<EndsView, Seq<char>>> {
    match flag {
        Some(flag) if flag.len() > 0 => match rev_step(root, flag, a) {
            Next::Ask(q) => Next::Ask(q),
            Next::Done(Err(e)) => Next::Done(Err(e)),
            Next::Done(Ok(Some(oid))) => Next::Done(
                Ok(ends(Some(BaseView::Rev { spelling: flag, oid }), None, None)),
            ),
            Next::Done(Ok(None)) => picked_step(root, dir, Some(flag), a),
        },
        _ => picked_step(root, dir, None, a),
    }
}

/// The view of a step that ends in the two ends of a pick.
spec fn ended(step: Step<Result<Option<(ResolvedBase, Option<Tip>)>, GitFail>>) -> Next<
    Result<Option<Ends>, Seq<char>>,
> {
    match step {
        Step::Ask(qs) => Next::Ask(qs.deep_view()),
        Step::Done(Err(e)) => Next::Done(Err(e.deep_view())),
        Step::Done(Ok(None)) => Next::Done(Ok(None)),
        Step::Done(Ok(Some((base, tip)))) => Next::Done(
            Ok(Some(Ends { base: base.deep_view(), tip: tip.deep_view() })),
        ),
    }
}

fn resolve_pick(root: &str, pick: &Pick, answers: &Answers) -> (r: Step<
    Result<Option<(ResolvedBase, Option<Tip>)>, GitFail>,
>)
    ensures
        ended(r) == pick_step(root@, pick.deep_view(), *answers),
{
    match &pick.tip {
        None => match resolve_rev(root, pick.base.as_str(), answers) {
            Step::Ask(q) => Step::Ask(q),
            Step::Done(Err(e)) => Step::Done(Err(e)),
            Step::Done(Ok(None)) => Step::Done(Ok(None)),
            Step::Done(Ok(Some(oid))) => Step::Done(
                Ok(Some((ResolvedBase::Rev { spelling: pick.base.clone(), oid }, None))),
            ),
        },
        Some(node) => match resolve_tip(root, node.as_str(), answers) {
            Step::Ask(q) => Step::Ask(q),
            Step::Done(Err(e)) => Step::Done(Err(e)),
            Step::Done(Ok(None)) => Step::Done(Ok(None)),
            Step::Done(Ok(Some(tip))) => match resolve_parent(root, tip.oid.as_str(), answers) {
                Step::Ask(q) => Step::Ask(q),
                Step::Done(Err(e)) => Step::Done(Err(e)),
                Step::Done(Ok(None)) => Step::Done(Ok(None)),
                Step::Done(Ok(Some(oid))) => Step::Done(
                    Ok(
                        Some(
                            (ResolvedBase::Rev { spelling: oid.clone(), oid }, Some(tip)),
                        ),
                    ),
                ),
            },
        },
    }
}

fn fall_back(root: &str, skipped: Option<String>, answers: &Answers) -> (r: Step<
    Result<BranchEnds, GitFail>,
>)
    ensures
        answers::tried(r) == fallback_step(root@, skipped.deep_view(), *answers),
{
    match public_base(root, answers) {
        Step::Ask(q) => Step::Ask(q),
        Step::Done(Err(e)) => Step::Done(Err(e)),
        Step::Done(Ok(None)) => Step::Done(
            Ok(BranchEnds { base: BaseStatus { winner: None, skipped }, tip: None }),
        ),
        Step::Done(Ok(Some(oid))) => Step::Done(
            Ok(
                BranchEnds {
                    base: BaseStatus {
                        winner: Some(ResolvedBase::Rev { spelling: oid.clone(), oid }),
                        skipped,
                    },
                    tip: None,
                },
            ),
        ),
    }
}

fn behind_flag(root: &str, store: &Store, skipped: Option<String>, answers: &Answers) -> (r: Step<
    Result<BranchEnds, GitFail>,
>)
    ensures
        answers::tried(r) == picked_step(root@, store.place(), skipped.deep_view(), *answers),
{
    let pick = match store.read_base_pick(answers) {
        Step::Ask(q) => {
            return Step::Ask(q);
        },
        Step::Done(Err(e)) => {
            return Step::Done(Err(e));
        },
        Step::Done(Ok(None)) => {
            return fall_back(root, skipped, answers);
        },
        Step::Done(Ok(Some(pick))) => pick,
    };
    match resolve_pick(root, &pick, answers) {
        Step::Ask(q) => Step::Ask(q),
        Step::Done(Err(e)) => Step::Done(Err(e)),
        Step::Done(Ok(Some((base, tip)))) => Step::Done(
            Ok(BranchEnds { base: BaseStatus { winner: Some(base), skipped }, tip }),
        ),
        Step::Done(Ok(None)) => {
            let skipped = match skipped {
                Some(flag) => Some(flag),
                None => match &pick.tip {
                    Some(node) => Some(git::abbreviate_oid(node.as_str())),
                    None => Some(pick.base.clone()),
                },
            };
            fall_back(root, skipped, answers)
        },
    }
}

/// Resolve the base chain: the `--base` flag, then the worktree pick, then the public base. Every
/// winner is a `Rev`: Sapling has no walk from origin to local branches.
pub fn resolve_base(
    root: &str,
    base_flag: Option<&str>,
    places: &Places,
    answers: &Answers,
) -> (r: Step<Result<BranchEnds, GitFail>>)
    ensures
        answers::tried(r) == chain_step(
            root@,
            store::store_dir(places.base(), root@),
            base_flag.deep_view(),
            *answers,
        ),
{
    let store = Store::open(root, places);
    if let Some(flag) = base_flag {
        if !flag.is_empty() {
            return match resolve_rev(root, flag, answers) {
                Step::Ask(q) => Step::Ask(q),
                Step::Done(Err(e)) => Step::Done(Err(e)),
                Step::Done(Ok(Some(oid))) => Step::Done(
                    Ok(
                        BranchEnds {
                            base: BaseStatus {
                                winner: Some(
                                    ResolvedBase::Rev { spelling: flag.to_owned(), oid },
                                ),
                                skipped: None,
                            },
                            tip: None,
                        },
                    ),
                ),
                Step::Done(Ok(None)) => behind_flag(root, &store, Some(flag.to_owned()), answers),
            };
        }
    }
    behind_flag(root, &store, None, answers)
}

/// What a typed spelling resolves to.
pub open spec fn spelling_step(root: Seq<char>, spelling: Seq<char>, a: Answers) -> Next<
    Result<Option<BaseView>, Seq<char>>,
> {
    match rev_step(root, spelling, a) {
        Next::Ask(q) => Next::Ask(q),
        Next::Done(Err(e)) => Next::Done(Err(e)),
        Next::Done(Ok(None)) => Next::Done(Ok(None)),
        Next::Done(Ok(Some(oid))) => Next::Done(Ok(Some(BaseView::Rev { spelling, oid }))),
    }
}

/// Resolve one typed base-picker spelling.
pub fn resolve_spelling(root: &str, spelling: &str, answers: &Answers) -> (r: Step<
    Result<Option<ResolvedBase>, GitFail>,
>)
    ensures
        answers::tried(r) == spelling_step(root@, spelling@, *answers),
{
    match resolve_rev(root, spelling, answers) {
        Step::Ask(q) => Step::Ask(q),
        Step::Done(Err(e)) => Step::Done(Err(e)),
        Step::Done(Ok(None)) => Step::Done(Ok(None)),
        Step::Done(Ok(Some(oid))) => Step::Done(
            Ok(Some(ResolvedBase::Rev { spelling: spelling.to_owned(), oid })),
        ),
    }
}

// --- the base picker's rows ------------------------------------------------------------------------

pub open spec fn bookmark_args() -> Seq<Seq<char>> {
    seq!["bookmarks"@, "-T"@, "{bookmark}\n"@]
}

/// The lines that are not blank, trimmed.
pub open spec fn names_in(ls: Seq<Seq<char>>) -> Seq<Seq<char>>
    decreases ls.len(),
{
    if ls.len() == 0 {
        seq![]
    } else {
        let done = names_in(ls.drop_last());
        let name = text::trimmed(ls.last());
        if name.len() == 0 {
            done
        } else {
            done.push(name)
        }
    }
}

/// The local bookmarks.
pub open spec fn bookmarks_step(root: Seq<char>, a: Answers) -> Next<
    Result<Seq<Seq<char>>, Seq<char>>,
> {
    match list_step(root, bookmark_args(), a) {
        Next::Ask(q) => Next::Ask(q),
        Next::Done(Err(e)) => Next::Done(Err(e)),
        Next::Done(Ok(out)) => Next::Done(Ok(names_in(text::lines(out)))),
    }
}

/// The local bookmarks, for the base picker.
pub fn list_bookmarks(root: &str, answers: &Answers) -> (r: Step<Result<Vec<String>, GitFail>>)
    ensures
        answers::tried(r) == bookmarks_step(root@, *answers),
{
    let args = answers::words3("bookmarks", "-T", "{bookmark}\n");
    let out = match list(root, &args, answers) {
        Step::Ask(q) => {
            return Step::Ask(q);
        },
        Step::Done(Err(e)) => {
            return Step::Done(Err(e));
        },
        Step::Done(Ok(out)) => out,
    };
    let ls = text::split_lines(out.as_str());
    let ghost all = ls.deep_view();
    let mut names: Vec<String> = Vec::new();
    assert(all.take(0) =~= seq![]);
    assert(names.deep_view() =~= seq![]);
    let mut i: usize = 0;
    while i < ls.len()
        invariant
            all == ls.deep_view(),
            i <= ls.len(),
            names.deep_view() == names_in(all.take(i as int)),
        decreases ls.len() - i,
    {
        let ghost done = names.deep_view();
        assert(all.take(i + 1).drop_last() =~= all.take(i as int));
        assert(all[i as int] == ls@[i as int]@);
        let name = text::trim(ls[i].as_str());
        if !name.as_str().is_empty() {
            let ghost view = name@;
            names.push(name);
            assert(names.deep_view() =~= done.push(view));
        }
        i = i + 1;
    }
    assert(all.take(i as int) =~= all);
    Step::Done(Ok(names))
}

/// One stack commit offered by the base picker: the short node it records, and the description's
/// first line it reads as.
#[derive(Debug, PartialEq, Eq)]
pub struct StackCommit {
    pub node: String,
    pub title: String,
}

/// The view of a `StackCommit`.
pub struct StackRow {
    pub node: Seq<char>,
    pub title: Seq<char>,
}

impl DeepView for StackCommit {
    type V = StackRow;

    open spec fn deep_view(&self) -> StackRow {
        StackRow { node: self.node@, title: self.title@ }
    }
}

impl Clone for StackCommit {
    fn clone(&self) -> (r: Self)
        ensures
            r.deep_view() == self.deep_view(),
    {
        StackCommit { node: self.node.clone(), title: self.title.clone() }
    }
}

/// The draft commits connected to the working copy, newest first: the draft ancestors of the live
/// form of `.`, and what stands on them, without the commits that were replaced.
pub open spec fn stack_args() -> Seq<Seq<char>> {
    log_args(
        "sort((draft() & ::successors(.)):: - obsolete(), -rev)"@,
        "{node|short}\t{desc|firstline}\n"@,
    )
}

/// The commit on a stack line; none on a line that names no commit.
pub open spec fn stack_row(line: Seq<char>) -> Option<StackRow> {
    match text::cut(line, '\t') {
        None => None,
        Some((node, title)) => if text::trimmed(node).len() == 0 {
            None
        } else {
            Some(StackRow { node: text::trimmed(node), title: text::trimmed(title) })
        },
    }
}

/// The commits on the lines.
pub open spec fn stack_in(ls: Seq<Seq<char>>) -> Seq<StackRow>
    decreases ls.len(),
{
    if ls.len() == 0 {
        seq![]
    } else {
        let done = stack_in(ls.drop_last());
        match stack_row(ls.last()) {
            Some(row) => done.push(row),
            None => done,
        }
    }
}

/// The stack.
pub open spec fn stack_step(root: Seq<char>, a: Answers) -> Next<
    Result<Seq<StackRow>, Seq<char>>,
> {
    match list_step(root, stack_args(), a) {
        Next::Ask(q) => Next::Ask(q),
        Next::Done(Err(e)) => Next::Done(Err(e)),
        Next::Done(Ok(out)) => Next::Done(Ok(stack_in(text::lines(out)))),
    }
}

fn parse_stack_row(line: &str) -> (r: Option<StackCommit>)
    ensures
        r.deep_view() == stack_row(line@),
{
    match text::split_at_first(line, '\t') {
        None => None,
        Some((node, title)) => {
            let node = text::trim(node.as_str());
            if node.as_str().is_empty() {
                None
            } else {
                Some(StackCommit { node, title: text::trim(title.as_str()) })
            }
        },
    }
}

/// The draft commits connected to the working copy, newest first, for the base picker. The
/// working-copy parent is among them: it is a commit to review. Scanning the stack rather than the
/// repository's whole draft set keeps this O(stack).
pub fn list_stack(root: &str, answers: &Answers) -> (r: Step<Result<Vec<StackCommit>, GitFail>>)
    ensures
        answers::tried(r) == stack_step(root@, *answers),
{
    let args = log_words(
        "sort((draft() & ::successors(.)):: - obsolete(), -rev)",
        "{node|short}\t{desc|firstline}\n",
    );
    let out = match list(root, &args, answers) {
        Step::Ask(q) => {
            return Step::Ask(q);
        },
        Step::Done(Err(e)) => {
            return Step::Done(Err(e));
        },
        Step::Done(Ok(out)) => out,
    };
    let ls = text::split_lines(out.as_str());
    let ghost all = ls.deep_view();
    let mut stack: Vec<StackCommit> = Vec::new();
    assert(all.take(0) =~= seq![]);
    assert(stack.deep_view() =~= seq![]);
    let mut i: usize = 0;
    while i < ls.len()
        invariant
            all == ls.deep_view(),
            i <= ls.len(),
            stack.deep_view() == stack_in(all.take(i as int)),
        decreases ls.len() - i,
    {
        let ghost done = stack.deep_view();
        assert(all.take(i + 1).drop_last() =~= all.take(i as int));
        assert(all[i as int] == ls@[i as int]@);
        if let Some(row) = parse_stack_row(ls[i].as_str()) {
            let ghost view = row.deep_view();
            stack.push(row);
            assert(stack.deep_view() =~= done.push(view));
        }
        i = i + 1;
    }
    assert(all.take(i as int) =~= all);
    Step::Done(Ok(stack))
}

// --- what the chain promises ------------------------------------------------------------------------

/// The base chain keeps its order: a flag that resolves wins whatever the pick is; behind a flag
/// that does not, a pick that resolves wins; and the public base is the end. What is skipped is
/// named: the flag, or else the pick. Only a pick of one commit pins the far end.
pub proof fn law_base_chain_keeps_its_order(
    root: Seq<char>,
    dir: Seq<char>,
    flag: Option<Seq<char>>,
    a: Answers,
)
    ensures
        ({
            let chain = chain_step(root, dir, flag, a);
            let flagged = flag is Some && flag->0.len() > 0;
            let missed = !flagged || rev_step(root, flag->0, a) == Next::<
                Result<Option<Seq<char>>, Seq<char>>,
            >::Done(Ok(None));
            let skipped = if flagged {
                flag
            } else {
                None
            };
            let read = store::read_pick_step(dir, a);
            &&& flagged ==> (rev_step(root, flag->0, a) matches Next::Done(Ok(Some(oid)))
                ==> chain == Next::<Result<EndsView, Seq<char>>>::Done(
                Ok(ends(Some(BaseView::Rev { spelling: flag->0, oid }), None, None)),
            ))
            &&& missed ==> (read matches Next::Done(Ok(Some(pick))) ==> (pick_step(
                root,
                pick,
                a,
            ) matches Next::Done(Ok(Some(found))) ==> chain == Next::<
                Result<EndsView, Seq<char>>,
            >::Done(Ok(ends(Some(found.base), skipped, found.tip))) && (found.tip is Some
                <==> pick.tip is Some)))
            &&& missed ==> (read matches Next::Done(Ok(Some(pick))) ==> (pick_step(root, pick, a)
                == Next::<Result<Option<Ends>, Seq<char>>>::Done(Ok(None)) ==> chain
                == fallback_step(
                root,
                if flagged {
                    flag
                } else {
                    Some(pick_name(pick))
                },
                a,
            )))
            &&& missed ==> (read matches Next::Done(Ok(None)) ==> chain == fallback_step(
                root,
                skipped,
                a,
            ))
        }),
{
}

/// A spelling that names no one revision is skipped, never an error: the chain fails only where the
/// pick cannot be read or where a command fails for another reason. A repository with no public
/// commits has no base, which is no error either.
pub proof fn law_base_chain_skips_and_never_errs(
    root: Seq<char>,
    dir: Seq<char>,
    flag: Option<Seq<char>>,
    spelling: Seq<char>,
    code: Option<i32>,
    stdout: Seq<u8>,
    stderr: Seq<u8>,
    a: Answers,
)
    ensures
        a.run_of(root, log_args(limited(term(spelling)), "{node}"@)) == Some(
            RunView::Ended { code, stdout, stderr },
        ) && code != Some(0i32) && clean_miss(outside::lossy(stderr)) ==> rev_step(root, spelling, a)
            == Next::<Result<Option<Seq<char>>, Seq<char>>>::Done(Ok(None)),
        chain_step(root, dir, flag, a) matches Next::Done(Err(e)) ==> {
            ||| flag is Some && rev_step(root, flag->0, a) == Next::<
                Result<Option<Seq<char>>, Seq<char>>,
            >::Done(Err(e))
            ||| store::read_pick_step(dir, a) == Next::<
                Result<Option<PickView>, Seq<char>>,
            >::Done(Err(e))
            ||| (store::read_pick_step(dir, a) matches Next::Done(Ok(Some(pick))) && pick_step(
                root,
                pick,
                a,
            ) == Next::<Result<Option<Ends>, Seq<char>>>::Done(Err(e)))
            ||| public_step(root, a) == Next::<Result<Option<Seq<char>>, Seq<char>>>::Done(Err(e))
        },
        public_step(root, a) == Next::<Result<Option<Seq<char>>, Seq<char>>>::Done(Ok(None))
            ==> fallback_step(root, None, a) == Next::<Result<EndsView, Seq<char>>>::Done(
            Ok(ends(None, None, None)),
        ),
{
}

/// A commit pick is that commit, followed to its live form, against its own parent; where either
/// end has gone away the whole pick is skipped.
pub proof fn law_commit_pick_is_one_commit(
    root: Seq<char>,
    node: Seq<char>,
    base: Seq<char>,
    tip: TipView,
    a: Answers,
)
    requires
        tip_step(root, node, a) == Next::<Result<Option<TipView>, Seq<char>>>::Done(Ok(Some(tip))),
    ensures
        ({
            let found = pick_step(root, PickView { base, tip: Some(node) }, a);
            &&& commit_parent_step(root, tip.oid, a) matches Next::Done(Ok(Some(oid))) ==> found
                == Next::<Result<Option<Ends>, Seq<char>>>::Done(
                Ok(Some(Ends { base: BaseView::Rev { spelling: oid, oid }, tip: Some(tip) })),
            )
            &&& commit_parent_step(root, tip.oid, a) matches Next::Done(Ok(None)) ==> found
                == Next::<Result<Option<Ends>, Seq<char>>>::Done(Ok(None))
        }),
{
}

/// A spelling of digits alone is always a hash prefix, whatever its length, and never a local
/// revision number.
pub proof fn law_digits_are_a_hash_prefix(spelling: Seq<char>)
    requires
        text::all_digits(spelling),
    ensures
        limited(term(spelling)) == "limit(id("@ + spelling + "), 1)"@,
{
    reveal_strlit("limit(");
    reveal_strlit("id(");
    reveal_strlit("limit(id(");
    reveal_strlit(")");
    reveal_strlit(", 1)");
    reveal_strlit("), 1)");
    assert(limited(term(spelling)) =~= "limit(id("@ + spelling + "), 1)"@);
}

// --- what is asked and what is made of it ---------------------------------------------------------

/// Whether every character of `s` is one of `of`.
pub open spec fn only(s: Seq<char>, of: Seq<char>) -> bool {
    forall|i: int| 0 <= i < s.len() ==> of.contains(#[trigger] s[i])
}

proof fn lemma_only(s: Seq<char>)
    ensures
        text::all_digits(s) <==> only(s, "0123456789"@),
        text::all_hex(s) <==> only(s, "0123456789abcdefABCDEF"@),
{
    assert forall|i: int| 0 <= i < s.len() implies (text::is_digit(#[trigger] s[i])
        <==> "0123456789"@.contains(s[i])) && (text::is_hex_digit(s[i])
        <==> "0123456789abcdefABCDEF"@.contains(s[i])) by {
        text::law_digits(s[i]);
    }
    if text::all_digits(s) {
        assert forall|i: int| 0 <= i < s.len() implies "0123456789"@.contains(#[trigger] s[i]) by {
            assert(text::is_digit(s[i]));
        }
    }
    if only(s, "0123456789"@) {
        assert forall|i: int| 0 <= i < s.len() implies text::is_digit(#[trigger] s[i]) by {
            assert("0123456789"@.contains(s[i]));
        }
    }
    if text::all_hex(s) {
        assert forall|i: int| 0 <= i < s.len() implies "0123456789abcdefABCDEF"@.contains(
            #[trigger] s[i],
        ) by {
            assert(text::is_hex_digit(s[i]));
        }
    }
    if only(s, "0123456789abcdefABCDEF"@) {
        assert forall|i: int| 0 <= i < s.len() implies text::is_hex_digit(#[trigger] s[i]) by {
            assert("0123456789abcdefABCDEF"@.contains(s[i]));
        }
    }
}

proof fn lemma_id_form(s: Seq<char>)
    ensures
        limited("id("@ + s + ")"@) == "limit(id("@ + s + "), 1)"@,
{
    reveal_strlit("limit(");
    reveal_strlit("id(");
    reveal_strlit("limit(id(");
    reveal_strlit(")");
    reveal_strlit(", 1)");
    reveal_strlit("), 1)");
    assert(limited("id("@ + s + ")"@) =~= "limit(id("@ + s + "), 1)"@);
}

/// How a spelling stands in its probe. One with a character that is no hexadecimal digit stands as it
/// is spelled. One of digits alone is a hash prefix, and so is one of four or more hexadecimal
/// digits; a shorter one with a letter stands as it is spelled.
pub proof fn law_spelling_stands_as_it_is_unless_a_hash(s: Seq<char>)
    ensures
        !only(s, "0123456789abcdefABCDEF"@) ==> limited(term(s)) == "limit("@ + s + ", 1)"@,
        only(s, "0123456789"@) ==> limited(term(s)) == "limit(id("@ + s + "), 1)"@,
        only(s, "0123456789abcdefABCDEF"@) && s.len() >= 4 ==> limited(term(s)) == "limit(id("@ + s
            + "), 1)"@,
        only(s, "0123456789abcdefABCDEF"@) && s.len() < 4 && !only(s, "0123456789"@) ==> limited(
            term(s),
        ) == "limit("@ + s + ", 1)"@,
{
    lemma_only(s);
    lemma_id_form(s);
    if text::all_digits(s) {
        assert(text::all_hex(s)) by {
            assert forall|i: int| 0 <= i < s.len() implies text::is_hex_digit(#[trigger] s[i]) by {
                assert(text::is_digit(s[i]));
            }
        }
    }
}

/// What a command that lists comes to: its output where it succeeded, else an error that names the
/// command and says why. Before it ran, it is what is asked.
pub proof fn law_list_is_what_the_command_prints(root: Seq<char>, args: Seq<Seq<char>>, a: Answers)
    ensures
        ({
            let end = list_step(root, args, a);
            let what = "sl "@ + outside::debug_words(args) + ": "@;
            match a.reply(Topic::Run, seq![root] + args) {
                Some(Reply::Run(Run::Failed(e))) => end == Next::<
                    Result<Seq<char>, Seq<char>>,
                >::Done(Err(what + e@)),
                Some(Reply::Run(Run::Ended(exit))) => end == Next::<
                    Result<Seq<char>, Seq<char>>,
                >::Done(
                    if exit.code == Some(0i32) {
                        Ok(outside::lossy(exit.stdout@))
                    } else {
                        Err(what + text::trimmed(outside::lossy(exit.stderr@)))
                    },
                ),
                _ => end == Next::<Result<Seq<char>, Seq<char>>>::Ask(
                    seq![Question { topic: Topic::Run, words: seq![root] + args, acts: seq![] }],
                ),
            }
        }),
{
}

/// What a spelling resolves to, of which `revset` is the probe. An empty spelling and one that looks
/// like an option name nothing, and nothing is asked. Otherwise one `sl log` of the probe is run,
/// and the node that it prints is the commit; a blank output names none. A complaint that the name
/// is unknown, that it does not parse or that it is ambiguous is a miss; any other failure is the
/// repository's.
pub proof fn law_spelling_resolves_to_the_printed_node(root: Seq<char>, s: Seq<char>, a: Answers)
    ensures
        ({
            let end = rev_step(root, s, a);
            let words = seq![root, "log"@, "-r"@, limited(term(s)), "-T"@, "{node}"@];
            let what = "sl "@ + outside::debug_words(words.skip(1)) + ": "@;
            if s.len() == 0 || s[0] == '-' {
                end == Next::<Result<Option<Seq<char>>, Seq<char>>>::Done(Ok(None))
            } else {
                match a.reply(Topic::Run, words) {
                    Some(Reply::Run(Run::Failed(e))) => end == Next::<
                        Result<Option<Seq<char>>, Seq<char>>,
                    >::Done(Err(what + e@)),
                    Some(Reply::Run(Run::Ended(exit))) => {
                        let node = text::trimmed(outside::lossy(exit.stdout@));
                        let said = outside::lossy(exit.stderr@);
                        end == Next::<Result<Option<Seq<char>>, Seq<char>>>::Done(
                            if exit.code == Some(0i32) {
                                Ok(
                                    if node.len() == 0 {
                                        None
                                    } else {
                                        Some(node)
                                    },
                                )
                            } else if text::has_part(said, "unknown revision"@) || text::has_part(
                                said,
                                "parse error"@,
                            ) || text::has_part(said, "ambiguous identifier"@) {
                                Ok(None)
                            } else {
                                Err(what + text::trimmed(said))
                            },
                        )
                    },
                    _ => end == Next::<Result<Option<Seq<char>>, Seq<char>>>::Ask(
                        seq![Question { topic: Topic::Run, words, acts: seq![] }],
                    ),
                }
            }
        }),
        spelling_step(root, s, a) == (match rev_step(root, s, a) {
            Next::Ask(q) => Next::Ask(q),
            Next::Done(Err(e)) => Next::Done(Err(e)),
            Next::Done(Ok(None)) => Next::Done(Ok(None)),
            Next::Done(Ok(Some(oid))) => Next::Done(Ok(Some(BaseView::Rev { spelling: s, oid }))),
        }),
{
    let args = log_args(limited(term(s)), "{node}"@);
    let words = seq![root, "log"@, "-r"@, limited(term(s)), "-T"@, "{node}"@];
    assert(seq![root] + args =~= words);
    assert(words.skip(1) =~= args);
}

/// The public base is what `last(public() & ::.)` resolves to, in one probe.
pub proof fn law_public_base_is_the_last_public_ancestor(root: Seq<char>, a: Answers)
    ensures
        public_step(root, a) == rev_step(root, "last(public() & ::.)"@, a),
        limited(term("last(public() & ::.)"@)) == "limit(last(public() & ::.), 1)"@,
{
    reveal_strlit("last(public() & ::.)");
    reveal_strlit("limit(last(public() & ::.), 1)");
    reveal_strlit("limit(");
    reveal_strlit(", 1)");
    reveal_strlit("0123456789abcdefABCDEF");
    let s = "last(public() & ::.)"@;
    law_spelling_stands_as_it_is_unless_a_hash(s);
    assert(s[0] == 'l');
    assert(!"0123456789abcdefABCDEF"@.contains(s[0]));
    assert("limit("@ + s + ", 1)"@ =~= "limit(last(public() & ::.), 1)"@);
}

/// The commit that a picked node became: the newest of its successors that is not obsolete. Its
/// output is its node, its code review number and its title, with tabs between; a blank node and
/// one of zeros name no commit.
pub proof fn law_picked_commit_is_followed(
    root: Seq<char>,
    node: Seq<char>,
    oid: Seq<char>,
    diff: Seq<char>,
    title: Seq<char>,
    exit: Exit,
    a: Answers,
)
    ensures
        ({
            let end = tip_step(root, node, a);
            let words = seq![
                root,
                "log"@,
                "-r"@,
                "limit(last(successors("@ + term(node) + ") - obsolete()), 1)"@,
                "-T"@,
                "{node}\t{phabdiff}\t{desc|firstline}"@,
            ];
            let out = outside::lossy(exit.stdout@);
            let said = outside::lossy(exit.stderr@);
            &&& a.reply(Topic::Run, words) is None ==> end == Next::<
                Result<Option<TipView>, Seq<char>>,
            >::Ask(seq![Question { topic: Topic::Run, words, acts: seq![] }])
            &&& a.reply(Topic::Run, words) == Some(Reply::Run(Run::Ended(exit))) && exit.code
                == Some(0i32) ==> {
                &&& out == oid + seq!['\t'] + (diff + seq!['\t'] + title) && !oid.contains('\t')
                    && !diff.contains('\t') ==> end == Next::<
                    Result<Option<TipView>, Seq<char>>,
                >::Done(
                    Ok(
                        if only(text::trimmed(oid), "0"@) {
                            None
                        } else {
                            Some(
                                TipView {
                                    oid: text::trimmed(oid),
                                    diff: text::trimmed(diff),
                                    title: text::trimmed(title),
                                },
                            )
                        },
                    ),
                )
                &&& !out.contains('\t') || (out == oid + seq!['\t'] + diff && !oid.contains('\t')
                    && !diff.contains('\t')) ==> end == Next::<
                    Result<Option<TipView>, Seq<char>>,
                >::Done(Ok(None))
            }
            &&& a.reply(Topic::Run, words) == Some(Reply::Run(Run::Ended(exit))) && exit.code
                != Some(0i32) ==> (if text::has_part(said, "unknown revision"@) || text::has_part(
                said,
                "parse error"@,
            ) || text::has_part(said, "ambiguous identifier"@) {
                end == Next::<Result<Option<TipView>, Seq<char>>>::Done(Ok(None))
            } else {
                end matches Next::Done(Err(_))
            })
        }),
{
    reveal_strlit("limit(");
    reveal_strlit(", 1)");
    reveal_strlit("last(successors(");
    reveal_strlit(") - obsolete())");
    reveal_strlit("limit(last(successors(");
    reveal_strlit(") - obsolete()), 1)");
    let revset = "limit(last(successors("@ + term(node) + ") - obsolete()), 1)"@;
    assert(tip_revset(node) =~= revset);
    let words = seq![
        root,
        "log"@,
        "-r"@,
        revset,
        "-T"@,
        "{node}\t{phabdiff}\t{desc|firstline}"@,
    ];
    assert(seq![root] + log_args(tip_revset(node), "{node}\t{phabdiff}\t{desc|firstline}"@)
        =~= words);
    let out = outside::lossy(exit.stdout@);
    text::law_cut_is_at_the_first_separator(out, '\t');
    if out == oid + seq!['\t'] + (diff + seq!['\t'] + title) && !oid.contains('\t')
        && !diff.contains('\t') {
        lemma_cut_at(oid, diff + seq!['\t'] + title, '\t');
        lemma_cut_at(diff, title, '\t');
        lemma_zeros(text::trimmed(oid));
    }
    if out == oid + seq!['\t'] + diff && !oid.contains('\t') && !diff.contains('\t') {
        lemma_cut_at(oid, diff, '\t');
        text::law_cut_is_at_the_first_separator(diff, '\t');
    }
}

proof fn lemma_zeros(s: Seq<char>)
    ensures
        null_node(s) <==> only(s, "0"@),
{
    reveal_strlit("0");
    assert("0"@[0] == '0');
    if null_node(s) {
        assert forall|i: int| 0 <= i < s.len() implies "0"@.contains(#[trigger] s[i]) by {}
    }
    if only(s, "0"@) {
        assert forall|i: int| 0 <= i < s.len() implies #[trigger] s[i] == '0' by {
            assert("0"@.contains(s[i]));
        }
    }
}

proof fn lemma_cut_at(left: Seq<char>, right: Seq<char>, sep: char)
    requires
        !left.contains(sep),
    ensures
        text::cut(left + seq![sep] + right, sep) == Some((left, right)),
    decreases left.len(),
{
    let s = left + seq![sep] + right;
    if left.len() == 0 {
        assert(s.skip(1) =~= right);
        assert(left =~= seq![]);
    } else {
        assert(s[0] == left[0]);
        assert(left[0] != sep);
        let rest = left.skip(1);
        assert forall|i: int| 0 <= i < rest.len() implies rest[i] != sep by {
            assert(left[i + 1] != sep);
        }
        assert(s.skip(1) =~= rest + seq![sep] + right);
        lemma_cut_at(rest, right, sep);
        assert(seq![s[0]] + rest =~= left);
    }
}

/// A commit's own parent is what `id(<commit>)^` prints; a node of zeros, the parent of a root
/// commit, is none.
pub proof fn law_parent_of_a_commit(root: Seq<char>, oid: Seq<char>, exit: Exit, a: Answers)
    ensures
        ({
            let end = commit_parent_step(root, oid, a);
            let words = seq![
                root,
                "log"@,
                "-r"@,
                "limit(id("@ + oid + ")^, 1)"@,
                "-T"@,
                "{node}"@,
            ];
            let node = text::trimmed(outside::lossy(exit.stdout@));
            let said = outside::lossy(exit.stderr@);
            &&& a.reply(Topic::Run, words) is None ==> end == Next::<
                Result<Option<Seq<char>>, Seq<char>>,
            >::Ask(seq![Question { topic: Topic::Run, words, acts: seq![] }])
            &&& a.reply(Topic::Run, words) == Some(Reply::Run(Run::Ended(exit))) && exit.code
                == Some(0i32) ==> end == Next::<Result<Option<Seq<char>>, Seq<char>>>::Done(
                Ok(
                    if only(node, "0"@) {
                        None
                    } else {
                        Some(node)
                    },
                ),
            )
            &&& a.reply(Topic::Run, words) == Some(Reply::Run(Run::Ended(exit))) && exit.code
                != Some(0i32) ==> (if text::has_part(said, "unknown revision"@) || text::has_part(
                said,
                "parse error"@,
            ) || text::has_part(said, "ambiguous identifier"@) {
                end == Next::<Result<Option<Seq<char>>, Seq<char>>>::Done(Ok(None))
            } else {
                end matches Next::Done(Err(_))
            })
        }),
{
    reveal_strlit("limit(");
    reveal_strlit(", 1)");
    reveal_strlit("id(");
    reveal_strlit(")^");
    reveal_strlit("limit(id(");
    reveal_strlit(")^, 1)");
    let revset = "limit(id("@ + oid + ")^, 1)"@;
    assert(parent_revset(oid) =~= revset);
    assert(seq![root] + log_args(parent_revset(oid), "{node}"@) =~= seq![
        root,
        "log"@,
        "-r"@,
        revset,
        "-T"@,
        "{node}"@,
    ]);
    lemma_zeros(text::trimmed(outside::lossy(exit.stdout@)));
}

/// What the base chain comes to, from what its spellings resolve to. The flag wins where it resolves.
/// Behind it the worktree pick wins where it resolves: a spelling as it is, a commit as the commit
/// that ends the range, against its parent. Behind both stands the public base, by its node. What
/// did not resolve is skipped and named, the flag before the pick, a commit by its first seven
/// digits; a failure of the repository, or of the pick's file, is the chain's.
pub proof fn law_base_chain_result(
    root: Seq<char>,
    dir: Seq<char>,
    flag: Option<Seq<char>>,
    a: Answers,
)
    ensures
        ({
            let end = chain_step(root, dir, flag, a);
            let flagged = flag is Some && flag->0.len() > 0;
            let won = |winner: Option<BaseView>, skipped: Option<Seq<char>>, tip: Option<TipView>|
                Next::<Result<EndsView, Seq<char>>>::Done(
                    Ok(EndsView { base: StatusView { winner, skipped }, tip }),
                );
            let failed = |e: Seq<char>| Next::<Result<EndsView, Seq<char>>>::Done(Err(e));
            let public = |skipped: Option<Seq<char>>|
                match rev_step(root, "last(public() & ::.)"@, a) {
                    Next::Ask(q) => Next::<Result<EndsView, Seq<char>>>::Ask(q),
                    Next::Done(Err(e)) => failed(e),
                    Next::Done(Ok(None)) => won(None, skipped, None),
                    Next::Done(Ok(Some(oid))) => won(
                        Some(BaseView::Rev { spelling: oid, oid }),
                        skipped,
                        None,
                    ),
                };
            let behind = |skipped: Option<Seq<char>>|
                match store::read_pick_step(dir, a) {
                    Next::Ask(q) => Next::<Result<EndsView, Seq<char>>>::Ask(q),
                    Next::Done(Err(e)) => failed(e),
                    Next::Done(Ok(None)) => public(skipped),
                    Next::Done(Ok(Some(pick))) => match pick.tip {
                        None => match rev_step(root, pick.base, a) {
                            Next::Ask(q) => Next::<Result<EndsView, Seq<char>>>::Ask(q),
                            Next::Done(Err(e)) => failed(e),
                            Next::Done(Ok(Some(oid))) => won(
                                Some(BaseView::Rev { spelling: pick.base, oid }),
                                skipped,
                                None,
                            ),
                            Next::Done(Ok(None)) => public(
                                if skipped is Some {
                                    skipped
                                } else {
                                    Some(pick.base)
                                },
                            ),
                        },
                        Some(node) => {
                            let dormant = public(
                                if skipped is Some {
                                    skipped
                                } else if node.len() <= 7 {
                                    Some(node)
                                } else {
                                    Some(node.take(7))
                                },
                            );
                            match tip_step(root, node, a) {
                                Next::Ask(q) => Next::<Result<EndsView, Seq<char>>>::Ask(q),
                                Next::Done(Err(e)) => failed(e),
                                Next::Done(Ok(None)) => dormant,
                                Next::Done(Ok(Some(tip))) => match commit_parent_step(
                                    root,
                                    tip.oid,
                                    a,
                                ) {
                                    Next::Ask(q) => Next::<Result<EndsView, Seq<char>>>::Ask(q),
                                    Next::Done(Err(e)) => failed(e),
                                    Next::Done(Ok(None)) => dormant,
                                    Next::Done(Ok(Some(oid))) => won(
                                        Some(BaseView::Rev { spelling: oid, oid }),
                                        skipped,
                                        Some(tip),
                                    ),
                                },
                            }
                        },
                    },
                };
            end == if flagged {
                match rev_step(root, flag->0, a) {
                    Next::Ask(q) => Next::<Result<EndsView, Seq<char>>>::Ask(q),
                    Next::Done(Err(e)) => failed(e),
                    Next::Done(Ok(Some(oid))) => won(
                        Some(BaseView::Rev { spelling: flag->0, oid }),
                        None,
                        None,
                    ),
                    Next::Done(Ok(None)) => behind(flag),
                }
            } else {
                behind(None)
            }
        }),
{
}

proof fn lemma_filter_push<T>(s: Seq<T>, f: spec_fn(T) -> bool)
    requires
        s.len() > 0,
    ensures
        s.filter(f) == if f(s.last()) {
            s.drop_last().filter(f).push(s.last())
        } else {
            s.drop_last().filter(f)
        },
{
    reveal(Seq::filter);
}

/// Whether a line names a commit of the stack: it has a tab, and something before it.
pub open spec fn names_commit(line: Seq<char>) -> bool {
    text::cut(line, '\t') is Some && text::trimmed((text::cut(line, '\t')->0).0).len() > 0
}

proof fn lemma_stack_in(ls: Seq<Seq<char>>)
    ensures
        stack_in(ls) == ls.filter(|l: Seq<char>| names_commit(l)).map_values(
            |l: Seq<char>|
                StackRow {
                    node: text::trimmed((text::cut(l, '\t')->0).0),
                    title: text::trimmed((text::cut(l, '\t')->0).1),
                },
        ),
    decreases ls.len(),
{
    let f = |l: Seq<char>| names_commit(l);
    let g = |l: Seq<char>|
        StackRow {
            node: text::trimmed((text::cut(l, '\t')->0).0),
            title: text::trimmed((text::cut(l, '\t')->0).1),
        };
    if ls.len() == 0 {
        reveal(Seq::filter);
        assert(stack_in(ls) =~= ls.filter(f).map_values(g));
    } else {
        lemma_stack_in(ls.drop_last());
        lemma_filter_push(ls, f);
        assert(stack_in(ls) =~= ls.filter(f).map_values(g));
    }
}

/// The stack is what one `sl log` of the draft commits around the working copy prints: one row for
/// each line that names a commit, in the order of the lines, with the node before the first tab and
/// the title behind it. A failed command is an error.
pub proof fn law_stack_has_a_row_for_each_line(root: Seq<char>, exit: Exit, a: Answers)
    ensures
        ({
            let end = stack_step(root, a);
            let words = seq![
                root,
                "log"@,
                "-r"@,
                "sort((draft() & ::successors(.)):: - obsolete(), -rev)"@,
                "-T"@,
                "{node|short}\t{desc|firstline}\n"@,
            ];
            let ls = text::lines(outside::lossy(exit.stdout@));
            &&& a.reply(Topic::Run, words) is None ==> end == Next::<
                Result<Seq<StackRow>, Seq<char>>,
            >::Ask(seq![Question { topic: Topic::Run, words, acts: seq![] }])
            &&& a.reply(Topic::Run, words) == Some(Reply::Run(Run::Ended(exit))) ==> (if exit.code
                == Some(0i32) {
                end == Next::<Result<Seq<StackRow>, Seq<char>>>::Done(
                    Ok(
                        ls.filter(|l: Seq<char>| names_commit(l)).map_values(
                            |l: Seq<char>|
                                StackRow {
                                    node: text::trimmed((text::cut(l, '\t')->0).0),
                                    title: text::trimmed((text::cut(l, '\t')->0).1),
                                },
                        ),
                    ),
                )
            } else {
                end matches Next::Done(Err(_))
            })
        }),
{
    let words = seq![
        root,
        "log"@,
        "-r"@,
        "sort((draft() & ::successors(.)):: - obsolete(), -rev)"@,
        "-T"@,
        "{node|short}\t{desc|firstline}\n"@,
    ];
    assert(seq![root] + stack_args() =~= words);
    lemma_stack_in(text::lines(outside::lossy(exit.stdout@)));
}

proof fn lemma_names_in(ls: Seq<Seq<char>>)
    ensures
        names_in(ls) == ls.map_values(|l: Seq<char>| text::trimmed(l)).filter(
            |name: Seq<char>| name.len() > 0,
        ),
    decreases ls.len(),
{
    let g = |l: Seq<char>| text::trimmed(l);
    let f = |name: Seq<char>| name.len() > 0;
    let all = ls.map_values(g);
    if ls.len() == 0 {
        reveal(Seq::filter);
        assert(names_in(ls) =~= all.filter(f));
    } else {
        lemma_names_in(ls.drop_last());
        lemma_filter_push(all, f);
        assert(all.drop_last() =~= ls.drop_last().map_values(g));
        assert(all.last() == text::trimmed(ls.last()));
    }
}

/// The bookmarks are the lines that `sl bookmarks` prints, trimmed, in their order, without the blank
/// ones. A failed command is an error.
pub proof fn law_bookmarks_are_the_printed_names(root: Seq<char>, exit: Exit, a: Answers)
    ensures
        ({
            let end = bookmarks_step(root, a);
            let words = seq![root, "bookmarks"@, "-T"@, "{bookmark}\n"@];
            let ls = text::lines(outside::lossy(exit.stdout@));
            &&& a.reply(Topic::Run, words) is None ==> end == Next::<
                Result<Seq<Seq<char>>, Seq<char>>,
            >::Ask(seq![Question { topic: Topic::Run, words, acts: seq![] }])
            &&& a.reply(Topic::Run, words) == Some(Reply::Run(Run::Ended(exit))) ==> (if exit.code
                == Some(0i32) {
                end == Next::<Result<Seq<Seq<char>>, Seq<char>>>::Done(
                    Ok(
                        ls.map_values(|l: Seq<char>| text::trimmed(l)).filter(
                            |name: Seq<char>| name.len() > 0,
                        ),
                    ),
                )
            } else {
                end matches Next::Done(Err(_))
            })
        }),
{
    assert(seq![root] + bookmark_args() =~= seq![root, "bookmarks"@, "-T"@, "{bookmark}\n"@]);
    lemma_names_in(text::lines(outside::lossy(exit.stdout@)));
}

} // verus!
