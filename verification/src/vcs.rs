//! The boundary between the two backends: one kind per pane, and every repository read sent to
//! `git` or to `sl`.

use vstd::prelude::*;
use vstd::string::*;

use crate::answers::{self, Answers, Next, Question, Reply, Step, Topic};
use crate::base::{self, StackCommit, StackRow};
use crate::cache::{self, PinnedCache};
use crate::content;
use crate::disk;
use crate::git::{
    self, BaseStatus, BaseView, GitFail, ResolvedBase, StatusView, Worktree, WorktreeEntry,
    WorktreeRow, WorktreeView,
};
use crate::last_turn;
use crate::manifest;
use crate::model::{ChangedFile, FileRow, Scope};
use crate::outside;
use crate::sl;
use crate::store::{self, Places, Store};
use crate::text;

verus! {

broadcast use vstd::string::group_string_axioms;

// --- which backend ------------------------------------------------------------------------------

/// Which backend the reviewed worktree speaks. A root both git and Sapling claim is reviewed as
/// git.
#[derive(Clone, Copy, Debug, PartialEq, Eq, Hash, Structural)]
pub enum VcsKind {
    Git,
    Sapling,
}

impl DeepView for VcsKind {
    type V = VcsKind;

    open spec fn deep_view(&self) -> VcsKind {
        *self
    }
}

impl Default for VcsKind {
    fn default() -> (r: Self)
        ensures
            r == VcsKind::Git,
    {
        VcsKind::Git
    }
}

/// The worktree root and the kind of `path`: the git top level first, then the Sapling root, else
/// the path itself as a git target that may not be a repository yet.
pub open spec fn repo_step(path: Seq<char>, a: Answers) -> Next<(Seq<char>, VcsKind)> {
    match git_root_step(path, a) {
        Next::Ask(q) => Next::Ask(q),
        Next::Done(WorktreeView::Root(root)) => Next::Done((root, VcsKind::Git)),
        Next::Done(_) => match sl::root_step(path, a) {
            Next::Ask(q) => Next::Ask(q),
            Next::Done(WorktreeView::Root(root)) => Next::Done((root, VcsKind::Sapling)),
            Next::Done(_) => Next::Done((path, VcsKind::Git)),
        },
    }
}

/// Resolve `path` to its worktree root and kind.
pub fn resolve_repo(path: &str, answers: &Answers) -> (r: Step<(String, VcsKind)>)
    ensures
        r.deep_view() == repo_step(path@, *answers),
{
    match git_root(path, answers) {
        Step::Ask(q) => {
            return Step::Ask(q);
        },
        Step::Done(Worktree::Root(root)) => {
            return Step::Done((root, VcsKind::Git));
        },
        Step::Done(_) => {},
    }
    match sl::root_of(path, answers) {
        Step::Ask(q) => Step::Ask(q),
        Step::Done(Worktree::Root(root)) => Step::Done((root, VcsKind::Sapling)),
        Step::Done(_) => Step::Done((path.to_owned(), VcsKind::Git)),
    }
}

/// Whether `root` holds the marker directory `name`.
pub open spec fn marker_step(root: Seq<char>, name: Seq<char>, a: Answers) -> Next<bool> {
    match a.flag_of(Topic::Exists, disk::joined(root, name)) {
        None => Next::Ask(answers::one(Topic::Exists, seq![disk::joined(root, name)])),
        Some(b) => Next::Done(b),
    }
}

/// Whether `root` holds a Sapling marker directory.
pub open spec fn sapling_step(root: Seq<char>, a: Answers) -> Next<bool> {
    match marker_step(root, ".sl"@, a) {
        Next::Done(false) => marker_step(root, ".hg"@, a),
        next => next,
    }
}

/// The kind at a root, from its marker directories alone. `.git` wins a root with both.
pub open spec fn kind_step(root: Seq<char>, a: Answers) -> Next<VcsKind> {
    match marker_step(root, ".git"@, a) {
        Next::Ask(q) => Next::Ask(q),
        Next::Done(true) => Next::Done(VcsKind::Git),
        Next::Done(false) => match sapling_step(root, a) {
            Next::Ask(q) => Next::Ask(q),
            Next::Done(true) => Next::Done(VcsKind::Sapling),
            Next::Done(false) => Next::Done(VcsKind::Git),
        },
    }
}

fn marker(root: &str, name: &str, answers: &Answers) -> (r: Step<bool>)
    ensures
        r.deep_view() == marker_step(root@, name@, *answers),
{
    let at = disk::join(root, name);
    match answers.flag(Topic::Exists, at.as_str()) {
        None => Step::Ask(answers::ask_one(Topic::Exists, answers::words1(at.as_str()))),
        Some(b) => Step::Done(b),
    }
}

fn sapling_marker(root: &str, answers: &Answers) -> (r: Step<bool>)
    ensures
        r.deep_view() == sapling_step(root@, *answers),
{
    match marker(root, ".sl", answers) {
        Step::Done(false) => marker(root, ".hg", answers),
        step => step,
    }
}

/// The kind at an already-resolved root, from its marker directory alone: no command runs.
pub fn kind_at(root: &str, answers: &Answers) -> (r: Step<VcsKind>)
    ensures
        r.deep_view() == kind_step(root@, *answers),
{
    match marker(root, ".git", answers) {
        Step::Ask(q) => Step::Ask(q),
        Step::Done(true) => Step::Done(VcsKind::Git),
        Step::Done(false) => match sapling_marker(root, answers) {
            Step::Ask(q) => Step::Ask(q),
            Step::Done(true) => Step::Done(VcsKind::Sapling),
            Step::Done(false) => Step::Done(VcsKind::Git),
        },
    }
}

/// Whether `root` currently is a repository of a kind.
pub open spec fn is_repo_step(kind: VcsKind, root: Seq<char>, a: Answers) -> Next<bool> {
    match kind {
        VcsKind::Git => match a.flag_of(Topic::GitIsRepo, root) {
            None => Next::Ask(answers::one(Topic::GitIsRepo, seq![root])),
            Some(b) => Next::Done(b),
        },
        VcsKind::Sapling => sapling_step(root, a),
    }
}

/// Whether `root` currently is a repository of `kind`. git is asked, so that a directory that
/// becomes a repository mid-session starts showing changes; Sapling is a marker check.
pub fn is_repo(kind: VcsKind, root: &str, answers: &Answers) -> (r: Step<bool>)
    ensures
        r.deep_view() == is_repo_step(kind, root@, *answers),
{
    match kind {
        VcsKind::Git => match answers.flag(Topic::GitIsRepo, root) {
            None => Step::Ask(answers::ask_one(Topic::GitIsRepo, answers::words1(root))),
            Some(b) => Step::Done(b),
        },
        VcsKind::Sapling => sapling_marker(root, answers),
    }
}

pub open spec fn git_root_step(path: Seq<char>, a: Answers) -> Next<WorktreeView> {
    match a.reply(Topic::GitRoot, seq![path]) {
        Some(Reply::Root(w)) => Next::Done(w.deep_view()),
        _ => Next::Ask(answers::one(Topic::GitRoot, seq![path])),
    }
}

fn git_root(path: &str, answers: &Answers) -> (r: Step<Worktree>)
    ensures
        r.deep_view() == git_root_step(path@, *answers),
{
    match answers.find(Topic::GitRoot, answers::words1(path)) {
        Some(Reply::Root(w)) => Step::Done(w.clone()),
        _ => Step::Ask(answers::ask_one(Topic::GitRoot, answers::words1(path))),
    }
}

pub open spec fn worktree_step(kind: VcsKind, path: Seq<char>, a: Answers) -> Next<WorktreeView> {
    match kind {
        VcsKind::Git => git_root_step(path, a),
        VcsKind::Sapling => sl::root_step(path, a),
    }
}

/// Resolve a directory to its worktree root under `kind`.
pub fn worktree_of(kind: VcsKind, path: &str, answers: &Answers) -> (r: Step<Worktree>)
    ensures
        r.deep_view() == worktree_step(kind, path@, *answers),
{
    match kind {
        VcsKind::Git => git_root(path, answers),
        VcsKind::Sapling => sl::root_of(path, answers),
    }
}

// --- the two ends of a branch range -----------------------------------------------------------

/// The commit a range's far end sits on. The title rides the node, so that a header cannot name
/// one commit and describe another.
#[derive(Debug, PartialEq, Eq)]
pub struct Tip {
    pub oid: String,
    /// The commit's code review number, empty when it carries none.
    pub diff: String,
    /// The commit description's first line, empty when the commit has none.
    pub title: String,
}

/// The view of a `Tip`.
pub struct TipView {
    pub oid: Seq<char>,
    pub diff: Seq<char>,
    pub title: Seq<char>,
}

impl DeepView for Tip {
    type V = TipView;

    open spec fn deep_view(&self) -> TipView {
        TipView { oid: self.oid@, diff: self.diff@, title: self.title@ }
    }
}

impl Clone for Tip {
    fn clone(&self) -> (r: Self)
        ensures
            r.deep_view() == self.deep_view(),
    {
        Tip { oid: self.oid.clone(), diff: self.diff.clone(), title: self.title.clone() }
    }
}

impl Default for Tip {
    fn default() -> (r: Self)
        ensures
            r.deep_view() == (TipView { oid: seq![], diff: seq![], title: seq![] }),
    {
        let r = Tip { oid: String::new(), diff: String::new(), title: String::new() };
        assert(r.oid@ =~= seq![] && r.diff@ =~= seq![] && r.title@ =~= seq![]);
        r
    }
}

/// The `branch` scope's two ends: the resolved base the changeset diffs from, and the commit its
/// far end sits on. With no tip the range ends at the working copy, which is every git range and
/// every Sapling range but a commit pick.
#[derive(Debug, PartialEq, Eq)]
pub struct BranchEnds {
    pub base: BaseStatus,
    pub tip: Option<Tip>,
}

/// The view of a `BranchEnds`.
pub struct EndsView {
    pub base: StatusView,
    pub tip: Option<TipView>,
}

impl DeepView for BranchEnds {
    type V = EndsView;

    open spec fn deep_view(&self) -> EndsView {
        EndsView { base: self.base.deep_view(), tip: self.tip.deep_view() }
    }
}

impl Clone for BranchEnds {
    fn clone(&self) -> (r: Self)
        ensures
            r.deep_view() == self.deep_view(),
    {
        BranchEnds { base: self.base.clone(), tip: self.tip.clone() }
    }
}

impl Default for BranchEnds {
    fn default() -> (r: Self)
        ensures
            r.deep_view() == (EndsView {
                base: StatusView { winner: None, skipped: None },
                tip: None,
            }),
    {
        BranchEnds { base: BaseStatus { winner: None, skipped: None }, tip: None }
    }
}

// --- changed files ------------------------------------------------------------------------------

/// A word list and one more word, where there is one.
pub open spec fn with_word(words: Seq<Seq<char>>, more: Option<Seq<char>>) -> Seq<Seq<char>> {
    match more {
        Some(w) => words.push(w),
        None => words,
    }
}

fn add_word(words: Vec<String>, more: Option<&str>) -> (r: Vec<String>)
    ensures
        r.deep_view() == with_word(words.deep_view(), more.deep_view()),
{
    let mut r = words;
    let ghost before = r.deep_view();
    if let Some(w) = more {
        r.push(w.to_owned());
    }
    assert(r.deep_view() =~= with_word(before, more.deep_view()));
    r
}

pub open spec fn scope_name(scope: Scope) -> Seq<char> {
    match scope {
        Scope::Uncommitted => "uncommitted"@,
        Scope::Branch => "branch"@,
        Scope::LastTurn => "last-turn"@,
    }
}

fn scope_word(scope: Scope) -> (r: &'static str)
    ensures
        r@ == scope_name(scope),
{
    match scope {
        Scope::Uncommitted => "uncommitted",
        Scope::Branch => "branch",
        Scope::LastTurn => "last-turn",
    }
}

/// What git says of changed files.
pub open spec fn git_files_step(topic: Topic, words: Seq<Seq<char>>, a: Answers) -> Next<
    Result<Seq<FileRow>, Seq<char>>,
> {
    match a.reply(topic, words) {
        Some(Reply::Files(r)) => Next::Done(git::outcome(r)),
        _ => Next::Ask(answers::one(topic, words)),
    }
}

fn git_files(topic: Topic, words: Vec<String>, answers: &Answers) -> (r: Step<
    Result<Vec<ChangedFile>, GitFail>,
>)
    ensures
        answers::tried(r) == git_files_step(topic, words.deep_view(), *answers),
{
    match answers.find(topic, answers::copy_words(&words)) {
        Some(Reply::Files(Ok(files))) => {
            let copy = files.clone();
            assert(copy.deep_view() =~= files.deep_view());
            Step::Done(Ok(copy))
        },
        Some(Reply::Files(Err(e))) => Step::Done(Err(e.clone())),
        _ => Step::Ask(answers::ask_one(topic, words)),
    }
}

/// The changed files for a scope.
pub open spec fn changed_step(
    kind: VcsKind,
    root: Seq<char>,
    scope: Scope,
    base: Option<Seq<char>>,
    tip: Option<Seq<char>>,
    a: Answers,
) -> Next<Result<Seq<FileRow>, Seq<char>>> {
    match kind {
        VcsKind::Git => git_files_step(
            Topic::GitChangedFiles,
            with_word(seq![root, scope_name(scope)], base),
            a,
        ),
        VcsKind::Sapling => sl::files_step(root, scope, base, tip, a),
    }
}

/// The changed files for `scope`.
pub fn changed_files(
    kind: VcsKind,
    root: &str,
    scope: Scope,
    branch_base: Option<&str>,
    branch_tip: Option<&str>,
    answers: &Answers,
) -> (r: Step<Result<Vec<ChangedFile>, GitFail>>)
    ensures
        answers::tried(r) == changed_step(
            kind,
            root@,
            scope,
            branch_base.deep_view(),
            branch_tip.deep_view(),
            *answers,
        ),
{
    match kind {
        VcsKind::Git => git_files(
            Topic::GitChangedFiles,
            add_word(answers::words2(root, scope_word(scope)), branch_base),
            answers,
        ),
        VcsKind::Sapling => sl::changed_files(root, scope, branch_base, branch_tip, answers),
    }
}

/// The changed files between a turn baseline and the live worktree.
pub open spec fn tree_step(
    kind: VcsKind,
    root: Seq<char>,
    base: Seq<char>,
    tree: Seq<char>,
    a: Answers,
) -> Next<Result<Seq<FileRow>, Seq<char>>> {
    match kind {
        VcsKind::Git => git_files_step(Topic::GitChangedAgainstTree, seq![root, tree], a),
        VcsKind::Sapling => last_turn::turn_step(root, store::store_dir(base, root), tree, a),
    }
}

/// The changed files between the turn baseline and the live worktree.
pub fn changed_against_tree(
    kind: VcsKind,
    root: &str,
    tree: &str,
    places: &Places,
    answers: &Answers,
) -> (r: Step<Result<Vec<ChangedFile>, GitFail>>)
    requires
        kind == VcsKind::Sapling ==> last_turn::diffable(
            root@,
            store::store_dir(places.base(), root@),
            tree@,
            *answers,
        ),
    ensures
        answers::tried(r) == tree_step(kind, root@, places.base(), tree@, *answers),
{
    match kind {
        VcsKind::Git => git_files(
            Topic::GitChangedAgainstTree,
            answers::words2(root, tree),
            answers,
        ),
        VcsKind::Sapling => last_turn::changed_against_snapshot(root, tree, places, answers),
    }
}

// --- content --------------------------------------------------------------------------------------

/// The content of a file at a revision.
pub open spec fn content_step(
    kind: VcsKind,
    root: Seq<char>,
    base: Seq<char>,
    rev: Seq<char>,
    path: Seq<char>,
    a: Answers,
) -> Next<Seq<char>> {
    match kind {
        VcsKind::Git => match a.reply(Topic::GitFileContent, seq![root, rev, path]) {
            Some(Reply::Plain(s)) => Next::Done(s@),
            _ => Next::Ask(answers::one(Topic::GitFileContent, seq![root, rev, path])),
        },
        VcsKind::Sapling => content::file_step(root, store::store_dir(base, root), rev, path, a),
    }
}

/// The content of `path` at `rev`; empty when the path does not exist there. `rev` may be a
/// turn-baseline id.
pub fn file_content(
    kind: VcsKind,
    root: &str,
    rev: &str,
    path: &str,
    places: &Places,
    answers: &Answers,
) -> (r: Step<String>)
    ensures
        r.deep_view() == content_step(kind, root@, places.base(), rev@, path@, *answers),
{
    match kind {
        VcsKind::Git => match answers.find(
            Topic::GitFileContent,
            answers::words3(root, rev, path),
        ) {
            Some(Reply::Plain(s)) => Step::Done(s.clone()),
            _ => Step::Ask(
                answers::ask_one(Topic::GitFileContent, answers::words3(root, rev, path)),
            ),
        },
        VcsKind::Sapling => content::file_content(root, rev, path, places, answers),
    }
}

/// The revision the `uncommitted` scope's old side reads.
pub open spec fn worktree_base(kind: VcsKind) -> Seq<char> {
    match kind {
        VcsKind::Git => "HEAD"@,
        VcsKind::Sapling => "."@,
    }
}

/// The revision the `uncommitted` scope's old side reads: `HEAD`, or the working-copy parent.
pub fn uncommitted_base(kind: VcsKind) -> (r: &'static str)
    ensures
        r@ == worktree_base(kind),
{
    match kind {
        VcsKind::Git => "HEAD",
        VcsKind::Sapling => ".",
    }
}

/// A read into the content cache. git caches nothing, so that it reads nothing.
pub open spec fn warm_step(
    kind: VcsKind,
    root: Seq<char>,
    base: Seq<char>,
    rev: Seq<char>,
    path: Seq<char>,
    a: Answers,
) -> Next<()> {
    match kind {
        VcsKind::Git => Next::Done(()),
        VcsKind::Sapling => content::read_step(
            content::file_step(root, store::store_dir(base, root), rev, path, a),
        ),
    }
}

/// Read one file's old side into the backend's content cache ahead of its being opened. git
/// reads a blob in single-digit milliseconds, so that it warms nothing.
pub fn warm_content(
    kind: VcsKind,
    root: &str,
    rev: &str,
    path: &str,
    places: &Places,
    answers: &Answers,
) -> (r: Step<()>)
    ensures
        r.deep_view() == warm_step(kind, root@, places.base(), rev@, path@, *answers),
{
    match kind {
        VcsKind::Git => Step::Done(()),
        VcsKind::Sapling => content::warm_content(root, rev, path, places, answers),
    }
}

/// Whether a warm or preload has already landed `path` at `rev` in the backend's content cache. git
/// caches nothing.
pub fn content_is_cached(kind: VcsKind, rev: &str, path: &str, cache: &PinnedCache<Vec<u8>>) -> (b:
    bool)
    ensures
        b == (kind == VcsKind::Sapling && content::held_content(*cache, rev@, path@) is Some),
{
    match kind {
        VcsKind::Git => false,
        VcsKind::Sapling => content::content_is_cached(rev, path, cache),
    }
}

/// Read one file into the backend's content cache and wait for it.
pub fn preload_content(
    kind: VcsKind,
    root: &str,
    rev: &str,
    path: &str,
    places: &Places,
    answers: &Answers,
) -> (r: Step<()>)
    ensures
        r.deep_view() == warm_step(kind, root@, places.base(), rev@, path@, *answers),
{
    match kind {
        VcsKind::Git => Step::Done(()),
        VcsKind::Sapling => match content::file_content(root, rev, path, places, answers) {
            Step::Ask(q) => Step::Ask(q),
            Step::Done(_) => Step::Done(()),
        },
    }
}

/// The merge base of a commit and the working copy, as the build asks for it.
pub open spec fn merge_topic(kind: VcsKind) -> Topic {
    match kind {
        VcsKind::Git => Topic::GitMergeBase,
        VcsKind::Sapling => Topic::MergeBase,
    }
}

/// The revision the old side reads at. A pinned far end's base is that commit's own parent, so that
/// no merge base stands between the two.
pub open spec fn old_rev_step(
    kind: VcsKind,
    root: Seq<char>,
    scope: Scope,
    branch: EndsView,
    baseline: Option<Seq<char>>,
    a: Answers,
) -> Next<Option<Seq<char>>> {
    match scope {
        Scope::Uncommitted => Next::Done(Some(worktree_base(kind))),
        Scope::Branch => match branch.base.winner {
            None => Next::Done(None),
            Some(winner) => if branch.tip is Some {
                Next::Done(Some(winner.oid()))
            } else {
                match a.rev_of(merge_topic(kind), seq![root, winner.oid()]) {
                    None => Next::Ask(answers::one(merge_topic(kind), seq![root, winner.oid()])),
                    Some(rev) => Next::Done(rev),
                }
            },
        },
        Scope::LastTurn => Next::Done(baseline),
    }
}

/// The revision the new side reads at; none is the worktree.
pub open spec fn new_rev(scope: Scope, branch: EndsView) -> Option<Seq<char>> {
    match (scope, branch.tip) {
        (Scope::Branch, Some(tip)) => Some(tip.oid),
        _ => None,
    }
}

pub open spec fn revs_step(
    kind: VcsKind,
    root: Seq<char>,
    scope: Scope,
    branch: EndsView,
    baseline: Option<Seq<char>>,
    a: Answers,
) -> Next<(Option<Seq<char>>, Option<Seq<char>>)> {
    match old_rev_step(kind, root, scope, branch, baseline, a) {
        Next::Ask(q) => Next::Ask(q),
        Next::Done(old) => Next::Done((old, new_rev(scope, branch))),
    }
}

/// The revisions the open file's two sides read at, in the order old then new. No old side is a
/// scope with no base to read from. No new side is the worktree, which is every side but a `branch`
/// range whose far end a commit pick pinned.
///
/// One derivation for the diff build, the neighbour warm, and the world worker's preload, so that
/// none of them can fill or await a key another will not ask for.
pub fn read_revs(
    kind: VcsKind,
    root: &str,
    scope: Scope,
    branch: &BranchEnds,
    turn_baseline: Option<&str>,
    answers: &Answers,
) -> (r: Step<(Option<String>, Option<String>)>)
    ensures
        r.deep_view() == revs_step(
            kind,
            root@,
            scope,
            branch.deep_view(),
            turn_baseline.deep_view(),
            *answers,
        ),
{
    let old = match scope {
        Scope::Uncommitted => Some(uncommitted_base(kind).to_owned()),
        Scope::Branch => match &branch.base.winner {
            None => None,
            Some(winner) => {
                if branch.tip.is_some() {
                    Some(winner.oid().to_owned())
                } else {
                    match cached_merge_base(kind, root, winner.oid(), answers) {
                        Step::Ask(q) => {
                            return Step::Ask(q);
                        },
                        Step::Done(rev) => rev,
                    }
                }
            },
        },
        Scope::LastTurn => match turn_baseline {
            Some(id) => Some(id.to_owned()),
            None => None,
        },
    };
    let new = match (scope, &branch.tip) {
        (Scope::Branch, Some(tip)) => Some(tip.oid.clone()),
        _ => None,
    };
    Step::Done((old, new))
}

/// The merge base of a commit and the working copy, as the build asks for it.
fn cached_merge_base(kind: VcsKind, root: &str, base_oid: &str, answers: &Answers) -> (r: Step<
    Option<String>,
>)
    ensures
        r.deep_view() == (match answers.rev_of(merge_topic(kind), seq![root@, base_oid@]) {
            None => Next::Ask(answers::one(merge_topic(kind), seq![root@, base_oid@])),
            Some(rev) => Next::Done(rev),
        }),
{
    let topic = match kind {
        VcsKind::Git => Topic::GitMergeBase,
        VcsKind::Sapling => Topic::MergeBase,
    };
    match answers.rev(topic, answers::words2(root, base_oid)) {
        None => Step::Ask(answers::ask_one(topic, answers::words2(root, base_oid))),
        Some(rev) => Step::Done(rev.clone()),
    }
}

// --- bases --------------------------------------------------------------------------------------

/// The merge base of the resolved base and the working copy.
pub open spec fn merge_step(
    kind: VcsKind,
    root: Seq<char>,
    base: Seq<char>,
    cache: PinnedCache<String>,
    a: Answers,
) -> Next<Option<Seq<char>>> {
    match kind {
        VcsKind::Git => match a.rev_of(Topic::GitMergeBase, seq![root, base]) {
            None => Next::Ask(answers::one(Topic::GitMergeBase, seq![root, base])),
            Some(rev) => Next::Done(rev),
        },
        VcsKind::Sapling => content::merge_base_step(root, base, cache, a),
    }
}

/// The merge-base commit of the resolved base and the working copy.
pub fn merge_base(
    kind: VcsKind,
    root: &str,
    base_oid: &str,
    cache: &mut PinnedCache<String>,
    answers: &Answers,
) -> (r: Step<Option<String>>)
    ensures
        r.deep_view() == merge_step(kind, root@, base_oid@, *old(cache), *answers),
        match kind {
            VcsKind::Git => *final(cache) == *old(cache),
            VcsKind::Sapling => content::ancestor_kept(
                root@,
                base_oid@,
                *old(cache),
                *final(cache),
                *answers,
            ),
        },
        old(cache).count() <= cache::ANCESTORS ==> final(cache).count() <= cache::ANCESTORS,
{
    match kind {
        VcsKind::Git => cached_merge_base(VcsKind::Git, root, base_oid, answers),
        VcsKind::Sapling => content::merge_base(root, base_oid, cache, answers),
    }
}

/// The base chain.
pub open spec fn base_step(
    kind: VcsKind,
    root: Seq<char>,
    base: Seq<char>,
    flag: Option<Seq<char>>,
    a: Answers,
) -> Next<Result<EndsView, Seq<char>>> {
    match kind {
        VcsKind::Git => {
            let words = with_word(seq![root], flag);
            match a.reply(Topic::GitResolveBase, words) {
                Some(Reply::Base(Ok(status))) => Next::Done(
                    Ok(EndsView { base: status.deep_view(), tip: None }),
                ),
                Some(Reply::Base(Err(e))) => Next::Done(Err(e.deep_view())),
                _ => Next::Ask(answers::one(Topic::GitResolveBase, words)),
            }
        },
        VcsKind::Sapling => base::chain_step(root, store::store_dir(base, root), flag, a),
    }
}

/// Resolve the base chain to the outcome the header paints.
pub fn resolve_base(
    kind: VcsKind,
    root: &str,
    base_flag: Option<&str>,
    places: &Places,
    answers: &Answers,
) -> (r: Step<Result<BranchEnds, GitFail>>)
    ensures
        answers::tried(r) == base_step(
            kind,
            root@,
            places.base(),
            base_flag.deep_view(),
            *answers,
        ),
{
    match kind {
        VcsKind::Git => {
            let words = add_word(answers::words1(root), base_flag);
            match answers.find(Topic::GitResolveBase, answers::copy_words(&words)) {
                Some(Reply::Base(Ok(status))) => Step::Done(
                    Ok(BranchEnds { base: status.clone(), tip: None }),
                ),
                Some(Reply::Base(Err(e))) => Step::Done(Err(e.clone())),
                _ => Step::Ask(answers::ask_one(Topic::GitResolveBase, words)),
            }
        },
        VcsKind::Sapling => base::resolve_base(root, base_flag, places, answers),
    }
}

/// What a typed spelling resolves to.
pub open spec fn typed_step(kind: VcsKind, root: Seq<char>, spelling: Seq<char>, a: Answers) -> Next<
    Result<Option<BaseView>, Seq<char>>,
> {
    match kind {
        VcsKind::Git => match a.reply(Topic::GitResolveSpelling, seq![root, spelling]) {
            Some(Reply::Resolved(r)) => Next::Done(git::outcome(r)),
            _ => Next::Ask(answers::one(Topic::GitResolveSpelling, seq![root, spelling])),
        },
        VcsKind::Sapling => base::spelling_step(root, spelling, a),
    }
}

/// Resolve one typed base-picker spelling.
pub fn resolve_spelling(kind: VcsKind, root: &str, spelling: &str, answers: &Answers) -> (r: Step<
    Result<Option<ResolvedBase>, GitFail>,
>)
    ensures
        answers::tried(r) == typed_step(kind, root@, spelling@, *answers),
{
    match kind {
        VcsKind::Git => match answers.find(
            Topic::GitResolveSpelling,
            answers::words2(root, spelling),
        ) {
            Some(Reply::Resolved(Ok(found))) => Step::Done(Ok(found.clone())),
            Some(Reply::Resolved(Err(e))) => Step::Done(Err(e.clone())),
            _ => Step::Ask(
                answers::ask_one(Topic::GitResolveSpelling, answers::words2(root, spelling)),
            ),
        },
        VcsKind::Sapling => base::resolve_spelling(root, spelling, answers),
    }
}

/// The default-branch name; a Sapling repository has none.
pub open spec fn default_step(kind: VcsKind, root: Seq<char>, a: Answers) -> Next<
    Result<Option<Seq<char>>, Seq<char>>,
> {
    match kind {
        VcsKind::Git => match a.reply(Topic::GitDefaultBranch, seq![root]) {
            Some(Reply::Name(r)) => Next::Done(git::outcome(r)),
            _ => Next::Ask(answers::one(Topic::GitDefaultBranch, seq![root])),
        },
        VcsKind::Sapling => Next::Done(Ok(None)),
    }
}

/// The default-branch name the picker marks; a Sapling repository has none, so that its pick can
/// only be replaced, never cleared.
pub fn default_branch_name(kind: VcsKind, root: &str, answers: &Answers) -> (r: Step<
    Result<Option<String>, GitFail>,
>)
    ensures
        answers::tried(r) == default_step(kind, root@, *answers),
{
    match kind {
        VcsKind::Git => match answers.find(Topic::GitDefaultBranch, answers::words1(root)) {
            Some(Reply::Name(Ok(name))) => Step::Done(Ok(name.clone())),
            Some(Reply::Name(Err(e))) => Step::Done(Err(e.clone())),
            _ => Step::Ask(answers::ask_one(Topic::GitDefaultBranch, answers::words1(root))),
        },
        VcsKind::Sapling => Step::Done(Ok(None)),
    }
}

/// The names the base picker lists.
pub open spec fn branches_step(
    kind: VcsKind,
    root: Seq<char>,
    default: Option<Seq<char>>,
    a: Answers,
) -> Next<Result<Seq<Seq<char>>, Seq<char>>> {
    match kind {
        VcsKind::Git => match a.reply(Topic::GitListBranches, with_word(seq![root], default)) {
            Some(Reply::Names(r)) => Next::Done(git::outcome(r)),
            _ => Next::Ask(answers::one(Topic::GitListBranches, with_word(seq![root], default))),
        },
        VcsKind::Sapling => base::bookmarks_step(root, a),
    }
}

/// The names the base picker lists: branches, or local bookmarks.
pub fn list_branches(kind: VcsKind, root: &str, default: Option<&str>, answers: &Answers) -> (r: Step<
    Result<Vec<String>, GitFail>,
>)
    ensures
        answers::tried(r) == branches_step(kind, root@, default.deep_view(), *answers),
{
    match kind {
        VcsKind::Git => {
            let words = add_word(answers::words1(root), default);
            match answers.find(Topic::GitListBranches, answers::copy_words(&words)) {
                Some(Reply::Names(Ok(names))) => Step::Done(Ok(answers::copy_words(names))),
                Some(Reply::Names(Err(e))) => Step::Done(Err(e.clone())),
                _ => Step::Ask(answers::ask_one(Topic::GitListBranches, words)),
            }
        },
        VcsKind::Sapling => base::list_bookmarks(root, answers),
    }
}

/// The stack commits the base picker lists; git lists none.
pub open spec fn commits_step(kind: VcsKind, root: Seq<char>, a: Answers) -> Next<
    Result<Seq<StackRow>, Seq<char>>,
> {
    match kind {
        VcsKind::Git => Next::Done(Ok(seq![])),
        VcsKind::Sapling => base::stack_step(root, a),
    }
}

/// The stack commits the base picker lists below the names, each a commit to review rather than a
/// base. A git repository lists none: recent commits are typed, not offered.
pub fn list_stack(kind: VcsKind, root: &str, answers: &Answers) -> (r: Step<
    Result<Vec<StackCommit>, GitFail>,
>)
    ensures
        answers::tried(r) == commits_step(kind, root@, *answers),
{
    match kind {
        VcsKind::Git => {
            let none: Vec<StackCommit> = Vec::new();
            assert(none.deep_view() =~= seq![]);
            Step::Done(Ok(none))
        },
        VcsKind::Sapling => base::list_stack(root, answers),
    }
}

/// Record a typed pick's SHA spelling: git completes a unique prefix to the abbreviation, Sapling
/// to the whole node.
#[must_use]
pub fn complete_pick_spelling(kind: VcsKind, spelling: &str, oid: &str) -> (r: String)
    ensures
        r@ == (if !git::sha_prefix(spelling@, oid@) {
            spelling@
        } else if kind == VcsKind::Git {
            git::abbreviation(oid@)
        } else {
            oid@
        }),
{
    match kind {
        VcsKind::Git => git::complete_sha_prefix(spelling, oid),
        VcsKind::Sapling => content::complete_pick_spelling(spelling, oid),
    }
}

/// The abbreviated commit id.
pub open spec fn short_oid(kind: VcsKind, oid: Seq<char>) -> Seq<char> {
    match kind {
        VcsKind::Git => git::abbreviation(oid),
        VcsKind::Sapling => content::node_abbreviation(oid),
    }
}

/// The abbreviated commit id the header and the base picker paint: git's seven hex, or Sapling's
/// twelve.
#[must_use]
pub fn abbreviate_oid(kind: VcsKind, oid: &str) -> (r: String)
    ensures
        r@ == short_oid(kind, oid@),
{
    match kind {
        VcsKind::Git => git::abbreviate_oid(oid),
        VcsKind::Sapling => content::abbreviate_node(oid),
    }
}

/// Shown name and optional abbreviated commit id for a non-branch spelling. A hash prefix paints
/// once; anything else keeps the spelling and carries the mark.
#[must_use]
pub fn rev_paint(kind: VcsKind, spelling: &str, oid: &str) -> (r: (String, Option<String>))
    ensures
        r.deep_view() == (if git::sha_prefix(spelling@, oid@) {
            (short_oid(kind, oid@), None::<Seq<char>>)
        } else {
            (spelling@, Some(short_oid(kind, oid@)))
        }),
{
    let abbrev = abbreviate_oid(kind, oid);
    if git::spelling_is_sha_prefix(spelling, oid) {
        (abbrev, None)
    } else {
        (spelling.to_owned(), Some(abbrev))
    }
}

// --- the pick and the baseline ---------------------------------------------------------------------

/// What git says of a write.
pub open spec fn git_done_step(topic: Topic, words: Seq<Seq<char>>, a: Answers) -> Next<
    Result<(), Seq<char>>,
> {
    match a.reply(topic, words) {
        Some(Reply::Done(r)) => Next::Done(git::outcome(r)),
        _ => Next::Ask(answers::one(topic, words)),
    }
}

fn git_done(topic: Topic, words: Vec<String>, answers: &Answers) -> (r: Step<Result<(), GitFail>>)
    ensures
        answers::tried(r) == git_done_step(topic, words.deep_view(), *answers),
{
    match answers.find(topic, answers::copy_words(&words)) {
        Some(Reply::Done(Ok(()))) => Step::Done(Ok(())),
        Some(Reply::Done(Err(e))) => Step::Done(Err(e.clone())),
        _ => Step::Ask(answers::ask_one(topic, words)),
    }
}

/// Persisting the base pick: with git, or in the snapshot store.
pub open spec fn write_step(
    kind: VcsKind,
    root: Seq<char>,
    base: Seq<char>,
    name: Seq<char>,
    a: Answers,
) -> Next<Result<(), Seq<char>>> {
    match kind {
        VcsKind::Git => git_done_step(Topic::GitWritePick, seq![root, name], a),
        VcsKind::Sapling => store::write_pick_step(store::store_dir(base, root), name, a),
    }
}

/// Persist the base pick: a private ref, or the snapshot store.
pub fn write_base_pick(
    kind: VcsKind,
    root: &str,
    name: &str,
    places: &Places,
    answers: &Answers,
) -> (r: Step<Result<(), GitFail>>)
    ensures
        answers::tried(r) == write_step(kind, root@, places.base(), name@, *answers),
{
    match kind {
        VcsKind::Git => git_done(Topic::GitWritePick, answers::words2(root, name), answers),
        VcsKind::Sapling => Store::open(root, places).write_base_pick(name, answers),
    }
}

/// Whether a spelling won the chain as its fallback.
pub open spec fn fallback_step(
    kind: VcsKind,
    root: Seq<char>,
    base: Seq<char>,
    spelling: Seq<char>,
    a: Answers,
) -> Next<bool> {
    match kind {
        VcsKind::Git => Next::Done(false),
        VcsKind::Sapling => match store::read_pick_step(store::store_dir(base, root), a) {
            Next::Ask(q) => Next::Ask(q),
            Next::Done(Err(_)) => Next::Done(false),
            Next::Done(Ok(None)) => Next::Done(true),
            Next::Done(Ok(Some(pick))) => Next::Done(pick.base != spelling),
        },
    }
}

/// Whether `spelling` won the base chain as the chain's own fallback rather than as a recorded
/// pick. The base picker offers a row for a pick no list row names, and never for the fallback,
/// which the default row already selects.
///
/// git's fallback is a branch, so that a rev winner there is always a pick. Sapling's fallback is
/// the public base, a rev like any pinned one, so that the store is read. A failed read answers
/// `false`, keeping the row rather than hiding a pick that somebody made.
pub fn base_is_chain_fallback(
    kind: VcsKind,
    root: &str,
    spelling: &str,
    places: &Places,
    answers: &Answers,
) -> (r: Step<bool>)
    ensures
        r.deep_view() == fallback_step(kind, root@, places.base(), spelling@, *answers),
{
    match kind {
        VcsKind::Git => Step::Done(false),
        VcsKind::Sapling => match Store::open(root, places).read_base_pick(answers) {
            Step::Ask(q) => Step::Ask(q),
            Step::Done(Err(_)) => Step::Done(false),
            Step::Done(Ok(None)) => Step::Done(true),
            Step::Done(Ok(Some(pick))) => Step::Done(!text::same(pick.base.as_str(), spelling)),
        },
    }
}

/// Dropping the recorded pick.
pub open spec fn clear_step(kind: VcsKind, root: Seq<char>, base: Seq<char>, a: Answers) -> Next<
    Result<(), Seq<char>>,
> {
    match kind {
        VcsKind::Git => git_done_step(Topic::GitClearPick, seq![root], a),
        VcsKind::Sapling => store::clear_pick_step(store::store_dir(base, root), a),
    }
}

/// Drop the recorded pick.
pub fn clear_base_pick(kind: VcsKind, root: &str, places: &Places, answers: &Answers) -> (r: Step<
    Result<(), GitFail>,
>)
    ensures
        answers::tried(r) == clear_step(kind, root@, places.base(), *answers),
{
    match kind {
        VcsKind::Git => git_done(Topic::GitClearPick, answers::words1(root), answers),
        VcsKind::Sapling => Store::open(root, places).clear_base_pick(answers),
    }
}

/// The persisted turn baseline.
pub open spec fn seed_step(kind: VcsKind, root: Seq<char>, base: Seq<char>, a: Answers) -> Next<
    Option<Seq<char>>,
> {
    match kind {
        VcsKind::Git => {
            let words = seq![root, git::key_of(root)];
            match a.rev_of(Topic::GitBaseline, words) {
                None => Next::Ask(answers::one(Topic::GitBaseline, words)),
                Some(rev) => Next::Done(rev),
            }
        },
        VcsKind::Sapling => store::baseline_step(store::store_dir(base, root), a),
    }
}

/// The persisted turn baseline for `root`, if any.
pub fn seed_baseline(kind: VcsKind, root: &str, places: &Places, answers: &Answers) -> (r: Step<
    Option<String>,
>)
    ensures
        r.deep_view() == seed_step(kind, root@, places.base(), *answers),
{
    match kind {
        VcsKind::Git => {
            let key = git::worktree_key(root);
            match answers.rev(Topic::GitBaseline, answers::words2(root, key.as_str())) {
                None => Step::Ask(
                    answers::ask_one(Topic::GitBaseline, answers::words2(root, key.as_str())),
                ),
                Some(rev) => Step::Done(rev.clone()),
            }
        },
        VcsKind::Sapling => Store::open(root, places).read_baseline(answers),
    }
}

/// The worktree listing; a Sapling worktree lists nothing.
pub open spec fn all_files_step(kind: VcsKind, root: Seq<char>, a: Answers) -> Next<
    Result<Seq<WorktreeRow>, Seq<char>>,
> {
    match kind {
        VcsKind::Git => match a.reply(Topic::GitAllFiles, seq![root]) {
            Some(Reply::Entries(r)) => Next::Done(git::outcome(r)),
            _ => Next::Ask(answers::one(Topic::GitAllFiles, seq![root])),
        },
        VcsKind::Sapling => Next::Done(Ok(seq![])),
    }
}

/// The `All files` worktree listing. A Sapling worktree lists nothing: no Sapling read may
/// enumerate the worktree.
pub fn all_files(kind: VcsKind, root: &str, answers: &Answers) -> (r: Step<
    Result<Vec<WorktreeEntry>, GitFail>,
>)
    ensures
        answers::tried(r) == all_files_step(kind, root@, *answers),
{
    match kind {
        VcsKind::Git => match answers.find(Topic::GitAllFiles, answers::words1(root)) {
            Some(Reply::Entries(Ok(entries))) => {
                let copy = entries.clone();
                assert(copy.deep_view() =~= entries.deep_view());
                Step::Done(Ok(copy))
            },
            Some(Reply::Entries(Err(e))) => Step::Done(Err(e.clone())),
            _ => Step::Ask(answers::ask_one(Topic::GitAllFiles, answers::words1(root))),
        },
        VcsKind::Sapling => {
            let none: Vec<WorktreeEntry> = Vec::new();
            assert(none.deep_view() =~= seq![]);
            Step::Done(Ok(none))
        },
    }
}

// --- what the boundary promises ------------------------------------------------------------------

/// A root that both git and Sapling claim is reviewed as git: by its markers, and by its resolution.
pub proof fn law_git_wins_a_root_that_both_claim(root: Seq<char>, path: Seq<char>, a: Answers)
    ensures
        a.flag_of(Topic::Exists, disk::joined(root, ".git"@)) == Some(true) ==> kind_step(root, a)
            == Next::Done(VcsKind::Git),
        git_root_step(path, a) == Next::Done(WorktreeView::Root(root)) ==> repo_step(path, a)
            == Next::Done((root, VcsKind::Git)),
{
}

/// A file's two sides are read where its row comes from: the `branch` rows of a Sapling worktree
/// run between the revisions that the sides read at. A pinned far end has no merge base between
/// the two, whatever the working copy has become; with no base, nothing is listed and nothing read.
pub proof fn law_sides_are_read_at_the_ends_of_the_range(
    root: Seq<char>,
    branch: EndsView,
    winner: BaseView,
    baseline: Option<Seq<char>>,
    a: Answers,
)
    requires
        branch.base.winner == Some(winner),
    ensures
        ({
            let tip = match branch.tip {
                Some(t) => Some(t.oid),
                None => None,
            };
            let revs = revs_step(VcsKind::Sapling, root, Scope::Branch, branch, baseline, a);
            let rows = changed_step(
                VcsKind::Sapling,
                root,
                Scope::Branch,
                Some(winner.oid()),
                tip,
                a,
            );
            &&& branch.tip is Some ==> revs == Next::Done((Some(winner.oid()), tip))
            &&& revs matches Next::Done((old, new)) ==> {
                &&& new == tip
                &&& old is Some ==> rows == sl::set_step(root, old, new, a)
                &&& old is None ==> rows == Next::<Result<Seq<FileRow>, Seq<char>>>::Done(
                    Ok(seq![]),
                )
            }
        }),
{
}

/// Content that was preloaded at a commit is cached. A preload of a file that no answer tells yet
/// asks for its content at the commit. Where that question is answered through the content cache,
/// and the answer is a content or an absence, the cache holds it from then on and the preload is
/// over: the file reads as that content. A failure is not held. git reads nothing ahead.
pub proof fn law_preloaded_content_is_cached(
    root: Seq<char>,
    base: Seq<char>,
    rev: Seq<char>,
    path: Seq<char>,
    before: PinnedCache<Vec<u8>>,
    after: PinnedCache<Vec<u8>>,
    told: Result<Option<Seq<u8>>, Seq<char>>,
    asked: Answers,
    ran: Answers,
    answered: Answers,
)
    requires
        !manifest::SNAP_PREFIX@.is_prefix_of(rev),
        rev != "."@,
        asked.content_of(root, rev, path) is None,
        content::cat_step(root, rev, path, before, ran) == Next::Done(told),
        content::content_kept(root, rev, path, before, after, ran),
        answered.content_of(root, rev, path) == Some(told),
    ensures
        warm_step(VcsKind::Sapling, root, base, rev, path, asked) == Next::<()>::Ask(
            answers::one(Topic::Cat, seq![root, rev, path]),
        ),
        warm_step(VcsKind::Sapling, root, base, rev, path, answered) == Next::Done(()),
        told matches Ok(c) ==> {
            &&& content::held_content(after, rev, path) == Some(c)
            &&& content_step(VcsKind::Sapling, root, base, rev, path, answered) == Next::Done(
                content::text_of(c),
            )
        },
        told is Err ==> after == before,
        warm_step(VcsKind::Git, root, base, rev, path, asked) == Next::Done(()),
{
}

/// The merge base of a `branch` range is cached once it is learned. A range that no answer tells
/// yet asks for it. Where that question is answered through the ancestor cache, the old side reads
/// at the answer, and the cache holds it under the pinned parent unless the command failed.
pub proof fn law_learned_merge_base_is_cached(
    root: Seq<char>,
    branch: EndsView,
    winner: BaseView,
    parent: Seq<char>,
    baseline: Option<Seq<char>>,
    before: PinnedCache<String>,
    after: PinnedCache<String>,
    told: Option<Seq<char>>,
    asked: Answers,
    ran: Answers,
    answered: Answers,
)
    requires
        branch.base.winner == Some(winner),
        branch.tip is None,
        asked.rev_of(Topic::MergeBase, seq![root, winner.oid()]) is None,
        sl::parent_step(root, ran) == Next::Done(Some(parent)),
        content::merge_base_step(root, winner.oid(), before, ran) == Next::Done(told),
        content::ancestor_kept(root, winner.oid(), before, after, ran),
        answered.rev_of(Topic::MergeBase, seq![root, winner.oid()]) == Some(told),
    ensures
        old_rev_step(VcsKind::Sapling, root, Scope::Branch, branch, baseline, asked) == Next::<
            Option<Seq<char>>,
        >::Ask(answers::one(Topic::MergeBase, seq![root, winner.oid()])),
        old_rev_step(VcsKind::Sapling, root, Scope::Branch, branch, baseline, answered)
            == Next::Done(told),
        content::held_ancestor(after, winner.oid(), parent) == Some(told) || (after == before
            && told is None && sl::sl_step(
            root,
            content::ancestor_args(winner.oid(), parent),
            ran,
        ) matches Next::Done(Err(_))),
{
}

// --- what each operation answers ------------------------------------------------------------------

/// Which kind a root is, by its three marker directories: git where `.git` is there, else Sapling
/// where `.sl` or `.hg` is, else git. A Sapling root is a repository where either marker is there; of
/// a git root, git is asked.
pub proof fn law_kind_is_told_by_the_markers(
    root: Seq<char>,
    git: bool,
    sl: bool,
    hg: bool,
    repo: bool,
    a: Answers,
)
    requires
        a.reply(Topic::Exists, seq![disk::joined(root, ".git"@)]) == Some(Reply::Flag(git)),
        a.reply(Topic::Exists, seq![disk::joined(root, ".sl"@)]) == Some(Reply::Flag(sl)),
        a.reply(Topic::Exists, seq![disk::joined(root, ".hg"@)]) == Some(Reply::Flag(hg)),
        a.reply(Topic::GitIsRepo, seq![root]) == Some(Reply::Flag(repo)),
    ensures
        kind_step(root, a) == Next::Done(
            if !git && (sl || hg) {
                VcsKind::Sapling
            } else {
                VcsKind::Git
            },
        ),
        is_repo_step(VcsKind::Sapling, root, a) == Next::Done(sl || hg),
        is_repo_step(VcsKind::Git, root, a) == Next::Done(repo),
{
}

/// Which markers are asked for, and when: `.git` first, then `.sl`, then `.hg`.
pub proof fn law_markers_are_asked_in_turn(root: Seq<char>, a: Answers)
    ensures
        ({
            let seen = |name: Seq<char>| a.reply(Topic::Exists, seq![disk::joined(root, name)]);
            let ask = |name: Seq<char>|
                seq![
                    Question {
                        topic: Topic::Exists,
                        words: seq![disk::joined(root, name)],
                        acts: seq![],
                    },
                ];
            &&& seen(".git"@) is None ==> kind_step(root, a) == Next::<VcsKind>::Ask(ask(".git"@))
            &&& seen(".git"@) == Some(Reply::Flag(false)) && seen(".sl"@) is None ==> kind_step(
                root,
                a,
            ) == Next::<VcsKind>::Ask(ask(".sl"@))
            &&& seen(".git"@) == Some(Reply::Flag(false)) && seen(".sl"@) == Some(Reply::Flag(false))
                && seen(".hg"@) is None ==> kind_step(root, a) == Next::<VcsKind>::Ask(ask(".hg"@))
            &&& seen(".sl"@) is None ==> is_repo_step(VcsKind::Sapling, root, a) == Next::<
                bool,
            >::Ask(ask(".sl"@))
        }),
{
}

/// Where a path resolves to: the git top level where git knows one, else the Sapling root where `sl`
/// knows one, else the path itself, as git. Under a kind, a directory resolves by that kind alone.
pub proof fn law_repo_is_git_first(path: Seq<char>, w: Worktree, a: Answers)
    requires
        a.reply(Topic::GitRoot, seq![path]) == Some(Reply::Root(w)),
    ensures
        w matches Worktree::Root(root) ==> repo_step(path, a) == Next::Done((root@, VcsKind::Git)),
        !(w is Root) ==> repo_step(path, a) == (match sl::root_step(path, a) {
            Next::Ask(q) => Next::Ask(q),
            Next::Done(WorktreeView::Root(root)) => Next::Done((root, VcsKind::Sapling)),
            Next::Done(_) => Next::Done((path, VcsKind::Git)),
        }),
        worktree_step(VcsKind::Git, path, a) == Next::Done(
            match w {
                Worktree::Root(root) => WorktreeView::Root(root@),
                Worktree::Outside => WorktreeView::Outside,
                Worktree::Unknown => WorktreeView::Unknown,
            },
        ),
        worktree_step(VcsKind::Sapling, path, a) == sl::root_step(path, a),
{
}

/// The revisions that a file's two sides are read at. The uncommitted scope reads `HEAD` or `.`; the
/// last turn reads its baseline; a `branch` range reads the merge base of its winner, or the winner
/// itself where the far end is pinned, and nothing without a winner. The new side is the worktree
/// but for a pinned far end.
pub proof fn law_sides_of_each_scope(
    kind: VcsKind,
    root: Seq<char>,
    branch: EndsView,
    winner: BaseView,
    merge: Option<String>,
    baseline: Option<Seq<char>>,
    a: Answers,
)
    ensures
        revs_step(VcsKind::Git, root, Scope::Uncommitted, branch, baseline, a) == Next::Done(
            (Some("HEAD"@), None::<Seq<char>>),
        ),
        revs_step(VcsKind::Sapling, root, Scope::Uncommitted, branch, baseline, a) == Next::Done(
            (Some("."@), None::<Seq<char>>),
        ),
        revs_step(kind, root, Scope::LastTurn, branch, baseline, a) == Next::Done(
            (baseline, None::<Seq<char>>),
        ),
        branch.base.winner is None ==> revs_step(kind, root, Scope::Branch, branch, baseline, a)
            == Next::Done(
            (
                None::<Seq<char>>,
                match branch.tip {
                    Some(tip) => Some(tip.oid),
                    None => None,
                },
            ),
        ),
        branch.base.winner == Some(winner) && branch.tip is Some ==> revs_step(
            kind,
            root,
            Scope::Branch,
            branch,
            baseline,
            a,
        ) == Next::Done((Some(winner.oid()), Some(branch.tip->0.oid))),
        branch.base.winner == Some(winner) && branch.tip is None && a.reply(
            match kind {
                VcsKind::Git => Topic::GitMergeBase,
                VcsKind::Sapling => Topic::MergeBase,
            },
            seq![root, winner.oid()],
        ) == Some(Reply::Rev(merge)) ==> revs_step(kind, root, Scope::Branch, branch, baseline, a)
            == Next::Done((merge.deep_view(), None::<Seq<char>>)),
        branch.base.winner == Some(winner) && branch.tip is None && a.reply(
            match kind {
                VcsKind::Git => Topic::GitMergeBase,
                VcsKind::Sapling => Topic::MergeBase,
            },
            seq![root, winner.oid()],
        ) is None ==> revs_step(kind, root, Scope::Branch, branch, baseline, a) == Next::<
            (Option<Seq<char>>, Option<Seq<char>>),
        >::Ask(
            seq![
                Question {
                    topic: match kind {
                        VcsKind::Git => Topic::GitMergeBase,
                        VcsKind::Sapling => Topic::MergeBase,
                    },
                    words: seq![root, winner.oid()],
                    acts: seq![],
                },
            ],
        ),
        worktree_base(VcsKind::Git) == "HEAD"@,
        worktree_base(VcsKind::Sapling) == "."@,
        (BaseView::Rev { spelling: root, oid: winner.oid() }).oid() == winner.oid(),
        (BaseView::Branch { name: root, oid: winner.oid() }).oid() == winner.oid(),
{
}

/// A git repository is asked of git: the changed files of a scope, with the base where there is one,
/// those against a tree, and a file's content; and what git answered is what is given.
pub proof fn law_git_lists_what_git_lists(
    root: Seq<char>,
    state: Seq<char>,
    scope: Scope,
    base: Option<Seq<char>>,
    tip: Option<Seq<char>>,
    rev: Seq<char>,
    path: Seq<char>,
    files: Result<Vec<ChangedFile>, GitFail>,
    text: String,
    a: Answers,
)
    ensures
        ({
            let name = match scope {
                Scope::Uncommitted => "uncommitted"@,
                Scope::Branch => "branch"@,
                Scope::LastTurn => "last-turn"@,
            };
            let words = match base {
                Some(b) => seq![root, name, b],
                None => seq![root, name],
            };
            let rows = match files {
                Ok(list) => Ok(list.deep_view()),
                Err(e) => Err(e.0@),
            };
            &&& a.reply(Topic::GitChangedFiles, words) is None ==> changed_step(
                VcsKind::Git,
                root,
                scope,
                base,
                tip,
                a,
            ) == Next::<Result<Seq<FileRow>, Seq<char>>>::Ask(
                seq![Question { topic: Topic::GitChangedFiles, words, acts: seq![] }],
            )
            &&& a.reply(Topic::GitChangedFiles, words) == Some(Reply::Files(files))
                ==> changed_step(VcsKind::Git, root, scope, base, tip, a) == Next::<
                Result<Seq<FileRow>, Seq<char>>,
            >::Done(rows)
            &&& a.reply(Topic::GitChangedAgainstTree, seq![root, rev]) is None ==> tree_step(
                VcsKind::Git,
                root,
                state,
                rev,
                a,
            ) == Next::<Result<Seq<FileRow>, Seq<char>>>::Ask(
                seq![
                    Question {
                        topic: Topic::GitChangedAgainstTree,
                        words: seq![root, rev],
                        acts: seq![],
                    },
                ],
            )
            &&& a.reply(Topic::GitChangedAgainstTree, seq![root, rev]) == Some(Reply::Files(files))
                ==> tree_step(VcsKind::Git, root, state, rev, a) == Next::<
                Result<Seq<FileRow>, Seq<char>>,
            >::Done(rows)
            &&& a.reply(Topic::GitFileContent, seq![root, rev, path]) is None ==> content_step(
                VcsKind::Git,
                root,
                state,
                rev,
                path,
                a,
            ) == Next::<Seq<char>>::Ask(
                seq![
                    Question {
                        topic: Topic::GitFileContent,
                        words: seq![root, rev, path],
                        acts: seq![],
                    },
                ],
            )
            &&& a.reply(Topic::GitFileContent, seq![root, rev, path]) == Some(Reply::Plain(text))
                ==> content_step(VcsKind::Git, root, state, rev, path, a) == Next::Done(text@)
        }),
{
    let name = scope_name(scope);
    if let Some(b) = base {
        assert(seq![root, name].push(b) =~= seq![root, name, b]);
    }
}

/// A git repository's bases, names, picks and listing are what git answers, asked of it by the
/// repository and what the caller gave. No git range has a pinned far end, git offers no stack, and
/// a winner there is never the fallback.
pub proof fn law_git_bases_are_git_s(
    root: Seq<char>,
    state: Seq<char>,
    given: Option<Seq<char>>,
    name: Seq<char>,
    status: Result<BaseStatus, GitFail>,
    found: Result<Option<ResolvedBase>, GitFail>,
    default: Result<Option<String>, GitFail>,
    names: Result<Vec<String>, GitFail>,
    done: Result<(), GitFail>,
    rev: Option<String>,
    listed: Result<Vec<WorktreeEntry>, GitFail>,
    cache: PinnedCache<String>,
    a: Answers,
)
    ensures
        ({
            let words = match given {
                Some(w) => seq![root, w],
                None => seq![root],
            };
            &&& a.reply(Topic::GitResolveBase, words) == Some(Reply::Base(status)) ==> base_step(
                VcsKind::Git,
                root,
                state,
                given,
                a,
            ) == Next::<Result<EndsView, Seq<char>>>::Done(
                match status {
                    Ok(s) => Ok(EndsView { base: s.deep_view(), tip: None }),
                    Err(e) => Err(e.0@),
                },
            )
            &&& a.reply(Topic::GitResolveBase, words) is None ==> base_step(
                VcsKind::Git,
                root,
                state,
                given,
                a,
            ) == Next::<Result<EndsView, Seq<char>>>::Ask(
                seq![Question { topic: Topic::GitResolveBase, words, acts: seq![] }],
            )
            &&& a.reply(Topic::GitListBranches, words) == Some(Reply::Names(names))
                ==> branches_step(VcsKind::Git, root, given, a) == Next::<
                Result<Seq<Seq<char>>, Seq<char>>,
            >::Done(
                match names {
                    Ok(list) => Ok(list.deep_view()),
                    Err(e) => Err(e.0@),
                },
            )
            &&& a.reply(Topic::GitListBranches, words) is None ==> branches_step(
                VcsKind::Git,
                root,
                given,
                a,
            ) == Next::<Result<Seq<Seq<char>>, Seq<char>>>::Ask(
                seq![Question { topic: Topic::GitListBranches, words, acts: seq![] }],
            )
            &&& a.reply(Topic::GitResolveSpelling, seq![root, name]) == Some(Reply::Resolved(found))
                ==> typed_step(VcsKind::Git, root, name, a) == Next::<
                Result<Option<BaseView>, Seq<char>>,
            >::Done(
                match found {
                    Ok(r) => Ok(r.deep_view()),
                    Err(e) => Err(e.0@),
                },
            )
            &&& a.reply(Topic::GitDefaultBranch, seq![root]) == Some(Reply::Name(default))
                ==> default_step(VcsKind::Git, root, a) == Next::<
                Result<Option<Seq<char>>, Seq<char>>,
            >::Done(
                match default {
                    Ok(r) => Ok(r.deep_view()),
                    Err(e) => Err(e.0@),
                },
            )
            &&& a.reply(Topic::GitWritePick, seq![root, name]) == Some(Reply::Done(done))
                ==> write_step(VcsKind::Git, root, state, name, a) == Next::<
                Result<(), Seq<char>>,
            >::Done(
                match done {
                    Ok(_) => Ok(()),
                    Err(e) => Err(e.0@),
                },
            )
            &&& a.reply(Topic::GitClearPick, seq![root]) == Some(Reply::Done(done)) ==> clear_step(
                VcsKind::Git,
                root,
                state,
                a,
            ) == Next::<Result<(), Seq<char>>>::Done(
                match done {
                    Ok(_) => Ok(()),
                    Err(e) => Err(e.0@),
                },
            )
            &&& a.reply(
                Topic::GitBaseline,
                seq![root, text::hex(outside::sha256(vstd::utf8::encode_utf8(root)))],
            ) == Some(Reply::Rev(rev)) ==> seed_step(VcsKind::Git, root, state, a) == Next::Done(
                rev.deep_view(),
            )
            &&& a.reply(Topic::GitMergeBase, seq![root, name]) == Some(Reply::Rev(rev))
                ==> merge_step(VcsKind::Git, root, name, cache, a) == Next::Done(rev.deep_view())
            &&& a.reply(Topic::GitAllFiles, seq![root]) == Some(Reply::Entries(listed))
                ==> all_files_step(VcsKind::Git, root, a) == Next::<
                Result<Seq<WorktreeRow>, Seq<char>>,
            >::Done(
                match listed {
                    Ok(list) => Ok(list.deep_view()),
                    Err(e) => Err(e.0@),
                },
            )
            &&& commits_step(VcsKind::Git, root, a) == Next::<Result<Seq<StackRow>, Seq<char>>>::Done(
                Ok(seq![]),
            )
            &&& fallback_step(VcsKind::Git, root, state, name, a) == Next::Done(false)
        }),
{
    if let Some(w) = given {
        assert(seq![root].push(w) =~= seq![root, w]);
    }
}

/// What is not answered yet is asked of git, each question by its own words.
pub proof fn law_git_is_asked(
    root: Seq<char>,
    state: Seq<char>,
    name: Seq<char>,
    cache: PinnedCache<String>,
    a: Answers,
)
    ensures
        ({
            let one = |topic: Topic, words: Seq<Seq<char>>|
                seq![Question { topic, words, acts: seq![] }];
            let key = text::hex(outside::sha256(vstd::utf8::encode_utf8(root)));
            &&& a.reply(Topic::GitRoot, seq![name]) is None ==> repo_step(name, a) == Next::<
                (Seq<char>, VcsKind),
            >::Ask(one(Topic::GitRoot, seq![name]))
            &&& a.reply(Topic::GitIsRepo, seq![root]) is None ==> is_repo_step(
                VcsKind::Git,
                root,
                a,
            ) == Next::<bool>::Ask(one(Topic::GitIsRepo, seq![root]))
            &&& a.reply(Topic::GitResolveSpelling, seq![root, name]) is None ==> typed_step(
                VcsKind::Git,
                root,
                name,
                a,
            ) == Next::<Result<Option<BaseView>, Seq<char>>>::Ask(
                one(Topic::GitResolveSpelling, seq![root, name]),
            )
            &&& a.reply(Topic::GitDefaultBranch, seq![root]) is None ==> default_step(
                VcsKind::Git,
                root,
                a,
            ) == Next::<Result<Option<Seq<char>>, Seq<char>>>::Ask(
                one(Topic::GitDefaultBranch, seq![root]),
            )
            &&& a.reply(Topic::GitWritePick, seq![root, name]) is None ==> write_step(
                VcsKind::Git,
                root,
                state,
                name,
                a,
            ) == Next::<Result<(), Seq<char>>>::Ask(one(Topic::GitWritePick, seq![root, name]))
            &&& a.reply(Topic::GitClearPick, seq![root]) is None ==> clear_step(
                VcsKind::Git,
                root,
                state,
                a,
            ) == Next::<Result<(), Seq<char>>>::Ask(one(Topic::GitClearPick, seq![root]))
            &&& a.reply(Topic::GitBaseline, seq![root, key]) is None ==> seed_step(
                VcsKind::Git,
                root,
                state,
                a,
            ) == Next::<Option<Seq<char>>>::Ask(one(Topic::GitBaseline, seq![root, key]))
            &&& a.reply(Topic::GitMergeBase, seq![root, name]) is None ==> merge_step(
                VcsKind::Git,
                root,
                name,
                cache,
                a,
            ) == Next::<Option<Seq<char>>>::Ask(one(Topic::GitMergeBase, seq![root, name]))
            &&& a.reply(Topic::GitAllFiles, seq![root]) is None ==> all_files_step(
                VcsKind::Git,
                root,
                a,
            ) == Next::<Result<Seq<WorktreeRow>, Seq<char>>>::Ask(
                one(Topic::GitAllFiles, seq![root]),
            )
        }),
{
}

/// A Sapling repository is answered by the Sapling backend, over the store of its root. It has no
/// default branch and lists no worktree; a winner there is the chain's fallback where no pick is
/// recorded or the recorded one is spelled otherwise, and never where the pick cannot be read.
pub proof fn law_sapling_is_answered_by_its_backend(
    root: Seq<char>,
    state: Seq<char>,
    scope: Scope,
    base: Option<Seq<char>>,
    tip: Option<Seq<char>>,
    rev: Seq<char>,
    path: Seq<char>,
    cache: PinnedCache<String>,
    a: Answers,
)
    ensures
        ({
            let dir = disk::joined(
                disk::joined(disk::joined(state, "herdr-reviewr"@), "sl"@),
                text::hex(outside::sha256(vstd::utf8::encode_utf8(root))),
            );
            &&& changed_step(VcsKind::Sapling, root, scope, base, tip, a) == sl::files_step(
                root,
                scope,
                base,
                tip,
                a,
            )
            &&& tree_step(VcsKind::Sapling, root, state, rev, a) == last_turn::turn_step(
                root,
                dir,
                rev,
                a,
            )
            &&& content_step(VcsKind::Sapling, root, state, rev, path, a) == content::file_step(
                root,
                dir,
                rev,
                path,
                a,
            )
            &&& warm_step(VcsKind::Sapling, root, state, rev, path, a) == (match content::file_step(
                root,
                dir,
                rev,
                path,
                a,
            ) {
                Next::Ask(q) => Next::<()>::Ask(q),
                Next::Done(_) => Next::Done(()),
            })
            &&& warm_step(VcsKind::Git, root, state, rev, path, a) == Next::Done(())
            &&& base_step(VcsKind::Sapling, root, state, base, a) == base::chain_step(
                root,
                dir,
                base,
                a,
            )
            &&& typed_step(VcsKind::Sapling, root, rev, a) == base::spelling_step(root, rev, a)
            &&& branches_step(VcsKind::Sapling, root, base, a) == base::bookmarks_step(root, a)
            &&& commits_step(VcsKind::Sapling, root, a) == base::stack_step(root, a)
            &&& merge_step(VcsKind::Sapling, root, rev, cache, a) == content::merge_base_step(
                root,
                rev,
                cache,
                a,
            )
            &&& write_step(VcsKind::Sapling, root, state, rev, a) == store::write_pick_step(
                dir,
                rev,
                a,
            )
            &&& clear_step(VcsKind::Sapling, root, state, a) == store::clear_pick_step(dir, a)
            &&& seed_step(VcsKind::Sapling, root, state, a) == store::baseline_step(dir, a)
            &&& default_step(VcsKind::Sapling, root, a) == Next::<
                Result<Option<Seq<char>>, Seq<char>>,
            >::Done(Ok(None))
            &&& all_files_step(VcsKind::Sapling, root, a) == Next::<
                Result<Seq<WorktreeRow>, Seq<char>>,
            >::Done(Ok(seq![]))
            &&& fallback_step(VcsKind::Sapling, root, state, rev, a) == (match store::read_pick_step(
                dir,
                a,
            ) {
                Next::Ask(q) => Next::<bool>::Ask(q),
                Next::Done(Err(_)) => Next::Done(false),
                Next::Done(Ok(None)) => Next::Done(true),
                Next::Done(Ok(Some(pick))) => Next::Done(pick.base != rev),
            })
        }),
{
}

/// How commit ids are shortened: to their first seven characters for git, to twelve for Sapling, and
/// a shorter one stands. A spelling is a hash prefix of a commit where it is not empty, is made of
/// hexadecimal digits, and starts it.
pub proof fn law_commit_ids_are_shortened(oid: Seq<char>, s: Seq<char>)
    ensures
        short_oid(VcsKind::Git, oid) == if oid.len() <= 7 {
            oid
        } else {
            oid.take(7)
        },
        short_oid(VcsKind::Sapling, oid) == if oid.len() <= 12 {
            oid
        } else {
            oid.take(12)
        },
        git::sha_prefix(s, oid) <==> s.len() > 0 && s.len() <= oid.len() && s == oid.take(
            s.len() as int,
        ) && (forall|i: int|
            0 <= i < s.len() ==> "0123456789abcdefABCDEF"@.contains(#[trigger] s[i])),
{
    assert forall|i: int| 0 <= i < s.len() implies (text::is_hex_digit(#[trigger] s[i])
        <==> "0123456789abcdefABCDEF"@.contains(s[i])) by {
        text::law_digits(s[i]);
    }
    if s.is_prefix_of(oid) {
        assert(s =~= oid.take(s.len() as int));
    }
    if text::all_hex(s) {
        assert forall|i: int| 0 <= i < s.len() implies "0123456789abcdefABCDEF"@.contains(
            #[trigger] s[i],
        ) by {
            assert(text::is_hex_digit(s[i]));
        }
    }
}

} // verus!
