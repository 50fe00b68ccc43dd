//! Questions and answers.
//!
//! An operation reads nothing itself. It takes the answers gathered so far and either finishes or
//! names the questions it still needs answered; the caller answers them and asks again.

use vstd::prelude::*;
use vstd::string::*;

use crate::disk::{Act, DiskOp};
use crate::git::{self, BaseStatus, GitFail, ResolvedBase, Worktree, WorktreeEntry};
use crate::manifest::{Manifest, ManifestView};
use crate::model::{ChangedFile, Entry, StatusEntry};
use crate::table::{Key, Table};
use crate::text;

verus! {

broadcast use vstd::string::group_string_axioms;

// --- questions -----------------------------------------------------------------------

/// What a question is about. The words of the question are its arguments.
#[derive(Clone, Copy, Debug, PartialEq, Eq, Structural)]
pub enum Topic {
    /// Run `sl` in the directory of the first word, with the other words as its arguments.
    Run,
    /// The status records in this JSON text.
    ParseStatus,
    /// The content of a file at a revision, through the content cache: root, revision, path.
    Cat,
    /// The merge base of a commit and the working copy, through the ancestor cache: root, commit.
    MergeBase,
    /// The bytes of a worktree file.
    File,
    /// The modification time and length of a worktree file.
    Stat,
    /// Whether a path exists.
    Exists,
    /// Whether a path is a directory.
    IsDir,
    /// The text of a file in the state directory.
    StoreText,
    /// The manifest in a file of the state directory.
    StoreManifest,
    /// The bytes of a file in the state directory.
    StoreBytes,
    /// The files of a directory of manifests, with their modification times.
    Snaps,
    /// The manifests that read and parse in a directory.
    Kept,
    /// The names of the files of a directory of blobs.
    Blobs,
    /// Carry out the steps that come with the question, in order, and stop where one fails.
    Disk,
    /// Carry out the removals that come with the question; one that fails keeps none of the others.
    Sweep,
    /// The git worktree that holds a path.
    GitRoot,
    /// Whether a root is a git repository.
    GitIsRepo,
    /// git's changed files: root, scope, and the base where there is one.
    GitChangedFiles,
    /// git's changed files against a tree: root, tree.
    GitChangedAgainstTree,
    /// git's content of a file: root, revision, path.
    GitFileContent,
    /// git's merge base of a commit and the working copy: root, commit.
    GitMergeBase,
    /// git's base chain: root, and the flag where there is one.
    GitResolveBase,
    /// git's answer to a typed spelling: root, spelling.
    GitResolveSpelling,
    /// git's default branch.
    GitDefaultBranch,
    /// git's branches: root, and the default branch where there is one.
    GitListBranches,
    /// Record a pick with git: root, name.
    GitWritePick,
    /// Drop git's pick.
    GitClearPick,
    /// The turn baseline that git keeps: root, worktree key.
    GitBaseline,
    /// git's worktree listing.
    GitAllFiles,
}

/// A question: its topic, its words, and the steps to carry out where it asks for a write.
#[derive(Debug, PartialEq, Eq)]
pub struct Query {
    pub topic: Topic,
    pub words: Vec<String>,
    pub ops: Vec<DiskOp>,
}

/// The view of a `Query`.
pub struct Question {
    pub topic: Topic,
    pub words: Seq<Seq<char>>,
    pub acts: Seq<Act>,
}

impl DeepView for Query {
    type V = Question;

    open spec fn deep_view(&self) -> Question {
        Question {
            topic: self.topic,
            words: self.words.deep_view(),
            acts: self.ops.deep_view(),
        }
    }
}

/// A question with no write.
pub open spec fn question(topic: Topic, words: Seq<Seq<char>>) -> Question {
    Question { topic, words, acts: seq![] }
}

/// A question with no write.
pub fn query(topic: Topic, words: Vec<String>) -> (q: Query)
    ensures
        q.deep_view() == question(topic, words.deep_view()),
{
    let q = Query { topic, words, ops: Vec::new() };
    assert(q.deep_view().acts =~= seq![]);
    q
}

/// Where an operation stands: finished, or in need of answers.
#[derive(Debug, PartialEq, Eq)]
pub enum Step<T> {
    Done(T),
    Ask(Vec<Query>),
}

/// The view of a `Step`.
pub enum Next<T> {
    Done(T),
    Ask(Seq<Question>),
}

impl<T: DeepView> DeepView for Step<T> {
    type V = Next<T::V>;

    open spec fn deep_view(&self) -> Next<T::V> {
        match self {
            Step::Done(t) => Next::Done(t.deep_view()),
            Step::Ask(qs) => Next::Ask(qs.deep_view()),
        }
    }
}

/// The view of a step of a fallible operation.
pub open spec fn tried<T: DeepView>(step: Step<Result<T, GitFail>>) -> Next<
    Result<T::V, Seq<char>>,
> {
    match step {
        Step::Done(r) => Next::Done(git::outcome(r)),
        Step::Ask(qs) => Next::Ask(qs.deep_view()),
    }
}

/// One question without a write.
pub open spec fn one(topic: Topic, words: Seq<Seq<char>>) -> Seq<Question> {
    seq![question(topic, words)]
}

/// One question without a write.
pub fn ask_one(topic: Topic, words: Vec<String>) -> (qs: Vec<Query>)
    ensures
        qs.deep_view() == one(topic, words.deep_view()),
{
    let mut qs: Vec<Query> = Vec::new();
    qs.push(query(topic, words));
    assert(qs.deep_view() =~= one(topic, words.deep_view()));
    qs
}

/// A list of one word.
pub fn words1(a: &str) -> (w: Vec<String>)
    ensures
        w.deep_view() == seq![a@],
{
    let mut w: Vec<String> = Vec::new();
    w.push(a.to_owned());
    assert(w.deep_view() =~= seq![a@]);
    w
}

/// A list of two words.
pub fn words2(a: &str, b: &str) -> (w: Vec<String>)
    ensures
        w.deep_view() == seq![a@, b@],
{
    let mut w: Vec<String> = Vec::new();
    w.push(a.to_owned());
    w.push(b.to_owned());
    assert(w.deep_view() =~= seq![a@, b@]);
    w
}

/// A list of three words.
pub fn words3(a: &str, b: &str, c: &str) -> (w: Vec<String>)
    ensures
        w.deep_view() == seq![a@, b@, c@],
{
    let mut w: Vec<String> = Vec::new();
    w.push(a.to_owned());
    w.push(b.to_owned());
    w.push(c.to_owned());
    assert(w.deep_view() =~= seq![a@, b@, c@]);
    w
}

// --- replies -----------------------------------------------------------------------------

/// How a command ended.
#[derive(Debug, PartialEq, Eq)]
pub struct Exit {
    /// The exit code; none where a signal ended the command.
    pub code: Option<i32>,
    pub stdout: Vec<u8>,
    pub stderr: Vec<u8>,
}

/// What running a command came to.
#[derive(Debug, PartialEq, Eq)]
pub enum Run {
    /// It could not start, for this reason.
    Failed(String),
    Ended(Exit),
}

/// The view of a `Run`.
pub enum RunView {
    Failed(Seq<char>),
    Ended { code: Option<i32>, stdout: Seq<u8>, stderr: Seq<u8> },
}

impl DeepView for Run {
    type V = RunView;

    open spec fn deep_view(&self) -> RunView {
        match self {
            Run::Failed(e) => RunView::Failed(e@),
            Run::Ended(exit) => RunView::Ended {
                code: exit.code,
                stdout: exit.stdout@,
                stderr: exit.stderr@,
            },
        }
    }
}

/// A file of the state directory, read as text.
#[derive(Debug, PartialEq, Eq)]
pub enum StoreText {
    Missing,
    Failed(String),
    Text(String),
}

/// The view of a `StoreText`.
pub enum TextView {
    Missing,
    Failed(Seq<char>),
    Text(Seq<char>),
}

impl DeepView for StoreText {
    type V = TextView;

    open spec fn deep_view(&self) -> TextView {
        match self {
            StoreText::Missing => TextView::Missing,
            StoreText::Failed(e) => TextView::Failed(e@),
            StoreText::Text(t) => TextView::Text(t@),
        }
    }
}

/// A modification time, from the epoch.
#[derive(Clone, Copy, Debug, PartialEq, Eq, Structural)]
pub struct Mtime {
    pub secs: i64,
    pub nanos: u32,
}

/// What the file system says of a file.
#[derive(Clone, Copy, Debug, PartialEq, Eq, Structural)]
pub struct Stat {
    pub mtime: Option<Mtime>,
    pub len: u64,
}

/// One file of a directory of manifests.
#[derive(Debug, PartialEq, Eq)]
pub struct SnapFile {
    pub name: String,
    pub modified: Mtime,
}

impl DeepView for SnapFile {
    type V = (Seq<char>, Mtime);

    open spec fn deep_view(&self) -> (Seq<char>, Mtime) {
        (self.name@, self.modified)
    }
}

/// A plan that stopped: the step it stopped at, whether a file was missing, and why.
#[derive(Debug, PartialEq, Eq)]
pub struct IoFail {
    pub at: usize,
    pub missing: bool,
    pub message: String,
}

/// An answer.
#[derive(Debug, PartialEq, Eq)]
pub enum Reply {
    Run(Run),
    Status(Option<Vec<StatusEntry>>),
    Content(Result<Option<Vec<u8>>, GitFail>),
    Rev(Option<String>),
    Bytes(Option<Vec<u8>>),
    Stat(Option<Stat>),
    Flag(bool),
    StoreText(StoreText),
    Manifest(Option<Manifest>),
    Snaps(Vec<SnapFile>),
    Kept(Vec<Manifest>),
    Blobs(Vec<String>),
    Disk(Result<(), IoFail>),
    Swept,
    Root(Worktree),
    Files(Result<Vec<ChangedFile>, GitFail>),
    Plain(String),
    Base(Result<BaseStatus, GitFail>),
    Resolved(Result<Option<ResolvedBase>, GitFail>),
    Name(Result<Option<String>, GitFail>),
    Names(Result<Vec<String>, GitFail>),
    Done(Result<(), GitFail>),
    Entries(Result<Vec<WorktreeEntry>, GitFail>),
}

/// Whether `reply` is an answer to a question of `topic`.
pub open spec fn fits(topic: Topic, reply: Reply) -> bool {
    match topic {
        Topic::Run => reply is Run,
        Topic::ParseStatus => reply is Status,
        Topic::Cat => reply is Content,
        Topic::MergeBase => reply is Rev,
        Topic::File => reply is Bytes,
        Topic::Stat => reply is Stat,
        Topic::Exists => reply is Flag,
        Topic::IsDir => reply is Flag,
        Topic::StoreText => reply is StoreText,
        Topic::StoreManifest => reply is Manifest,
        Topic::StoreBytes => reply is Bytes,
        Topic::Snaps => reply is Snaps,
        Topic::Kept => reply is Kept,
        Topic::Blobs => reply is Blobs,
        Topic::Disk => reply is Disk,
        Topic::Sweep => reply is Swept,
        Topic::GitRoot => reply is Root,
        Topic::GitIsRepo => reply is Flag,
        Topic::GitChangedFiles => reply is Files,
        Topic::GitChangedAgainstTree => reply is Files,
        Topic::GitFileContent => reply is Plain,
        Topic::GitMergeBase => reply is Rev,
        Topic::GitResolveBase => reply is Base,
        Topic::GitResolveSpelling => reply is Resolved,
        Topic::GitDefaultBranch => reply is Name,
        Topic::GitListBranches => reply is Names,
        Topic::GitWritePick => reply is Done,
        Topic::GitClearPick => reply is Done,
        Topic::GitBaseline => reply is Rev,
        Topic::GitAllFiles => reply is Entries,
    }
}

// --- answers --------------------------------------------------------------------------------

/// The key an answer is kept under.
#[derive(Debug)]
pub struct Asked {
    pub topic: Topic,
    pub words: Vec<String>,
}

fn same_words(a: &Vec<String>, b: &Vec<String>) -> (r: bool)
    ensures
        r == (a.deep_view() == b.deep_view()),
{
    if a.len() != b.len() {
        assert(a.deep_view().len() != b.deep_view().len());
        return false;
    }
    let mut i: usize = 0;
    while i < a.len()
        invariant
            a.len() == b.len(),
            i <= a.len(),
            forall|j: int| 0 <= j < i ==> a.deep_view()[j] == b.deep_view()[j],
        decreases a.len() - i,
    {
        if !text::same(a[i].as_str(), b[i].as_str()) {
            assert(a.deep_view()[i as int] != b.deep_view()[i as int]);
            return false;
        }
        i = i + 1;
    }
    assert(a.deep_view() =~= b.deep_view());
    true
}

impl Key for Asked {
    type Id = (Topic, Seq<Seq<char>>);

    open spec fn id(&self) -> (Topic, Seq<Seq<char>>) {
        (self.topic, self.words.deep_view())
    }

    fn same(&self, other: &Self) -> (b: bool) {
        self.topic == other.topic && same_words(&self.words, &other.words)
    }
}

/// The answers gathered so far. They serve one operation: they tell what was true while it ran, and
/// what it has carried out already.
#[derive(Debug)]
pub struct Answers {
    log: Table<Asked, Reply>,
}

impl Answers {
    /// The answer to a question.
    pub closed spec fn reply(self, topic: Topic, words: Seq<Seq<char>>) -> Option<Reply> {
        self.log.lookup((topic, words))
    }

    /// Whether a question has an answer that fits it.
    pub open spec fn settles(self, q: Question) -> bool {
        self.reply(q.topic, q.words) is Some && fits(q.topic, self.reply(q.topic, q.words)->0)
    }

    /// What running `sl` in `root` came to.
    pub open spec fn run_of(self, root: Seq<char>, args: Seq<Seq<char>>) -> Option<RunView> {
        match self.reply(Topic::Run, seq![root] + args) {
            Some(Reply::Run(r)) => Some(r.deep_view()),
            _ => None,
        }
    }

    /// The status records in a JSON text, where it holds such.
    pub open spec fn status_of(self, json: Seq<char>) -> Option<Option<Seq<Entry>>> {
        match self.reply(Topic::ParseStatus, seq![json]) {
            Some(Reply::Status(s)) => Some(s.deep_view()),
            _ => None,
        }
    }

    /// The content of a file at a revision.
    pub open spec fn content_of(self, root: Seq<char>, rev: Seq<char>, path: Seq<char>) -> Option<
        Result<Option<Seq<u8>>, Seq<char>>,
    > {
        match self.reply(Topic::Cat, seq![root, rev, path]) {
            Some(Reply::Content(r)) => Some(content_view(r)),
            _ => None,
        }
    }

    /// A revision that a question asks for.
    pub open spec fn rev_of(self, topic: Topic, words: Seq<Seq<char>>) -> Option<
        Option<Seq<char>>,
    > {
        match self.reply(topic, words) {
            Some(Reply::Rev(r)) => Some(r.deep_view()),
            _ => None,
        }
    }

    /// The bytes of a file of the worktree or of the state directory.
    pub open spec fn bytes_of(self, topic: Topic, path: Seq<char>) -> Option<Option<Seq<u8>>> {
        match self.reply(topic, seq![path]) {
            Some(Reply::Bytes(b)) => Some(bytes_view(b)),
            _ => None,
        }
    }

    /// What the file system says of a worktree file.
    pub open spec fn stat_of(self, path: Seq<char>) -> Option<Option<Stat>> {
        match self.reply(Topic::Stat, seq![path]) {
            Some(Reply::Stat(s)) => Some(s),
            _ => None,
        }
    }

    /// The answer to a yes-or-no question.
    pub open spec fn flag_of(self, topic: Topic, path: Seq<char>) -> Option<bool> {
        match self.reply(topic, seq![path]) {
            Some(Reply::Flag(b)) => Some(b),
            _ => None,
        }
    }

    /// A file of the state directory, as text.
    pub open spec fn store_text_of(self, path: Seq<char>) -> Option<TextView> {
        match self.reply(Topic::StoreText, seq![path]) {
            Some(Reply::StoreText(t)) => Some(t.deep_view()),
            _ => None,
        }
    }

    /// A manifest of the state directory.
    pub open spec fn manifest_of(self, path: Seq<char>) -> Option<Option<ManifestView>> {
        match self.reply(Topic::StoreManifest, seq![path]) {
            Some(Reply::Manifest(m)) => Some(m.deep_view()),
            _ => None,
        }
    }

    /// The files of a directory of manifests.
    pub open spec fn snaps_of(self, dir: Seq<char>) -> Option<Seq<(Seq<char>, Mtime)>> {
        match self.reply(Topic::Snaps, seq![dir]) {
            Some(Reply::Snaps(s)) => Some(s.deep_view()),
            _ => None,
        }
    }

    /// The manifests of a directory.
    pub open spec fn kept_of(self, dir: Seq<char>) -> Option<Seq<ManifestView>> {
        match self.reply(Topic::Kept, seq![dir]) {
            Some(Reply::Kept(m)) => Some(m.deep_view()),
            _ => None,
        }
    }

    /// The names of the files of a directory of blobs.
    pub open spec fn blobs_of(self, dir: Seq<char>) -> Option<Seq<Seq<char>>> {
        match self.reply(Topic::Blobs, seq![dir]) {
            Some(Reply::Blobs(n)) => Some(n.deep_view()),
            _ => None,
        }
    }

    /// What carrying out a plan came to.
    pub open spec fn disk_of(self, words: Seq<Seq<char>>) -> Option<Result<(), IoFail>> {
        match self.reply(Topic::Disk, words) {
            Some(Reply::Disk(r)) => Some(r),
            _ => None,
        }
    }

    /// Whether removals were carried out.
    pub open spec fn swept(self, words: Seq<Seq<char>>) -> bool {
        self.reply(Topic::Sweep, words) == Some(Reply::Swept)
    }

    /// No answers yet.
    pub fn new() -> (a: Answers)
        ensures
            forall|topic: Topic, words: Seq<Seq<char>>| #[trigger] a.reply(topic, words) is None,
    {
        Answers { log: Table::new() }
    }

    /// Keep the answer to a question.
    pub fn add(&mut self, topic: Topic, words: Vec<String>, reply: Reply)
        ensures
            final(self).reply(topic, words.deep_view()) == Some(reply),
            forall|t: Topic, w: Seq<Seq<char>>|
                t != topic || w != words.deep_view() ==> #[trigger] final(self).reply(t, w) == old(
                    self,
                ).reply(t, w),
    {
        let ghost id = (topic, words.deep_view());
        self.log.insert(Asked { topic, words }, reply);
        proof {
            assert forall|t: Topic, w: Seq<Seq<char>>|
                t != topic || w != id.1 implies #[trigger] self.reply(t, w) == old(self).reply(
                t,
                w,
            ) by {
                assert((t, w) != id);
            }
        }
    }

    /// The answer to a question.
    pub fn find(&self, topic: Topic, words: Vec<String>) -> (r: Option<&Reply>)
        ensures
            match r {
                Some(reply) => self.reply(topic, words.deep_view()) == Some(*reply),
                None => self.reply(topic, words.deep_view()) is None,
            },
    {
        self.log.get(&Asked { topic, words })
    }

    /// What running `sl` in `root` came to.
    pub fn run(&self, root: &str, args: &Vec<String>) -> (r: Option<&Run>)
        ensures
            r.deep_view() == self.run_of(root@, args.deep_view()),
    {
        match self.find(Topic::Run, run_words(root, args)) {
            Some(Reply::Run(run)) => Some(run),
            _ => None,
        }
    }

    /// The status records in a JSON text, where it holds such.
    pub fn status(&self, json: &str) -> (r: Option<&Option<Vec<StatusEntry>>>)
        ensures
            r.deep_view() == self.status_of(json@),
    {
        match self.find(Topic::ParseStatus, words1(json)) {
            Some(Reply::Status(s)) => Some(s),
            _ => None,
        }
    }

    /// The content of a file at a revision.
    pub fn content(&self, root: &str, rev: &str, path: &str) -> (r: Option<
        &Result<Option<Vec<u8>>, GitFail>,
    >)
        ensures
            match r {
                Some(c) => self.content_of(root@, rev@, path@) == Some(content_view(*c)),
                None => self.content_of(root@, rev@, path@) is None,
            },
    {
        match self.find(Topic::Cat, words3(root, rev, path)) {
            Some(Reply::Content(c)) => Some(c),
            _ => None,
        }
    }

    /// A revision that a question asks for.
    pub fn rev(&self, topic: Topic, words: Vec<String>) -> (r: Option<&Option<String>>)
        ensures
            r.deep_view() == self.rev_of(topic, words.deep_view()),
    {
        match self.find(topic, words) {
            Some(Reply::Rev(s)) => Some(s),
            _ => None,
        }
    }

    /// The bytes of a file of the worktree or of the state directory.
    pub fn bytes(&self, topic: Topic, path: &str) -> (r: Option<&Option<Vec<u8>>>)
        ensures
            match r {
                Some(b) => self.bytes_of(topic, path@) == Some(bytes_view(*b)),
                None => self.bytes_of(topic, path@) is None,
            },
    {
        match self.find(topic, words1(path)) {
            Some(Reply::Bytes(b)) => Some(b),
            _ => None,
        }
    }

    /// What the file system says of a worktree file.
    pub fn stat(&self, path: &str) -> (r: Option<Option<Stat>>)
        ensures
            r == self.stat_of(path@),
    {
        match self.find(Topic::Stat, words1(path)) {
            Some(Reply::Stat(s)) => Some(*s),
            _ => None,
        }
    }

    /// The answer to a yes-or-no question.
    pub fn flag(&self, topic: Topic, path: &str) -> (r: Option<bool>)
        ensures
            r == self.flag_of(topic, path@),
    {
        match self.find(topic, words1(path)) {
            Some(Reply::Flag(b)) => Some(*b),
            _ => None,
        }
    }

    /// A file of the state directory, as text.
    pub fn store_text(&self, path: &str) -> (r: Option<&StoreText>)
        ensures
            r.deep_view() == self.store_text_of(path@),
    {
        match self.find(Topic::StoreText, words1(path)) {
            Some(Reply::StoreText(t)) => Some(t),
            _ => None,
        }
    }

    /// A manifest of the state directory.
    pub fn manifest(&self, path: &str) -> (r: Option<&Option<Manifest>>)
        ensures
            r.deep_view() == self.manifest_of(path@),
    {
        match self.find(Topic::StoreManifest, words1(path)) {
            Some(Reply::Manifest(m)) => Some(m),
            _ => None,
        }
    }

    /// The files of a directory of manifests.
    pub fn snaps(&self, dir: &str) -> (r: Option<&Vec<SnapFile>>)
        ensures
            r.deep_view() == self.snaps_of(dir@),
    {
        match self.find(Topic::Snaps, words1(dir)) {
            Some(Reply::Snaps(s)) => Some(s),
            _ => None,
        }
    }

    /// The manifests of a directory.
    pub fn kept(&self, dir: &str) -> (r: Option<&Vec<Manifest>>)
        ensures
            r.deep_view() == self.kept_of(dir@),
    {
        match self.find(Topic::Kept, words1(dir)) {
            Some(Reply::Kept(m)) => Some(m),
            _ => None,
        }
    }

    /// The names of the files of a directory of blobs.
    pub fn blobs(&self, dir: &str) -> (r: Option<&Vec<String>>)
        ensures
            r.deep_view() == self.blobs_of(dir@),
    {
        match self.find(Topic::Blobs, words1(dir)) {
            Some(Reply::Blobs(n)) => Some(n),
            _ => None,
        }
    }

    /// Whether removals were carried out.
    pub fn is_swept(&self, words: Vec<String>) -> (b: bool)
        ensures
            b == self.swept(words.deep_view()),
    {
        match self.find(Topic::Sweep, words) {
            Some(Reply::Swept) => true,
            _ => false,
        }
    }

    /// What carrying out a plan came to.
    pub fn disk(&self, words: Vec<String>) -> (r: Option<&Result<(), IoFail>>)
        ensures
            match r {
                Some(d) => self.disk_of(words.deep_view()) == Some(*d),
                None => self.disk_of(words.deep_view()) is None,
            },
    {
        match self.find(Topic::Disk, words) {
            Some(Reply::Disk(d)) => Some(d),
            _ => None,
        }
    }
}

/// The view of bytes that may be absent.
pub open spec fn bytes_view(b: Option<Vec<u8>>) -> Option<Seq<u8>> {
    match b {
        Some(v) => Some(v@),
        None => None,
    }
}

/// The view of a content reply.
pub open spec fn content_view(r: Result<Option<Vec<u8>>, GitFail>) -> Result<
    Option<Seq<u8>>,
    Seq<char>,
> {
    match r {
        Ok(c) => Ok(bytes_view(c)),
        Err(e) => Err(e.deep_view()),
    }
}

/// A copy of a word list.
pub fn copy_words(words: &Vec<String>) -> (w: Vec<String>)
    ensures
        w.deep_view() == words.deep_view(),
{
    let w = words.clone();
    assert(w.deep_view() =~= words.deep_view());
    w
}

/// The words of a question to run `sl`.
pub fn run_words(root: &str, args: &Vec<String>) -> (w: Vec<String>)
    ensures
        w.deep_view() == seq![root@] + args.deep_view(),
{
    let mut w = words1(root);
    let mut rest = copy_words(args);
    let ghost tail = rest.deep_view();
    w.append(&mut rest);
    assert(w.deep_view() =~= seq![root@] + tail);
    w
}

} // verus!
