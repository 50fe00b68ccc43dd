//! The snapshot store: one directory per worktree under the state directory, with the base pick,
//! the turn-baseline pointer, the baseline manifests, and the content-addressed blobs of the files
//! that were dirty.
//!
//! Every write is a plan of steps inside the store's directory, never one in the repository.

use std::sync::Arc;

use vstd::prelude::*;
use vstd::string::*;
use vstd::utf8::*;

use crate::answers::{
    self, Answers, IoFail, Mtime, Next, Query, Question, Reply, SnapFile, Step, StoreText, TextView,
    Topic,
};
use crate::disk::{self, Act, DiskOp};
use crate::git::{self, GitFail};
use crate::manifest::{self, Manifest, ManifestView};
use crate::outside;
use crate::paths;
use crate::text;

verus! {

broadcast use {vstd::string::group_string_axioms, vstd::utf8::group_utf8_lib};

// --- where the store is ------------------------------------------------------------------

/// Where a machine keeps state: an override, the state directory, the local data directory, and
/// the directory for temporary files, each as the text of its path.
#[derive(Debug, PartialEq, Eq)]
pub struct Places {
    pub override_dir: Option<String>,
    pub state_dir: Option<String>,
    pub data_dir: Option<String>,
    pub temp_dir: String,
}

impl Places {
    /// The places of this machine: the override and the directory for temporary files as given, the
    /// user's own directories as the platform names them.
    pub fn of_user(override_dir: Option<String>, temp_dir: String) -> (p: Places)
        ensures
            p.override_dir == override_dir,
            p.temp_dir == temp_dir,
            override_dir matches Some(dir) ==> p.base() == dir@,
    {
        Places {
            override_dir,
            state_dir: dir_text(outside::state_dir()),
            data_dir: dir_text(outside::data_local_dir()),
            temp_dir,
        }
    }

    /// The state root: the first place that there is.
    pub open spec fn base(self) -> Seq<char> {
        match (self.override_dir, self.state_dir, self.data_dir) {
            (Some(dir), _, _) => dir@,
            (None, Some(dir), _) => dir@,
            (None, None, Some(dir)) => dir@,
            (None, None, None) => self.temp_dir@,
        }
    }
}

/// The text of a directory's path, where there is a directory.
fn dir_text(dir: Option<Vec<u8>>) -> (s: Option<String>)
    ensures
        s.deep_view() == (match dir {
            Some(path) => Some(paths::text_of_path(path@)),
            None => None,
        }),
{
    match dir {
        Some(path) => Some(paths::path_text(path.as_slice())),
        None => None,
    }
}

/// The directory of the store for `root` under the state root `base`.
pub open spec fn store_dir(base: Seq<char>, root: Seq<char>) -> Seq<char> {
    disk::joined(
        disk::joined(disk::joined(base, "herdr-reviewr"@), "sl"@),
        git::key_of(root),
    )
}

pub open spec fn pick_at(dir: Seq<char>) -> Seq<char> {
    disk::joined(dir, "base-pick"@)
}

pub open spec fn baseline_at(dir: Seq<char>) -> Seq<char> {
    disk::joined(dir, "baseline"@)
}

pub open spec fn snaps_at(dir: Seq<char>) -> Seq<char> {
    disk::joined(dir, "snaps"@)
}

pub open spec fn blobs_at(dir: Seq<char>) -> Seq<char> {
    disk::joined(dir, "blobs"@)
}

/// The file name of the manifest of a well-formed id.
pub open spec fn snap_name(id: Seq<char>) -> Option<Seq<char>> {
    match text::after_prefix(id, manifest::SNAP_PREFIX@) {
        Some(hex) => if text::all_hex(hex) {
            Some(hex + ".json"@)
        } else {
            None
        },
        None => None,
    }
}

pub open spec fn manifest_at(dir: Seq<char>, id: Seq<char>) -> Option<Seq<char>> {
    match snap_name(id) {
        Some(name) => Some(disk::joined(snaps_at(dir), name)),
        None => None,
    }
}

/// The path of a blob, where `hash` can name one.
pub open spec fn blob_at(dir: Seq<char>, hash: Seq<char>) -> Option<Seq<char>> {
    if text::all_hex(hash) {
        Some(disk::joined(blobs_at(dir), hash))
    } else {
        None
    }
}

/// The steps that write a file through a temporary one, so that a crash never leaves it half
/// written.
pub open spec fn atomic(
    dir: Seq<char>,
    parent: Seq<char>,
    name: Seq<char>,
    content: Seq<u8>,
) -> Seq<Act> {
    seq![
        Act::CreateDirs(dir),
        Act::Write(disk::joined(parent, disk::tmp_name(name)), content),
        Act::Rename(disk::joined(parent, disk::tmp_name(name)), disk::joined(parent, name)),
    ]
}

// --- the base pick --------------------------------------------------------------------------

/// A recorded base pick: a base to diff from, and the commit that ends the range where the pick
/// names one commit to review.
#[derive(Debug, PartialEq, Eq)]
pub struct Pick {
    pub base: String,
    pub tip: Option<String>,
}

/// The view of a `Pick`.
pub struct PickView {
    pub base: Seq<char>,
    pub tip: Option<Seq<char>>,
}

impl DeepView for Pick {
    type V = PickView;

    open spec fn deep_view(&self) -> PickView {
        PickView { base: self.base@, tip: self.tip.deep_view() }
    }
}

/// What a commit pick records: both ends, the commit's parent and the commit.
pub open spec fn commit_pick(node: Seq<char>) -> Seq<char> {
    node + "^.."@ + node
}

/// The commit that `name` picks, where it records both ends of one.
pub open spec fn picked_commit(name: Seq<char>) -> Option<Seq<char>> {
    let n = (name.len() - 3) / 2;
    if name.len() > 3 && name == commit_pick(name.take(n)) {
        Some(name.take(n))
    } else {
        None
    }
}

/// What a pick file's text records; a malformed spelling is no pick.
pub open spec fn pick_in(content: Seq<char>) -> Option<PickView> {
    let name = text::trimmed(content);
    if !git::pick_shaped(name) {
        None
    } else {
        match picked_commit(name) {
            Some(node) => Some(PickView { base: node + "^"@, tip: Some(node) }),
            None => Some(PickView { base: name, tip: None }),
        }
    }
}

/// The commit that `name` picks, where it records both ends of one.
fn split_commit_pick(name: &str) -> (r: Option<String>)
    ensures
        r.deep_view() == picked_commit(name@),
{
    let v = text::chars_of(name);
    if v.len() <= 3 {
        return None;
    }
    let n: usize = (v.len() - 3) / 2;
    let node = text::slice_text(&v, 0, n);
    assert(node@ =~= name@.take(n as int));
    let mut both = node.clone();
    both.append("^..");
    both.append(node.as_str());
    if text::same(both.as_str(), name) {
        Some(node)
    } else {
        None
    }
}

/// What a pick file's text records; a malformed spelling is no pick.
pub fn parse_pick(content: &str) -> (r: Option<Pick>)
    ensures
        r.deep_view() == pick_in(content@),
{
    let name = text::trim(content);
    if !git::pick_spelling_shaped(name.as_str()) {
        return None;
    }
    match split_commit_pick(name.as_str()) {
        Some(node) => {
            let mut base = node.clone();
            base.append("^");
            Some(Pick { base, tip: Some(node) })
        },
        None => Some(Pick { base: name, tip: None }),
    }
}

/// A commit pick reads back as its commit and the commit's parent.
pub proof fn law_commit_pick_reads_back(node: Seq<char>)
    requires
        git::pick_shaped(node),
        text::all_hex(node),
    ensures
        pick_in(commit_pick(node)) == Some(PickView { base: node + "^"@, tip: Some(node) }),
{
    let name = commit_pick(node);
    reveal_strlit("^..");
    assert(name.take(node.len() as int) =~= node);
    assert(name[0] == node[0]);
    assert(name.last() == node.last());
    assert(text::is_hex_digit(node[0]) && text::is_hex_digit(node.last()));
    assert(text::trim_start(name) == name);
    assert(text::trim_end(name) == name);
}

// --- plans and readings over a directory -------------------------------------------------------

/// The question that carries out removals.
pub open spec fn sweep(words: Seq<Seq<char>>, acts: Seq<Act>) -> Question {
    Question { topic: Topic::Sweep, words, acts }
}

/// The question that carries out a plan.
pub open spec fn plan(words: Seq<Seq<char>>, acts: Seq<Act>) -> Question {
    Question { topic: Topic::Disk, words, acts }
}

pub open spec fn read_pick_step(dir: Seq<char>, a: Answers) -> Next<
    Result<Option<PickView>, Seq<char>>,
> {
    match a.store_text_of(pick_at(dir)) {
        None => Next::Ask(answers::one(Topic::StoreText, seq![pick_at(dir)])),
        Some(TextView::Missing) => Next::Done(Ok(None)),
        Some(TextView::Failed(e)) => Next::Done(Err("reading the base pick: "@ + e)),
        Some(TextView::Text(t)) => Next::Done(Ok(pick_in(t))),
    }
}

pub open spec fn write_pick_words(dir: Seq<char>, name: Seq<char>) -> Seq<Seq<char>> {
    seq!["write pick"@, dir, name]
}

pub open spec fn write_pick_step(dir: Seq<char>, name: Seq<char>, a: Answers) -> Next<
    Result<(), Seq<char>>,
> {
    match a.disk_of(write_pick_words(dir, name)) {
        None => Next::Ask(
            seq![
                plan(
                    write_pick_words(dir, name),
                    atomic(dir, dir, "base-pick"@, encode_utf8(name)),
                ),
            ],
        ),
        Some(Ok(())) => Next::Done(Ok(())),
        Some(Err(e)) => Next::Done(Err("writing the base pick: "@ + e.message@)),
    }
}

pub open spec fn clear_pick_words(dir: Seq<char>) -> Seq<Seq<char>> {
    seq!["clear pick"@, dir]
}

pub open spec fn clear_pick_step(dir: Seq<char>, a: Answers) -> Next<Result<(), Seq<char>>> {
    match a.disk_of(clear_pick_words(dir)) {
        None => Next::Ask(seq![plan(clear_pick_words(dir), seq![Act::Remove(pick_at(dir))])]),
        Some(Ok(())) => Next::Done(Ok(())),
        Some(Err(e)) => if e.missing {
            Next::Done(Ok(()))
        } else {
            Next::Done(Err("clearing the base pick: "@ + e.message@))
        },
    }
}

pub open spec fn load_step(dir: Seq<char>, id: Seq<char>, a: Answers) -> Next<
    Option<ManifestView>,
> {
    match manifest_at(dir, id) {
        None => Next::Done(None),
        Some(path) => match a.manifest_of(path) {
            None => Next::Ask(answers::one(Topic::StoreManifest, seq![path])),
            Some(m) => Next::Done(m),
        },
    }
}

pub open spec fn baseline_step(dir: Seq<char>, a: Answers) -> Next<Option<Seq<char>>> {
    match a.store_text_of(baseline_at(dir)) {
        None => Next::Ask(answers::one(Topic::StoreText, seq![baseline_at(dir)])),
        Some(TextView::Text(t)) => match load_step(dir, text::trimmed(t), a) {
            Next::Ask(q) => Next::Ask(q),
            Next::Done(None) => Next::Done(None),
            Next::Done(Some(_)) => Next::Done(Some(text::trimmed(t))),
        },
        Some(_) => Next::Done(None),
    }
}

pub open spec fn blob_step(dir: Seq<char>, hash: Seq<char>, a: Answers) -> Next<Option<Seq<u8>>> {
    match blob_at(dir, hash) {
        None => Next::Done(None),
        Some(path) => match a.bytes_of(Topic::StoreBytes, path) {
            None => Next::Ask(answers::one(Topic::StoreBytes, seq![path])),
            Some(b) => Next::Done(b),
        },
    }
}

/// The view of a step that ends in bytes that may be absent.
pub open spec fn bytes_step(step: Step<Option<&Vec<u8>>>) -> Next<Option<Seq<u8>>> {
    match step {
        Step::Done(Some(b)) => Next::Done(Some(b@)),
        Step::Done(None) => Next::Done(None),
        Step::Ask(qs) => Next::Ask(qs.deep_view()),
    }
}

/// One question that carries out a plan.
fn ask_plan(words: Vec<String>, ops: Vec<DiskOp>) -> (qs: Vec<Query>)
    ensures
        qs.deep_view() == seq![plan(words.deep_view(), ops.deep_view())],
{
    let mut qs: Vec<Query> = Vec::new();
    qs.push(Query { topic: Topic::Disk, words, ops });
    assert(qs.deep_view() =~= seq![plan(words.deep_view(), ops.deep_view())]);
    qs
}

/// One question that carries out removals.
fn ask_sweep(words: Vec<String>, ops: Vec<DiskOp>) -> (qs: Vec<Query>)
    ensures
        qs.deep_view() == seq![sweep(words.deep_view(), ops.deep_view())],
{
    let mut qs: Vec<Query> = Vec::new();
    qs.push(Query { topic: Topic::Sweep, words, ops });
    assert(qs.deep_view() =~= seq![sweep(words.deep_view(), ops.deep_view())]);
    qs
}

/// The snapshot store handle for one worktree.
#[derive(Debug)]
pub struct Store {
    dir: String,
}

impl Store {
    /// The store's directory.
    pub closed spec fn place(self) -> Seq<char> {
        self.dir@
    }

    /// The store for `root`, keyed by the worktree-path hash.
    pub fn open(root: &str, places: &Places) -> (s: Store)
        ensures
            s.place() == store_dir(places.base(), root@),
    {
        let base = match (&places.override_dir, &places.state_dir, &places.data_dir) {
            (Some(dir), _, _) => dir.as_str(),
            (None, Some(dir), _) => dir.as_str(),
            (None, None, Some(dir)) => dir.as_str(),
            (None, None, None) => places.temp_dir.as_str(),
        };
        let ours = disk::join(base, "herdr-reviewr");
        let sl = disk::join(ours.as_str(), "sl");
        let key = git::worktree_key(root);
        Store { dir: disk::join(sl.as_str(), key.as_str()) }
    }

    /// A store at an explicit directory.
    pub fn at(dir: String) -> (s: Store)
        ensures
            s.place() == dir@,
    {
        Store { dir }
    }

    /// The store's directory.
    pub fn dir(&self) -> (r: &str)
        ensures
            r@ == self.place(),
    {
        self.dir.as_str()
    }

    pub fn pick_path(&self) -> (r: String)
        ensures
            r@ == pick_at(self.place()),
    {
        disk::join(self.dir.as_str(), "base-pick")
    }

    pub fn baseline_path(&self) -> (r: String)
        ensures
            r@ == baseline_at(self.place()),
    {
        disk::join(self.dir.as_str(), "baseline")
    }

    pub fn snaps_dir(&self) -> (r: String)
        ensures
            r@ == snaps_at(self.place()),
    {
        disk::join(self.dir.as_str(), "snaps")
    }

    pub fn blobs_dir(&self) -> (r: String)
        ensures
            r@ == blobs_at(self.place()),
    {
        disk::join(self.dir.as_str(), "blobs")
    }

    /// The file name of the manifest of a well-formed id.
    fn manifest_name(id: &str) -> (r: Option<String>)
        ensures
            r.deep_view() == snap_name(id@),
    {
        match text::strip(id, manifest::SNAP_PREFIX) {
            Some(hex) => {
                if text::only_hex(hex.as_str()) {
                    let mut name = hex;
                    name.append(".json");
                    Some(name)
                } else {
                    None
                }
            },
            None => None,
        }
    }

    /// The path of the manifest of `id`; none for an id that is not well formed.
    pub fn manifest_path(&self, id: &str) -> (r: Option<String>)
        ensures
            r.deep_view() == manifest_at(self.place(), id@),
    {
        match Store::manifest_name(id) {
            Some(name) => Some(disk::join(self.snaps_dir().as_str(), name.as_str())),
            None => None,
        }
    }

    /// Add the steps that write `content` to `name` in `parent` through a temporary file.
    fn write_atomic(&self, ops: &mut Vec<DiskOp>, parent: &str, name: &str, content: Vec<u8>)
        ensures
            final(ops).deep_view() == old(ops).deep_view() + atomic(
                self.place(),
                parent@,
                name@,
                content@,
            ),
    {
        let ghost before = ops.deep_view();
        let tmp = disk::join(parent, disk::temp_name(name).as_str());
        let path = disk::join(parent, name);
        ops.push(DiskOp::CreateDirs(self.dir.clone()));
        ops.push(DiskOp::Write(tmp.clone(), content));
        ops.push(DiskOp::Rename(tmp, path));
        assert(ops.deep_view() =~= before + atomic(self.place(), parent@, name@, content@));
    }

    /// The recorded pick, or none where no pick is recorded. A missing file is no pick; a
    /// malformed spelling is no pick.
    pub fn read_base_pick(&self, answers: &Answers) -> (r: Step<Result<Option<Pick>, GitFail>>)
        ensures
            answers::tried(r) == read_pick_step(self.place(), *answers),
    {
        let path = self.pick_path();
        match answers.store_text(path.as_str()) {
            None => Step::Ask(answers::ask_one(Topic::StoreText, answers::words1(path.as_str()))),
            Some(StoreText::Missing) => Step::Done(Ok(None)),
            Some(StoreText::Failed(e)) => {
                let mut message = "reading the base pick: ".to_owned();
                message.append(e.as_str());
                Step::Done(Err(GitFail(message)))
            },
            Some(StoreText::Text(t)) => Step::Done(Ok(parse_pick(t.as_str()))),
        }
    }

    /// Record `name` as this worktree's pick.
    pub fn write_base_pick(&self, name: &str, answers: &Answers) -> (r: Step<Result<(), GitFail>>)
        ensures
            answers::tried(r) == write_pick_step(self.place(), name@, *answers),
    {
        match answers.disk(answers::words3("write pick", self.dir.as_str(), name)) {
            None => {
                let mut ops: Vec<DiskOp> = Vec::new();
                self.write_atomic(&mut ops, self.dir.as_str(), "base-pick", name.as_bytes_vec());
                assert(ops.deep_view() =~= atomic(
                    self.place(),
                    self.place(),
                    "base-pick"@,
                    encode_utf8(name@),
                ));
                Step::Ask(ask_plan(answers::words3("write pick", self.dir.as_str(), name), ops))
            },
            Some(Ok(())) => Step::Done(Ok(())),
            Some(Err(e)) => {
                let mut message = "writing the base pick: ".to_owned();
                message.append(e.message.as_str());
                Step::Done(Err(GitFail(message)))
            },
        }
    }

    /// Drop the recorded pick. No pick to drop is no failure.
    pub fn clear_base_pick(&self, answers: &Answers) -> (r: Step<Result<(), GitFail>>)
        ensures
            answers::tried(r) == clear_pick_step(self.place(), *answers),
    {
        match answers.disk(answers::words2("clear pick", self.dir.as_str())) {
            None => {
                let mut ops: Vec<DiskOp> = Vec::new();
                ops.push(DiskOp::Remove(self.pick_path()));
                assert(ops.deep_view() =~= seq![Act::Remove(pick_at(self.place()))]);
                Step::Ask(ask_plan(answers::words2("clear pick", self.dir.as_str()), ops))
            },
            Some(Ok(())) => Step::Done(Ok(())),
            Some(Err(e)) => {
                if e.missing {
                    Step::Done(Ok(()))
                } else {
                    let mut message = "clearing the base pick: ".to_owned();
                    message.append(e.message.as_str());
                    Step::Done(Err(GitFail(message)))
                }
            },
        }
    }

    /// The manifest of `id`; none where the id is not well formed or no manifest reads there.
    pub fn load_manifest<'a>(&self, id: &str, answers: &'a Answers) -> (r: Step<
        Option<&'a Manifest>,
    >)
        ensures
            r.deep_view() == load_step(self.place(), id@, *answers),
    {
        match self.manifest_path(id) {
            None => Step::Done(None),
            Some(path) => match answers.manifest(path.as_str()) {
                None => Step::Ask(
                    answers::ask_one(Topic::StoreManifest, answers::words1(path.as_str())),
                ),
                Some(Some(m)) => Step::Done(Some(m)),
                Some(None) => Step::Done(None),
            },
        }
    }

    /// The persisted turn baseline id, if its manifest is still readable: a pointer whose
    /// manifest is gone reads as no baseline.
    pub fn read_baseline(&self, answers: &Answers) -> (r: Step<Option<String>>)
        ensures
            r.deep_view() == baseline_step(self.place(), *answers),
    {
        let path = self.baseline_path();
        match answers.store_text(path.as_str()) {
            None => Step::Ask(answers::ask_one(Topic::StoreText, answers::words1(path.as_str()))),
            Some(StoreText::Text(t)) => {
                let id = text::trim(t.as_str());
                match self.load_manifest(id.as_str(), answers) {
                    Step::Ask(q) => Step::Ask(q),
                    Step::Done(None) => Step::Done(None),
                    Step::Done(Some(_)) => Step::Done(Some(id)),
                }
            },
            Some(_) => Step::Done(None),
        }
    }

    /// The bytes of a blob; none where `hash` is no hash or no blob reads there.
    pub fn read_blob<'a>(&self, hash: &str, answers: &'a Answers) -> (r: Step<Option<&'a Vec<u8>>>)
        ensures
            bytes_step(r) == blob_step(self.place(), hash@, *answers),
    {
        if !text::only_hex(hash) {
            return Step::Done(None);
        }
        let path = disk::join(self.blobs_dir().as_str(), hash);
        match answers.bytes(Topic::StoreBytes, path.as_str()) {
            None => Step::Ask(answers::ask_one(Topic::StoreBytes, answers::words1(path.as_str()))),
            Some(Some(b)) => Step::Done(Some(b)),
            Some(None) => Step::Done(None),
        }
    }
}

// --- pending snapshots ------------------------------------------------------------------------

/// A snapshot that is not persisted: its manifest plus the dirty contents under their hashes, held
/// in memory so that a candidate's bytes are the turn-start bytes.
#[derive(Debug)]
pub struct Pending {
    pub id: String,
    pub manifest: Manifest,
    pub blobs: Vec<(String, Arc<Vec<u8>>)>,
}

/// The view of a `Pending`.
pub struct PendingView {
    pub id: Seq<char>,
    pub manifest: ManifestView,
    pub blobs: Seq<(Seq<char>, Seq<u8>)>,
}

/// The view of contents under their hashes.
pub open spec fn blobs_view(blobs: Seq<(String, Arc<Vec<u8>>)>) -> Seq<(Seq<char>, Seq<u8>)> {
    Seq::new(blobs.len(), |i: int| (blobs[i].0@, (*blobs[i].1)@))
}

impl DeepView for Pending {
    type V = PendingView;

    open spec fn deep_view(&self) -> PendingView {
        PendingView {
            id: self.id@,
            manifest: self.manifest.deep_view(),
            blobs: blobs_view(self.blobs@),
        }
    }
}

/// The steps that write the blobs.
pub open spec fn blob_acts(dir: Seq<char>, blobs: Seq<(Seq<char>, Seq<u8>)>) -> Seq<Act>
    decreases blobs.len(),
{
    if blobs.len() == 0 {
        seq![]
    } else {
        blob_acts(dir, blobs.drop_last()) + atomic(
            dir,
            blobs_at(dir),
            blobs.last().0,
            blobs.last().1,
        )
    }
}

/// The steps that write a manifest and then point the baseline at it; none for an id that is not
/// well formed.
pub open spec fn pointing_acts(dir: Seq<char>, id: Seq<char>, m: ManifestView) -> Seq<Act> {
    match snap_name(id) {
        Some(name) => atomic(
            dir,
            snaps_at(dir),
            name,
            encode_utf8(manifest::canonical_text(m)),
        ) + atomic(dir, dir, "baseline"@, encode_utf8(id)),
        None => seq![],
    }
}

/// The steps that persist a snapshot: the directories, the blobs, then the manifest, then the
/// pointer.
pub open spec fn persist_acts(dir: Seq<char>, p: PendingView) -> Seq<Act> {
    seq![Act::CreateDirs(blobs_at(dir)), Act::CreateDirs(snaps_at(dir))] + blob_acts(dir, p.blobs)
        + pointing_acts(dir, p.id, p.manifest)
}

/// What the steps were at where a persist stopped.
pub open spec fn persist_context(p: PendingView, at: int) -> Seq<char> {
    if at == 0 {
        "creating the blob dir"@
    } else if at == 1 {
        "creating the manifest dir"@
    } else if at < 2 + 3 * p.blobs.len() {
        "writing a baseline blob"@
    } else if at < 5 + 3 * p.blobs.len() {
        "writing the baseline manifest"@
    } else {
        "writing the baseline pointer"@
    }
}

// --- pruning ------------------------------------------------------------------------------------

/// How many manifests beside the newest baseline survive a prune.
pub const KEPT_MANIFESTS: usize = 4;

/// Whether `a` is later than `b`.
pub open spec fn later(a: Mtime, b: Mtime) -> bool {
    a.secs > b.secs || (a.secs == b.secs && a.nanos > b.nanos)
}

/// The place of a time among files: behind every leading file that it is not later than.
pub open spec fn age_place(files: Seq<(Seq<char>, Mtime)>, at: Mtime) -> nat
    decreases files.len(),
{
    if files.len() == 0 || later(at, files[0].1) {
        0
    } else {
        1 + age_place(files.skip(1), at)
    }
}

/// The files without `keep`, newest first, files of one time in the order they came.
pub open spec fn by_age(files: Seq<(Seq<char>, Mtime)>, keep: Seq<char>) -> Seq<
    (Seq<char>, Mtime),
>
    decreases files.len(),
{
    if files.len() == 0 {
        seq![]
    } else {
        let done = by_age(files.drop_last(), keep);
        let file = files.last();
        if file.0 == keep {
            done
        } else {
            done.insert(age_place(done, file.1) as int, file)
        }
    }
}

/// The files that a prune removes: all but `keep` and the newest few of the others.
pub open spec fn expired(files: Seq<(Seq<char>, Mtime)>, keep: Seq<char>) -> Seq<
    (Seq<char>, Mtime),
> {
    let others = by_age(files, keep);
    if others.len() <= KEPT_MANIFESTS {
        seq![]
    } else {
        others.skip(KEPT_MANIFESTS as int)
    }
}

/// The steps that remove files by name.
pub open spec fn removals(dir: Seq<char>, names: Seq<Seq<char>>) -> Seq<Act> {
    Seq::new(names.len(), |i: int| Act::Remove(disk::joined(dir, names[i])))
}

pub open spec fn file_names(files: Seq<(Seq<char>, Mtime)>) -> Seq<Seq<char>> {
    Seq::new(files.len(), |i: int| files[i].0)
}

/// Whether a manifest records the content hash `hash`.
pub open spec fn refers(m: ManifestView, hash: Seq<char>) -> bool {
    exists|i: int| 0 <= i < m.files.len() && (#[trigger] m.files[i]).1 == Some(hash)
}

/// Whether any of the manifests does.
pub open spec fn live(ms: Seq<ManifestView>, hash: Seq<char>) -> bool {
    exists|i: int| 0 <= i < ms.len() && refers(#[trigger] ms[i], hash)
}

/// The blobs that no manifest refers to.
pub open spec fn dead_blobs(ms: Seq<ManifestView>, names: Seq<Seq<char>>) -> Seq<Seq<char>>
    decreases names.len(),
{
    if names.len() == 0 {
        seq![]
    } else {
        let done = dead_blobs(ms, names.drop_last());
        if live(ms, names.last()) {
            done
        } else {
            done.push(names.last())
        }
    }
}

pub open spec fn persist_words(dir: Seq<char>, id: Seq<char>) -> Seq<Seq<char>> {
    seq!["persist"@, dir, id]
}

pub open spec fn drop_snaps_words(dir: Seq<char>, id: Seq<char>) -> Seq<Seq<char>> {
    seq!["drop manifests"@, dir, id]
}

pub open spec fn drop_blobs_words(dir: Seq<char>, id: Seq<char>) -> Seq<Seq<char>> {
    seq!["drop blobs"@, dir, id]
}

/// Removing what no recent baseline needs: the manifests that fell off the tail, then the blobs
/// that no manifest left refers to. Whether a removal worked decides nothing.
pub open spec fn prune_step(dir: Seq<char>, id: Seq<char>, keep: Seq<char>, a: Answers) -> Next<
    (),
> {
    match a.snaps_of(snaps_at(dir)) {
        None => Next::Ask(answers::one(Topic::Snaps, seq![snaps_at(dir)])),
        Some(files) => if !a.swept(drop_snaps_words(dir, id)) {
            Next::Ask(
                seq![
                    sweep(
                        drop_snaps_words(dir, id),
                        removals(snaps_at(dir), file_names(expired(files, keep))),
                    ),
                ],
            )
        } else {
            match a.kept_of(snaps_at(dir)) {
                None => Next::Ask(answers::one(Topic::Kept, seq![snaps_at(dir)])),
                Some(ms) => match a.blobs_of(blobs_at(dir)) {
                    None => Next::Ask(answers::one(Topic::Blobs, seq![blobs_at(dir)])),
                    Some(names) => if !a.swept(drop_blobs_words(dir, id)) {
                        Next::Ask(
                            seq![
                                sweep(
                                    drop_blobs_words(dir, id),
                                    removals(blobs_at(dir), dead_blobs(ms, names)),
                                ),
                            ],
                        )
                    } else {
                        Next::Done(())
                    },
                },
            }
        },
    }
}

pub open spec fn persist_step(dir: Seq<char>, p: PendingView, a: Answers) -> Next<
    Result<(), Seq<char>>,
> {
    match a.disk_of(persist_words(dir, p.id)) {
        None => Next::Ask(seq![plan(persist_words(dir, p.id), persist_acts(dir, p))]),
        Some(Err(e)) => Next::Done(Err(persist_context(p, e.at as int))),
        Some(Ok(())) => match snap_name(p.id) {
            None => Next::Done(Err("a pending id is well-formed"@)),
            Some(keep) => match prune_step(dir, p.id, keep, a) {
                Next::Ask(q) => Next::Ask(q),
                Next::Done(()) => Next::Done(Ok(())),
            },
        },
    }
}

fn is_later(a: Mtime, b: Mtime) -> (r: bool)
    ensures
        r == later(a, b),
{
    a.secs > b.secs || (a.secs == b.secs && a.nanos > b.nanos)
}

proof fn lemma_age_place_is(files: Seq<(Seq<char>, Mtime)>, at: Mtime, k: int)
    requires
        0 <= k <= files.len(),
        forall|i: int| 0 <= i < k ==> !later(at, (#[trigger] files[i]).1),
        k < files.len() ==> later(at, files[k].1),
    ensures
        age_place(files, at) == k,
    decreases files.len(),
{
    if k > 0 {
        assert(!later(at, files[0].1));
        assert forall|i: int| 0 <= i < k - 1 implies !later(at, (#[trigger] files.skip(1)[i]).1) by {
            assert(files.skip(1)[i] == files[i + 1]);
        }
        lemma_age_place_is(files.skip(1), at, k - 1);
    }
}

/// The files without `keep`, newest first.
fn sort_by_age(files: &Vec<SnapFile>, keep: &str) -> (r: Vec<SnapFile>)
    ensures
        r.deep_view() == by_age(files.deep_view(), keep@),
{
    let mut out: Vec<SnapFile> = Vec::new();
    let ghost all = files.deep_view();
    assert(all.take(0) =~= seq![]);
    assert(out.deep_view() =~= seq![]);
    let mut i: usize = 0;
    while i < files.len()
        invariant
            all == files.deep_view(),
            i <= files.len(),
            out.deep_view() == by_age(all.take(i as int), keep@),
        decreases files.len() - i,
    {
        let ghost done = out.deep_view();
        assert(all.take(i + 1).drop_last() =~= all.take(i as int));
        let file = &files[i];
        assert(all[i as int] == (file.name@, file.modified));
        if !text::same(file.name.as_str(), keep) {
            let mut k: usize = 0;
            while k < out.len() && !is_later(file.modified, out[k].modified)
                invariant
                    k <= out.len(),
                    done == out.deep_view(),
                    forall|j: int| 0 <= j < k ==> !later(file.modified, (#[trigger] done[j]).1),
                decreases out.len() - k,
            {
                assert(done[k as int].1 == out@[k as int].modified);
                k = k + 1;
            }
            proof {
                if k < done.len() {
                    assert(done[k as int].1 == out@[k as int].modified);
                }
                lemma_age_place_is(done, file.modified, k as int);
            }
            out.insert(k, SnapFile { name: file.name.clone(), modified: file.modified });
            assert(out.deep_view() =~= done.insert(k as int, all[i as int]));
        }
        i = i + 1;
    }
    assert(all.take(i as int) =~= all);
    out
}

/// Whether any of the manifests refers to `hash`.
fn is_live(ms: &Vec<Manifest>, hash: &str) -> (b: bool)
    ensures
        b == live(ms.deep_view(), hash@),
{
    let ghost all = ms.deep_view();
    let mut i: usize = 0;
    while i < ms.len()
        invariant
            all == ms.deep_view(),
            i <= ms.len(),
            forall|j: int| 0 <= j < i ==> !refers(#[trigger] all[j], hash@),
        decreases ms.len() - i,
    {
        let m = &ms[i];
        let ghost files = m.deep_view().files;
        assert(all[i as int] == m.deep_view());
        let mut k: usize = 0;
        while k < m.files.len()
            invariant
                all == ms.deep_view(),
                i < ms.len(),
                all[i as int] == m.deep_view(),
                files == m.deep_view().files,
                k <= m.files.len(),
                forall|j: int| 0 <= j < k ==> (#[trigger] files[j]).1 != Some(hash@),
            decreases m.files.len() - k,
        {
            assert(files[k as int].1 == m.files@[k as int].1.deep_view());
            if let Some(h) = &m.files[k].1 {
                if text::same(h.as_str(), hash) {
                    assert(refers(all[i as int], hash@));
                    return true;
                }
            }
            k = k + 1;
        }
        i = i + 1;
    }
    false
}

impl Store {
    /// The steps that persist `pending`.
    fn persist_ops(&self, pending: &Pending) -> (ops: Vec<DiskOp>)
        ensures
            ops.deep_view() == persist_acts(self.place(), pending.deep_view()),
    {
        let ghost dir = self.place();
        let ghost blobs = pending.deep_view().blobs;
        let mut ops: Vec<DiskOp> = Vec::new();
        ops.push(DiskOp::CreateDirs(self.blobs_dir()));
        ops.push(DiskOp::CreateDirs(self.snaps_dir()));
        let ghost head = seq![Act::CreateDirs(blobs_at(dir)), Act::CreateDirs(snaps_at(dir))];
        assert(blobs.take(0) =~= seq![]);
        assert(ops.deep_view() =~= head + blob_acts(dir, blobs.take(0)));
        let blobs_dir = self.blobs_dir();
        let mut i: usize = 0;
        while i < pending.blobs.len()
            invariant
                dir == self.place(),
                blobs == pending.deep_view().blobs,
                blobs_dir@ == blobs_at(dir),
                i <= pending.blobs.len(),
                ops.deep_view() == head + blob_acts(dir, blobs.take(i as int)),
            decreases pending.blobs.len() - i,
        {
            let entry = &pending.blobs[i];
            assert(blobs[i as int] == (entry.0@, (*entry.1)@));
            assert(blobs.take(i + 1).drop_last() =~= blobs.take(i as int));
            let ghost done = ops.deep_view();
            let bytes = vstd::slice::slice_to_vec(entry.1.as_slice());
            self.write_atomic(&mut ops, blobs_dir.as_str(), entry.0.as_str(), bytes);
            assert(ops.deep_view() =~= head + blob_acts(dir, blobs.take(i + 1)));
            i = i + 1;
        }
        assert(blobs.take(i as int) =~= blobs);
        match Store::manifest_name(pending.id.as_str()) {
            Some(name) => {
                let json = pending.manifest.canonical();
                self.write_atomic(
                    &mut ops,
                    self.snaps_dir().as_str(),
                    name.as_str(),
                    json.as_str().as_bytes_vec(),
                );
                self.write_atomic(
                    &mut ops,
                    self.dir.as_str(),
                    "baseline",
                    pending.id.as_str().as_bytes_vec(),
                );
                assert(ops.deep_view() =~= persist_acts(dir, pending.deep_view()));
            },
            None => {
                assert(ops.deep_view() =~= persist_acts(dir, pending.deep_view()));
            },
        }
        ops
    }

    /// What the steps were at where a persist stopped.
    fn stopped_at(pending: &Pending, at: usize) -> (r: String)
        ensures
            r@ == persist_context(pending.deep_view(), at as int),
    {
        let n: usize = pending.blobs.len();
        if at == 0 {
            "creating the blob dir".to_owned()
        } else if at == 1 {
            "creating the manifest dir".to_owned()
        } else if (at - 2) / 3 < n {
            "writing a baseline blob".to_owned()
        } else if at - 2 < 3 || (at - 5) / 3 < n {
            "writing the baseline manifest".to_owned()
        } else {
            "writing the baseline pointer".to_owned()
        }
    }

    /// Persist `pending` and point the baseline at it: blobs, then the manifest, then the pointer,
    /// so that a crash mid-way leaves the previous baseline live. Then drop what no recent
    /// baseline refers to.
    pub fn persist(&self, pending: &Pending, answers: &Answers) -> (r: Step<Result<(), GitFail>>)
        ensures
            answers::tried(r) == persist_step(self.place(), pending.deep_view(), *answers),
    {
        match answers.disk(
            answers::words3("persist", self.dir.as_str(), pending.id.as_str()),
        ) {
            None => Step::Ask(
                ask_plan(
                    answers::words3("persist", self.dir.as_str(), pending.id.as_str()),
                    self.persist_ops(pending),
                ),
            ),
            Some(Err(e)) => Step::Done(Err(GitFail(Store::stopped_at(pending, e.at)))),
            Some(Ok(())) => match Store::manifest_name(pending.id.as_str()) {
                None => Step::Done(Err(GitFail("a pending id is well-formed".to_owned()))),
                Some(keep) => match self.prune(pending.id.as_str(), keep.as_str(), answers) {
                    Step::Ask(q) => Step::Ask(q),
                    Step::Done(()) => Step::Done(Ok(())),
                },
            },
        }
    }

    /// The steps that remove `names` from `dir`.
    fn removal_ops(dir: &str, names: &Vec<String>) -> (ops: Vec<DiskOp>)
        ensures
            ops.deep_view() == removals(dir@, names.deep_view()),
    {
        let ghost all = names.deep_view();
        let mut ops: Vec<DiskOp> = Vec::new();
        let mut i: usize = 0;
        while i < names.len()
            invariant
                all == names.deep_view(),
                i <= names.len(),
                ops.deep_view() =~= removals(dir@, all.take(i as int)),
            decreases names.len() - i,
        {
            let ghost done = ops.deep_view();
            assert(all[i as int] == names@[i as int]@);
            ops.push(DiskOp::Remove(disk::join(dir, names[i].as_str())));
            assert(ops.deep_view() =~= done.push(Act::Remove(disk::joined(dir@, all[i as int]))));
            i = i + 1;
        }
        assert(all.take(i as int) =~= all);
        ops
    }

    /// The names of the manifests that a prune removes.
    fn expired_names(files: &Vec<SnapFile>, keep: &str) -> (names: Vec<String>)
        ensures
            names.deep_view() == file_names(expired(files.deep_view(), keep@)),
    {
        let others = sort_by_age(files, keep);
        let ghost sorted = others.deep_view();
        let ghost gone = file_names(expired(files.deep_view(), keep@));
        let mut names: Vec<String> = Vec::new();
        let mut i: usize = KEPT_MANIFESTS;
        while i < others.len()
            invariant
                sorted == others.deep_view(),
                gone == file_names(
                    if sorted.len() <= KEPT_MANIFESTS {
                        seq![]
                    } else {
                        sorted.skip(KEPT_MANIFESTS as int)
                    },
                ),
                KEPT_MANIFESTS <= i,
                others.len() > KEPT_MANIFESTS ==> i <= others.len(),
                others.len() <= KEPT_MANIFESTS ==> i == KEPT_MANIFESTS,
                names.deep_view() =~= gone.take(i - KEPT_MANIFESTS),
            decreases others.len() - i,
        {
            let ghost done = names.deep_view();
            assert(sorted[i as int].0 == others@[i as int].name@);
            names.push(others[i].name.clone());
            assert(names.deep_view() =~= done.push(sorted[i as int].0));
            i = i + 1;
        }
        assert(names.deep_view() =~= gone);
        names
    }

    /// The names of the blobs that no manifest refers to.
    fn dead_names(ms: &Vec<Manifest>, blobs: &Vec<String>) -> (names: Vec<String>)
        ensures
            names.deep_view() == dead_blobs(ms.deep_view(), blobs.deep_view()),
    {
        let ghost all = blobs.deep_view();
        let ghost kept = ms.deep_view();
        let mut names: Vec<String> = Vec::new();
        assert(all.take(0) =~= seq![]);
        assert(names.deep_view() =~= seq![]);
        let mut i: usize = 0;
        while i < blobs.len()
            invariant
                all == blobs.deep_view(),
                kept == ms.deep_view(),
                i <= blobs.len(),
                names.deep_view() == dead_blobs(kept, all.take(i as int)),
            decreases blobs.len() - i,
        {
            let ghost done = names.deep_view();
            assert(all.take(i + 1).drop_last() =~= all.take(i as int));
            assert(all[i as int] == blobs@[i as int]@);
            if !is_live(ms, blobs[i].as_str()) {
                names.push(blobs[i].clone());
                assert(names.deep_view() =~= done.push(all[i as int]));
            }
            i = i + 1;
        }
        assert(all.take(i as int) =~= all);
        names
    }

    /// Best-effort removal of manifests and blobs that no recent baseline refers to. The
    /// just-written baseline plus the most recent few others survive, so that a sibling pane of
    /// the same worktree keeps its own live baseline.
    fn prune(&self, id: &str, keep: &str, answers: &Answers) -> (r: Step<()>)
        ensures
            r.deep_view() == prune_step(self.place(), id@, keep@, *answers),
    {
        let snaps = self.snaps_dir();
        let blobs = self.blobs_dir();
        let files = match answers.snaps(snaps.as_str()) {
            None => {
                return Step::Ask(
                    answers::ask_one(Topic::Snaps, answers::words1(snaps.as_str())),
                );
            },
            Some(files) => files,
        };
        if !answers.is_swept(answers::words3("drop manifests", self.dir.as_str(), id)) {
            let gone = Store::expired_names(files, keep);
            let ops = Store::removal_ops(snaps.as_str(), &gone);
            return Step::Ask(
                ask_sweep(answers::words3("drop manifests", self.dir.as_str(), id), ops),
            );
        }
        let kept = match answers.kept(snaps.as_str()) {
            None => {
                return Step::Ask(answers::ask_one(Topic::Kept, answers::words1(snaps.as_str())));
            },
            Some(ms) => ms,
        };
        let names = match answers.blobs(blobs.as_str()) {
            None => {
                return Step::Ask(answers::ask_one(Topic::Blobs, answers::words1(blobs.as_str())));
            },
            Some(names) => names,
        };
        if !answers.is_swept(answers::words3("drop blobs", self.dir.as_str(), id)) {
            let gone = Store::dead_names(kept, names);
            let ops = Store::removal_ops(blobs.as_str(), &gone);
            return Step::Ask(
                ask_sweep(answers::words3("drop blobs", self.dir.as_str(), id), ops),
            );
        }
        Step::Done(())
    }
}

// --- what the store reads and writes --------------------------------------------------------------

/// Where a worktree's store stands: under the state root, by the digest of the worktree's path. The
/// state root is the override, else the state directory, else the local data directory, else the one
/// for temporary files.
pub proof fn law_store_stands_under_the_state_root(p: Places, root: Seq<char>)
    ensures
        p.override_dir matches Some(d) ==> p.base() == d@,
        p.override_dir is None ==> (p.state_dir matches Some(d) ==> p.base() == d@),
        p.override_dir is None && p.state_dir is None ==> (p.data_dir matches Some(d) ==> p.base()
            == d@),
        p.override_dir is None && p.state_dir is None && p.data_dir is None ==> p.base()
            == p.temp_dir@,
        store_dir(p.base(), root) == disk::joined(
            disk::joined(disk::joined(p.base(), "herdr-reviewr"@), "sl"@),
            text::hex(outside::sha256(encode_utf8(root))),
        ),
{
}

/// What a pick file's text records. Trimmed, it is a spelling, or one commit where it is a node, `^..`
/// and the same node again: the commit ends the range, and its parent starts it. A blank text and
/// one that looks like an option record nothing.
pub proof fn law_pick_text_records_a_spelling_or_a_commit(content: Seq<char>, node: Seq<char>)
    ensures
        ({
            let name = text::trimmed(content);
            &&& name.len() == 0 || name[0] == '-' ==> pick_in(content) is None
            &&& name.len() > 0 && name[0] != '-' ==> {
                &&& node.len() > 0 && name == node + "^.."@ + node ==> pick_in(content) == Some(
                    PickView { base: node + "^"@, tip: Some(node) },
                )
                &&& (forall|n: Seq<char>| n.len() > 0 ==> name != #[trigger] (n + "^.."@ + n))
                    ==> pick_in(content) == Some(PickView { base: name, tip: None })
            }
        }),
{
    reveal_strlit("^..");
    let name = text::trimmed(content);
    if node.len() > 0 && name == node + "^.."@ + node {
        let n = (name.len() - 3) / 2;
        assert(n == node.len());
        assert(name.take(n) =~= node);
    }
    if (forall|n: Seq<char>| n.len() > 0 ==> name != #[trigger] (n + "^.."@ + n)) && name.len() > 3 {
        let n = (name.len() - 3) / 2;
        let half = name.take(n);
        if name == commit_pick(half) {
            assert(half.len() > 0);
            assert(name == half + "^.."@ + half);
        }
    }
}

/// The pick is read from its file; a file that is not there records none, and one that cannot be read
/// is an error. It is recorded by one plan: the file is written beside its place and moved there. It
/// is dropped by removing the file, and one that is not there is dropped already.
pub proof fn law_pick_has_a_file(
    dir: Seq<char>,
    name: Seq<char>,
    t: String,
    fail: IoFail,
    a: Answers,
)
    ensures
        ({
            let path = disk::joined(dir, "base-pick"@);
            let tmp = disk::joined(dir, "base-pick.tmp"@);
            let writing = seq!["write pick"@, dir, name];
            let clearing = seq!["clear pick"@, dir];
            let text = a.reply(Topic::StoreText, seq![path]);
            &&& text is None ==> read_pick_step(dir, a) == Next::<
                Result<Option<PickView>, Seq<char>>,
            >::Ask(seq![Question { topic: Topic::StoreText, words: seq![path], acts: seq![] }])
            &&& text == Some(Reply::StoreText(StoreText::Missing)) ==> read_pick_step(dir, a)
                == Next::<Result<Option<PickView>, Seq<char>>>::Done(Ok(None))
            &&& text == Some(Reply::StoreText(StoreText::Text(t))) ==> read_pick_step(dir, a)
                == Next::<Result<Option<PickView>, Seq<char>>>::Done(Ok(pick_in(t@)))
            &&& text == Some(Reply::StoreText(StoreText::Failed(t))) ==> read_pick_step(dir, a)
                == Next::<Result<Option<PickView>, Seq<char>>>::Done(
                Err("reading the base pick: "@ + t@),
            )
            &&& a.reply(Topic::Disk, writing) is None ==> write_pick_step(dir, name, a) == Next::<
                Result<(), Seq<char>>,
            >::Ask(
                seq![
                    Question {
                        topic: Topic::Disk,
                        words: writing,
                        acts: seq![
                            Act::CreateDirs(dir),
                            Act::Write(tmp, encode_utf8(name)),
                            Act::Rename(tmp, path),
                        ],
                    },
                ],
            )
            &&& a.reply(Topic::Disk, writing) == Some(Reply::Disk(Ok::<(), IoFail>(())))
                ==> write_pick_step(dir, name, a) == Next::<Result<(), Seq<char>>>::Done(Ok(()))
            &&& a.reply(Topic::Disk, writing) == Some(Reply::Disk(Err::<(), IoFail>(fail)))
                ==> write_pick_step(dir, name, a) == Next::<Result<(), Seq<char>>>::Done(
                Err("writing the base pick: "@ + fail.message@),
            )
            &&& a.reply(Topic::Disk, clearing) is None ==> clear_pick_step(dir, a) == Next::<
                Result<(), Seq<char>>,
            >::Ask(
                seq![
                    Question {
                        topic: Topic::Disk,
                        words: clearing,
                        acts: seq![Act::Remove(path)],
                    },
                ],
            )
            &&& a.reply(Topic::Disk, clearing) == Some(Reply::Disk(Ok::<(), IoFail>(())))
                ==> clear_pick_step(dir, a) == Next::<Result<(), Seq<char>>>::Done(Ok(()))
            &&& a.reply(Topic::Disk, clearing) == Some(Reply::Disk(Err::<(), IoFail>(fail)))
                ==> clear_pick_step(dir, a) == Next::<Result<(), Seq<char>>>::Done(
                if fail.missing {
                    Ok(())
                } else {
                    Err("clearing the base pick: "@ + fail.message@)
                },
            )
        }),
{
    reveal_strlit("base-pick");
    reveal_strlit("base-pick.tmp");
    reveal_strlit(".tmp");
    let base = "base-pick"@;
    assert forall|i: int| 0 <= i < base.len() implies base[i] != '.' by {}
    disk::law_temporary_name(seq!['x'], base);
    assert(disk::tmp_name(base) =~= "base-pick.tmp"@);
}

/// A baseline's manifest stands under `snaps`, by the hexadecimal digits of its id; an id of another
/// shape has none. The live baseline is the id that the pointer file holds, trimmed, where that has
/// a manifest; a content stands under `blobs`, by its hash.
pub proof fn law_baseline_has_its_files(
    dir: Seq<char>,
    id: Seq<char>,
    digits: Seq<char>,
    hash: Seq<char>,
    m: Option<Manifest>,
    t: String,
    bytes: Option<Vec<u8>>,
    a: Answers,
)
    ensures
        ({
            let at = disk::joined(disk::joined(dir, "snaps"@), digits + ".json"@);
            let pointer = disk::joined(dir, "baseline"@);
            let blob = disk::joined(disk::joined(dir, "blobs"@), hash);
            &&& id == "snap:"@ + digits && text::all_hex(digits) ==> {
                &&& a.reply(Topic::StoreManifest, seq![at]) is None ==> load_step(dir, id, a)
                    == Next::<Option<ManifestView>>::Ask(
                    seq![Question { topic: Topic::StoreManifest, words: seq![at], acts: seq![] }],
                )
                &&& a.reply(Topic::StoreManifest, seq![at]) == Some(Reply::Manifest(m))
                    ==> load_step(dir, id, a) == Next::Done(m.deep_view())
            }
            &&& !("snap:"@.is_prefix_of(id) && text::all_hex(id.skip(5))) ==> load_step(dir, id, a)
                == Next::Done(None::<ManifestView>)
            &&& a.reply(Topic::StoreText, seq![pointer]) is None ==> baseline_step(dir, a)
                == Next::<Option<Seq<char>>>::Ask(
                seq![Question { topic: Topic::StoreText, words: seq![pointer], acts: seq![] }],
            )
            &&& a.reply(Topic::StoreText, seq![pointer]) == Some(
                Reply::StoreText(StoreText::Missing),
            ) ==> baseline_step(dir, a) == Next::Done(None::<Seq<char>>)
            &&& a.reply(Topic::StoreText, seq![pointer]) == Some(
                Reply::StoreText(StoreText::Failed(t)),
            ) ==> baseline_step(dir, a) == Next::Done(None::<Seq<char>>)
            &&& a.reply(Topic::StoreText, seq![pointer]) == Some(
                Reply::StoreText(StoreText::Text(t)),
            ) ==> baseline_step(dir, a) == (match load_step(dir, text::trimmed(t@), a) {
                Next::Ask(q) => Next::Ask(q),
                Next::Done(None) => Next::Done(None),
                Next::Done(Some(_)) => Next::Done(Some(text::trimmed(t@))),
            })
            &&& text::all_hex(hash) && a.reply(Topic::StoreBytes, seq![blob]) == Some(
                Reply::Bytes(bytes),
            ) ==> blob_step(dir, hash, a) == Next::Done(
                match bytes {
                    Some(b) => Some(b@),
                    None => None,
                },
            )
            &&& text::all_hex(hash) && a.reply(Topic::StoreBytes, seq![blob]) is None ==> blob_step(
                dir,
                hash,
                a,
            ) == Next::<Option<Seq<u8>>>::Ask(
                seq![Question { topic: Topic::StoreBytes, words: seq![blob], acts: seq![] }],
            )
            &&& !text::all_hex(hash) ==> blob_step(dir, hash, a) == Next::Done(None::<Seq<u8>>)
        }),
{
    reveal_strlit("snap:");
    if id == "snap:"@ + digits {
        assert("snap:"@ =~= id.take(5));
        assert(id.skip(5) =~= digits);
    }
}

/// The plan of a persist. The two directories come first, then each content in turn, then the
/// manifest, and the pointer last, each written beside its place and moved there.
pub proof fn law_persist_writes_the_pointer_last(
    dir: Seq<char>,
    digits: Seq<char>,
    m: ManifestView,
    blobs: Seq<(Seq<char>, Seq<u8>)>,
    i: int,
    a: Answers,
)
    requires
        text::all_hex(digits),
    ensures
        ({
            let id = "snap:"@ + digits;
            let p = PendingView { id, manifest: m, blobs };
            let acts = persist_acts(dir, p);
            let n = 3 * blobs.len() as int;
            let snaps = disk::joined(dir, "snaps"@);
            let under = disk::joined(dir, "blobs"@);
            let write = |at: int, parent: Seq<char>, name: Seq<char>, bytes: Seq<u8>|
                acts[at] == Act::CreateDirs(dir) && acts[at + 1] == Act::Write(
                    disk::joined(parent, disk::tmp_name(name)),
                    bytes,
                ) && acts[at + 2] == Act::Rename(
                    disk::joined(parent, disk::tmp_name(name)),
                    disk::joined(parent, name),
                );
            &&& acts.len() == 8 + n
            &&& acts[0] == Act::CreateDirs(under)
            &&& acts[1] == Act::CreateDirs(snaps)
            &&& 0 <= i < blobs.len() ==> write(2 + 3 * i, under, blobs[i].0, blobs[i].1)
            &&& write(2 + n, snaps, digits + ".json"@, encode_utf8(manifest::canonical_text(m)))
            &&& write(5 + n, dir, "baseline"@, encode_utf8(id))
            &&& a.reply(Topic::Disk, seq!["persist"@, dir, id]) is None ==> persist_step(dir, p, a)
                == Next::<Result<(), Seq<char>>>::Ask(
                seq![
                    Question { topic: Topic::Disk, words: seq!["persist"@, dir, id], acts },
                ],
            )
        }),
{
    reveal_strlit("snap:");
    let id = "snap:"@ + digits;
    assert("snap:"@ =~= id.take(5));
    assert(id.skip(5) =~= digits);
    assert(snap_name(id) == Some(digits + ".json"@));
    let p = PendingView { id, manifest: m, blobs };
    let acts = persist_acts(dir, p);
    let dirs = seq![Act::CreateDirs(blobs_at(dir)), Act::CreateDirs(snaps_at(dir))];
    let middle = blob_acts(dir, blobs);
    let end = pointing_acts(dir, id, m);
    lemma_blob_acts_at(dir, blobs, i);
    let n = 3 * blobs.len() as int;
    assert(acts =~= dirs + middle + end);
    assert(acts[0] == dirs[0] && acts[1] == dirs[1]);
    if 0 <= i < blobs.len() {
        assert(acts[2 + 3 * i] == middle[3 * i]);
        assert(acts[3 + 3 * i] == middle[3 * i + 1]);
        assert(acts[4 + 3 * i] == middle[3 * i + 2]);
    }
    assert forall|k: int| 0 <= k < 6 implies acts[2 + n + k] == #[trigger] end[k] by {}
    assert(acts[2 + n] == end[0] && acts[3 + n] == end[1] && acts[4 + n] == end[2]);
    assert(acts[5 + n] == end[3] && acts[6 + n] == end[4] && acts[7 + n] == end[5]);
}

proof fn lemma_blob_acts_at(dir: Seq<char>, blobs: Seq<(Seq<char>, Seq<u8>)>, i: int)
    ensures
        blob_acts(dir, blobs).len() == 3 * blobs.len(),
        0 <= i < blobs.len() ==> {
            let acts = blob_acts(dir, blobs);
            let one = atomic(dir, blobs_at(dir), blobs[i].0, blobs[i].1);
            acts[3 * i] == one[0] && acts[3 * i + 1] == one[1] && acts[3 * i + 2] == one[2]
        },
    decreases blobs.len(),
{
    if blobs.len() > 0 {
        let rest = blobs.drop_last();
        lemma_blob_acts_at(dir, rest, i);
        if 0 <= i < rest.len() {
            assert(rest[i] == blobs[i]);
        }
    }
}

/// What stands behind a persist that went through: the listing of the manifests, the removal of those
/// that fell off the tail of four, the manifests that are left and the listing of the contents, and
/// the removal of those that none of them refers to, each asked in turn; then it is over.
pub proof fn law_prune_goes_by_what_is_left(
    dir: Seq<char>,
    id: Seq<char>,
    keep: Seq<char>,
    snaps: Vec<SnapFile>,
    kept: Vec<Manifest>,
    names: Vec<String>,
    a: Answers,
)
    ensures
        ({
            let at = disk::joined(dir, "snaps"@);
            let under = disk::joined(dir, "blobs"@);
            let end = prune_step(dir, id, keep, a);
            let listed = a.reply(Topic::Snaps, seq![at]);
            let first = seq!["drop manifests"@, dir, id];
            let second = seq!["drop blobs"@, dir, id];
            &&& listed is None ==> end == Next::<()>::Ask(
                seq![Question { topic: Topic::Snaps, words: seq![at], acts: seq![] }],
            )
            &&& listed == Some(Reply::Snaps(snaps)) ==> {
                let gone = expired(snaps.deep_view(), keep);
                &&& a.reply(Topic::Sweep, first) is None ==> end == Next::<()>::Ask(
                    seq![
                        Question {
                            topic: Topic::Sweep,
                            words: first,
                            acts: Seq::new(
                                gone.len(),
                                |i: int| Act::Remove(disk::joined(at, gone[i].0)),
                            ),
                        },
                    ],
                )
                &&& a.reply(Topic::Sweep, first) == Some(Reply::Swept) ==> {
                    &&& a.reply(Topic::Kept, seq![at]) is None ==> end == Next::<()>::Ask(
                        seq![Question { topic: Topic::Kept, words: seq![at], acts: seq![] }],
                    )
                    &&& a.reply(Topic::Kept, seq![at]) == Some(Reply::Kept(kept)) ==> {
                        &&& a.reply(Topic::Blobs, seq![under]) is None ==> end == Next::<()>::Ask(
                            seq![
                                Question { topic: Topic::Blobs, words: seq![under], acts: seq![] },
                            ],
                        )
                        &&& a.reply(Topic::Blobs, seq![under]) == Some(Reply::Blobs(names)) ==> {
                            let dead = dead_blobs(kept.deep_view(), names.deep_view());
                            &&& a.reply(Topic::Sweep, second) is None ==> end == Next::<()>::Ask(
                                seq![
                                    Question {
                                        topic: Topic::Sweep,
                                        words: second,
                                        acts: Seq::new(
                                            dead.len(),
                                            |i: int| Act::Remove(disk::joined(under, dead[i])),
                                        ),
                                    },
                                ],
                            )
                            &&& a.reply(Topic::Sweep, second) == Some(Reply::Swept) ==> end
                                == Next::Done(())
                        }
                    }
                }
            }
            &&& KEPT_MANIFESTS == 4
        }),
{
    let at = disk::joined(dir, "snaps"@);
    let under = disk::joined(dir, "blobs"@);
    let gone = expired(snaps.deep_view(), keep);
    let dead = dead_blobs(kept.deep_view(), names.deep_view());
    assert(removals(at, file_names(gone)) =~= Seq::new(
        gone.len(),
        |i: int| Act::Remove(disk::joined(at, gone[i].0)),
    ));
    assert(removals(under, dead) =~= Seq::new(
        dead.len(),
        |i: int| Act::Remove(disk::joined(under, dead[i])),
    ));
}

/// How a persist ends. One that failed names what it was at; one that went through is over once the
/// prune behind it is.
pub proof fn law_persist_ends_as_its_plan_did(
    dir: Seq<char>,
    digits: Seq<char>,
    m: ManifestView,
    blobs: Seq<(Seq<char>, Seq<u8>)>,
    fail: IoFail,
    a: Answers,
)
    requires
        text::all_hex(digits),
    ensures
        ({
            let id = "snap:"@ + digits;
            let p = PendingView { id, manifest: m, blobs };
            let n = 3 * blobs.len();
            let plan = a.reply(Topic::Disk, seq!["persist"@, dir, id]);
            &&& plan == Some(Reply::Disk(Err::<(), IoFail>(fail))) ==> persist_step(dir, p, a)
                == Next::<Result<(), Seq<char>>>::Done(
                Err(
                    if fail.at == 0 {
                        "creating the blob dir"@
                    } else if fail.at == 1 {
                        "creating the manifest dir"@
                    } else if fail.at < 2 + n {
                        "writing a baseline blob"@
                    } else if fail.at < 5 + n {
                        "writing the baseline manifest"@
                    } else {
                        "writing the baseline pointer"@
                    },
                ),
            )
            &&& plan == Some(Reply::Disk(Ok::<(), IoFail>(()))) ==> persist_step(dir, p, a) == (
            match prune_step(dir, id, digits + ".json"@, a) {
                Next::Ask(q) => Next::<Result<(), Seq<char>>>::Ask(q),
                Next::Done(_) => Next::Done(Ok(())),
            })
        }),
{
    reveal_strlit("snap:");
    let id = "snap:"@ + digits;
    assert("snap:"@ =~= id.take(5));
    assert(id.skip(5) =~= digits);
}

/// Of two times the later is the one with the more seconds, and of two with as many, the one with the
/// more nanoseconds.
pub proof fn law_later_times(a: Mtime, b: Mtime)
    ensures
        a.secs > b.secs ==> later(a, b),
        a.secs < b.secs ==> !later(a, b),
        a.secs == b.secs ==> (later(a, b) <==> a.nanos > b.nanos),
{
}

} // verus!
