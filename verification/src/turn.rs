//! The snapshot host of one Sapling worktree: it builds snapshots, holds the pending candidate, and
//! persists the baseline on promotion.

use std::sync::Arc;

use vstd::hash_map::StringHashMap;
use vstd::prelude::*;
use vstd::string::*;
use vstd::utf8::*;

use crate::answers::{
    self, Answers, Exit, Mtime, Next, Query, Question, Reply, Run, Stat, Step, Topic,
};
use crate::content;
use crate::disk::{self, Disk};
use crate::durable;
use crate::git::GitFail;
use crate::manifest::{self, Manifest, ManifestView};
use crate::model::{self, Entry, StatusEntry};
use crate::outside;
use crate::sl;
use crate::store::{self, Pending, PendingView, Places, Store};
use crate::text;

verus! {

broadcast use vstd::string::group_string_axioms;

// --- the stat gate ---------------------------------------------------------------------------

/// One stat-gated dirty file: its bytes are read again only when the stat moves.
#[derive(Debug)]
pub struct StatEntry {
    pub mtime: Mtime,
    pub len: u64,
    pub hash: String,
    pub bytes: Arc<Vec<u8>>,
}

/// The view of a `StatEntry`.
pub struct Gate {
    pub mtime: Mtime,
    pub len: u64,
    pub hash: Seq<char>,
    pub bytes: Seq<u8>,
}

impl DeepView for StatEntry {
    type V = Gate;

    open spec fn deep_view(&self) -> Gate {
        Gate { mtime: self.mtime, len: self.len, hash: self.hash@, bytes: (*self.bytes)@ }
    }
}

/// The stat gates, by path.
pub type Gates = Map<Seq<char>, Gate>;

pub open spec fn gates(m: Map<Seq<char>, StatEntry>) -> Gates {
    m.map_values(|e: StatEntry| e.deep_view())
}

/// The name of a content: the hex form of its digest.
pub open spec fn content_hash(bytes: Seq<u8>) -> Seq<char> {
    text::hex(outside::sha256(bytes))
}

/// Whether a stat is the one that a gate remembers.
pub open spec fn unmoved(gs: Gates, path: Seq<char>, stat: Stat) -> bool {
    stat.mtime is Some && gs.contains_key(path) && gs[path].mtime == stat.mtime->0 && gs[path].len
        == stat.len
}

/// A dirty file's content hash and bytes, through the stat gate, once known; an absent file has
/// none.
pub open spec fn hashed(gs: Gates, root: Seq<char>, path: Seq<char>, a: Answers) -> Option<
    Option<(Seq<char>, Seq<u8>)>,
> {
    let at = disk::joined(root, path);
    match a.stat_of(at) {
        None => None,
        Some(None) => Some(None),
        Some(Some(stat)) => if unmoved(gs, path, stat) {
            Some(Some((gs[path].hash, gs[path].bytes)))
        } else {
            match a.bytes_of(Topic::File, at) {
                None => None,
                Some(None) => Some(None),
                Some(Some(bytes)) => Some(Some((content_hash(bytes), bytes))),
            }
        },
    }
}

/// The question that a dirty file still needs answered: its stat, then its bytes where the stat
/// moved.
pub open spec fn ask_hashed(gs: Gates, root: Seq<char>, path: Seq<char>, a: Answers) -> Seq<
    Question,
> {
    let at = disk::joined(root, path);
    if a.stat_of(at) is None {
        answers::one(Topic::Stat, seq![at])
    } else if hashed(gs, root, path, a) is None {
        answers::one(Topic::File, seq![at])
    } else {
        seq![]
    }
}

/// The stat entry of a dirty file after a snapshot: of the bytes just read, where the file has a
/// modification time, else as it was.
pub open spec fn gate_after(gs: Gates, root: Seq<char>, path: Seq<char>, a: Answers) -> Option<
    Gate,
> {
    let at = disk::joined(root, path);
    let kept = if gs.contains_key(path) {
        Some(gs[path])
    } else {
        None
    };
    match (a.stat_of(at), a.bytes_of(Topic::File, at)) {
        (Some(Some(stat)), Some(Some(bytes))) => if stat.mtime is Some && !unmoved(gs, path, stat) {
            Some(
                Gate {
                    mtime: stat.mtime->0,
                    len: bytes.len() as u64,
                    hash: content_hash(bytes),
                    bytes,
                },
            )
        } else {
            kept
        },
        _ => kept,
    }
}

// --- snapshots ---------------------------------------------------------------------------------

/// The place of a hash among contents, or their number.
pub open spec fn blob_slot(blobs: Seq<(Seq<char>, Seq<u8>)>, hash: Seq<char>) -> nat
    decreases blobs.len(),
{
    if blobs.len() == 0 || blobs[0].0 == hash {
        0
    } else {
        1 + blob_slot(blobs.skip(1), hash)
    }
}

/// `blobs` with a content under its hash, in place of what stood there.
pub open spec fn with_blob(
    blobs: Seq<(Seq<char>, Seq<u8>)>,
    hash: Seq<char>,
    bytes: Seq<u8>,
) -> Seq<(Seq<char>, Seq<u8>)> {
    let k = blob_slot(blobs, hash) as int;
    if k < blobs.len() {
        blobs.update(k, (hash, bytes))
    } else {
        blobs.push((hash, bytes))
    }
}

/// What a snapshot is made from: the worktree, the gates, and the records of the status pass.
pub struct Shot {
    pub root: Seq<char>,
    pub gates: Gates,
    pub entries: Seq<Entry>,
}

impl Shot {
    /// The content of a record's file.
    pub open spec fn content(self, e: Entry, a: Answers) -> Option<(Seq<char>, Seq<u8>)> {
        hashed(self.gates, self.root, e.path, a)->0
    }

    /// The questions that the first `n` records still need answered.
    pub open spec fn asks(self, n: nat, a: Answers) -> Seq<Question>
        decreases n,
    {
        if n == 0 {
            seq![]
        } else {
            let done = self.asks((n - 1) as nat, a);
            let e = self.entries[n - 1];
            if model::entry_kind(e) is Some {
                done + ask_hashed(self.gates, self.root, e.path, a)
            } else {
                done
            }
        }
    }

    /// The files of the manifest, from the first `n` records.
    pub open spec fn files(self, n: nat, a: Answers) -> Seq<(Seq<char>, Option<Seq<char>>)>
        decreases n,
    {
        if n == 0 {
            seq![]
        } else {
            let done = self.files((n - 1) as nat, a);
            let e = self.entries[n - 1];
            if model::entry_kind(e) is Some {
                manifest::with_file(
                    done,
                    e.path,
                    match self.content(e, a) {
                        Some((hash, _)) => Some(hash),
                        None => None,
                    },
                )
            } else {
                done
            }
        }
    }

    /// The contents, from the first `n` records.
    pub open spec fn blobs(self, n: nat, a: Answers) -> Seq<(Seq<char>, Seq<u8>)>
        decreases n,
    {
        if n == 0 {
            seq![]
        } else {
            let done = self.blobs((n - 1) as nat, a);
            let e = self.entries[n - 1];
            match self.content(e, a) {
                Some((hash, bytes)) if model::entry_kind(e) is Some => with_blob(
                    done,
                    hash,
                    bytes,
                ),
                _ => done,
            }
        }
    }

    /// The gates after the snapshot, kept to the files of the manifest.
    pub open spec fn gates_after(self, n: nat, a: Answers) -> Gates {
        Map::new(
            |p: Seq<char>|
                manifest::recorded(self.files(n, a), p) is Some && gate_after(
                    self.gates,
                    self.root,
                    p,
                    a,
                ) is Some,
            |p: Seq<char>| gate_after(self.gates, self.root, p, a)->0,
        )
    }

    /// The snapshot over `parent`.
    pub open spec fn pending(self, parent: Seq<char>, a: Answers) -> PendingView {
        let n = self.entries.len();
        let m = ManifestView { parent, files: self.files(n, a) };
        PendingView { id: manifest::manifest_id(m), manifest: m, blobs: self.blobs(n, a) }
    }
}

/// The state of a snapshot host.
pub struct TurnState {
    pub root: Seq<char>,
    pub dir: Seq<char>,
    pub scratch: Option<PendingView>,
    pub candidate: Option<PendingView>,
    pub gates: Gates,
}

/// A snapshot and the state it leaves. The most recent snapshot is the scratch one; the candidate's
/// own digest seen again is no new snapshot, so that the pinned bytes stay.
pub open spec fn snapshot_step(s: TurnState, a: Answers) -> (
    Next<Result<Seq<char>, Seq<char>>>,
    TurnState,
) {
    match sl::parent_step(s.root, a) {
        Next::Ask(q) => (Next::Ask(q), s),
        Next::Done(None) => (Next::Done(Err("sl whereami gave no parent"@)), s),
        Next::Done(Some(parent)) => match sl::status_step(s.root, None, None, a) {
            Next::Ask(q) => (Next::Ask(q), s),
            Next::Done(Err(e)) => (Next::Done(Err(e)), s),
            Next::Done(Ok(entries)) => {
                let shot = Shot { root: s.root, gates: s.gates, entries };
                let n = entries.len();
                let asks = shot.asks(n, a);
                let p = shot.pending(parent, a);
                if asks.len() > 0 {
                    (Next::Ask(asks), s)
                } else {
                    (
                        Next::Done(Ok(p.id)),
                        TurnState {
                            gates: shot.gates_after(n, a),
                            scratch: if s.candidate is Some && s.candidate->0.id == p.id {
                                s.scratch
                            } else {
                                Some(p)
                            },
                            ..s
                        },
                    )
                }
            },
        },
    }
}

/// Pinning the snapshot `id`, where it is the most recent one.
pub open spec fn pinned(s: TurnState, id: Seq<char>) -> TurnState {
    if s.scratch is Some && s.scratch->0.id == id {
        TurnState { candidate: s.scratch, scratch: None, ..s }
    } else {
        s
    }
}

/// The pending snapshot `id`: the candidate, else the most recent one.
pub open spec fn pending_of(s: TurnState, id: Seq<char>) -> Option<PendingView> {
    if s.candidate is Some && s.candidate->0.id == id {
        s.candidate
    } else if s.scratch is Some && s.scratch->0.id == id {
        s.scratch
    } else {
        None
    }
}

/// The state without the pending snapshot `id`.
pub open spec fn consumed(s: TurnState, id: Seq<char>) -> TurnState {
    if s.candidate is Some && s.candidate->0.id == id {
        TurnState { candidate: None, ..s }
    } else {
        TurnState { scratch: None, ..s }
    }
}

/// Persisting the snapshot `id` and the state it leaves. The snapshot is given up only on success,
/// so that a failed persist can be tried again.
pub open spec fn promote_step(s: TurnState, id: Seq<char>, a: Answers) -> (
    Next<Result<(), Seq<char>>>,
    TurnState,
) {
    match pending_of(s, id) {
        None => (Next::Done(Err("no pending snapshot matches the promoted baseline"@)), s),
        Some(p) => match store::persist_step(s.dir, p, a) {
            Next::Done(Ok(())) => (Next::Done(Ok(())), consumed(s, id)),
            next => (next, s),
        },
    }
}

proof fn lemma_blob_slot_is(blobs: Seq<(Seq<char>, Seq<u8>)>, hash: Seq<char>, k: int)
    requires
        0 <= k <= blobs.len(),
        forall|i: int| 0 <= i < k ==> (#[trigger] blobs[i]).0 != hash,
        k < blobs.len() ==> blobs[k].0 == hash,
    ensures
        blob_slot(blobs, hash) == k,
    decreases blobs.len(),
{
    if k > 0 {
        assert(blobs[0].0 != hash);
        assert forall|i: int| 0 <= i < k - 1 implies (#[trigger] blobs.skip(1)[i]).0 != hash by {
            assert(blobs.skip(1)[i] == blobs[i + 1]);
        }
        lemma_blob_slot_is(blobs.skip(1), hash, k - 1);
    }
}

/// Put a content under its hash.
fn put_blob(blobs: &mut Vec<(String, Arc<Vec<u8>>)>, hash: String, bytes: Arc<Vec<u8>>)
    ensures
        store::blobs_view(final(blobs)@) == with_blob(
            store::blobs_view(old(blobs)@),
            hash@,
            (*bytes)@,
        ),
{
    let ghost before = store::blobs_view(blobs@);
    let ghost entry = (hash@, (*bytes)@);
    let mut k: usize = 0;
    while k < blobs.len() && !text::same(blobs[k].0.as_str(), hash.as_str())
        invariant
            k <= blobs.len(),
            *blobs == *old(blobs),
            before == store::blobs_view(blobs@),
            forall|i: int| 0 <= i < k ==> (#[trigger] before[i]).0 != hash@,
        decreases blobs.len() - k,
    {
        assert(before[k as int].0 == blobs@[k as int].0@);
        k = k + 1;
    }
    proof {
        if k < before.len() {
            assert(before[k as int].0 == blobs@[k as int].0@);
        }
        lemma_blob_slot_is(before, hash@, k as int);
    }
    if k < blobs.len() {
        blobs.set(k, (hash, bytes));
        assert(store::blobs_view(blobs@) =~= before.update(k as int, entry));
    } else {
        blobs.push((hash, bytes));
        assert(store::blobs_view(blobs@) =~= before.push(entry));
    }
}

/// The worker-side snapshot host for one Sapling worktree.
pub struct TurnStore {
    store: Store,
    root: String,
    /// The most recent snapshot, the divergence check's "now" side, overwritten per poll.
    scratch: Option<Pending>,
    /// The pinned turn-start snapshot awaiting promotion.
    candidate: Option<Pending>,
    /// The per-path stat gate, kept to the current dirty set.
    stats: StringHashMap<StatEntry>,
}

/// The view of a content that was found.
spec fn found(r: Option<(String, Arc<Vec<u8>>)>) -> Option<(Seq<char>, Seq<u8>)> {
    match r {
        Some((hash, bytes)) => Some((hash@, (*bytes)@)),
        None => None,
    }
}

impl TurnStore {
    /// The state of the host.
    pub closed spec fn state(self) -> TurnState {
        TurnState {
            root: self.root@,
            dir: self.store.place(),
            scratch: self.scratch.deep_view(),
            candidate: self.candidate.deep_view(),
            gates: gates(self.stats@),
        }
    }

    /// The host for `root`, over its store.
    pub fn open(root: String, places: &Places) -> (t: TurnStore)
        ensures
            t.state() == (TurnState {
                root: root@,
                dir: store::store_dir(places.base(), root@),
                scratch: None,
                candidate: None,
                gates: Map::empty(),
            }),
    {
        let store = Store::open(root.as_str(), places);
        TurnStore::with_store(store, root)
    }

    /// A host over an explicit store.
    pub fn with_store(store: Store, root: String) -> (t: TurnStore)
        ensures
            t.state() == (TurnState {
                root: root@,
                dir: store.place(),
                scratch: None,
                candidate: None,
                gates: Map::empty(),
            }),
    {
        let t = TurnStore {
            store,
            root,
            scratch: None,
            candidate: None,
            stats: StringHashMap::new(),
        };
        assert(gates(t.stats@) =~= Map::empty());
        t
    }

    /// The persisted turn baseline id.
    pub fn read_baseline(&self, answers: &Answers) -> (r: Step<Option<String>>)
        ensures
            r.deep_view() == store::baseline_step(self.state().dir, *answers),
    {
        self.store.read_baseline(answers)
    }

    /// Whether the stat gate remembers this stat.
    fn gate_hit(&self, path: &str, stat: Stat) -> (r: Option<&StatEntry>)
        ensures
            match r {
                Some(hit) => unmoved(self.state().gates, path@, stat)
                    && self.state().gates[path@] == hit.deep_view(),
                None => !unmoved(self.state().gates, path@, stat),
            },
    {
        match (stat.mtime, self.stats.get(path)) {
            (Some(mtime), Some(hit)) => {
                if hit.mtime == mtime && hit.len == stat.len {
                    Some(hit)
                } else {
                    None
                }
            },
            _ => None,
        }
    }

    /// Add the question that a dirty file still needs answered.
    fn ask_content(&self, path: &str, answers: &Answers, qs: &mut Vec<Query>)
        ensures
            final(qs).deep_view() == old(qs).deep_view() + ask_hashed(
                self.state().gates,
                self.state().root,
                path@,
                *answers,
            ),
    {
        let ghost before = qs.deep_view();
        let at = disk::join(self.root.as_str(), path);
        match answers.stat(at.as_str()) {
            None => {
                qs.push(answers::query(Topic::Stat, answers::words1(at.as_str())));
            },
            Some(None) => {},
            Some(Some(stat)) => {
                if self.gate_hit(path, stat).is_none() && answers.bytes(
                    Topic::File,
                    at.as_str(),
                ).is_none() {
                    qs.push(answers::query(Topic::File, answers::words1(at.as_str())));
                }
            },
        }
        assert(qs.deep_view() =~= before + ask_hashed(
            self.state().gates,
            self.state().root,
            path@,
            *answers,
        ));
    }

    /// One dirty file's content hash and bytes, through the stat gate; none when the file is
    /// absent. `next` gets the file's stat entry.
    fn hashed_content(&self, path: &str, answers: &Answers, next: &mut StringHashMap<StatEntry>) -> (r:
        Option<(String, Arc<Vec<u8>>)>)
        requires
            hashed(self.state().gates, self.state().root, path@, *answers) is Some,
        ensures
            found(r) == hashed(self.state().gates, self.state().root, path@, *answers)->0,
            gates(final(next)@) == (match gate_after(
                self.state().gates,
                self.state().root,
                path@,
                *answers,
            ) {
                Some(gate) => gates(old(next)@).insert(path@, gate),
                None => gates(old(next)@),
            }),
    {
        let at = disk::join(self.root.as_str(), path);
        let stat = match answers.stat(at.as_str()) {
            Some(Some(stat)) => stat,
            _ => {
                self.keep_gate(path, next);
                return None;
            },
        };
        if let Some(hit) = self.gate_hit(path, stat) {
            let r = (hit.hash.clone(), outside::share(&hit.bytes));
            self.keep_gate(path, next);
            return Some(r);
        }
        let read = match answers.bytes(Topic::File, at.as_str()) {
            Some(Some(bytes)) => vstd::slice::slice_to_vec(bytes.as_slice()),
            _ => {
                self.keep_gate(path, next);
                return None;
            },
        };
        let digest = outside::sha256_digest(read.as_slice());
        let hash = text::hex_text(digest.as_slice());
        let len: u64 = read.len() as u64;
        let bytes = Arc::new(read);
        match stat.mtime {
            Some(mtime) => {
                let entry = StatEntry {
                    mtime,
                    len,
                    hash: hash.clone(),
                    bytes: outside::share(&bytes),
                };
                let ghost gate = entry.deep_view();
                let ghost before = next@;
                next.insert(path.to_owned(), entry);
                assert(gates(next@) =~= gates(before).insert(path@, gate));
            },
            None => {
                self.keep_gate(path, next);
            },
        }
        Some((hash, bytes))
    }

    /// Keep the stat entry of a file as it was.
    fn keep_gate(&self, path: &str, next: &mut StringHashMap<StatEntry>)
        ensures
            gates(final(next)@) == (if self.state().gates.contains_key(path@) {
                gates(old(next)@).insert(path@, self.state().gates[path@])
            } else {
                gates(old(next)@)
            }),
    {
        if let Some(e) = self.stats.get(path) {
            let kept = StatEntry {
                mtime: e.mtime,
                len: e.len,
                hash: e.hash.clone(),
                bytes: outside::share(&e.bytes),
            };
            let ghost gate = kept.deep_view();
            let ghost before = next@;
            next.insert(path.to_owned(), kept);
            assert(gate == e.deep_view());
            assert(gates(next@) =~= gates(before).insert(path@, gate));
        }
    }

    /// The questions that a snapshot still needs answered.
    fn missing(&self, entries: &Vec<StatusEntry>, answers: &Answers) -> (qs: Vec<Query>)
        ensures
            qs.deep_view() == (Shot {
                root: self.state().root,
                gates: self.state().gates,
                entries: entries.deep_view(),
            }).asks(entries@.len(), *answers),
    {
        let ghost shot = Shot {
            root: self.state().root,
            gates: self.state().gates,
            entries: entries.deep_view(),
        };
        let mut qs: Vec<Query> = Vec::new();
        assert(qs.deep_view() =~= seq![]);
        let mut i: usize = 0;
        while i < entries.len()
            invariant
                shot == (Shot {
                    root: self.state().root,
                    gates: self.state().gates,
                    entries: entries.deep_view(),
                }),
                i <= entries.len(),
                qs.deep_view() == shot.asks(i as nat, *answers),
            decreases entries.len() - i,
        {
            assert(shot.entries[i as int] == entries@[i as int].deep_view());
            if model::kind_of(&entries[i]).is_some() {
                self.ask_content(entries[i].path.as_str(), answers, &mut qs);
            }
            i = i + 1;
        }
        qs
    }

    /// Snapshot the worktree: the parent pin plus every dirty file's content, digested to an id. A
    /// file the status listed but the read misses just went away: it is recorded absent, exactly as
    /// a removed one. O(dirty files), and a stat-unchanged file skips its read and hash.
    pub fn snapshot(&mut self, answers: &Answers) -> (r: Step<Result<String, GitFail>>)
        ensures
            (answers::tried(r), final(self).state()) == snapshot_step(old(self).state(), *answers),
            r matches Step::Done(Ok(id)) ==> manifest::well_formed_id(id@) && store::snap_name(
                id@,
            ) is Some,
    {
        let parent = match sl::parent_rev(self.root.as_str(), answers) {
            Step::Ask(q) => {
                return Step::Ask(q);
            },
            Step::Done(None) => {
                return Step::Done(Err(GitFail("sl whereami gave no parent".to_owned())));
            },
            Step::Done(Some(parent)) => parent,
        };
        let entries = match sl::status_entries(self.root.as_str(), None, None, answers) {
            Step::Ask(q) => {
                return Step::Ask(q);
            },
            Step::Done(Err(e)) => {
                return Step::Done(Err(e));
            },
            Step::Done(Ok(entries)) => entries,
        };
        let qs = self.missing(entries, answers);
        if qs.len() > 0 {
            return Step::Ask(qs);
        }
        let ghost a = *answers;
        let ghost shot = Shot {
            root: self.state().root,
            gates: self.state().gates,
            entries: entries.deep_view(),
        };
        let mut m = Manifest::new(parent.as_str());
        let mut blobs: Vec<(String, Arc<Vec<u8>>)> = Vec::new();
        let mut next: StringHashMap<StatEntry> = StringHashMap::new();
        assert(store::blobs_view(blobs@) =~= seq![]);
        assert(gates(next@) =~= shot.gates_after(0, a));
        let mut i: usize = 0;
        while i < entries.len()
            invariant
                a == *answers,
                *self == *old(self),
                shot == (Shot {
                    root: self.state().root,
                    gates: self.state().gates,
                    entries: entries.deep_view(),
                }),
                shot.asks(entries@.len(), a).len() == 0,
                i <= entries.len(),
                m.deep_view() == (ManifestView { parent: parent@, files: shot.files(i as nat, a) }),
                manifest::ascending(m.deep_view().files),
                store::blobs_view(blobs@) == shot.blobs(i as nat, a),
                gates(next@) == shot.gates_after(i as nat, a),
            decreases entries.len() - i,
        {
            let e = &entries[i];
            assert(shot.entries[i as int] == e.deep_view());
            let ghost view = e.deep_view();
            let ghost files = shot.files(i as nat, a);
            if model::kind_of(e).is_some() {
                proof {
                    lemma_asks(shot, entries@.len(), i as int, a);
                }
                let ghost before = gates(next@);
                let content = self.hashed_content(e.path.as_str(), answers, &mut next);
                let hash = match content {
                    Some((hash, bytes)) => {
                        put_blob(&mut blobs, hash.clone(), bytes);
                        Some(hash)
                    },
                    None => None,
                };
                proof {
                    manifest::lemma_with_file_ascending(files, view.path, hash.deep_view());
                    assert forall|p: Seq<char>| manifest::recorded(
                        manifest::with_file(files, view.path, hash.deep_view()),
                        p,
                    ) is Some <==> p == view.path || manifest::recorded(files, p) is Some by {
                        manifest::law_recorded_reads_back(files, view.path, hash.deep_view(), p);
                    }
                    assert(shot.files((i + 1) as nat, a) == manifest::with_file(
                        files,
                        view.path,
                        hash.deep_view(),
                    ));
                    let now = shot.gates_after((i + 1) as nat, a);
                    assert forall|p: Seq<char>| #[trigger] gates(next@).contains_key(p)
                        == now.contains_key(p) by {
                        assert(manifest::recorded(shot.files((i + 1) as nat, a), p) is Some <==> p
                            == view.path || manifest::recorded(files, p) is Some);
                        assert(before.contains_key(p) <==> manifest::recorded(files, p) is Some
                            && gate_after(shot.gates, shot.root, p, a) is Some);
                    }
                    assert(gates(next@) =~= now);
                }
                m.record(e.path.clone(), hash);
            } else {
                assert(gates(next@) =~= shot.gates_after((i + 1) as nat, a));
            }
            i = i + 1;
        }
        let id = m.id();
        let collapsed = match &self.candidate {
            Some(c) => text::same(c.id.as_str(), id.as_str()),
            None => false,
        };
        self.stats = next;
        if !collapsed {
            self.scratch = Some(Pending { id: id.clone(), manifest: m, blobs });
        }
        Step::Done(Ok(id))
    }

    /// Pin the just-built snapshot as the turn-start candidate, so that later polls' scratch
    /// snapshots cannot evict its bytes before promotion.
    pub fn pin_candidate(&mut self, id: &str)
        ensures
            final(self).state() == pinned(old(self).state(), id@),
    {
        let matches = match &self.scratch {
            Some(p) => text::same(p.id.as_str(), id),
            None => false,
        };
        if matches {
            self.candidate = self.scratch.take();
        }
    }

    /// Persist `id` as the live baseline. The bytes come from the pinned candidate, or from the
    /// scratch slot when the two collapsed; an id from neither is a baseline this process never
    /// built. The slot is given up only on success, so that a failed persist keeps the bytes for
    /// the next poll's retry.
    pub fn persist_baseline(&mut self, id: &str, answers: &Answers) -> (r: Step<
        Result<(), GitFail>,
    >)
        ensures
            (answers::tried(r), final(self).state()) == promote_step(
                old(self).state(),
                id@,
                *answers,
            ),
    {
        let from_candidate = match &self.candidate {
            Some(c) => text::same(c.id.as_str(), id),
            None => false,
        };
        let pending = if from_candidate {
            &self.candidate
        } else {
            &self.scratch
        };
        let step = match pending {
            Some(p) => {
                if text::same(p.id.as_str(), id) {
                    self.store.persist(p, answers)
                } else {
                    return Step::Done(
                        Err(
                            GitFail(
                                "no pending snapshot matches the promoted baseline".to_owned(),
                            ),
                        ),
                    );
                }
            },
            None => {
                return Step::Done(
                    Err(GitFail("no pending snapshot matches the promoted baseline".to_owned())),
                );
            },
        };
        match step {
            Step::Done(Ok(())) => {
                if from_candidate {
                    self.candidate = None;
                } else {
                    self.scratch = None;
                }
                Step::Done(Ok(()))
            },
            other => other,
        }
    }
}

/// Where no record needs an answer, none of them does.
proof fn lemma_asks(shot: Shot, n: nat, i: int, a: Answers)
    requires
        shot.asks(n, a).len() == 0,
        0 <= i < n <= shot.entries.len(),
        model::entry_kind(shot.entries[i]) is Some,
    ensures
        hashed(shot.gates, shot.root, shot.entries[i].path, a) is Some,
    decreases n,
{
    if i < n - 1 {
        lemma_asks(shot, (n - 1) as nat, i, a);
    }
}

// --- what a host keeps ---------------------------------------------------------------------------

/// Whether every stat entry holds its content under the content's own hash.
pub open spec fn gates_sound(gs: Gates) -> bool {
    forall|p: Seq<char>|
        gs.contains_key(p) ==> (#[trigger] gs[p]).hash == content_hash(gs[p].bytes)
}

/// Whether a content stands under `hash`.
pub open spec fn has_blob(blobs: Seq<(Seq<char>, Seq<u8>)>, hash: Seq<char>) -> bool {
    exists|i: int| 0 <= i < blobs.len() && (#[trigger] blobs[i]).0 == hash
}

/// Whether contents stand each under its own hash, one under each.
pub open spec fn blobs_sound(blobs: Seq<(Seq<char>, Seq<u8>)>) -> bool {
    &&& durable::one_each(blobs)
    &&& forall|i: int|
        0 <= i < blobs.len() ==> (#[trigger] blobs[i]).0 == content_hash(blobs[i].1)
}

/// Whether a pending snapshot is what its id says: the id is its manifest's, and it holds the
/// contents that the manifest refers to, each under its own hash, and no others.
pub open spec fn pending_sound(p: PendingView) -> bool {
    &&& p.id == manifest::manifest_id(p.manifest)
    &&& manifest::ascending(p.manifest.files)
    &&& blobs_sound(p.blobs)
    &&& forall|hash: Seq<char>| #[trigger]
        store::refers(p.manifest, hash) <==> has_blob(p.blobs, hash)
}

/// Whether a host's state is sound: its stat entries and its pending snapshots are, and no snapshot
/// is pending twice.
pub open spec fn state_sound(s: TurnState) -> bool {
    &&& gates_sound(s.gates)
    &&& s.scratch is Some ==> pending_sound(s.scratch->0)
    &&& s.candidate is Some ==> pending_sound(s.candidate->0)
    &&& s.scratch is Some && s.candidate is Some ==> s.scratch->0.id != s.candidate->0.id
}

proof fn lemma_blob_slot(blobs: Seq<(Seq<char>, Seq<u8>)>, hash: Seq<char>)
    ensures
        blob_slot(blobs, hash) <= blobs.len(),
        forall|i: int| 0 <= i < blob_slot(blobs, hash) ==> (#[trigger] blobs[i]).0 != hash,
        blob_slot(blobs, hash) < blobs.len() ==> blobs[blob_slot(blobs, hash) as int].0 == hash,
    decreases blobs.len(),
{
    if blobs.len() > 0 && blobs[0].0 != hash {
        lemma_blob_slot(blobs.skip(1), hash);
        assert forall|i: int| 0 <= i < blob_slot(blobs, hash) implies (#[trigger] blobs[i]).0
            != hash by {
            if i > 0 {
                assert(blobs[i] == blobs.skip(1)[i - 1]);
            }
        }
    }
}

proof fn lemma_with_blob(blobs: Seq<(Seq<char>, Seq<u8>)>, hash: Seq<char>, bytes: Seq<u8>)
    requires
        blobs_sound(blobs),
        hash == content_hash(bytes),
    ensures
        blobs_sound(with_blob(blobs, hash, bytes)),
        forall|h: Seq<char>| #[trigger]
            has_blob(with_blob(blobs, hash, bytes), h) <==> h == hash || has_blob(blobs, h),
{
    let out = with_blob(blobs, hash, bytes);
    let k = blob_slot(blobs, hash) as int;
    lemma_blob_slot(blobs, hash);
    assert(out[k] == (hash, bytes));
    assert forall|h: Seq<char>| #[trigger] has_blob(out, h) <==> h == hash || has_blob(blobs, h) by {
        if has_blob(blobs, h) && h != hash {
            let i = choose|i: int| 0 <= i < blobs.len() && (#[trigger] blobs[i]).0 == h;
            assert(out[i] == blobs[i]);
        }
        if has_blob(out, h) && h != hash {
            let i = choose|i: int| 0 <= i < out.len() && (#[trigger] out[i]).0 == h;
            assert(blobs[i] == out[i]);
        }
    }
    assert forall|i: int, j: int| 0 <= i < j < out.len() implies #[trigger] out[i].0
        != #[trigger] out[j].0 by {
        if i != k {
            assert(out[i] == blobs[i]);
        }
        if j != k {
            assert(out[j] == blobs[j]);
        }
    }
}

/// What a snapshot records of the first `n` records: of each path the hash of its content, and the
/// contents that it refers to.
proof fn lemma_shot(shot: Shot, n: nat, a: Answers)
    requires
        gates_sound(shot.gates),
        n <= shot.entries.len(),
        shot.asks(n, a).len() == 0,
    ensures
        manifest::ascending(shot.files(n, a)),
        blobs_sound(shot.blobs(n, a)),
        forall|p: Seq<char>|
            (#[trigger] manifest::recorded(shot.files(n, a), p)) is Some ==> manifest::recorded(
                shot.files(n, a),
                p,
            ) == Some(path_hash(shot, p, a)),
        forall|h: Seq<char>| #[trigger]
            has_blob(shot.blobs(n, a), h) <==> recorded_hash(shot.files(n, a), h),
    decreases n,
{
    if n > 0 {
        let m = (n - 1) as nat;
        let e = shot.entries[n - 1];
        let before = shot.files(m, a);
        let after = shot.files(n, a);
        let blobs = shot.blobs(m, a);
        lemma_shot(shot, m, a);
        if model::entry_kind(e) is Some {
            let hash = path_hash(shot, e.path, a);
            assert(after == manifest::with_file(before, e.path, hash));
            manifest::lemma_with_file_ascending(before, e.path, hash);
            assert forall|p: Seq<char>|
                (#[trigger] manifest::recorded(after, p)) is Some implies manifest::recorded(after, p)
                == Some(path_hash(shot, p, a)) by {
                manifest::law_recorded_reads_back(before, e.path, hash, p);
            }
            match shot.content(e, a) {
                Some((h, bytes)) => {
                    assert(h == content_hash(bytes)) by {
                        lemma_asks(shot, n, n - 1, a);
                        lemma_content(shot, e, a);
                    }
                    lemma_with_blob(blobs, h, bytes);
                },
                None => {},
            }
            assert forall|h: Seq<char>| #[trigger]
                has_blob(shot.blobs(n, a), h) <==> recorded_hash(after, h) by {
                lemma_recorded_hash(shot, before, e.path, h, a);
                assert(has_blob(blobs, h) <==> recorded_hash(before, h));
            }
        }
    } else {
        assert forall|h: Seq<char>| !(#[trigger] recorded_hash(shot.files(n, a), h)) by {
            let files = shot.files(n, a);
            assert forall|p: Seq<char>| manifest::recorded(files, p) is None by {}
        }
    }
}

/// What a content is: the one just read, or the one that the stat entry holds.
proof fn lemma_content(shot: Shot, e: Entry, a: Answers)
    requires
        gates_sound(shot.gates),
        hashed(shot.gates, shot.root, e.path, a) is Some,
    ensures
        shot.content(e, a) matches Some((h, bytes)) ==> h == content_hash(bytes),
{
}

/// The hash that a snapshot records of a path.
spec fn path_hash(shot: Shot, p: Seq<char>, a: Answers) -> Option<Seq<char>> {
    match hashed(shot.gates, shot.root, p, a)->0 {
        Some((hash, _)) => Some(hash),
        None => None,
    }
}

/// Whether any path is recorded with `hash`.
spec fn recorded_hash(files: Seq<(Seq<char>, Option<Seq<char>>)>, hash: Seq<char>) -> bool {
    exists|p: Seq<char>| #[trigger] manifest::recorded(files, p) == Some(Some(hash))
}

proof fn lemma_recorded_hash(
    shot: Shot,
    before: Seq<(Seq<char>, Option<Seq<char>>)>,
    path: Seq<char>,
    h: Seq<char>,
    a: Answers,
)
    requires
        manifest::ascending(before),
        forall|p: Seq<char>|
            (#[trigger] manifest::recorded(before, p)) is Some ==> manifest::recorded(before, p)
                == Some(path_hash(shot, p, a)),
    ensures
        recorded_hash(manifest::with_file(before, path, path_hash(shot, path, a)), h)
            <==> recorded_hash(before, h) || path_hash(shot, path, a) == Some(h),
{
    let hash = path_hash(shot, path, a);
    let after = manifest::with_file(before, path, hash);
    if recorded_hash(after, h) {
        let p = choose|p: Seq<char>| #[trigger] manifest::recorded(after, p) == Some(Some(h));
        manifest::law_recorded_reads_back(before, path, hash, p);
        assert(p == path || manifest::recorded(before, p) == Some(Some(h)));
    }
    if recorded_hash(before, h) {
        let p = choose|p: Seq<char>| #[trigger] manifest::recorded(before, p) == Some(Some(h));
        manifest::law_recorded_reads_back(before, path, hash, p);
        assert(manifest::recorded(after, p) == Some(Some(h)));
    }
    manifest::law_recorded_reads_back(before, path, hash, path);
    assert(manifest::recorded(after, path) == Some(hash));
}

proof fn lemma_refers(files: Seq<(Seq<char>, Option<Seq<char>>)>, parent: Seq<char>, h: Seq<char>)
    requires
        manifest::ascending(files),
    ensures
        store::refers(ManifestView { parent, files }, h) <==> recorded_hash(files, h),
{
    let m = ManifestView { parent, files };
    if store::refers(m, h) {
        let i = choose|i: int| 0 <= i < m.files.len() && (#[trigger] m.files[i]).1 == Some(h);
        manifest::lemma_recorded_at(files, i);
        assert(manifest::recorded(files, files[i].0) == Some(Some(h)));
    }
    if recorded_hash(files, h) {
        let p = choose|p: Seq<char>| #[trigger] manifest::recorded(files, p) == Some(Some(h));
        manifest::lemma_recorded(files, p);
    }
}

/// Every operation of a host keeps its state sound: a snapshot, a pin and a promotion. The state
/// that a host opens with is sound.
pub proof fn law_host_stays_sound(s: TurnState, id: Seq<char>, a: Answers)
    requires
        state_sound(s),
    ensures
        state_sound(snapshot_step(s, a).1),
        state_sound(pinned(s, id)),
        state_sound(promote_step(s, id, a).1),
        state_sound(TurnState { scratch: None, candidate: None, gates: Map::empty(), ..s }),
{
    if let Next::Done(Some(parent)) = sl::parent_step(s.root, a) {
        if let Next::Done(Ok(entries)) = sl::status_step(s.root, None, None, a) {
            let shot = Shot { root: s.root, gates: s.gates, entries };
            let n = entries.len();
            if shot.asks(n, a).len() == 0 {
                lemma_shot(shot, n, a);
                let p = shot.pending(parent, a);
                assert forall|h: Seq<char>| #[trigger]
                    store::refers(p.manifest, h) <==> has_blob(p.blobs, h) by {
                    lemma_refers(p.manifest.files, parent, h);
                    assert(has_blob(shot.blobs(n, a), h) <==> recorded_hash(shot.files(n, a), h));
                }
                assert(pending_sound(p));
                let after = shot.gates_after(n, a);
                assert forall|q: Seq<char>| after.contains_key(q) implies (#[trigger] after[q]).hash
                    == content_hash(after[q].bytes) by {
                    if s.gates.contains_key(q) {
                        assert(s.gates[q].hash == content_hash(s.gates[q].bytes));
                    }
                }
            }
        }
    }
}

/// A sound pending snapshot can be persisted, and it holds exactly the contents that its manifest
/// refers to.
pub proof fn law_sound_snapshot_is_persistable(p: PendingView)
    requires
        pending_sound(p),
    ensures
        durable::persistable(p),
        forall|i: int| 0 <= i < p.blobs.len() ==> store::refers(p.manifest, #[trigger] p.blobs[i].0),
{
    manifest::law_id_is_the_digest_of_the_canonical_text(p.manifest, p.manifest);
    assert forall|i: int| 0 <= i < p.blobs.len() implies text::all_hex(#[trigger] p.blobs[i].0)
        && store::refers(p.manifest, p.blobs[i].0) by {
        text::lemma_hex(outside::sha256(p.blobs[i].1), outside::sha256(p.blobs[i].1));
        assert(has_blob(p.blobs, p.blobs[i].0));
        assert(store::refers(p.manifest, p.blobs[i].0));
    }
}

/// A pinned snapshot keeps its bytes until it is promoted: later snapshots leave it as it is, and
/// the promotion of its id persists it. The candidate's own digest seen again is no new snapshot.
pub proof fn law_candidate_outlives_later_snapshots(s: TurnState, id: Seq<char>, a: Answers)
    requires
        s.scratch is Some,
        s.scratch->0.id == id,
    ensures
        ({
            let held = pinned(s, id);
            let later = snapshot_step(held, a).1;
            &&& held.candidate == s.scratch
            &&& later.candidate == s.scratch
            &&& pending_of(later, id) == s.scratch
            &&& snapshot_step(held, a).0 == Next::<Result<Seq<char>, Seq<char>>>::Done(Ok(id))
                ==> later.scratch == held.scratch
        }),
{
}

/// A persist that did not succeed keeps the state, so that it can be tried again; one that did gives
/// up the snapshot it persisted and no other.
pub proof fn law_failed_persist_keeps_the_snapshot(s: TurnState, id: Seq<char>, a: Answers)
    ensures
        promote_step(s, id, a).0 != Next::<Result<(), Seq<char>>>::Done(Ok(())) ==> promote_step(
            s,
            id,
            a,
        ).1 == s,
        promote_step(s, id, a).0 == Next::<Result<(), Seq<char>>>::Done(Ok(())) ==> {
            let after = promote_step(s, id, a).1;
            &&& after.gates == s.gates
            &&& s.candidate is Some && s.candidate->0.id == id ==> after.candidate is None
                && after.scratch == s.scratch
            &&& !(s.candidate is Some && s.candidate->0.id == id) ==> after.scratch is None
                && after.candidate == s.candidate
        },
{
}

/// A snapshot is persisted once: a promotion that succeeded leaves none pending under its id, so that
/// promoting it again is an error.
pub proof fn law_second_persist_is_an_error(s: TurnState, id: Seq<char>, a: Answers, b: Answers)
    requires
        state_sound(s),
        promote_step(s, id, a).0 == Next::<Result<(), Seq<char>>>::Done(Ok(())),
    ensures
        pending_of(promote_step(s, id, a).1, id) is None,
        promote_step(promote_step(s, id, a).1, id, b).0 == Next::<Result<(), Seq<char>>>::Done(
            Err("no pending snapshot matches the promoted baseline"@),
        ),
{
}

/// The stat gate changes no answer: where an unmoved stat means an unchanged content, a file hashes
/// as it would without it.
pub proof fn law_stat_gate_changes_no_answer(gs: Gates, root: Seq<char>, path: Seq<char>, a: Answers)
    requires
        gates_sound(gs),
        forall|stat: Stat|
            #[trigger] unmoved(gs, path, stat) && a.stat_of(disk::joined(root, path)) == Some(
                Some(stat),
            ) ==> a.bytes_of(Topic::File, disk::joined(root, path)) == Some(Some(gs[path].bytes)),
    ensures
        hashed(Map::empty(), root, path, a) is Some ==> hashed(gs, root, path, a) == hashed(
            Map::empty(),
            root,
            path,
            a,
        ),
{
    let at = disk::joined(root, path);
    if let Some(Some(stat)) = a.stat_of(at) {
        assert(!unmoved(Map::empty(), path, stat));
        if unmoved(gs, path, stat) {
            assert(gs[path].hash == content_hash(gs[path].bytes));
        }
    }
}

/// A promoted baseline reads back, once its plan ran to its end: it is the live baseline, and every
/// file that was dirty at the snapshot reads as it was then.
pub proof fn law_promoted_baseline_reads_back(
    s: TurnState,
    id: Seq<char>,
    files: Disk,
    a: Answers,
)
    requires
        state_sound(s),
        pending_of(s, id) is Some,
        durable::addressed(files, s.dir, pending_of(s, id)->0),
        durable::read_off(
            a,
            disk::after_acts(files, store::persist_acts(s.dir, pending_of(s, id)->0)),
        ),
    ensures
        durable::ends_in(store::baseline_step(s.dir, a), Some(id)),
        durable::ends_in(
            store::load_step(s.dir, id, a),
            Some((pending_of(s, id)->0).manifest),
        ),
        forall|i: int, path: Seq<char>|
            0 <= i < (pending_of(s, id)->0).blobs.len() && manifest::recorded(
                (pending_of(s, id)->0).manifest.files,
                path,
            ) == Some(Some(#[trigger] (pending_of(s, id)->0).blobs[i].0)) ==> durable::ends_in(
                #[trigger] content::file_step(s.root, s.dir, id, path, a),
                content::text_of(Some((pending_of(s, id)->0).blobs[i].1)),
            ),
{
    let p = pending_of(s, id)->0;
    let acts = store::persist_acts(s.dir, p);
    law_sound_snapshot_is_persistable(p);
    durable::law_persist_survives_a_crash(files, s.dir, p, acts.len() as int);
    assert(acts.take(acts.len() as int) =~= acts);
    durable::law_persisted_baseline_reads_back(
        disk::after_acts(files, acts),
        s.root,
        s.dir,
        p,
        a,
    );
}

// --- what an id says of a worktree ---------------------------------------------------------------

/// A worktree: the content of each path, where a file stands there.
pub type Tree = spec_fn(Seq<char>) -> Option<Seq<u8>>;

/// Whether the answers and the stat entries tell what the worktree holds: a file that is read reads
/// as it stands, and a file whose stat did not move has the content that its stat entry holds.
pub open spec fn tells(gs: Gates, root: Seq<char>, tree: Tree, a: Answers) -> bool {
    forall|path: Seq<char>|
        {
            let at = #[trigger] disk::joined(root, path);
            match a.stat_of(at) {
                None => true,
                Some(None) => tree(path) is None,
                Some(Some(stat)) => if unmoved(gs, path, stat) {
                    tree(path) == Some(gs[path].bytes)
                } else {
                    a.bytes_of(Topic::File, at) matches Some(bytes) ==> tree(path) == bytes
                },
            }
        }
}

/// Whether a status pass lists `path` as dirty.
pub open spec fn dirty(entries: Seq<Entry>, path: Seq<char>) -> bool {
    exists|i: int|
        0 <= i < entries.len() && (#[trigger] entries[i]).path == path && model::entry_kind(
            entries[i],
        ) is Some
}

/// Whether the digest tells two byte strings apart.
pub open spec fn told_apart(x: Seq<u8>, y: Seq<u8>) -> bool {
    outside::sha256(x) == outside::sha256(y) ==> x == y
}

/// The hash of a path's content in a worktree.
spec fn tree_hash(tree: Tree, path: Seq<char>) -> Option<Seq<char>> {
    match tree(path) {
        Some(bytes) => Some(content_hash(bytes)),
        None => None,
    }
}

/// What a snapshot records of the first `n` records is what the worktree holds at the dirty paths.
proof fn lemma_shot_records(shot: Shot, tree: Tree, n: nat, a: Answers)
    requires
        gates_sound(shot.gates),
        n <= shot.entries.len(),
        shot.asks(n, a).len() == 0,
        tells(shot.gates, shot.root, tree, a),
    ensures
        forall|p: Seq<char>|
            #[trigger] manifest::recorded(shot.files(n, a), p) == if dirty(
                shot.entries.take(n as int),
                p,
            ) {
                Some(tree_hash(tree, p))
            } else {
                None
            },
    decreases n,
{
    let entries = shot.entries.take(n as int);
    if n > 0 {
        let m = (n - 1) as nat;
        let rest = shot.entries.take(m as int);
        let e = shot.entries[n - 1];
        let before = shot.files(m, a);
        lemma_shot_records(shot, tree, m, a);
        lemma_shot(shot, m, a);
        assert(entries[n - 1] == e);
        if model::entry_kind(e) is Some {
            lemma_asks(shot, n, n - 1, a);
            let at = disk::joined(shot.root, e.path);
            if shot.gates.contains_key(e.path) {
                assert(shot.gates[e.path].hash == content_hash(shot.gates[e.path].bytes));
            }
            assert(path_hash(shot, e.path, a) == tree_hash(tree, e.path));
        }
        assert forall|p: Seq<char>|
            #[trigger] manifest::recorded(shot.files(n, a), p) == if dirty(entries, p) {
                Some(tree_hash(tree, p))
            } else {
                None
            } by {
            assert(manifest::recorded(before, p) == if dirty(rest, p) {
                Some(tree_hash(tree, p))
            } else {
                None
            });
            if dirty(rest, p) {
                let i = choose|i: int|
                    0 <= i < rest.len() && (#[trigger] rest[i]).path == p && model::entry_kind(
                        rest[i],
                    ) is Some;
                assert(entries[i] == rest[i]);
            }
            if dirty(entries, p) {
                let i = choose|i: int|
                    0 <= i < entries.len() && (#[trigger] entries[i]).path == p
                        && model::entry_kind(entries[i]) is Some;
                if i < n - 1 {
                    assert(rest[i] == entries[i]);
                }
            }
            if model::entry_kind(e) is Some {
                manifest::law_recorded_reads_back(before, e.path, tree_hash(tree, e.path), p);
            }
        }
    } else {
        assert forall|p: Seq<char>| !dirty(entries, p) by {}
    }
}

/// An id is what the worktree was: two snapshots have one id exactly where the working copies have
/// one parent and one dirty set, and each dirty path has the same content in both, or none in both.
/// This takes a digest that tells apart the two canonical texts and the contents that stood at each
/// path, and a stat that moves with every edit. A snapshot leaves the pinned candidate as it was.
pub proof fn law_ids_tell_worktrees_apart(
    s: TurnState,
    a: Answers,
    parent: Seq<char>,
    entries: Seq<Entry>,
    tree: Tree,
    id: Seq<char>,
    s2: TurnState,
    a2: Answers,
    parent2: Seq<char>,
    entries2: Seq<Entry>,
    tree2: Tree,
    id2: Seq<char>,
)
    requires
        state_sound(s),
        sl::parent_step(s.root, a) == Next::Done(Some(parent)),
        sl::status_step(s.root, None, None, a) == Next::<Result<Seq<Entry>, Seq<char>>>::Done(
            Ok(entries),
        ),
        snapshot_step(s, a).0 == Next::<Result<Seq<char>, Seq<char>>>::Done(Ok(id)),
        tells(s.gates, s.root, tree, a),
        state_sound(s2),
        sl::parent_step(s2.root, a2) == Next::Done(Some(parent2)),
        sl::status_step(s2.root, None, None, a2) == Next::<Result<Seq<Entry>, Seq<char>>>::Done(
            Ok(entries2),
        ),
        snapshot_step(s2, a2).0 == Next::<Result<Seq<char>, Seq<char>>>::Done(Ok(id2)),
        tells(s2.gates, s2.root, tree2, a2),
        told_apart(
            encode_utf8(
                manifest::canonical_text(
                    (Shot { root: s.root, gates: s.gates, entries }).pending(parent, a).manifest,
                ),
            ),
            encode_utf8(
                manifest::canonical_text(
                    (Shot { root: s2.root, gates: s2.gates, entries: entries2 }).pending(
                        parent2,
                        a2,
                    ).manifest,
                ),
            ),
        ),
        forall|p: Seq<char>|
            #[trigger] tree(p) is Some && tree2(p) is Some ==> told_apart(tree(p)->0, tree2(p)->0),
    ensures
        id == id2 <==> parent == parent2 && (forall|p: Seq<char>|
            #[trigger] dirty(entries, p) == dirty(entries2, p)) && (forall|p: Seq<char>|
            #[trigger] dirty(entries, p) ==> tree(p) == tree2(p)),
        snapshot_step(s, a).1.candidate == s.candidate,
{
    let shot = Shot { root: s.root, gates: s.gates, entries };
    let shot2 = Shot { root: s2.root, gates: s2.gates, entries: entries2 };
    let n = entries.len();
    let n2 = entries2.len();
    let m = shot.pending(parent, a).manifest;
    let m2 = shot2.pending(parent2, a2).manifest;
    assert(entries.take(n as int) =~= entries);
    assert(entries2.take(n2 as int) =~= entries2);
    lemma_shot(shot, n, a);
    lemma_shot(shot2, n2, a2);
    lemma_shot_records(shot, tree, n, a);
    lemma_shot_records(shot2, tree2, n2, a2);
    manifest::law_id_is_the_digest_of_the_canonical_text(m, m2);
    if id == id2 {
        encode_utf8_decode_utf8(manifest::canonical_text(m));
        encode_utf8_decode_utf8(manifest::canonical_text(m2));
        manifest::law_canonical_text_tells_manifests_apart(m, m2);
        assert forall|p: Seq<char>| #[trigger] dirty(entries, p) == dirty(entries2, p) && (dirty(
            entries,
            p,
        ) ==> tree(p) == tree2(p)) by {
            assert(manifest::recorded(m.files, p) == manifest::recorded(m2.files, p));
            assert(manifest::recorded(shot.files(n, a), p) is Some == dirty(entries, p));
            assert(manifest::recorded(shot2.files(n2, a2), p) is Some == dirty(entries2, p));
            if dirty(entries, p) && tree(p) is Some && tree2(p) is Some {
                text::lemma_hex(outside::sha256(tree(p)->0), outside::sha256(tree2(p)->0));
            }
        }
    }
    if parent == parent2 && (forall|p: Seq<char>|
        #[trigger] dirty(entries, p) == dirty(entries2, p)) && (forall|p: Seq<char>|
        #[trigger] dirty(entries, p) ==> tree(p) == tree2(p)) {
        assert forall|p: Seq<char>| #[trigger] manifest::recorded(m.files, p)
            == manifest::recorded(m2.files, p) by {
            assert(dirty(entries, p) == dirty(entries2, p));
        }
        manifest::lemma_same_records(m.files, m2.files);
        assert(m == m2);
    }
}

// --- from the pin to the promotion ---------------------------------------------------------------

/// The state behind snapshots taken one after the other.
pub open spec fn after_snapshots(s: TurnState, later: Seq<Answers>) -> TurnState
    decreases later.len(),
{
    if later.len() == 0 {
        s
    } else {
        snapshot_step(after_snapshots(s, later.drop_last()), later.last()).1
    }
}

proof fn lemma_after_snapshots(s: TurnState, later: Seq<Answers>)
    requires
        state_sound(s),
    ensures
        state_sound(after_snapshots(s, later)),
        after_snapshots(s, later).candidate == s.candidate,
        after_snapshots(s, later).root == s.root,
        after_snapshots(s, later).dir == s.dir,
    decreases later.len(),
{
    if later.len() > 0 {
        let mid = after_snapshots(s, later.drop_last());
        lemma_after_snapshots(s, later.drop_last());
        law_host_stays_sound(mid, seq![], later.last());
    }
}

/// A promoted candidate reads as the worktree was when it was pinned, whatever snapshots were taken
/// meanwhile. Its promotion persists the snapshot that was pinned; once that plan ran to its end and
/// the prune behind it is done, the pinned id is the live baseline, and every file that was dirty at
/// the pinned snapshot reads at that id as it was then: its text, or nothing where it was absent.
/// This takes a digest that tells a file's content from the others of the snapshot.
pub proof fn law_promoted_candidate_reads_as_pinned(
    s: TurnState,
    a: Answers,
    parent: Seq<char>,
    entries: Seq<Entry>,
    tree: Tree,
    id: Seq<char>,
    later: Seq<Answers>,
    c: Answers,
    files: Disk,
    snaps: Seq<(Seq<char>, Mtime)>,
    ms: Seq<ManifestView>,
    names: Seq<Seq<char>>,
    b: Answers,
)
    requires
        state_sound(s),
        s.candidate is Some ==> s.candidate->0.id != id,
        sl::parent_step(s.root, a) == Next::Done(Some(parent)),
        sl::status_step(s.root, None, None, a) == Next::<Result<Seq<Entry>, Seq<char>>>::Done(
            Ok(entries),
        ),
        snapshot_step(s, a).0 == Next::<Result<Seq<char>, Seq<char>>>::Done(Ok(id)),
        tells(s.gates, s.root, tree, a),
        ({
            let p = (Shot { root: s.root, gates: s.gates, entries }).pending(parent, a);
            let written = disk::after_acts(files, store::persist_acts(s.dir, p));
            &&& durable::addressed(files, s.dir, p)
            &&& durable::plain(store::file_names(snaps))
            &&& durable::plain(names)
            &&& ms.contains(p.manifest)
            &&& durable::read_off(
                b,
                durable::pruned(written, s.dir, store::snap_name(id)->0, snaps, ms, names),
            )
            &&& forall|path: Seq<char>, i: int|
                #[trigger] dirty(entries, path) && tree(path) is Some && 0 <= i < p.blobs.len()
                    ==> told_apart(tree(path)->0, (#[trigger] p.blobs[i]).1)
        }),
    ensures
        ({
            let p = (Shot { root: s.root, gates: s.gates, entries }).pending(parent, a);
            let held = after_snapshots(pinned(snapshot_step(s, a).1, id), later);
            &&& pending_of(held, id) == Some(p)
            &&& promote_step(held, id, c).0 == store::persist_step(s.dir, p, c)
        }),
        durable::ends_in(store::baseline_step(s.dir, b), Some(id)),
        forall|path: Seq<char>|
            dirty(entries, path) ==> durable::ends_in(
                #[trigger] content::file_step(s.root, s.dir, id, path, b),
                content::text_of(tree(path)),
            ),
{
    let shot = Shot { root: s.root, gates: s.gates, entries };
    let n = entries.len();
    let p = shot.pending(parent, a);
    let first = snapshot_step(s, a).1;
    let held = pinned(first, id);
    law_host_stays_sound(s, id, a);
    assert(first.scratch == Some(p));
    law_host_stays_sound(first, id, a);
    lemma_after_snapshots(held, later);
    assert(pending_sound(p));
    law_sound_snapshot_is_persistable(p);
    let acts = store::persist_acts(s.dir, p);
    let written = disk::after_acts(files, acts);
    durable::law_persist_survives_a_crash(files, s.dir, p, acts.len() as int);
    assert(acts.take(acts.len() as int) =~= acts);
    durable::law_persisted_baseline_survives_the_prune(written, s.dir, p, snaps, ms, names);
    let left = durable::pruned(written, s.dir, store::snap_name(id)->0, snaps, ms, names);
    durable::law_persisted_baseline_reads_back(left, s.root, s.dir, p, b);
    assert(entries.take(n as int) =~= entries);
    lemma_shot(shot, n, a);
    lemma_shot_records(shot, tree, n, a);
    assert forall|path: Seq<char>| dirty(entries, path) implies durable::ends_in(
        #[trigger] content::file_step(s.root, s.dir, id, path, b),
        content::text_of(tree(path)),
    ) by {
        assert(manifest::recorded(p.manifest.files, path) == Some(tree_hash(tree, path)));
        if let Some(bytes) = tree(path) {
            let hash = content_hash(bytes);
            assert(recorded_hash(shot.files(n, a), hash));
            assert(has_blob(p.blobs, hash));
            let i = choose|i: int| 0 <= i < p.blobs.len() && (#[trigger] p.blobs[i]).0 == hash;
            text::lemma_hex(outside::sha256(bytes), outside::sha256(p.blobs[i].1));
            assert(told_apart(tree(path)->0, p.blobs[i].1));
            assert(p.blobs[i].1 == bytes);
        }
    }
}

// --- what a host does -------------------------------------------------------------------------------

/// What a snapshot needs: the working-copy parent, and a status pass of the working copy. Without a
/// parent it is an error, and so it is with a pass that failed; either leaves the host as it was.
pub proof fn law_snapshot_needs_a_parent_and_a_status(s: TurnState, e: Seq<char>, a: Answers)
    ensures
        sl::parent_step(s.root, a) == Next::Done(None::<Seq<char>>) ==> snapshot_step(s, a) == (
            Next::<Result<Seq<char>, Seq<char>>>::Done(Err("sl whereami gave no parent"@)),
            s,
        ),
        sl::parent_step(s.root, a) matches Next::Done(Some(_)) ==> {
            let words = seq![s.root, "status"@, "-mardu"@, "-C"@, "-Tjson"@];
            &&& a.reply(Topic::Run, words) is None ==> snapshot_step(s, a) == (
                Next::<Result<Seq<char>, Seq<char>>>::Ask(
                    seq![Question { topic: Topic::Run, words, acts: seq![] }],
                ),
                s,
            )
            &&& sl::status_step(s.root, None, None, a) == Next::<
                Result<Seq<Entry>, Seq<char>>,
            >::Done(Err(e)) ==> snapshot_step(s, a) == (
                Next::<Result<Seq<char>, Seq<char>>>::Done(Err(e)),
                s,
            )
        },
        !(snapshot_step(s, a).0 matches Next::Done(Ok(_))) ==> snapshot_step(s, a).1 == s,
{
    assert(seq![s.root] + sl::status_args(None, None) =~= seq![
        s.root,
        "status"@,
        "-mardu"@,
        "-C"@,
        "-Tjson"@,
    ]);
}

/// What a snapshot holds of a file, as it was read: nothing of one that is not there; the remembered
/// content of one whose modification time and length are those that were remembered with it; and
/// else the bytes just read. Nothing more is known before the answer that tells it.
pub open spec fn seen_content(
    gs: Gates,
    root: Seq<char>,
    path: Seq<char>,
    a: Answers,
) -> Option<Seq<u8>> {
    match a.reply(Topic::Stat, seq![disk::joined(root, path)]) {
        Some(Reply::Stat(Some(stat))) => if gs.contains_key(path) && stat.mtime == Some(
            gs[path].mtime,
        ) && stat.len == gs[path].len {
            Some(gs[path].bytes)
        } else {
            match a.reply(Topic::File, seq![disk::joined(root, path)]) {
                Some(Reply::Bytes(Some(bytes))) => Some(bytes@),
                _ => None,
            }
        },
        _ => None,
    }
}

/// A snapshot records the parent and every dirty file of the working copy, and nothing else: each path
/// that a record with one of the five status codes names, with the digest of what was seen of it in
/// hexadecimal, or as absent. Its id is that manifest's. It holds each content under its digest, and
/// it is the pending one, unless it is the pinned candidate over again. Every dirty file was looked
/// at, and one that is there and moved was read.
pub proof fn law_snapshot_records_every_dirty_file(
    s: TurnState,
    parent: Seq<char>,
    status: Exit,
    list: Vec<StatusEntry>,
    id: Seq<char>,
    path: Seq<char>,
    a: Answers,
)
    requires
        state_sound(s),
        sl::parent_step(s.root, a) == Next::Done(Some(parent)),
        a.reply(Topic::Run, seq![s.root, "status"@, "-mardu"@, "-C"@, "-Tjson"@]) == Some(
            Reply::Run(Run::Ended(status)),
        ),
        status.code == Some(0i32),
        a.reply(Topic::ParseStatus, seq![outside::lossy(status.stdout@)]) == Some(
            Reply::Status(Some(list)),
        ),
        snapshot_step(s, a).0 == Next::<Result<Seq<char>, Seq<char>>>::Done(Ok(id)),
    ensures
        ({
            let es = list.deep_view();
            let p = (Shot { root: s.root, gates: s.gates, entries: es }).pending(parent, a);
            let changed = exists|i: int|
                0 <= i < es.len() && (#[trigger] es[i]).path == path && (es[i].status == "M"@
                    || es[i].status == "A"@ || es[i].status == "R"@ || es[i].status == "!"@
                    || es[i].status == "?"@);
            let seen = seen_content(s.gates, s.root, path, a);
            let at = disk::joined(s.root, path);
            &&& p.manifest.parent == parent
            &&& id == p.id
            &&& id == manifest::manifest_id(p.manifest)
            &&& manifest::recorded(p.manifest.files, path) == (if changed {
                Some(
                    match seen {
                        Some(bytes) => Some(text::hex(outside::sha256(bytes))),
                        None => None,
                    },
                )
            } else {
                None
            })
            &&& changed && seen is Some ==> exists|k: int|
                0 <= k < p.blobs.len() && (#[trigger] p.blobs[k]).0 == text::hex(
                    outside::sha256(seen->0),
                )
            &&& forall|k: int|
                0 <= k < p.blobs.len() ==> (#[trigger] p.blobs[k]).0 == text::hex(
                    outside::sha256(p.blobs[k].1),
                )
            &&& !(s.candidate is Some && s.candidate->0.id == id) ==> snapshot_step(s, a).1.scratch
                == Some(p)
            &&& s.candidate is Some && s.candidate->0.id == id ==> snapshot_step(s, a).1.scratch
                == s.scratch
            &&& snapshot_step(s, a).1.candidate == s.candidate
            &&& changed ==> {
                &&& a.reply(Topic::Stat, seq![at]) matches Some(Reply::Stat(st))
                &&& st matches Some(stat) ==> (!(s.gates.contains_key(path) && stat.mtime == Some(
                    s.gates[path].mtime,
                ) && stat.len == s.gates[path].len) ==> (a.reply(
                    Topic::File,
                    seq![at],
                ) matches Some(Reply::Bytes(_))))
            }
        }),
{
    reveal_strlit("M");
    reveal_strlit("A");
    reveal_strlit("R");
    reveal_strlit("!");
    reveal_strlit("?");
    assert(seq![s.root] + sl::status_args(None, None) =~= seq![
        s.root,
        "status"@,
        "-mardu"@,
        "-C"@,
        "-Tjson"@,
    ]);
    let es = list.deep_view();
    assert(sl::status_step(s.root, None, None, a) == Next::<Result<Seq<Entry>, Seq<char>>>::Done(
        Ok(es),
    ));
    let shot = Shot { root: s.root, gates: s.gates, entries: es };
    let n = es.len();
    let p = shot.pending(parent, a);
    let tree = |q: Seq<char>|
        match hashed(s.gates, s.root, q, a) {
            Some(Some((_, bytes))) => Some(bytes),
            _ => None,
        };
    assert(tells(s.gates, s.root, tree, a));
    assert(es.take(n as int) =~= es);
    lemma_shot(shot, n, a);
    lemma_shot_records(shot, tree, n, a);
    assert(manifest::recorded(p.manifest.files, path) == if dirty(es, path) {
        Some(tree_hash(tree, path))
    } else {
        None
    });
    if dirty(es, path) {
        let i = choose|i: int|
            0 <= i < es.len() && (#[trigger] es[i]).path == path && model::entry_kind(es[i]) is Some;
        lemma_asks(shot, n, i, a);
        assert(es[i].path == path);
        assert(tree(path) == seen_content(s.gates, s.root, path, a));
        if let Some(bytes) = tree(path) {
            assert(recorded_hash(shot.files(n, a), content_hash(bytes)));
            assert(has_blob(p.blobs, content_hash(bytes)));
        }
    }
    assert forall|i: int| 0 <= i < es.len() implies (model::entry_kind(#[trigger] es[i]) is Some <==> (
    es[i].status == "M"@ || es[i].status == "A"@ || es[i].status == "R"@ || es[i].status == "!"@
        || es[i].status == "?"@)) by {}
}

/// What is remembered of a dirty file after a snapshot that read it: the time it was modified, how
/// many bytes were read, the bytes, and their digest in hexadecimal. A file without a time is not
/// remembered anew.
pub proof fn law_read_file_is_remembered(
    s: TurnState,
    path: Seq<char>,
    stat: Stat,
    bytes: Vec<u8>,
    a: Answers,
)
    requires
        snapshot_step(s, a).0 matches Next::Done(Ok(_)),
        snapshot_step(s, a).1.scratch matches Some(p) && manifest::recorded(
            p.manifest.files,
            path,
        ) is Some,
        !(s.candidate is Some && snapshot_step(s, a).0 == Next::<Result<Seq<char>, Seq<char>>>::Done(
            Ok(s.candidate->0.id),
        )),
        a.reply(Topic::Stat, seq![disk::joined(s.root, path)]) == Some(Reply::Stat(Some(stat))),
        a.reply(Topic::File, seq![disk::joined(s.root, path)]) == Some(Reply::Bytes(Some(bytes))),
        !(s.gates.contains_key(path) && stat.mtime == Some(s.gates[path].mtime) && stat.len
            == s.gates[path].len),
    ensures
        ({
            let after = snapshot_step(s, a).1.gates;
            &&& stat.mtime matches Some(time) ==> after.contains_key(path) && after[path] == (Gate {
                mtime: time,
                len: bytes@.len() as u64,
                hash: text::hex(outside::sha256(bytes@)),
                bytes: bytes@,
            })
            &&& stat.mtime is None ==> after.contains_key(path) == s.gates.contains_key(path) && (
            s.gates.contains_key(path) ==> after[path] == s.gates[path])
        }),
{
}

/// A pin takes the most recent snapshot where it has that id, and changes nothing else. A promotion
/// persists what is pending under the id, the pinned one first, and is an error where nothing is; one
/// that went through gives that one up and keeps the other.
pub proof fn law_pin_and_promotion_go_by_the_id(s: TurnState, id: Seq<char>, a: Answers)
    ensures
        ({
            let recent = s.scratch is Some && s.scratch->0.id == id;
            let held = s.candidate is Some && s.candidate->0.id == id;
            let end = promote_step(s, id, a);
            &&& recent ==> pinned(s, id) == (TurnState { candidate: s.scratch, scratch: None, ..s })
            &&& !recent ==> pinned(s, id) == s
            &&& held ==> end.0 == store::persist_step(s.dir, s.candidate->0, a)
            &&& !held && recent ==> end.0 == store::persist_step(s.dir, s.scratch->0, a)
            &&& !held && !recent ==> end == (
                Next::<Result<(), Seq<char>>>::Done(
                    Err("no pending snapshot matches the promoted baseline"@),
                ),
                s,
            )
            &&& end.0 == Next::<Result<(), Seq<char>>>::Done(Ok(())) ==> end.1 == (if held {
                TurnState { candidate: None, ..s }
            } else {
                TurnState { scratch: None, ..s }
            })
            &&& end.0 != Next::<Result<(), Seq<char>>>::Done(Ok(())) ==> end.1 == s
        }),
{
}

/// What a record needs, the snapshot asks.
proof fn lemma_shot_asked(shot: Shot, n: nat, i: int, q: Question, a: Answers)
    requires
        0 <= i < n <= shot.entries.len(),
        model::entry_kind(shot.entries[i]) is Some,
        ask_hashed(shot.gates, shot.root, shot.entries[i].path, a).contains(q),
    ensures
        shot.asks(n, a).contains(q),
    decreases n,
{
    let done = shot.asks((n - 1) as nat, a);
    let e = shot.entries[n - 1];
    let last = ask_hashed(shot.gates, shot.root, e.path, a);
    if i < n - 1 {
        lemma_shot_asked(shot, (n - 1) as nat, i, q, a);
        let j = choose|j: int| 0 <= j < done.len() && done[j] == q;
        if model::entry_kind(e) is Some {
            assert((done + last)[j] == q);
        }
    } else {
        let j = choose|j: int| 0 <= j < last.len() && last[j] == q;
        assert((done + last)[done.len() + j] == q);
    }
}

/// A snapshot asks for what it records: the stat of every dirty file, and the bytes of one that is
/// there and whose stat is not the remembered one.
pub proof fn law_snapshot_asks_for_what_it_records(
    s: TurnState,
    parent: Seq<char>,
    es: Seq<Entry>,
    i: int,
    a: Answers,
)
    requires
        sl::parent_step(s.root, a) == Next::Done(Some(parent)),
        sl::status_step(s.root, None, None, a) == Next::<Result<Seq<Entry>, Seq<char>>>::Done(
            Ok(es),
        ),
        0 <= i < es.len(),
        es[i].status == "M"@ || es[i].status == "A"@ || es[i].status == "R"@ || es[i].status == "!"@
            || es[i].status == "?"@,
    ensures
        ({
            let at = disk::joined(s.root, es[i].path);
            let end = snapshot_step(s, a).0;
            let gs = s.gates;
            let path = es[i].path;
            &&& a.reply(Topic::Stat, seq![at]) is None ==> (end matches Next::Ask(qs) && qs.contains(
                Question { topic: Topic::Stat, words: seq![at], acts: seq![] },
            ))
            &&& a.reply(Topic::Stat, seq![at]) matches Some(Reply::Stat(Some(stat))) ==> (!(
            gs.contains_key(path) && stat.mtime == Some(gs[path].mtime) && stat.len == gs[path].len)
                && a.reply(Topic::File, seq![at]) is None ==> (end matches Next::Ask(qs)
                && qs.contains(Question { topic: Topic::File, words: seq![at], acts: seq![] })))
        }),
{
    let at = disk::joined(s.root, es[i].path);
    let shot = Shot { root: s.root, gates: s.gates, entries: es };
    let ask = ask_hashed(s.gates, s.root, es[i].path, a);
    model::lemma_status_codes_have_kinds(es[i]);
    if ask.len() > 0 {
        assert(ask.contains(ask[0]));
        lemma_shot_asked(shot, es.len(), i, ask[0], a);
    }
}

} // verus!
