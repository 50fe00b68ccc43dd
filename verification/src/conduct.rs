//! What the Sapling backend asks of the outside: every question only reads, and every write stays in
//! the snapshot store. Nothing is asked twice.

use vstd::prelude::*;
use vstd::string::*;

use crate::answers::{self, Answers, Next, Question, Topic};
use crate::base;
use crate::cache::PinnedCache;
use crate::content;
use crate::disk::{self, Act};
use crate::durable;
use crate::git::WorktreeRow;
use crate::last_turn::{self, Dirty, Turn};
use crate::manifest;
use crate::model::Scope;
use crate::rows::{self, Build};
use crate::sl;
use crate::store::{self, PendingView, PickView};
use crate::text;
use crate::turn::{self, Shot, TurnState};
use crate::vcs::{self, VcsKind};

verus! {

broadcast use vstd::string::group_string_axioms;

// --- reading ---------------------------------------------------------------------------------

/// Whether a command of `sl` only reads the repository.
pub open spec fn reading(command: Seq<char>) -> bool {
    command == "root"@ || command == "whereami"@ || command == "status"@ || command == "diff"@
        || command == "log"@ || command == "bookmarks"@ || command == "cat"@
}

/// Whether a question only reads, and reads with Sapling.
pub open spec fn only_reads(q: Question) -> bool {
    &&& q.acts.len() == 0
    &&& match q.topic {
        Topic::Run => q.words.len() > 1 && reading(q.words[1]),
        Topic::ParseStatus
        | Topic::Cat
        | Topic::MergeBase
        | Topic::File
        | Topic::Stat
        | Topic::Exists
        | Topic::IsDir
        | Topic::StoreText
        | Topic::StoreManifest
        | Topic::StoreBytes
        | Topic::Snaps
        | Topic::Kept
        | Topic::Blobs => true,
        _ => false,
    }
}

/// Whether questions only read and are all unanswered.
pub open spec fn fair(qs: Seq<Question>, a: Answers) -> bool {
    forall|i: int| 0 <= i < qs.len() ==> only_reads(#[trigger] qs[i]) && !a.settles(qs[i])
}

/// Whether a step that is not done asks something, only reads, and asks nothing that is answered.
pub open spec fn proper<T>(next: Next<T>, a: Answers) -> bool {
    next matches Next::Ask(qs) ==> qs.len() > 0 && fair(qs, a)
}

proof fn lemma_command(root: Seq<char>, args: Seq<Seq<char>>, a: Answers)
    requires
        args.len() > 0,
        reading(args[0]),
        a.run_of(root, args) is None,
    ensures
        sl::ask_run(root, args).len() > 0,
        fair(sl::ask_run(root, args), a),
{
    let qs = sl::ask_run(root, args);
    assert(qs[0].words == seq![root] + args);
    assert((seq![root] + args)[1] == args[0]);
}

proof fn lemma_sl(root: Seq<char>, args: Seq<Seq<char>>, a: Answers)
    requires
        args.len() > 0,
        reading(args[0]),
    ensures
        proper(sl::sl_step(root, args, a), a),
        proper(base::list_step(root, args, a), a),
        proper(base::probe_step(root, args, a), a),
{
    if a.run_of(root, args) is None {
        lemma_command(root, args, a);
    }
}

proof fn lemma_root_and_parent(root: Seq<char>, a: Answers)
    ensures
        proper(sl::root_step(root, a), a),
        proper(sl::parent_step(root, a), a),
{
    assert(sl::root_args()[0] == "root"@);
    assert(sl::whereami_args()[0] == "whereami"@);
    if a.run_of(root, sl::root_args()) is None {
        lemma_command(root, sl::root_args(), a);
    }
    if a.run_of(root, sl::whereami_args()) is None {
        lemma_command(root, sl::whereami_args(), a);
    }
}

proof fn lemma_status(root: Seq<char>, from: Option<Seq<char>>, to: Option<Seq<char>>, a: Answers)
    ensures
        proper(sl::status_step(root, from, to, a), a),
        proper(sl::diff_step(root, from, to, a), a),
{
    assert(sl::status_args(from, to)[0] == "status"@);
    assert(sl::diff_args(from, to)[0] == "diff"@);
    lemma_sl(root, sl::status_args(from, to), a);
    lemma_sl(root, sl::diff_args(from, to), a);
}

proof fn lemma_concat(xs: Seq<Question>, ys: Seq<Question>, a: Answers)
    requires
        fair(xs, a),
        fair(ys, a),
    ensures
        fair(xs + ys, a),
{
    let qs = xs + ys;
    assert forall|i: int| 0 <= i < qs.len() implies only_reads(#[trigger] qs[i]) && !a.settles(
        qs[i],
    ) by {
        if i < xs.len() {
            assert(qs[i] == xs[i]);
        } else {
            assert(qs[i] == ys[i - xs.len()]);
        }
    }
}

proof fn lemma_build(b: Build, n: nat, a: Answers)
    requires
        n <= b.entries.len(),
    ensures
        fair(b.all_missing(n, a), a),
    decreases n,
{
    if n > 0 {
        lemma_build(b, (n - 1) as nat, a);
        let e = b.entries[n - 1];
        assert(fair(b.missing(e, a), a));
        lemma_concat(b.all_missing((n - 1) as nat, a), b.missing(e, a), a);
    }
}

proof fn lemma_set(root: Seq<char>, from: Option<Seq<char>>, to: Option<Seq<char>>, a: Answers)
    ensures
        proper(sl::set_step(root, from, to, a), a),
{
    lemma_status(root, from, to, a);
    lemma_root_and_parent(root, a);
    if let Next::Done(Ok(entries)) = sl::status_step(root, from, to, a) {
        if let Next::Done(Ok(counts)) = sl::diff_step(root, from, to, a) {
            let b = Build { root, old: from, to, all: entries, entries, counts, turn: false };
            lemma_build(b, entries.len(), a);
            if let Next::Done(old) = sl::parent_step(root, a) {
                lemma_build(Build { old, ..b }, entries.len(), a);
            }
        }
    }
}

proof fn lemma_store_reads(dir: Seq<char>, id: Seq<char>, hash: Seq<char>, a: Answers)
    ensures
        proper(store::read_pick_step(dir, a), a),
        proper(store::load_step(dir, id, a), a),
        proper(store::baseline_step(dir, a), a),
        proper(store::blob_step(dir, hash, a), a),
{
    if let Some(answers::TextView::Text(t)) = a.store_text_of(store::baseline_at(dir)) {
        assert(proper(store::load_step(dir, text::trimmed(t), a), a));
    }
}

proof fn lemma_turn(turn: Turn, files: Seq<Dirty>, n: nat, a: Answers)
    requires
        n <= files.len(),
    ensures
        fair(turn.all_asks(files, n, a), a),
    decreases n,
{
    if n > 0 {
        lemma_turn(turn, files, (n - 1) as nat, a);
        let file = files[n - 1];
        if let Some(hash) = file.1 {
            lemma_store_reads(turn.dir, seq![], hash, a);
        }
        let blob = match file.1 {
            None => seq![],
            Some(hash) => match store::blob_step(turn.dir, hash, a) {
                Next::Ask(q) => q,
                Next::Done(_) => seq![],
            },
        };
        assert(fair(blob, a));
        let current = answers::one(Topic::File, seq![disk::joined(turn.root, file.0)]);
        if turn.current(file, a) is None {
            assert(fair(current, a));
            lemma_concat(blob, current, a);
        }
        lemma_concat(turn.all_asks(files, (n - 1) as nat, a), turn.asks(file, a), a);
    }
}

proof fn lemma_rev(root: Seq<char>, spelling: Seq<char>, a: Answers)
    ensures
        proper(base::rev_step(root, spelling, a), a),
{
    let args = base::log_args(base::limited(base::term(spelling)), "{node}"@);
    assert(args[0] == "log"@);
    lemma_sl(root, args, a);
}

proof fn lemma_pick(root: Seq<char>, pick: PickView, a: Answers)
    ensures
        proper(base::pick_step(root, pick, a), a),
{
    lemma_rev(root, pick.base, a);
    if let Some(node) = pick.tip {
        let args = base::log_args(
            base::tip_revset(node),
            "{node}\t{phabdiff}\t{desc|firstline}"@,
        );
        assert(args[0] == "log"@);
        lemma_sl(root, args, a);
        if let Next::Done(Ok(Some(tip))) = base::tip_step(root, node, a) {
            let up = base::log_args(base::parent_revset(tip.oid), "{node}"@);
            assert(up[0] == "log"@);
            lemma_sl(root, up, a);
        }
    }
}

proof fn lemma_chain(root: Seq<char>, dir: Seq<char>, flag: Option<Seq<char>>, a: Answers)
    ensures
        proper(base::chain_step(root, dir, flag, a), a),
{
    if let Some(f) = flag {
        lemma_rev(root, f, a);
    }
    lemma_store_reads(dir, seq![], seq![], a);
    lemma_rev(root, "last(public() & ::.)"@, a);
    if let Next::Done(Ok(Some(pick))) = store::read_pick_step(dir, a) {
        lemma_pick(root, pick, a);
    }
}

proof fn lemma_file(root: Seq<char>, dir: Seq<char>, rev: Seq<char>, path: Seq<char>, a: Answers)
    ensures
        proper(content::file_step(root, dir, rev, path, a), a),
{
    lemma_root_and_parent(root, a);
    lemma_store_reads(dir, rev, seq![], a);
    assert forall|r: Seq<char>| proper(#[trigger] content::cat_text_step(root, r, path, a), a) by {}
    if let Next::Done(Some(m)) = store::load_step(dir, rev, a) {
        if let Some(Some(hash)) = manifest::recorded(m.files, path) {
            lemma_store_reads(dir, rev, hash, a);
        }
    }
}

proof fn lemma_shot_asks(shot: Shot, n: nat, a: Answers)
    requires
        n <= shot.entries.len(),
    ensures
        fair(shot.asks(n, a), a),
    decreases n,
{
    if n > 0 {
        lemma_shot_asks(shot, (n - 1) as nat, a);
        let e = shot.entries[n - 1];
        let more = turn::ask_hashed(shot.gates, shot.root, e.path, a);
        assert(fair(more, a));
        lemma_concat(shot.asks((n - 1) as nat, a), more, a);
    }
}

/// Every read of the changed files, of the last turn and of a snapshot only reads, with commands
/// that never write, and asks nothing that is answered already.
pub proof fn law_change_reads_only_read(
    root: Seq<char>,
    dir: Seq<char>,
    scope: Scope,
    from: Option<Seq<char>>,
    to: Option<Seq<char>>,
    id: Seq<char>,
    s: TurnState,
    a: Answers,
)
    ensures
        proper(sl::files_step(root, scope, from, to, a), a),
        proper(last_turn::turn_step(root, dir, id, a), a),
        proper(turn::snapshot_step(s, a).0, a),
{
    lemma_set(root, None, None, a);
    lemma_set(root, from, to, a);
    if let Some(base) = from {
        if let Some(Some(mb)) = a.rev_of(Topic::MergeBase, seq![root, base]) {
            lemma_set(root, Some(mb), None, a);
        }
    }
    lemma_store_reads(dir, id, seq![], a);
    if let Next::Done(Some(m)) = store::load_step(dir, id, a) {
        lemma_status(root, Some(m.parent), None, a);
        lemma_turn(Turn { root, dir }, m.files, m.files.len(), a);
        if let Next::Done(Ok(now)) = sl::status_step(root, Some(m.parent), None, a) {
            let clean = last_turn::fresh(now, m.files, now.len());
            if let Next::Done(Ok(counts)) = sl::diff_step(root, Some(m.parent), None, a) {
                let b = Build {
                    root,
                    old: Some(m.parent),
                    to: None,
                    all: now,
                    entries: clean,
                    counts,
                    turn: true,
                };
                lemma_build(b, clean.len(), a);
            }
        }
    }
    lemma_root_and_parent(s.root, a);
    lemma_status(s.root, None, None, a);
    if let Next::Done(Ok(entries)) = sl::status_step(s.root, None, None, a) {
        let shot = Shot { root: s.root, gates: s.gates, entries };
        lemma_shot_asks(shot, entries.len(), a);
    }
}

/// Every read of a root, a revision, a base, a pick, a baseline or a content only reads, with
/// commands that never write, and asks nothing that is answered already.
pub proof fn law_revision_reads_only_read(
    root: Seq<char>,
    dir: Seq<char>,
    rev: Seq<char>,
    path: Seq<char>,
    flag: Option<Seq<char>>,
    ancestors: PinnedCache<String>,
    contents: PinnedCache<Vec<u8>>,
    a: Answers,
)
    ensures
        proper(sl::root_step(root, a), a),
        proper(sl::parent_step(root, a), a),
        proper(base::chain_step(root, dir, flag, a), a),
        proper(base::spelling_step(root, rev, a), a),
        proper(base::bookmarks_step(root, a), a),
        proper(base::stack_step(root, a), a),
        proper(content::merge_base_step(root, rev, ancestors, a), a),
        proper(content::cat_step(root, rev, path, contents, a), a),
        proper(content::file_step(root, dir, rev, path, a), a),
        proper(store::read_pick_step(dir, a), a),
        proper(store::baseline_step(dir, a), a),
        proper(vcs::kind_step(root, a), a),
{
    lemma_root_and_parent(root, a);
    lemma_chain(root, dir, flag, a);
    lemma_rev(root, rev, a);
    assert(base::bookmark_args()[0] == "bookmarks"@);
    lemma_sl(root, base::bookmark_args(), a);
    assert(base::stack_args()[0] == "log"@);
    lemma_sl(root, base::stack_args(), a);
    if let Next::Done(Some(parent)) = sl::parent_step(root, a) {
        let args = content::ancestor_args(rev, parent);
        assert(args[0] == "log"@);
        lemma_sl(root, args, a);
    }
    let args = content::cat_args(rev, path);
    assert(args[0] == "cat"@);
    if a.run_of(root, args) is None {
        lemma_command(root, args, a);
    }
    lemma_file(root, dir, rev, path, a);
    lemma_store_reads(dir, seq![], seq![], a);
}

// --- writing -----------------------------------------------------------------------------------

/// Whether `path` is `dir` or stands in it.
pub open spec fn inside(dir: Seq<char>, path: Seq<char>) -> bool {
    path == dir || disk::joined(dir, seq![]).is_prefix_of(path)
}

/// Whether every path that a step touches is inside `dir`.
pub open spec fn act_inside(dir: Seq<char>, act: Act) -> bool {
    match act {
        Act::CreateDirs(p) => inside(dir, p),
        Act::Write(p, _) => inside(dir, p),
        Act::Rename(p, q) => inside(dir, p) && inside(dir, q),
        Act::Remove(p) => inside(dir, p),
    }
}

pub open spec fn acts_inside(dir: Seq<char>, acts: Seq<Act>) -> bool {
    forall|i: int| 0 <= i < acts.len() ==> act_inside(dir, #[trigger] acts[i])
}

/// Whether a step that is not done asks only for reads and for writes inside `dir`.
pub open spec fn confined<T>(next: Next<T>, dir: Seq<char>, a: Answers) -> bool {
    next matches Next::Ask(qs) ==> qs.len() > 0 && forall|i: int|
        0 <= i < qs.len() ==> {
            &&& !a.settles(#[trigger] qs[i])
            &&& only_reads(qs[i]) || ((qs[i].topic == Topic::Disk || qs[i].topic == Topic::Sweep)
                && acts_inside(dir, qs[i].acts))
        }
}

proof fn lemma_inside(dir: Seq<char>, name: Seq<char>)
    requires
        name.len() > 0 ==> name[0] != '/',
    ensures
        inside(dir, disk::joined(dir, name)),
{
    assert(disk::joined(dir, name) =~= disk::joined(dir, seq![]) + name);
}

proof fn lemma_inside_deep(dir: Seq<char>, sub: Seq<char>, name: Seq<char>)
    requires
        sub.len() > 0,
        sub[0] != '/',
        name.len() > 0 ==> name[0] != '/',
    ensures
        inside(dir, disk::joined(disk::joined(dir, sub), name)),
{
    let head = disk::joined(dir, seq![]);
    let at = disk::joined(dir, sub);
    assert(at =~= head + sub);
    let path = disk::joined(at, name);
    assert(path.take(at.len() as int) =~= at);
    assert(path.take(head.len() as int) =~= head);
}

proof fn lemma_tmp_name(name: Seq<char>)
    requires
        name.len() > 0 ==> name[0] != '/',
    ensures
        disk::tmp_name(name).len() > 0,
        disk::tmp_name(name)[0] != '/',
{
    reveal_strlit(".tmp");
    lemma_last_dot(name);
}

proof fn lemma_last_dot(name: Seq<char>)
    ensures
        disk::last_dot(name) matches Some(n) ==> 0 < n < name.len(),
    decreases name.len(),
{
    if name.len() > 1 && name.last() != '.' {
        lemma_last_dot(name.drop_last());
    }
}

proof fn lemma_atomic_inside(dir: Seq<char>, sub: Option<Seq<char>>, name: Seq<char>, content: Seq<u8>)
    requires
        sub is Some ==> sub->0.len() > 0 && sub->0[0] != '/',
        name.len() > 0 ==> name[0] != '/',
    ensures
        acts_inside(
            dir,
            store::atomic(
                dir,
                match sub {
                    Some(s) => disk::joined(dir, s),
                    None => dir,
                },
                name,
                content,
            ),
        ),
{
    lemma_tmp_name(name);
    match sub {
        Some(s) => {
            lemma_inside_deep(dir, s, name);
            lemma_inside_deep(dir, s, disk::tmp_name(name));
        },
        None => {
            lemma_inside(dir, name);
            lemma_inside(dir, disk::tmp_name(name));
        },
    }
}

proof fn lemma_inside_parts(dir: Seq<char>, xs: Seq<Act>, ys: Seq<Act>)
    requires
        acts_inside(dir, xs),
        acts_inside(dir, ys),
    ensures
        acts_inside(dir, xs + ys),
{
    let acts = xs + ys;
    assert forall|i: int| 0 <= i < acts.len() implies act_inside(dir, #[trigger] acts[i]) by {
        if i < xs.len() {
            assert(acts[i] == xs[i]);
        } else {
            assert(acts[i] == ys[i - xs.len()]);
        }
    }
}

proof fn lemma_blobs_inside(dir: Seq<char>, blobs: Seq<(Seq<char>, Seq<u8>)>)
    requires
        forall|i: int| 0 <= i < blobs.len() ==> text::all_hex(#[trigger] blobs[i].0),
    ensures
        acts_inside(dir, store::blob_acts(dir, blobs)),
    decreases blobs.len(),
{
    if blobs.len() > 0 {
        let rest = blobs.drop_last();
        let last = blobs.last();
        assert forall|i: int| 0 <= i < rest.len() implies text::all_hex(#[trigger] rest[i].0) by {
            assert(rest[i] == blobs[i]);
        }
        lemma_blobs_inside(dir, rest);
        assert(blobs[blobs.len() - 1] == last);
        assert(last.0.len() > 0 ==> text::is_hex_digit(last.0[0]));
        reveal_strlit("blobs");
        lemma_atomic_inside(dir, Some("blobs"@), last.0, last.1);
        lemma_inside_parts(
            dir,
            store::blob_acts(dir, rest),
            store::atomic(dir, store::blobs_at(dir), last.0, last.1),
        );
    }
}

proof fn lemma_persist_inside(dir: Seq<char>, p: PendingView)
    requires
        forall|i: int| 0 <= i < p.blobs.len() ==> text::all_hex(#[trigger] p.blobs[i].0),
    ensures
        acts_inside(dir, store::persist_acts(dir, p)),
{
    reveal_strlit("blobs");
    reveal_strlit("snaps");
    reveal_strlit("baseline");
    reveal_strlit(".json");
    let dirs = seq![
        Act::CreateDirs(store::blobs_at(dir)),
        Act::CreateDirs(store::snaps_at(dir)),
    ];
    lemma_inside(dir, "blobs"@);
    lemma_inside(dir, "snaps"@);
    lemma_blobs_inside(dir, p.blobs);
    lemma_inside_parts(dir, dirs, store::blob_acts(dir, p.blobs));
    if let Some(name) = store::snap_name(p.id) {
        let hex = text::after_prefix(p.id, manifest::SNAP_PREFIX@)->0;
        assert(name == hex + ".json"@);
        assert(hex.len() > 0 ==> text::is_hex_digit(hex[0]));
        assert(name[0] == (if hex.len() > 0 {
            hex[0]
        } else {
            '.'
        }));
        let json = vstd::utf8::encode_utf8(manifest::canonical_text(p.manifest));
        let id = vstd::utf8::encode_utf8(p.id);
        lemma_atomic_inside(dir, Some("snaps"@), name, json);
        lemma_atomic_inside(dir, None, "baseline"@, id);
        lemma_inside_parts(
            dir,
            store::atomic(dir, store::snaps_at(dir), name, json),
            store::atomic(dir, dir, "baseline"@, id),
        );
    }
    lemma_inside_parts(
        dir,
        dirs + store::blob_acts(dir, p.blobs),
        store::pointing_acts(dir, p.id, p.manifest),
    );
}

/// Whether the names that a directory was listed with are names of files in it.
pub open spec fn plainly_listed(dir: Seq<char>, a: Answers) -> bool {
    &&& a.snaps_of(store::snaps_at(dir)) matches Some(files) ==> durable::plain(
        store::file_names(files),
    )
    &&& a.blobs_of(store::blobs_at(dir)) matches Some(names) ==> durable::plain(names)
}

proof fn lemma_removals_inside(dir: Seq<char>, sub: Seq<char>, names: Seq<Seq<char>>)
    requires
        sub.len() > 0,
        sub[0] != '/',
        durable::plain(names),
    ensures
        acts_inside(dir, store::removals(disk::joined(dir, sub), names)),
{
    let acts = store::removals(disk::joined(dir, sub), names);
    assert forall|i: int| 0 <= i < acts.len() implies act_inside(dir, #[trigger] acts[i]) by {
        lemma_inside_deep(dir, sub, names[i]);
    }
}

/// Nothing is written outside the snapshot store: the plans that record a pick, drop it, persist a
/// sound snapshot and prune behind it touch only paths inside the store's directory.
pub proof fn law_writes_stay_in_the_store(
    dir: Seq<char>,
    name: Seq<char>,
    id: Seq<char>,
    s: TurnState,
    a: Answers,
)
    requires
        s.dir == dir,
        turn::state_sound(s),
        plainly_listed(dir, a),
    ensures
        confined(store::write_pick_step(dir, name, a), dir, a),
        confined(store::clear_pick_step(dir, a), dir, a),
        confined(turn::promote_step(s, id, a).0, dir, a),
{
    reveal_strlit("base-pick");
    reveal_strlit("snaps");
    reveal_strlit("blobs");
    lemma_atomic_inside(dir, None, "base-pick"@, vstd::utf8::encode_utf8(name));
    lemma_inside(dir, "base-pick"@);
    if let Some(p) = turn::pending_of(s, id) {
        turn::law_sound_snapshot_is_persistable(p);
        lemma_persist_inside(dir, p);
        if let Some(keep) = store::snap_name(p.id) {
            if let Some(files) = a.snaps_of(store::snaps_at(dir)) {
                let gone = store::expired(files, keep);
                let names = store::file_names(gone);
                durable::law_prune_keeps_a_recent_tail(files, keep);
                assert forall|i: int| 0 <= i < names.len() implies (#[trigger] names[i]).len() > 0
                    && names[i][0] != '/' by {
                    assert(files.contains(gone[i]));
                    let j = choose|j: int| 0 <= j < files.len() && files[j] == gone[i];
                    assert(store::file_names(files)[j] == names[i]);
                }
                lemma_removals_inside(dir, "snaps"@, names);
            }
            if let (Some(ms), Some(names)) = (
                a.kept_of(store::snaps_at(dir)),
                a.blobs_of(store::blobs_at(dir)),
            ) {
                let dead = store::dead_blobs(ms, names);
                assert forall|i: int| 0 <= i < dead.len() implies (#[trigger] dead[i]).len() > 0
                    && dead[i][0] != '/' by {
                    durable::law_prune_keeps_live_blobs(ms, names, dead[i]);
                    assert(dead.contains(dead[i]));
                    let j = choose|j: int| 0 <= j < names.len() && names[j] == dead[i];
                    assert(names[j] == dead[i]);
                }
                lemma_removals_inside(dir, "blobs"@, dead);
            }
        }
    }
}

/// No path inside the store is inside the repository, where neither directory stands in the other.
pub proof fn law_store_paths_are_outside_the_repository(
    root: Seq<char>,
    dir: Seq<char>,
    path: Seq<char>,
)
    requires
        !inside(root, dir),
        !inside(dir, root),
        inside(dir, path),
    ensures
        !inside(root, path),
{
    let r = disk::joined(root, seq![]);
    let d = disk::joined(dir, seq![]);
    if inside(root, path) {
        assert(path != root && path != dir) by {
            if path == root {
                assert(inside(dir, root));
            }
            if path == dir {
                assert(inside(root, dir));
            }
        }
        if r.len() <= d.len() {
            assert(r =~= d.take(r.len() as int)) by {
                assert forall|i: int| 0 <= i < r.len() implies r[i] == d[i] by {
                    assert(r[i] == path[i] && d[i] == path[i]);
                }
            }
            // Then the root's directory is a prefix of the store's.
            if r.len() <= dir.len() {
                assert forall|i: int| 0 <= i < r.len() implies r[i] == dir[i] by {
                    assert(d[i] == dir[i]);
                }
                assert(r.is_prefix_of(dir));
            } else {
                assert(r =~= d);
                assert(root =~= dir) by {
                    assert(d == dir + seq!['/']);
                    if r != root {
                        assert(r == root + seq!['/']);
                        assert(root.len() == dir.len());
                        assert forall|i: int| 0 <= i < root.len() implies root[i] == dir[i] by {
                            assert(r[i] == root[i] && d[i] == dir[i]);
                        }
                    } else {
                        assert(inside(dir, root)) by {
                            assert(d.is_prefix_of(root));
                        }
                    }
                }
            }
        } else {
            assert(d =~= r.take(d.len() as int)) by {
                assert forall|i: int| 0 <= i < d.len() implies d[i] == r[i] by {
                    assert(r[i] == path[i] && d[i] == path[i]);
                }
            }
            assert(d.len() <= root.len());
            assert forall|i: int| 0 <= i < d.len() implies d[i] == root[i] by {
                assert(r[i] == root[i]);
            }
            assert(d.is_prefix_of(root));
        }
    }
}

/// Every Sapling read costs by what changed, never by the worktree: one round of a build asks at most
/// one content per record, one of the last turn at most two per dirty file, one of a snapshot at
/// most one per record. The worktree is never listed.
pub proof fn law_reads_cost_by_what_changed(
    b: Build,
    turn: Turn,
    files: Seq<Dirty>,
    shot: Shot,
    root: Seq<char>,
    a: Answers,
)
    ensures
        b.all_missing(b.entries.len(), a).len() <= b.entries.len(),
        turn.all_asks(files, files.len(), a).len() <= 2 * files.len(),
        shot.asks(shot.entries.len(), a).len() <= shot.entries.len(),
        vcs::all_files_step(VcsKind::Sapling, root, a) == Next::<
            Result<Seq<WorktreeRow>, Seq<char>>,
        >::Done(Ok(seq![])),
{
    rows::law_build_reads_one_content_per_change(b, b.entries.len(), a);
    lemma_turn_cost(turn, files, files.len(), a);
    lemma_shot_cost(shot, shot.entries.len(), a);
}

proof fn lemma_turn_cost(turn: Turn, files: Seq<Dirty>, n: nat, a: Answers)
    requires
        n <= files.len(),
    ensures
        turn.all_asks(files, n, a).len() <= 2 * n,
    decreases n,
{
    if n > 0 {
        lemma_turn_cost(turn, files, (n - 1) as nat, a);
    }
}

proof fn lemma_shot_cost(shot: Shot, n: nat, a: Answers)
    requires
        n <= shot.entries.len(),
    ensures
        shot.asks(n, a).len() <= n,
    decreases n,
{
    if n > 0 {
        lemma_shot_cost(shot, (n - 1) as nat, a);
    }
}

} // verus!
