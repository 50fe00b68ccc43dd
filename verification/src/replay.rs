//! An operation is asked again with more answers until it is done. What it came to never depends on
//! answers that it did not need.

use vstd::prelude::*;
use vstd::string::*;

use crate::answers::{self, Answers, Next, Topic};
use crate::base;
use crate::content;
use crate::disk;
use crate::last_turn::{self, Dirty, Turn};
use crate::manifest;
use crate::model::{self, Scope};
use crate::rows::Build;
use crate::sl;
use crate::store::{self, PickView};
use crate::text;
use crate::turn::{self, Shot, TurnState};

verus! {

broadcast use vstd::string::group_string_axioms;

/// Whether `b` has every answer that `a` has.
pub open spec fn extends(a: Answers, b: Answers) -> bool {
    forall|topic: Topic, words: Seq<Seq<char>>|
        (#[trigger] a.reply(topic, words)) is Some && answers::fits(topic, a.reply(topic, words)->0)
            ==> b.reply(topic, words) == a.reply(topic, words)
}

/// Whether a step that was done stays as it was.
pub open spec fn stands<T>(before: Next<T>, after: Next<T>) -> bool {
    before is Done ==> after == before
}

proof fn lemma_reply(topic: Topic, words: Seq<Seq<char>>, a: Answers, b: Answers)
    requires
        extends(a, b),
    ensures
        a.reply(topic, words) is Some && answers::fits(topic, a.reply(topic, words)->0) ==> b.reply(
            topic,
            words,
        ) == a.reply(topic, words),
{
}

proof fn lemma_run(root: Seq<char>, args: Seq<Seq<char>>, a: Answers, b: Answers)
    requires
        extends(a, b),
    ensures
        a.run_of(root, args) is Some ==> b.run_of(root, args) == a.run_of(root, args),
        stands(sl::sl_step(root, args, a), sl::sl_step(root, args, b)),
        stands(base::list_step(root, args, a), base::list_step(root, args, b)),
        stands(base::probe_step(root, args, a), base::probe_step(root, args, b)),
{
    lemma_reply(Topic::Run, seq![root] + args, a, b);
}

proof fn lemma_flag(path: Seq<char>, a: Answers, b: Answers)
    requires
        extends(a, b),
    ensures
        a.flag_of(Topic::IsDir, path) is Some ==> b.flag_of(Topic::IsDir, path) == a.flag_of(
            Topic::IsDir,
            path,
        ),
{
    lemma_reply(Topic::IsDir, seq![path], a, b);
}

proof fn lemma_status(
    root: Seq<char>,
    from: Option<Seq<char>>,
    to: Option<Seq<char>>,
    a: Answers,
    b: Answers,
)
    requires
        extends(a, b),
    ensures
        stands(sl::status_step(root, from, to, a), sl::status_step(root, from, to, b)),
        stands(sl::diff_step(root, from, to, a), sl::diff_step(root, from, to, b)),
{
    lemma_run(root, sl::status_args(from, to), a, b);
    lemma_run(root, sl::diff_args(from, to), a, b);
    if let Next::Done(Ok(json)) = sl::sl_step(root, sl::status_args(from, to), a) {
        lemma_reply(Topic::ParseStatus, seq![json], a, b);
    }
}

proof fn lemma_content(root: Seq<char>, rev: Seq<char>, path: Seq<char>, a: Answers, b: Answers)
    requires
        extends(a, b),
    ensures
        a.content_of(root, rev, path) is Some ==> b.content_of(root, rev, path) == a.content_of(
            root,
            rev,
            path,
        ),
{
    lemma_reply(Topic::Cat, seq![root, rev, path], a, b);
}

proof fn lemma_files(path: Seq<char>, a: Answers, b: Answers)
    requires
        extends(a, b),
    ensures
        a.bytes_of(Topic::File, path) is Some ==> b.bytes_of(Topic::File, path) == a.bytes_of(
            Topic::File,
            path,
        ),
        a.bytes_of(Topic::StoreBytes, path) is Some ==> b.bytes_of(Topic::StoreBytes, path)
            == a.bytes_of(Topic::StoreBytes, path),
        a.stat_of(path) is Some ==> b.stat_of(path) == a.stat_of(path),
        a.store_text_of(path) is Some ==> b.store_text_of(path) == a.store_text_of(path),
        a.manifest_of(path) is Some ==> b.manifest_of(path) == a.manifest_of(path),
{
    lemma_reply(Topic::File, seq![path], a, b);
    lemma_reply(Topic::StoreBytes, seq![path], a, b);
    lemma_reply(Topic::Stat, seq![path], a, b);
    lemma_reply(Topic::StoreText, seq![path], a, b);
    lemma_reply(Topic::StoreManifest, seq![path], a, b);
}

proof fn lemma_parent(root: Seq<char>, a: Answers, b: Answers)
    requires
        extends(a, b),
    ensures
        stands(sl::parent_step(root, a), sl::parent_step(root, b)),
        stands(sl::root_step(root, a), sl::root_step(root, b)),
{
    lemma_run(root, sl::whereami_args(), a, b);
    lemma_run(root, sl::root_args(), a, b);
    lemma_flag(root, a, b);
}

proof fn lemma_store(dir: Seq<char>, id: Seq<char>, hash: Seq<char>, a: Answers, b: Answers)
    requires
        extends(a, b),
    ensures
        stands(store::read_pick_step(dir, a), store::read_pick_step(dir, b)),
        stands(store::load_step(dir, id, a), store::load_step(dir, id, b)),
        stands(store::baseline_step(dir, a), store::baseline_step(dir, b)),
        stands(store::blob_step(dir, hash, a), store::blob_step(dir, hash, b)),
{
    lemma_files(store::pick_at(dir), a, b);
    lemma_files(store::baseline_at(dir), a, b);
    if let Some(path) = store::manifest_at(dir, id) {
        lemma_files(path, a, b);
    }
    if let Some(path) = store::blob_at(dir, hash) {
        lemma_files(path, a, b);
    }
    if let Some(answers::TextView::Text(t)) = a.store_text_of(store::baseline_at(dir)) {
        if let Some(path) = store::manifest_at(dir, text::trimmed(t)) {
            lemma_files(path, a, b);
        }
    }
}

// --- builds ------------------------------------------------------------------------------------

proof fn lemma_build(bd: Build, n: nat, a: Answers, b: Answers)
    requires
        extends(a, b),
        n <= bd.entries.len(),
        bd.all_missing(n, a).len() == 0,
    ensures
        bd.all_missing(n, b).len() == 0,
        bd.rows(n, b) == bd.rows(n, a),
    decreases n,
{
    if n > 0 {
        let m = (n - 1) as nat;
        let e = bd.entries[n - 1];
        lemma_build(bd, m, a, b);
        if let Some(tip) = bd.to {
            lemma_content(bd.root, tip, e.path, a, b);
        }
        if let Some(rev) = bd.old {
            lemma_content(bd.root, rev, e.path, a, b);
        }
        lemma_files(disk::joined(bd.root, e.path), a, b);
        assert(bd.missing(e, a).len() == 0);
        assert(bd.missing(e, b).len() == 0);
        if bd.shows(e) {
            assert(bd.row_counts(e, b) == bd.row_counts(e, a));
        }
    }
}

proof fn lemma_set(
    root: Seq<char>,
    from: Option<Seq<char>>,
    to: Option<Seq<char>>,
    a: Answers,
    b: Answers,
)
    requires
        extends(a, b),
    ensures
        stands(sl::set_step(root, from, to, a), sl::set_step(root, from, to, b)),
{
    lemma_status(root, from, to, a, b);
    lemma_parent(root, a, b);
    if let Next::Done(Ok(entries)) = sl::status_step(root, from, to, a) {
        if let Next::Done(Ok(counts)) = sl::diff_step(root, from, to, a) {
            let bd = Build { root, old: from, to, all: entries, entries, counts, turn: false };
            let n = entries.len();
            if from is None && bd.reads_old() {
                if let Next::Done(old) = sl::parent_step(root, a) {
                    let pinned = Build { old, ..bd };
                    if pinned.all_missing(n, a).len() == 0 {
                        lemma_build(pinned, n, a, b);
                    }
                }
            } else if bd.all_missing(n, a).len() == 0 {
                lemma_build(bd, n, a, b);
            }
        }
    }
}

proof fn lemma_turn(turn: Turn, files: Seq<Dirty>, n: nat, a: Answers, b: Answers)
    requires
        extends(a, b),
        n <= files.len(),
        turn.all_asks(files, n, a).len() == 0,
    ensures
        turn.all_asks(files, n, b).len() == 0,
        turn.first_lost(files, n, b) == turn.first_lost(files, n, a),
        turn.rows(files, n, b) == turn.rows(files, n, a),
    decreases n,
{
    if n > 0 {
        lemma_turn(turn, files, (n - 1) as nat, a, b);
        let file = files[n - 1];
        lemma_files(disk::joined(turn.root, file.0), a, b);
        if let Some(hash) = file.1 {
            lemma_store(turn.dir, seq![], hash, a, b);
            assert(store::blob_step(turn.dir, hash, a) is Done) by {
                if let Next::Ask(q) = store::blob_step(turn.dir, hash, a) {
                    assert(q.len() == 1);
                }
            }
        }
        assert(turn.current(file, a) is Some);
        assert(turn.base(file, b) == turn.base(file, a));
        assert(turn.current(file, b) == turn.current(file, a));
    }
}

proof fn lemma_shot(shot: Shot, n: nat, a: Answers, b: Answers)
    requires
        extends(a, b),
        n <= shot.entries.len(),
        shot.asks(n, a).len() == 0,
    ensures
        shot.asks(n, b).len() == 0,
        shot.files(n, b) == shot.files(n, a),
        shot.blobs(n, b) == shot.blobs(n, a),
    decreases n,
{
    if n > 0 {
        lemma_shot(shot, (n - 1) as nat, a, b);
        let e = shot.entries[n - 1];
        lemma_files(disk::joined(shot.root, e.path), a, b);
        if model::entry_kind(e) is Some {
            assert(turn::ask_hashed(shot.gates, shot.root, e.path, a).len() == 0);
            assert(turn::hashed(shot.gates, shot.root, e.path, b) == turn::hashed(
                shot.gates,
                shot.root,
                e.path,
                a,
            ));
        }
    }
}

/// The changed files of a scope, the last turn's and a snapshot's id, once known, stay as they are
/// whatever else is answered.
pub proof fn law_more_answers_change_no_change_set(
    root: Seq<char>,
    dir: Seq<char>,
    scope: Scope,
    from: Option<Seq<char>>,
    to: Option<Seq<char>>,
    id: Seq<char>,
    s: TurnState,
    a: Answers,
    b: Answers,
)
    requires
        extends(a, b),
    ensures
        stands(sl::files_step(root, scope, from, to, a), sl::files_step(root, scope, from, to, b)),
        stands(
            last_turn::turn_step(root, dir, id, a),
            last_turn::turn_step(root, dir, id, b),
        ),
        stands(turn::snapshot_step(s, a).0, turn::snapshot_step(s, b).0),
        turn::snapshot_step(s, a).0 is Done ==> turn::snapshot_step(s, b).1.scratch
            == turn::snapshot_step(s, a).1.scratch,
{
    lemma_set(root, None, None, a, b);
    lemma_set(root, from, to, a, b);
    if let Some(base) = from {
        lemma_reply(Topic::MergeBase, seq![root, base], a, b);
        if let Some(Some(mb)) = a.rev_of(Topic::MergeBase, seq![root, base]) {
            lemma_set(root, Some(mb), None, a, b);
        }
    }
    // The last turn.
    lemma_store(dir, id, seq![], a, b);
    if let Next::Done(Some(m)) = store::load_step(dir, id, a) {
        lemma_status(root, Some(m.parent), None, a, b);
        if let Next::Done(Ok(now)) = sl::status_step(root, Some(m.parent), None, a) {
            let turn = Turn { root, dir };
            let n = m.files.len();
            if turn.all_asks(m.files, n, a).len() == 0 {
                lemma_turn(turn, m.files, n, a, b);
                let clean = last_turn::fresh(now, m.files, now.len());
                if let Next::Done(Ok(counts)) = sl::diff_step(root, Some(m.parent), None, a) {
                    let bd = Build {
                        root,
                        old: Some(m.parent),
                        to: None,
                        all: now,
                        entries: clean,
                        counts,
                        turn: true,
                    };
                    if bd.all_missing(clean.len(), a).len() == 0 {
                        lemma_build(bd, clean.len(), a, b);
                    }
                }
            }
        }
    }
    // A snapshot.
    lemma_parent(s.root, a, b);
    lemma_status(s.root, None, None, a, b);
    if let Next::Done(Ok(entries)) = sl::status_step(s.root, None, None, a) {
        let shot = Shot { root: s.root, gates: s.gates, entries };
        if shot.asks(entries.len(), a).len() == 0 {
            lemma_shot(shot, entries.len(), a, b);
        }
    }
}

// --- revisions -----------------------------------------------------------------------------------

proof fn lemma_rev(root: Seq<char>, spelling: Seq<char>, a: Answers, b: Answers)
    requires
        extends(a, b),
    ensures
        stands(base::rev_step(root, spelling, a), base::rev_step(root, spelling, b)),
{
    lemma_run(
        root,
        base::log_args(base::limited(base::term(spelling)), "{node}"@),
        a,
        b,
    );
}

proof fn lemma_pick(root: Seq<char>, pick: PickView, a: Answers, b: Answers)
    requires
        extends(a, b),
    ensures
        stands(base::pick_step(root, pick, a), base::pick_step(root, pick, b)),
{
    lemma_rev(root, pick.base, a, b);
    if let Some(node) = pick.tip {
        lemma_run(
            root,
            base::log_args(base::tip_revset(node), "{node}\t{phabdiff}\t{desc|firstline}"@),
            a,
            b,
        );
        if let Next::Done(Ok(Some(tip))) = base::tip_step(root, node, a) {
            lemma_run(root, base::log_args(base::parent_revset(tip.oid), "{node}"@), a, b);
        }
    }
}

/// A base, a typed spelling, the picker's rows and a content, once known, stay as they are whatever
/// else is answered.
pub proof fn law_more_answers_change_no_revision(
    root: Seq<char>,
    dir: Seq<char>,
    flag: Option<Seq<char>>,
    rev: Seq<char>,
    path: Seq<char>,
    a: Answers,
    b: Answers,
)
    requires
        extends(a, b),
    ensures
        stands(base::chain_step(root, dir, flag, a), base::chain_step(root, dir, flag, b)),
        stands(base::spelling_step(root, rev, a), base::spelling_step(root, rev, b)),
        stands(base::bookmarks_step(root, a), base::bookmarks_step(root, b)),
        stands(base::stack_step(root, a), base::stack_step(root, b)),
        stands(
            content::file_step(root, dir, rev, path, a),
            content::file_step(root, dir, rev, path, b),
        ),
        stands(store::read_pick_step(dir, a), store::read_pick_step(dir, b)),
        stands(store::baseline_step(dir, a), store::baseline_step(dir, b)),
{
    if let Some(f) = flag {
        lemma_rev(root, f, a, b);
    }
    lemma_store(dir, rev, seq![], a, b);
    lemma_rev(root, "last(public() & ::.)"@, a, b);
    if let Next::Done(Ok(Some(pick))) = store::read_pick_step(dir, a) {
        lemma_pick(root, pick, a, b);
    }
    lemma_rev(root, rev, a, b);
    lemma_run(root, base::bookmark_args(), a, b);
    lemma_run(root, base::stack_args(), a, b);
    // Content.
    lemma_parent(root, a, b);
    lemma_content(root, rev, path, a, b);
    if let Next::Done(Some(parent)) = sl::parent_step(root, a) {
        lemma_content(root, parent, path, a, b);
    }
    if let Next::Done(Some(m)) = store::load_step(dir, rev, a) {
        lemma_content(root, m.parent, path, a, b);
        if let Some(Some(hash)) = manifest::recorded(m.files, path) {
            lemma_store(dir, rev, hash, a, b);
        }
    }
}

} // verus!
