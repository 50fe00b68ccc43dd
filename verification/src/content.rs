//! Content at a revision and merge bases, through the caches of immutable answers.

use vstd::prelude::*;
use vstd::string::*;

use crate::answers::{self, Answers, Next, Query, Question, Reply, Run, RunView, Step, Topic};
use crate::base;
use crate::cache::{self, PinnedCache};
use crate::disk;
use crate::git::{self, GitFail};
use crate::manifest;
use crate::outside;
use crate::rows;
use crate::sl;
use crate::store::{self, Places, Store};
use crate::text;

verus! {

broadcast use vstd::string::group_string_axioms;

// --- content of a commit ---------------------------------------------------------------------

pub open spec fn cat_args(rev: Seq<char>, path: Seq<char>) -> Seq<Seq<char>> {
    seq!["cat"@, "-r"@, rev, "--"@, path]
}

fn cat_words(rev: &str, path: &str) -> (args: Vec<String>)
    ensures
        args.deep_view() == cat_args(rev@, path@),
{
    let mut args: Vec<String> = Vec::new();
    args.push("cat".to_owned());
    args.push("-r".to_owned());
    args.push(rev.to_owned());
    args.push("--".to_owned());
    args.push(path.to_owned());
    assert(args.deep_view() =~= cat_args(rev@, path@));
    args
}

/// What a `sl cat` says of a file: its content, or its absence where the exit code is 1. Any other
/// exit is a failure.
pub open spec fn cat_outcome(rev: Seq<char>, path: Seq<char>, run: RunView) -> Result<
    Option<Seq<u8>>,
    Seq<char>,
> {
    match run {
        RunView::Failed(_) => Err(
            "running sl "@ + outside::debug_words(cat_args(rev, path)),
        ),
        RunView::Ended { code, stdout, stderr } => if code == Some(0i32) {
            Ok(Some(stdout))
        } else if code == Some(1i32) {
            Ok(None)
        } else {
            Err(
                "sl "@ + outside::debug_words(cat_args(rev, path)) + " failed: "@ + text::trimmed(
                    outside::lossy(stderr),
                ),
            )
        },
    }
}

/// The view of a held content.
pub open spec fn held_content(
    cache: PinnedCache<Vec<u8>>,
    rev: Seq<char>,
    path: Seq<char>,
) -> Option<Option<Seq<u8>>> {
    match cache.held(rev, path) {
        Some(c) => Some(answers::bytes_view(c)),
        None => None,
    }
}

/// The content of a file at a revision: as the cache holds it, else as `sl cat` gives it.
pub open spec fn cat_step(
    root: Seq<char>,
    rev: Seq<char>,
    path: Seq<char>,
    cache: PinnedCache<Vec<u8>>,
    a: Answers,
) -> Next<Result<Option<Seq<u8>>, Seq<char>>> {
    match held_content(cache, rev, path) {
        Some(c) => Next::Done(Ok(c)),
        None => match a.run_of(root, cat_args(rev, path)) {
            None => Next::Ask(sl::ask_run(root, cat_args(rev, path))),
            Some(run) => Next::Done(cat_outcome(rev, path, run)),
        },
    }
}

/// What a content read leaves in the cache: the answer of a command that gave one, and nothing else.
/// A full cache starts over first.
pub open spec fn content_kept(
    root: Seq<char>,
    rev: Seq<char>,
    path: Seq<char>,
    before: PinnedCache<Vec<u8>>,
    after: PinnedCache<Vec<u8>>,
    a: Answers,
) -> bool {
    match cat_step(root, rev, path, before, a) {
        Next::Done(Ok(c)) => if held_content(before, rev, path) is Some {
            after == before
        } else {
            let full = cache::contents_full(before);
            &&& held_content(after, rev, path) == Some(c)
            &&& after.count() == (if full {
                0
            } else {
                before.count()
            }) + 1
            &&& cache::total_bytes(after.answers()) == (if full {
                0
            } else {
                cache::total_bytes(before.answers())
            }) + cache::byte_count(c)
            &&& forall|x: Seq<char>, y: Seq<char>|
                x != rev || y != path ==> #[trigger] after.held(x, y) == (if full {
                    None
                } else {
                    before.held(x, y)
                })
        },
        _ => after == before,
    }
}

/// The view of a content step.
pub open spec fn content_step(step: Step<Result<Option<Vec<u8>>, GitFail>>) -> Next<
    Result<Option<Seq<u8>>, Seq<char>>,
> {
    match step {
        Step::Done(r) => Next::Done(answers::content_view(r)),
        Step::Ask(qs) => Next::Ask(qs.deep_view()),
    }
}

/// `sl cat -r <rev> <path>` through the content cache: a commit's file content never changes, so
/// that a hit can never be stale. What `sl cat` answers is held, and a failure is not.
pub fn cat_cached(
    root: &str,
    rev: &str,
    path: &str,
    cache: &mut PinnedCache<Vec<u8>>,
    answers: &Answers,
) -> (r: Step<Result<Option<Vec<u8>>, GitFail>>)
    ensures
        content_step(r) == cat_step(root@, rev@, path@, *old(cache), *answers),
        content_kept(root@, rev@, path@, *old(cache), *final(cache), *answers),
        old(cache).count() <= cache::CONTENTS ==> final(cache).count() <= cache::CONTENTS,
{
    if let Some(hit) = cache.get(rev, path) {
        return Step::Done(Ok(cache::copy_bytes(hit)));
    }
    let args = cat_words(rev, path);
    let content = match answers.run(root, &args) {
        None => {
            return Step::Ask(sl::ask_sl(root, &args));
        },
        Some(Run::Failed(_)) => {
            let mut s = "running sl ".to_owned();
            s.append(outside::debug_text(&args).as_str());
            return Step::Done(Err(GitFail(s)));
        },
        Some(Run::Ended(exit)) => {
            match exit.code {
                Some(0) => Some(vstd::slice::slice_to_vec(exit.stdout.as_slice())),
                Some(1) => None,
                _ => {
                    let stderr = outside::lossy_text(exit.stderr.as_slice());
                    let said = text::trim(stderr.as_str());
                    return Step::Done(
                        Err(GitFail(sl::complaint(&args, " failed: ", said.as_str()))),
                    );
                },
            }
        },
    };
    let copy = cache::copy_bytes(&content);
    cache.hold_content(rev, path, copy);
    Step::Done(Ok(content))
}

/// Answer the question for a file's content at a commit, through the content cache.
pub fn answer_content(q: &Query, cache: &mut PinnedCache<Vec<u8>>, answers: &Answers) -> (r: Step<
    Reply,
>)
    requires
        q.topic == Topic::Cat,
        q.words@.len() == 3,
    ensures
        ({
            let w = q.deep_view().words;
            let step = cat_step(w[0], w[1], w[2], *old(cache), *answers);
            &&& content_kept(w[0], w[1], w[2], *old(cache), *final(cache), *answers)
            &&& match r {
                Step::Ask(qs) => step == Next::<Result<Option<Seq<u8>>, Seq<char>>>::Ask(
                    qs.deep_view(),
                ),
                Step::Done(reply) => reply matches Reply::Content(c) && step == Next::Done(
                    answers::content_view(c),
                ),
            }
        }),
        old(cache).count() <= cache::CONTENTS ==> final(cache).count() <= cache::CONTENTS,
{
    match cat_cached(
        q.words[0].as_str(),
        q.words[1].as_str(),
        q.words[2].as_str(),
        cache,
        answers,
    ) {
        Step::Ask(qs) => Step::Ask(qs),
        Step::Done(c) => Step::Done(Reply::Content(c)),
    }
}

/// Whether a warm or preload has already landed `path` at `rev` in the content cache.
pub fn content_is_cached(rev: &str, path: &str, cache: &PinnedCache<Vec<u8>>) -> (b: bool)
    ensures
        b == (held_content(*cache, rev@, path@) is Some),
{
    cache.get(rev, path).is_some()
}

// --- merge bases -------------------------------------------------------------------------------

pub open spec fn ancestor_args(base: Seq<char>, parent: Seq<char>) -> Seq<Seq<char>> {
    base::log_args("ancestor("@ + base + ", "@ + parent + ")"@, "{node}"@)
}

fn ancestor_words(base_oid: &str, parent: &str) -> (args: Vec<String>)
    ensures
        args.deep_view() == ancestor_args(base_oid@, parent@),
{
    let mut revset = "ancestor(".to_owned();
    revset.append(base_oid);
    revset.append(", ");
    revset.append(parent);
    revset.append(")");
    base::log_words(revset.as_str(), "{node}")
}

/// The view of a held ancestor.
pub open spec fn held_ancestor(
    cache: PinnedCache<String>,
    base: Seq<char>,
    parent: Seq<char>,
) -> Option<Option<Seq<char>>> {
    match cache.held(base, parent) {
        Some(node) => Some(node.deep_view()),
        None => None,
    }
}

/// The merge base of a commit and the pinned parent: as the cache holds it, else as `sl log` gives
/// it. A failed command gives none.
pub open spec fn ancestor_step(
    root: Seq<char>,
    base: Seq<char>,
    parent: Seq<char>,
    cache: PinnedCache<String>,
    a: Answers,
) -> Next<Option<Seq<char>>> {
    match held_ancestor(cache, base, parent) {
        Some(node) => Next::Done(node),
        None => match sl::sl_step(root, ancestor_args(base, parent), a) {
            Next::Ask(q) => Next::Ask(q),
            Next::Done(Err(_)) => Next::Done(None),
            Next::Done(Ok(out)) => Next::Done(base::node_in(out)),
        },
    }
}

/// The merge base of a commit and the working copy.
pub open spec fn merge_base_step(
    root: Seq<char>,
    base: Seq<char>,
    cache: PinnedCache<String>,
    a: Answers,
) -> Next<Option<Seq<char>>> {
    match sl::parent_step(root, a) {
        Next::Ask(q) => Next::Ask(q),
        Next::Done(None) => Next::Done(None),
        Next::Done(Some(parent)) => ancestor_step(root, base, parent, cache, a),
    }
}

/// The parent under which a merge base was just learned, from a command that succeeded.
pub open spec fn ancestor_learned(
    root: Seq<char>,
    base: Seq<char>,
    cache: PinnedCache<String>,
    a: Answers,
) -> Option<Seq<char>> {
    match sl::parent_step(root, a) {
        Next::Done(Some(parent)) => if held_ancestor(cache, base, parent) is None && sl::sl_step(
            root,
            ancestor_args(base, parent),
            a,
        ) is Done && sl::sl_step(root, ancestor_args(base, parent), a)->Done_0 is Ok {
            Some(parent)
        } else {
            None
        },
        _ => None,
    }
}

/// What a merge-base read leaves in the cache: the answer of a command that succeeded, and nothing
/// else. A full cache starts over first.
pub open spec fn ancestor_kept(
    root: Seq<char>,
    base: Seq<char>,
    before: PinnedCache<String>,
    after: PinnedCache<String>,
    a: Answers,
) -> bool {
    match ancestor_learned(root, base, before, a) {
        None => after == before,
        Some(parent) => {
            &&& held_ancestor(after, base, parent) is Some
            &&& merge_base_step(root, base, before, a) == Next::Done(
                held_ancestor(after, base, parent)->0,
            )
            &&& after.count() == (if before.count() >= cache::ANCESTORS {
                0
            } else {
                before.count()
            }) + 1
            &&& forall|x: Seq<char>, y: Seq<char>|
                x != base || y != parent ==> #[trigger] after.held(x, y) == (if before.count()
                    >= cache::ANCESTORS {
                    None
                } else {
                    before.held(x, y)
                })
        },
    }
}

/// The merge base of `base_oid` and the working copy, through the ancestor cache. The revset names
/// the pinned parent, never `.`: the working copy can move between the pin and the command, and
/// the cache key must name what was asked. A failed command is not held, so that the next build
/// asks again.
pub fn merge_base(
    root: &str,
    base_oid: &str,
    cache: &mut PinnedCache<String>,
    answers: &Answers,
) -> (r: Step<Option<String>>)
    ensures
        r.deep_view() == merge_base_step(root@, base_oid@, *old(cache), *answers),
        ancestor_kept(root@, base_oid@, *old(cache), *final(cache), *answers),
        old(cache).count() <= cache::ANCESTORS ==> final(cache).count() <= cache::ANCESTORS,
{
    let parent = match sl::parent_rev(root, answers) {
        Step::Ask(q) => {
            return Step::Ask(q);
        },
        Step::Done(None) => {
            return Step::Done(None);
        },
        Step::Done(Some(parent)) => parent,
    };
    if let Some(hit) = cache.get(base_oid, parent.as_str()) {
        return Step::Done(hit.clone());
    }
    match sl::sl(root, &ancestor_words(base_oid, parent.as_str()), answers) {
        Step::Ask(q) => Step::Ask(q),
        Step::Done(Err(_)) => Step::Done(None),
        Step::Done(Ok(out)) => {
            let node = base::find_node(out.as_str());
            cache.hold_ancestor(base_oid, parent.as_str(), node.clone());
            Step::Done(node)
        },
    }
}

/// Why no merge base can be told, where that is a failed command: what the command complained of.
pub open spec fn failed_ancestor(
    root: Seq<char>,
    base: Seq<char>,
    cache: PinnedCache<String>,
    a: Answers,
) -> Option<Seq<char>> {
    match sl::parent_step(root, a) {
        Next::Done(Some(parent)) => if held_ancestor(cache, base, parent) is Some {
            None
        } else {
            match sl::sl_step(root, ancestor_args(base, parent), a) {
                Next::Done(Err(e)) => Some(e),
                _ => None,
            }
        },
        _ => None,
    }
}

/// Why `merge_base` gives no commit on these answers, where that is a failed command. A command that
/// failed gives none and leaves the cache as it was.
pub fn merge_base_failure(
    root: &str,
    base_oid: &str,
    cache: &PinnedCache<String>,
    answers: &Answers,
) -> (r: Option<String>)
    ensures
        r.deep_view() == failed_ancestor(root@, base_oid@, *cache, *answers),
        r is Some ==> merge_base_step(root@, base_oid@, *cache, *answers) == Next::Done(
            None::<Seq<char>>,
        ),
{
    let parent = match sl::parent_rev(root, answers) {
        Step::Done(Some(parent)) => parent,
        _ => {
            return None;
        },
    };
    if cache.get(base_oid, parent.as_str()).is_some() {
        return None;
    }
    match sl::sl(root, &ancestor_words(base_oid, parent.as_str()), answers) {
        Step::Done(Err(e)) => Some(e.0),
        _ => None,
    }
}

/// Answer the question for the merge base of a commit and the working copy, through the ancestor
/// cache.
pub fn answer_ancestor(q: &Query, cache: &mut PinnedCache<String>, answers: &Answers) -> (r: Step<
    Reply,
>)
    requires
        q.topic == Topic::MergeBase,
        q.words@.len() == 2,
    ensures
        ({
            let w = q.deep_view().words;
            let step = merge_base_step(w[0], w[1], *old(cache), *answers);
            &&& ancestor_kept(w[0], w[1], *old(cache), *final(cache), *answers)
            &&& match r {
                Step::Ask(qs) => step == Next::<Option<Seq<char>>>::Ask(qs.deep_view()),
                Step::Done(reply) => reply matches Reply::Rev(rev) && step == Next::Done(
                    rev.deep_view(),
                ),
            }
        }),
        old(cache).count() <= cache::ANCESTORS ==> final(cache).count() <= cache::ANCESTORS,
{
    match merge_base(q.words[0].as_str(), q.words[1].as_str(), cache, answers) {
        Step::Ask(qs) => Step::Ask(qs),
        Step::Done(rev) => Step::Done(Reply::Rev(rev)),
    }
}

// --- content at any revision -----------------------------------------------------------------------

/// The text of a content; an absent or failed one is empty.
pub open spec fn text_of(content: Option<Seq<u8>>) -> Seq<char> {
    match content {
        Some(bytes) => outside::lossy(bytes),
        None => seq![],
    }
}

/// The text of a file at a commit.
pub open spec fn cat_text_step(root: Seq<char>, rev: Seq<char>, path: Seq<char>, a: Answers) -> Next<
    Seq<char>,
> {
    match rows::content_or_none(a.content_of(root, rev, path)) {
        None => Next::Ask(answers::one(Topic::Cat, seq![root, rev, path])),
        Some(content) => Next::Done(text_of(content)),
    }
}

/// The text of a file at a revision: a turn baseline reads the store, `.` reads the working-copy
/// parent, and anything else is a commit. A file that is absent there is empty.
pub open spec fn file_step(
    root: Seq<char>,
    dir: Seq<char>,
    rev: Seq<char>,
    path: Seq<char>,
    a: Answers,
) -> Next<Seq<char>> {
    if manifest::SNAP_PREFIX@.is_prefix_of(rev) {
        match store::load_step(dir, rev, a) {
            Next::Ask(q) => Next::Ask(q),
            Next::Done(None) => Next::Done(seq![]),
            Next::Done(Some(m)) => match manifest::recorded(m.files, path) {
                Some(Some(hash)) => match store::blob_step(dir, hash, a) {
                    Next::Ask(q) => Next::Ask(q),
                    Next::Done(blob) => Next::Done(text_of(blob)),
                },
                Some(None) => Next::Done(seq![]),
                None => cat_text_step(root, m.parent, path, a),
            },
        }
    } else if rev == "."@ {
        match sl::parent_step(root, a) {
            Next::Ask(q) => Next::Ask(q),
            Next::Done(None) => Next::Done(seq![]),
            Next::Done(Some(parent)) => cat_text_step(root, parent, path, a),
        }
    } else {
        cat_text_step(root, rev, path, a)
    }
}

fn empty_text() -> (s: String)
    ensures
        s@ == Seq::<char>::empty(),
{
    let s = String::new();
    assert(s@ =~= Seq::<char>::empty());
    s
}

/// The text of a file at a commit; an absent or failed one is empty.
fn cat_lossy(root: &str, rev: &str, path: &str, answers: &Answers) -> (r: Step<String>)
    ensures
        r.deep_view() == cat_text_step(root@, rev@, path@, *answers),
{
    match rows::content_at(root, rev, path, answers) {
        None => Step::Ask(answers::ask_one(Topic::Cat, answers::words3(root, rev, path))),
        Some(Some(bytes)) => Step::Done(outside::lossy_text(bytes.as_slice())),
        Some(None) => Step::Done(empty_text()),
    }
}

/// The content of `path` at `rev`, empty when absent there. `rev` is `.`, a pinned node, or a
/// `snap:` turn-baseline id. `.` is pinned before the cache, whose key would go stale with the next
/// commit.
pub fn file_content(root: &str, rev: &str, path: &str, places: &Places, answers: &Answers) -> (r:
    Step<String>)
    ensures
        r.deep_view() == file_step(
            root@,
            store::store_dir(places.base(), root@),
            rev@,
            path@,
            *answers,
        ),
{
    if text::has_prefix(rev, manifest::SNAP_PREFIX) {
        let store = Store::open(root, places);
        return match store.load_manifest(rev, answers) {
            Step::Ask(q) => Step::Ask(q),
            Step::Done(None) => Step::Done(empty_text()),
            Step::Done(Some(m)) => match m.get(path) {
                Some(Some(hash)) => match store.read_blob(hash.as_str(), answers) {
                    Step::Ask(q) => Step::Ask(q),
                    Step::Done(Some(bytes)) => Step::Done(outside::lossy_text(bytes.as_slice())),
                    Step::Done(None) => Step::Done(empty_text()),
                },
                Some(None) => Step::Done(empty_text()),
                None => cat_lossy(root, m.parent.as_str(), path, answers),
            },
        };
    }
    if text::same(rev, ".") {
        return match sl::parent_rev(root, answers) {
            Step::Ask(q) => Step::Ask(q),
            Step::Done(None) => Step::Done(empty_text()),
            Step::Done(Some(parent)) => cat_lossy(root, parent.as_str(), path, answers),
        };
    }
    cat_lossy(root, rev, path, answers)
}

/// A read whose text is not wanted.
pub open spec fn read_step(step: Next<Seq<char>>) -> Next<()> {
    match step {
        Next::Ask(q) => Next::Ask(q),
        Next::Done(_) => Next::Done(()),
    }
}

/// Read one file's content into the content cache ahead of its being opened.
pub fn warm_content(root: &str, rev: &str, path: &str, places: &Places, answers: &Answers) -> (r:
    Step<()>)
    ensures
        r.deep_view() == read_step(
            file_step(root@, store::store_dir(places.base(), root@), rev@, path@, *answers),
        ),
{
    match file_content(root, rev, path, places, answers) {
        Step::Ask(q) => Step::Ask(q),
        Step::Done(_) => Step::Done(()),
    }
}

// --- spelling rules ---------------------------------------------------------------------------------

/// Sapling's abbreviated commit id: twelve hex digits.
pub open spec fn node_abbreviation(oid: Seq<char>) -> Seq<char> {
    git::first_chars(oid, 12)
}

/// Sapling's abbreviated commit id: twelve hex digits.
pub fn abbreviate_node(oid: &str) -> (r: String)
    ensures
        r@ == node_abbreviation(oid@),
{
    git::leading(oid, 12)
}

/// A hash prefix completes to its whole node; any other spelling stands. A short prefix is often
/// ambiguous in a monorepo, and an ambiguous pick goes dormant.
pub fn complete_pick_spelling(spelling: &str, oid: &str) -> (r: String)
    ensures
        r@ == (if git::sha_prefix(spelling@, oid@) {
            oid@
        } else {
            spelling@
        }),
{
    if git::spelling_is_sha_prefix(spelling, oid) {
        oid.to_owned()
    } else {
        spelling.to_owned()
    }
}

// --- what the caches keep -------------------------------------------------------------------------

/// What a repository holds at each revision and path.
pub type Contents = spec_fn(Seq<char>, Seq<char>) -> Option<Seq<u8>>;

/// Whether every content that the cache holds is the repository's.
pub open spec fn contents_true(cache: PinnedCache<Vec<u8>>, world: Contents) -> bool {
    forall|rev: Seq<char>, path: Seq<char>|
        (#[trigger] held_content(cache, rev, path)) is Some ==> held_content(cache, rev, path)
            == Some(world(rev, path))
}

/// A commit's content never changes, so that the content cache changes no answer: where `sl cat`
/// tells what the repository holds and the cache holds nothing else, a read ends in what the
/// repository holds, and the cache still holds nothing else. After a read that gave a content, the
/// cache holds it.
pub proof fn law_content_cache_changes_no_answer(
    root: Seq<char>,
    rev: Seq<char>,
    path: Seq<char>,
    before: PinnedCache<Vec<u8>>,
    after: PinnedCache<Vec<u8>>,
    world: Contents,
    a: Answers,
)
    requires
        contents_true(before, world),
        a.run_of(root, cat_args(rev, path)) matches Some(run) ==> (cat_outcome(
            rev,
            path,
            run,
        ) matches Ok(c) ==> c == world(rev, path)),
        content_kept(root, rev, path, before, after, a),
    ensures
        cat_step(root, rev, path, before, a) matches Next::Done(Ok(c)) ==> {
            &&& c == world(rev, path)
            &&& held_content(after, rev, path) is Some
        },
        contents_true(after, world),
{
    assert forall|x: Seq<char>, y: Seq<char>| (#[trigger] held_content(
        after,
        x,
        y,
    )) is Some implies held_content(after, x, y) == Some(world(x, y)) by {
        if after != before && (x != rev || y != path) {
            assert(after.held(x, y) == before.held(x, y) || after.held(x, y) is None);
            assert(held_content(before, x, y) == held_content(after, x, y));
        } else {
            assert(held_content(before, x, y) is Some ==> held_content(before, x, y) == Some(
                world(x, y),
            ));
        }
    }
    assert(held_content(before, rev, path) is Some ==> held_content(before, rev, path) == Some(
        world(rev, path),
    ));
}

/// The merge base of each two commits.
pub type Ancestors = spec_fn(Seq<char>, Seq<char>) -> Option<Seq<char>>;

/// Whether every merge base that the cache holds is the repository's.
pub open spec fn ancestors_true(cache: PinnedCache<String>, world: Ancestors) -> bool {
    forall|base: Seq<char>, parent: Seq<char>|
        (#[trigger] held_ancestor(cache, base, parent)) is Some ==> held_ancestor(
            cache,
            base,
            parent,
        ) == Some(world(base, parent))
}

/// The ancestor of two pinned commits never changes, so that the ancestor cache changes no answer
/// and a failed command leaves it as it was: the next build asks again.
pub proof fn law_ancestor_cache_changes_no_answer(
    root: Seq<char>,
    base: Seq<char>,
    parent: Seq<char>,
    before: PinnedCache<String>,
    after: PinnedCache<String>,
    world: Ancestors,
    a: Answers,
)
    requires
        sl::parent_step(root, a) == Next::Done(Some(parent)),
        ancestors_true(before, world),
        sl::sl_step(root, ancestor_args(base, parent), a) matches Next::Done(Ok(out)) ==> base::node_in(
            out,
        ) == world(base, parent),
        ancestor_kept(root, base, before, after, a),
    ensures
        ancestors_true(after, world),
        held_ancestor(before, base, parent) is Some ==> merge_base_step(root, base, before, a)
            == Next::Done(world(base, parent)),
        sl::sl_step(root, ancestor_args(base, parent), a) matches Next::Done(Ok(_))
            ==> merge_base_step(root, base, before, a) == Next::Done(world(base, parent))
            && held_ancestor(after, base, parent) is Some,
        sl::sl_step(root, ancestor_args(base, parent), a) matches Next::Done(Err(_)) ==> after
            == before,
{
    assert forall|x: Seq<char>, y: Seq<char>| (#[trigger] held_ancestor(
        after,
        x,
        y,
    )) is Some implies held_ancestor(after, x, y) == Some(world(x, y)) by {
        if after != before && (x != base || y != parent) {
            assert(after.held(x, y) == before.held(x, y) || after.held(x, y) is None);
            assert(held_ancestor(before, x, y) == held_ancestor(after, x, y));
        } else {
            assert(held_ancestor(before, x, y) is Some ==> held_ancestor(before, x, y) == Some(
                world(x, y),
            ));
        }
    }
    assert(held_ancestor(before, base, parent) is Some ==> held_ancestor(before, base, parent)
        == Some(world(base, parent)));
}

// --- what is read ----------------------------------------------------------------------------------

/// A content is what `sl cat` prints of that very revision and path, in the repository. Until that
/// command ran, it is what is asked; its output is the content where it succeeded, exit code 1 says
/// that the file is absent there, and any other end is an error. What the cache holds under the
/// revision and the path is what is given. Two files ask two commands.
pub proof fn law_content_is_what_cat_prints(
    root: Seq<char>,
    rev: Seq<char>,
    path: Seq<char>,
    rev2: Seq<char>,
    path2: Seq<char>,
    cache: PinnedCache<Vec<u8>>,
    after: PinnedCache<Vec<u8>>,
    a: Answers,
)
    ensures
        ({
            let words = seq![root, "cat"@, "-r"@, rev, "--"@, path];
            let other = seq![root, "cat"@, "-r"@, rev2, "--"@, path2];
            let end = cat_step(root, rev, path, cache, a);
            &&& cache.held(rev, path) is None ==> (match a.reply(Topic::Run, words) {
                Some(Reply::Run(Run::Ended(exit))) => {
                    &&& exit.code == Some(0i32) ==> end == Next::<
                        Result<Option<Seq<u8>>, Seq<char>>,
                    >::Done(Ok(Some(exit.stdout@)))
                    &&& exit.code == Some(1i32) ==> end == Next::<
                        Result<Option<Seq<u8>>, Seq<char>>,
                    >::Done(Ok(None))
                    &&& exit.code != Some(0i32) && exit.code != Some(1i32) ==> end == Next::<
                        Result<Option<Seq<u8>>, Seq<char>>,
                    >::Done(
                        Err(
                            "sl "@ + outside::debug_words(words.skip(1)) + " failed: "@
                                + text::trimmed(outside::lossy(exit.stderr@)),
                        ),
                    )
                },
                Some(Reply::Run(Run::Failed(_))) => end == Next::<
                    Result<Option<Seq<u8>>, Seq<char>>,
                >::Done(Err("running sl "@ + outside::debug_words(words.skip(1)))),
                _ => end == Next::<Result<Option<Seq<u8>>, Seq<char>>>::Ask(
                    seq![Question { topic: Topic::Run, words, acts: seq![] }],
                ),
            })
            &&& cache.held(rev, path) matches Some(kept) ==> end == Next::<
                Result<Option<Seq<u8>>, Seq<char>>,
            >::Done(
                Ok(
                    match kept {
                        Some(bytes) => Some(bytes@),
                        None => None,
                    },
                ),
            )
            &&& words == other ==> rev == rev2 && path == path2
            &&& content_kept(root, rev, path, cache, after, a) && cache.held(rev, path) is None ==> (
            match a.reply(Topic::Run, words) {
                Some(Reply::Run(Run::Ended(exit))) => {
                    &&& exit.code == Some(0i32) ==> (after.held(rev, path) matches Some(Some(bytes))
                        && bytes@ == exit.stdout@)
                    &&& exit.code == Some(1i32) ==> after.held(rev, path) == Some(None::<Vec<u8>>)
                    &&& exit.code != Some(0i32) && exit.code != Some(1i32) ==> after == cache
                },
                _ => after == cache,
            })
        }),
{
    let words = seq![root, "cat"@, "-r"@, rev, "--"@, path];
    let other = seq![root, "cat"@, "-r"@, rev2, "--"@, path2];
    assert(seq![root] + cat_args(rev, path) =~= words);
    assert(words.skip(1) =~= cat_args(rev, path));
    if words == other {
        assert(words[3] == other[3] && words[5] == other[5]);
    }
}

/// Where the text of a file is read. At a turn baseline it is the stored content of a file that was
/// dirty then, nothing of one that was absent, and the content at the baseline's parent of any
/// other; at `.` it is the content at the working-copy parent; anywhere else it is the content at
/// that very commit. Absent and unreadable contents are empty.
pub proof fn law_file_text_is_read_at_its_revision(
    root: Seq<char>,
    dir: Seq<char>,
    rev: Seq<char>,
    path: Seq<char>,
    m: manifest::ManifestView,
    i: int,
    a: Answers,
)
    ensures
        ({
            let end = file_step(root, dir, rev, path, a);
            let at = |commit: Seq<char>|
                match a.reply(Topic::Cat, seq![root, commit, path]) {
                    Some(Reply::Content(Ok(Some(bytes)))) => Next::Done(outside::lossy(bytes@)),
                    Some(Reply::Content(_)) => Next::Done(Seq::<char>::empty()),
                    _ => Next::Ask(
                        seq![
                            Question {
                                topic: Topic::Cat,
                                words: seq![root, commit, path],
                                acts: seq![],
                            },
                        ],
                    ),
                };
            let turn = "snap:"@.is_prefix_of(rev);
            &&& !turn && rev != "."@ ==> end == at(rev)
            &&& rev == "."@ ==> (match sl::parent_step(root, a) {
                Next::Ask(q) => end == Next::<Seq<char>>::Ask(q),
                Next::Done(None) => end == Next::Done(Seq::<char>::empty()),
                Next::Done(Some(parent)) => end == at(parent),
            })
            &&& turn && store::load_step(dir, rev, a) == Next::Done(None::<manifest::ManifestView>)
                ==> end == Next::Done(Seq::<char>::empty())
            &&& turn && store::load_step(dir, rev, a) == Next::Done(Some(m)) ==> {
                &&& (forall|k: int| 0 <= k < m.files.len() ==> (#[trigger] m.files[k]).0 != path)
                    ==> end == at(m.parent)
                &&& 0 <= i < m.files.len() && m.files[i].0 == path && (forall|k: int|
                    0 <= k < i ==> (#[trigger] m.files[k]).0 != path) ==> (match m.files[i].1 {
                    None => end == Next::Done(Seq::<char>::empty()),
                    Some(hash) => text::all_hex(hash) ==> (match a.reply(
                        Topic::StoreBytes,
                        seq![disk::joined(disk::joined(dir, "blobs"@), hash)],
                    ) {
                        Some(Reply::Bytes(Some(bytes))) => end == Next::Done(
                            outside::lossy(bytes@),
                        ),
                        Some(Reply::Bytes(None)) => end == Next::Done(Seq::<char>::empty()),
                        _ => end == Next::<Seq<char>>::Ask(
                            seq![
                                Question {
                                    topic: Topic::StoreBytes,
                                    words: seq![disk::joined(disk::joined(dir, "blobs"@), hash)],
                                    acts: seq![],
                                },
                            ],
                        ),
                    }),
                })
            }
        }),
{
    reveal_strlit("snap:");
    reveal_strlit(".");
    if rev == "."@ {
        assert(rev.len() == 1);
    }
    manifest::lemma_recorded(m.files, path);
    if 0 <= i < m.files.len() && m.files[i].0 == path && (forall|k: int|
        0 <= k < i ==> (#[trigger] m.files[k]).0 != path) {
        lemma_first_recorded(m.files, path, i);
    }
}

proof fn lemma_first_recorded(
    files: Seq<(Seq<char>, Option<Seq<char>>)>,
    path: Seq<char>,
    i: int,
)
    requires
        0 <= i < files.len(),
        files[i].0 == path,
        forall|k: int| 0 <= k < i ==> (#[trigger] files[k]).0 != path,
    ensures
        manifest::recorded(files, path) == Some(files[i].1),
    decreases i,
{
    if i > 0 {
        assert(files[0].0 != path);
        let rest = files.skip(1);
        assert forall|k: int| 0 <= k < i - 1 implies (#[trigger] rest[k]).0 != path by {
            assert(rest[k] == files[k + 1]);
        }
        lemma_first_recorded(rest, path, i - 1);
    }
}

/// The merge base of a commit and the working copy is what `sl log` prints of their ancestor, with
/// the working-copy parent by its node: the trimmed output, or none where it is blank. What is held
/// of the two is given as it is; a failed command gives none and holds nothing.
pub proof fn law_merge_base_is_the_printed_ancestor(
    root: Seq<char>,
    base: Seq<char>,
    parent: Seq<char>,
    cache: PinnedCache<String>,
    after: PinnedCache<String>,
    a: Answers,
)
    requires
        sl::parent_step(root, a) == Next::Done(Some(parent)),
        ancestor_kept(root, base, cache, after, a),
    ensures
        ({
            let words = seq![
                root,
                "log"@,
                "-r"@,
                "ancestor("@ + base + ", "@ + parent + ")"@,
                "-T"@,
                "{node}"@,
            ];
            let end = merge_base_step(root, base, cache, a);
            match cache.held(base, parent) {
                Some(kept) => {
                    &&& end == Next::Done(
                        match kept {
                            Some(node) => Some(node@),
                            None => None,
                        },
                    )
                    &&& after == cache
                },
                None => match a.reply(Topic::Run, words) {
                    Some(Reply::Run(Run::Ended(exit))) => {
                        let node = text::trimmed(outside::lossy(exit.stdout@));
                        if exit.code == Some(0i32) {
                            &&& end == Next::Done(
                                if node.len() == 0 {
                                    None
                                } else {
                                    Some(node)
                                },
                            )
                            &&& after.held(base, parent) is Some
                            &&& (after.held(base, parent)->0).deep_view() == (if node.len() == 0 {
                                None
                            } else {
                                Some(node)
                            })
                        } else {
                            end == Next::Done(None::<Seq<char>>) && after == cache
                        }
                    },
                    Some(Reply::Run(Run::Failed(_))) => end == Next::Done(None::<Seq<char>>)
                        && after == cache,
                    _ => end == Next::<Option<Seq<char>>>::Ask(
                        seq![Question { topic: Topic::Run, words, acts: seq![] }],
                    ) && after == cache,
                },
            }
        }),
{
    let words = seq![
        root,
        "log"@,
        "-r"@,
        "ancestor("@ + base + ", "@ + parent + ")"@,
        "-T"@,
        "{node}"@,
    ];
    assert(seq![root] + ancestor_args(base, parent) =~= words);
}

/// Without a working-copy parent there is no merge base.
pub proof fn law_no_parent_no_merge_base(
    root: Seq<char>,
    base: Seq<char>,
    cache: PinnedCache<String>,
    after: PinnedCache<String>,
    a: Answers,
)
    requires
        sl::parent_step(root, a) == Next::Done(None::<Seq<char>>),
        ancestor_kept(root, base, cache, after, a),
    ensures
        merge_base_step(root, base, cache, a) == Next::Done(None::<Seq<char>>),
        after == cache,
{
}

/// A read keeps what the cache held of other files and of other merge bases, as long as the cache has
/// room; one without room starts over with what was read.
pub proof fn law_caches_keep_the_others(
    root: Seq<char>,
    rev: Seq<char>,
    path: Seq<char>,
    x: Seq<char>,
    y: Seq<char>,
    contents: PinnedCache<Vec<u8>>,
    contents_after: PinnedCache<Vec<u8>>,
    ancestors: PinnedCache<String>,
    ancestors_after: PinnedCache<String>,
    a: Answers,
)
    requires
        content_kept(root, rev, path, contents, contents_after, a),
        ancestor_kept(root, rev, ancestors, ancestors_after, a),
    ensures
        x != rev || y != path ==> contents_after.held(x, y) == contents.held(x, y) || (
        contents_after.held(x, y) is None && (contents.count() >= 256 || cache::total_bytes(
            contents.answers(),
        ) >= 64 * 1024 * 1024)),
        x != rev || y != path ==> contents.held(x, y) is None ==> contents_after.held(x, y) is None,
        contents_after.count() <= contents.count() + 1,
        x != rev || sl::parent_step(root, a) != Next::Done(Some(y)) ==> ancestors_after.held(x, y)
            == ancestors.held(x, y) || (ancestors_after.held(x, y) is None && ancestors.count()
            >= 128),
        ancestors_after.count() <= ancestors.count() + 1,
{
}

/// Why there is no merge base, where the command failed: it is the failed command's complaint, and
/// where anything else tells the answer there is no complaint.
pub proof fn law_merge_base_failure_is_the_complaint(
    root: Seq<char>,
    base: Seq<char>,
    parent: Seq<char>,
    cache: PinnedCache<String>,
    a: Answers,
)
    requires
        sl::parent_step(root, a) == Next::Done(Some(parent)),
    ensures
        ({
            let args = seq![
                "log"@,
                "-r"@,
                "ancestor("@ + base + ", "@ + parent + ")"@,
                "-T"@,
                "{node}"@,
            ];
            let why = failed_ancestor(root, base, cache, a);
            if cache.held(base, parent) is Some {
                why is None
            } else {
                match a.reply(Topic::Run, seq![root] + args) {
                    Some(Reply::Run(Run::Failed(_))) => why == Some(
                        "running sl "@ + outside::debug_words(args),
                    ),
                    Some(Reply::Run(Run::Ended(exit))) => why == (if exit.code == Some(0i32) {
                        None
                    } else {
                        Some(
                            "sl "@ + outside::debug_words(args) + " failed: "@ + text::trimmed(
                                outside::lossy(exit.stderr@),
                            ),
                        )
                    }),
                    _ => why is None,
                }
            }
        }),
{
    let args = seq![
        "log"@,
        "-r"@,
        "ancestor("@ + base + ", "@ + parent + ")"@,
        "-T"@,
        "{node}"@,
    ];
    assert(ancestor_args(base, parent) =~= args);
}

/// The caches are bounded: of merge bases they hold at most 128, and of contents at most 256, where
/// they did before; 64 MiB of contents, or that number of entries, start them over. The bytes of the
/// contents are those of each together, and an absent one has none.
pub proof fn law_caches_are_bounded(
    contents: PinnedCache<Vec<u8>>,
    held: Seq<Option<Vec<u8>>>,
    more: Option<Vec<u8>>,
)
    ensures
        cache::total_bytes(seq![]) == 0,
        cache::total_bytes(held.push(more)) == cache::total_bytes(held) + (match more {
            Some(bytes) => bytes@.len(),
            None => 0,
        }),
        cache::ANCESTORS == 128,
        cache::CONTENTS == 256,
        cache::CONTENT_BYTES == 64 * 1024 * 1024,
        cache::contents_full(contents) <==> contents.count() >= 256 || cache::total_bytes(
            contents.answers(),
        ) >= 64 * 1024 * 1024,
{
    assert(held.push(more).drop_last() =~= held);
}

} // verus!
