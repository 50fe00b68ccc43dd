//! What the store's plans do to the files on disk: what survives a crash, what reads back, and what
//! a prune leaves.

use vstd::prelude::*;
use vstd::string::*;
use vstd::utf8::*;

use crate::answers::{Answers, IoFail, Mtime, Next, TextView, Topic};
use crate::content;
use crate::disk::{self, Act, Disk};
use crate::manifest::{self, ManifestView};
use crate::store::{self, PendingView};
use crate::text;

verus! {

broadcast use {vstd::string::group_string_axioms, vstd::utf8::group_utf8_lib};

// --- plans in pieces -------------------------------------------------------------------------

/// A plan in two parts is the second part behind the first.
pub proof fn lemma_after_parts(files: Disk, xs: Seq<Act>, ys: Seq<Act>)
    ensures
        disk::after_acts(files, xs + ys) == disk::after_acts(disk::after_acts(files, xs), ys),
    decreases ys.len(),
{
    if ys.len() == 0 {
        assert(xs + ys =~= xs);
    } else {
        assert((xs + ys).drop_last() =~= xs + ys.drop_last());
        lemma_after_parts(files, xs, ys.drop_last());
    }
}

/// Whether a path is as it was.
pub open spec fn same_at(before: Disk, after: Disk, path: Seq<char>) -> bool {
    &&& before.contains_key(path) == after.contains_key(path)
    &&& before.contains_key(path) ==> after[path] == before[path]
}

/// Whether a path is one of a temporary file.
pub open spec fn temporary(path: Seq<char>) -> bool {
    path.len() >= 4 && path.skip(path.len() - 4) == ".tmp"@
}

/// Whether a path holds a content.
pub open spec fn holds(files: Disk, path: Seq<char>, content: Seq<u8>) -> bool {
    files.contains_key(path) && files[path] == content
}

/// A part of an atomic write touches only its temporary file, and at the end its target.
proof fn lemma_atomic(
    files: Disk,
    dir: Seq<char>,
    parent: Seq<char>,
    name: Seq<char>,
    content: Seq<u8>,
    k: int,
)
    requires
        0 <= k <= 3,
        !temporary(disk::joined(parent, name)),
        temporary(disk::joined(parent, disk::tmp_name(name))),
    ensures
        ({
            let after = disk::after_acts(files, store::atomic(dir, parent, name, content).take(k));
            let path = disk::joined(parent, name);
            &&& forall|q: Seq<char>| !temporary(q) && q != path ==> #[trigger] same_at(files, after, q)
            &&& k < 3 ==> same_at(files, after, path)
            &&& k == 3 ==> holds(after, path, content)
        }),
{
    let acts = store::atomic(dir, parent, name, content);
    let tmp = disk::joined(parent, disk::tmp_name(name));
    let path = disk::joined(parent, name);
    assert(acts.take(0) =~= seq![]);
    assert(acts.take(1).drop_last() =~= acts.take(0));
    assert(acts.take(2).drop_last() =~= acts.take(1));
    assert(acts.take(3).drop_last() =~= acts.take(2));
    let d0 = disk::after_acts(files, acts.take(0));
    let d1 = disk::after_acts(files, acts.take(1));
    let d2 = disk::after_acts(files, acts.take(2));
    let d3 = disk::after_acts(files, acts.take(3));
    assert(d0 == files);
    assert(d1 == files);
    assert(d2 == files.insert(tmp, content));
    assert(d3 == d2.remove(tmp).insert(path, content));
}

// --- the paths of a store --------------------------------------------------------------------

/// A path relative to a directory.
spec fn under(dir: Seq<char>, rest: Seq<char>) -> Seq<char> {
    disk::joined(dir, seq![]) + rest
}

proof fn lemma_under(dir: Seq<char>, name: Seq<char>)
    requires
        name.len() > 0 ==> name[0] != '/',
    ensures
        disk::joined(dir, name) == under(dir, name),
{
    assert(disk::joined(dir, name) =~= under(dir, name));
}

proof fn lemma_under_tells(dir: Seq<char>, a: Seq<char>, b: Seq<char>)
    ensures
        under(dir, a) == under(dir, b) ==> a == b,
{
    let head = disk::joined(dir, seq![]);
    assert(under(dir, a).skip(head.len() as int) =~= a);
    assert(under(dir, b).skip(head.len() as int) =~= b);
}

/// What stands in a directory of the store.
proof fn lemma_inside(dir: Seq<char>, sub: Seq<char>, name: Seq<char>)
    requires
        sub.len() > 0,
        sub[0] != '/',
        sub.last() != '/',
        name.len() > 0 ==> name[0] != '/',
    ensures
        disk::joined(disk::joined(dir, sub), name) == under(dir, sub + seq!['/'] + name),
{
    lemma_under(dir, sub);
    assert(disk::joined(dir, sub).last() == sub.last());
    assert(disk::joined(disk::joined(dir, sub), name) =~= under(dir, sub + seq!['/'] + name));
}

proof fn lemma_no_dot(name: Seq<char>)
    requires
        forall|i: int| 0 <= i < name.len() ==> #[trigger] name[i] != '.',
    ensures
        disk::last_dot(name) is None,
    decreases name.len(),
{
    if name.len() > 1 {
        assert(name.last() == name[name.len() - 1]);
        assert forall|i: int| 0 <= i < name.drop_last().len() implies #[trigger] name.drop_last()[i]
            != '.' by {
            assert(name.drop_last()[i] == name[i]);
        }
        lemma_no_dot(name.drop_last());
    }
}

proof fn lemma_ends_in_tmp(path: Seq<char>, stem: Seq<char>)
    requires
        path == stem + ".tmp"@,
    ensures
        temporary(path),
{
    reveal_strlit(".tmp");
    assert(path.skip(path.len() - 4) =~= ".tmp"@);
}

/// A path that ends in another letter is none of a temporary file.
proof fn lemma_not_tmp(path: Seq<char>)
    requires
        path.len() > 0 ==> path.last() != 'p',
    ensures
        !temporary(path),
{
    reveal_strlit(".tmp");
    if temporary(path) {
        assert(path.skip(path.len() - 4)[3] == ".tmp"@[3]);
        assert(path.last() == path.skip(path.len() - 4)[3]);
    }
}

/// The path of the blob under a hash.
pub open spec fn blob_path(dir: Seq<char>, hash: Seq<char>) -> Seq<char> {
    disk::joined(store::blobs_at(dir), hash)
}

/// Blob paths: each hash has its own, none is the pointer's or a manifest's, none is temporary.
proof fn lemma_blob_path(dir: Seq<char>, hash: Seq<char>)
    requires
        text::all_hex(hash),
    ensures
        blob_path(dir, hash) == under(dir, "blobs"@ + seq!['/'] + hash),
        !temporary(blob_path(dir, hash)),
        temporary(disk::joined(store::blobs_at(dir), disk::tmp_name(hash))),
{
    reveal_strlit("blobs");
    reveal_strlit(".tmp");
    assert forall|i: int| 0 <= i < hash.len() implies #[trigger] hash[i] != '.' && hash[i] != '/'
        && hash[i] != 'p' by {
        assert(text::is_hex_digit(hash[i]));
    }
    lemma_inside(dir, "blobs"@, hash);
    let path = blob_path(dir, hash);
    assert(path.last() == (if hash.len() > 0 {
        hash.last()
    } else {
        '/'
    }));
    lemma_not_tmp(path);
    lemma_no_dot(hash);
    let tmp = disk::tmp_name(hash);
    assert(tmp == hash + ".tmp"@);
    assert(tmp[0] == (if hash.len() > 0 {
        hash[0]
    } else {
        '.'
    }));
    lemma_inside(dir, "blobs"@, tmp);
    let at = disk::joined(store::blobs_at(dir), tmp);
    assert(at =~= under(dir, "blobs"@ + seq!['/'] + hash) + ".tmp"@);
    lemma_ends_in_tmp(at, under(dir, "blobs"@ + seq!['/'] + hash));
}

/// The manifest's path: none of the pointer's or a blob's, and not temporary.
proof fn lemma_snap_path(dir: Seq<char>, id: Seq<char>)
    requires
        store::snap_name(id) is Some,
    ensures
        ({
            let name = store::snap_name(id)->0;
            let path = disk::joined(store::snaps_at(dir), name);
            &&& path == under(dir, "snaps"@ + seq!['/'] + name)
            &&& !temporary(path)
            &&& temporary(disk::joined(store::snaps_at(dir), disk::tmp_name(name)))
        }),
{
    reveal_strlit("snaps");
    reveal_strlit(".json");
    reveal_strlit(".tmp");
    let hex = text::after_prefix(id, manifest::SNAP_PREFIX@)->0;
    let name = store::snap_name(id)->0;
    assert(name == hex + ".json"@);
    assert forall|i: int| 0 <= i < hex.len() implies #[trigger] hex[i] != '.' && hex[i] != '/' by {
        assert(text::is_hex_digit(hex[i]));
    }
    assert(name[0] == (if hex.len() > 0 {
        hex[0]
    } else {
        '.'
    }));
    lemma_inside(dir, "snaps"@, name);
    let path = disk::joined(store::snaps_at(dir), name);
    assert(path.last() == ".json"@[4]);
    lemma_not_tmp(path);
    // The temporary file's name.
    let tmp = disk::tmp_name(name);
    reveal_with_fuel(disk::last_dot, 6);
    let n5 = name;
    let n4 = n5.drop_last();
    let n3 = n4.drop_last();
    let n2 = n3.drop_last();
    let n1 = n2.drop_last();
    assert(n1 =~= hex.push('.'));
    if hex.len() > 0 {
        assert(disk::last_dot(n1) == Some(hex.len()));
        assert(n2.last() == 'j' && n3.last() == 's' && n4.last() == 'o' && n5.last() == 'n');
        assert(disk::last_dot(name) == Some(hex.len()));
        assert(name.take(hex.len() as int) =~= hex);
        assert(tmp == hex + ".tmp"@);
    } else {
        assert(disk::last_dot(n1) is None);
        assert(n2.last() == 'j' && n3.last() == 's' && n4.last() == 'o' && n5.last() == 'n');
        assert(disk::last_dot(name) is None);
        assert(tmp == name + ".tmp"@);
    }
    let stem = if hex.len() > 0 {
        hex
    } else {
        name
    };
    assert(tmp[0] == stem[0]);
    lemma_inside(dir, "snaps"@, tmp);
    let at = disk::joined(store::snaps_at(dir), tmp);
    assert(at =~= under(dir, "snaps"@ + seq!['/'] + stem) + ".tmp"@);
    lemma_ends_in_tmp(at, under(dir, "snaps"@ + seq!['/'] + stem));
}

/// The paths of the pointer and the pick: not temporary, and neither is the other.
proof fn lemma_top_paths(dir: Seq<char>)
    ensures
        store::baseline_at(dir) == under(dir, "baseline"@),
        store::pick_at(dir) == under(dir, "base-pick"@),
        !temporary(store::baseline_at(dir)),
        !temporary(store::pick_at(dir)),
        store::baseline_at(dir) != store::pick_at(dir),
        temporary(disk::joined(dir, disk::tmp_name("baseline"@))),
        temporary(disk::joined(dir, disk::tmp_name("base-pick"@))),
{
    reveal_strlit("baseline");
    reveal_strlit("base-pick");
    reveal_strlit(".tmp");
    lemma_under(dir, "baseline"@);
    lemma_under(dir, "base-pick"@);
    lemma_under_tells(dir, "baseline"@, "base-pick"@);
    assert("baseline"@.len() != "base-pick"@.len());
    assert(store::baseline_at(dir).last() == 'e');
    assert(store::pick_at(dir).last() == 'k');
    lemma_not_tmp(store::baseline_at(dir));
    lemma_not_tmp(store::pick_at(dir));
    assert forall|i: int| 0 <= i < "baseline"@.len() implies #[trigger] "baseline"@[i] != '.' by {}
    assert forall|i: int| 0 <= i < "base-pick"@.len() implies #[trigger] "base-pick"@[i] != '.' by {}
    lemma_no_dot("baseline"@);
    lemma_no_dot("base-pick"@);
    lemma_under(dir, disk::tmp_name("baseline"@));
    lemma_under(dir, disk::tmp_name("base-pick"@));
    assert(under(dir, disk::tmp_name("baseline"@)) =~= under(dir, "baseline"@) + ".tmp"@);
    assert(under(dir, disk::tmp_name("base-pick"@)) =~= under(dir, "base-pick"@) + ".tmp"@);
    lemma_ends_in_tmp(under(dir, disk::tmp_name("baseline"@)), under(dir, "baseline"@));
    lemma_ends_in_tmp(under(dir, disk::tmp_name("base-pick"@)), under(dir, "base-pick"@));
}

/// A blob's path is neither the pointer's nor a manifest's.
proof fn lemma_apart(dir: Seq<char>, hash: Seq<char>, id: Seq<char>)
    requires
        text::all_hex(hash),
        store::snap_name(id) is Some,
    ensures
        blob_path(dir, hash) != store::baseline_at(dir),
        blob_path(dir, hash) != store::manifest_at(dir, id)->0,
        store::manifest_at(dir, id)->0 != store::baseline_at(dir),
{
    reveal_strlit("blobs");
    reveal_strlit("snaps");
    reveal_strlit("baseline");
    lemma_blob_path(dir, hash);
    lemma_snap_path(dir, id);
    lemma_top_paths(dir);
    let b = "blobs"@ + seq!['/'] + hash;
    let s = "snaps"@ + seq!['/'] + store::snap_name(id)->0;
    assert(b[0] == 'b' && b[1] == 'l');
    assert(s[0] == 's');
    assert("baseline"@[0] == 'b' && "baseline"@[1] == 'a');
    lemma_under_tells(dir, b, "baseline"@);
    lemma_under_tells(dir, b, s);
    lemma_under_tells(dir, s, "baseline"@);
}

// --- persisting ------------------------------------------------------------------------------

/// Whether a pending snapshot can be persisted: its id is well formed, and its contents stand under
/// hashes, one content under each.
pub open spec fn persistable(p: PendingView) -> bool {
    &&& store::snap_name(p.id) is Some
    &&& forall|i: int| 0 <= i < p.blobs.len() ==> text::all_hex(#[trigger] p.blobs[i].0)
    &&& one_each(p.blobs)
}

/// Whether no two contents stand under one hash.
pub open spec fn one_each(blobs: Seq<(Seq<char>, Seq<u8>)>) -> bool {
    forall|i: int, j: int|
        0 <= i < j < blobs.len() ==> #[trigger] blobs[i].0 != #[trigger] blobs[j].0
}

/// Whether what already stands at the paths of a pending snapshot is what it would write: the store
/// is addressed by content.
pub open spec fn addressed(files: Disk, dir: Seq<char>, p: PendingView) -> bool {
    &&& blobs_addressed(files, dir, p.blobs)
    &&& files.contains_key(store::manifest_at(dir, p.id)->0) ==> files[store::manifest_at(
        dir,
        p.id,
    )->0] == encode_utf8(manifest::canonical_text(p.manifest))
}

pub open spec fn blobs_addressed(
    files: Disk,
    dir: Seq<char>,
    blobs: Seq<(Seq<char>, Seq<u8>)>,
) -> bool {
    forall|i: int|
        0 <= i < blobs.len() && files.contains_key(blob_path(dir, #[trigger] blobs[i].0))
            ==> files[blob_path(dir, blobs[i].0)] == blobs[i].1
}

/// Whether all the contents are in place.
pub open spec fn blobs_in_place(
    files: Disk,
    dir: Seq<char>,
    blobs: Seq<(Seq<char>, Seq<u8>)>,
) -> bool {
    forall|i: int|
        0 <= i < blobs.len() ==> holds(files, blob_path(dir, #[trigger] blobs[i].0), blobs[i].1)
}

/// Whether a snapshot is the live baseline, with its manifest and its contents in place.
pub open spec fn complete(files: Disk, dir: Seq<char>, p: PendingView) -> bool {
    &&& holds(files, store::baseline_at(dir), encode_utf8(p.id))
    &&& holds(
        files,
        store::manifest_at(dir, p.id)->0,
        encode_utf8(manifest::canonical_text(p.manifest)),
    )
    &&& blobs_in_place(files, dir, p.blobs)
}

/// Whether every file but the temporary ones, and but those at `path`, is as it was.
pub open spec fn kept_but(before: Disk, after: Disk, path: Seq<char>) -> bool {
    forall|q: Seq<char>|
        !temporary(q) && q != path && before.contains_key(q) ==> #[trigger] holds(
            after,
            q,
            before[q],
        )
}

proof fn lemma_blob_acts_len(dir: Seq<char>, blobs: Seq<(Seq<char>, Seq<u8>)>)
    ensures
        store::blob_acts(dir, blobs).len() == 3 * blobs.len(),
    decreases blobs.len(),
{
    if blobs.len() > 0 {
        lemma_blob_acts_len(dir, blobs.drop_last());
    }
}

/// What a part of the blob writes does.
proof fn lemma_blobs(files: Disk, dir: Seq<char>, blobs: Seq<(Seq<char>, Seq<u8>)>, k: int)
    requires
        forall|i: int| 0 <= i < blobs.len() ==> text::all_hex(#[trigger] blobs[i].0),
        one_each(blobs),
        blobs_addressed(files, dir, blobs),
        0 <= k <= 3 * blobs.len(),
    ensures
        ({
            let after = disk::after_acts(files, store::blob_acts(dir, blobs).take(k));
            &&& forall|q: Seq<char>|
                !temporary(q) && (forall|i: int|
                    0 <= i < blobs.len() ==> q != blob_path(dir, #[trigger] blobs[i].0))
                    ==> #[trigger] same_at(files, after, q)
            &&& forall|q: Seq<char>|
                !temporary(q) && files.contains_key(q) ==> #[trigger] holds(after, q, files[q])
            &&& blobs_addressed(after, dir, blobs)
            &&& k == 3 * blobs.len() ==> blobs_in_place(after, dir, blobs)
        }),
    decreases blobs.len(),
{
    let acts = store::blob_acts(dir, blobs);
    lemma_blob_acts_len(dir, blobs);
    let after = disk::after_acts(files, acts.take(k));
    if blobs.len() == 0 {
        assert(acts.take(k) =~= seq![]);
        assert(after == files);
    } else {
        let rest = blobs.drop_last();
        let last = blobs.last();
        let done = store::blob_acts(dir, rest);
        let block = store::atomic(dir, store::blobs_at(dir), last.0, last.1);
        lemma_blob_acts_len(dir, rest);
        assert(acts =~= done + block);
        assert forall|i: int| 0 <= i < rest.len() implies text::all_hex(#[trigger] rest[i].0) by {
            assert(rest[i] == blobs[i]);
        }
        assert(one_each(rest)) by {
            assert forall|i: int, j: int| 0 <= i < j < rest.len() implies #[trigger] rest[i].0
                != #[trigger] rest[j].0 by {
                assert(rest[i] == blobs[i] && rest[j] == blobs[j]);
            }
        }
        assert(blobs_addressed(files, dir, rest)) by {
            assert forall|i: int|
                0 <= i < rest.len() && files.contains_key(
                    blob_path(dir, #[trigger] rest[i].0),
                ) implies files[blob_path(dir, rest[i].0)] == rest[i].1 by {
                assert(rest[i] == blobs[i]);
            }
        }
        assert(last == blobs[blobs.len() - 1]);
        lemma_blob_path(dir, last.0);
        let path = blob_path(dir, last.0);
        let n = 3 * rest.len() as int;
        let k1 = if k <= n {
            k
        } else {
            n
        };
        let j = k - k1;
        lemma_blobs(files, dir, rest, k1);
        let mid = disk::after_acts(files, done.take(k1));
        assert(acts.take(k) =~= done.take(k1) + block.take(j));
        lemma_after_parts(files, done.take(k1), block.take(j));
        lemma_atomic(mid, dir, store::blobs_at(dir), last.0, last.1, j);
        // The last hash is none of the others.
        assert forall|i: int| 0 <= i < rest.len() implies blob_path(dir, #[trigger] rest[i].0)
            != path && !temporary(blob_path(dir, rest[i].0)) by {
            assert(rest[i] == blobs[i]);
            lemma_blob_path(dir, rest[i].0);
            lemma_under_tells(
                dir,
                "blobs"@ + seq!['/'] + rest[i].0,
                "blobs"@ + seq!['/'] + last.0,
            );
            let x = "blobs"@ + seq!['/'] + rest[i].0;
            let y = "blobs"@ + seq!['/'] + last.0;
            assert(x.skip("blobs"@.len() as int + 1) =~= rest[i].0);
            assert(y.skip("blobs"@.len() as int + 1) =~= last.0);
        }
        assert(same_at(files, mid, path));
        assert forall|q: Seq<char>|
            !temporary(q) && (forall|i: int|
                0 <= i < blobs.len() ==> q != blob_path(
                    dir,
                    #[trigger] blobs[i].0,
                )) implies #[trigger] same_at(files, after, q) by {
            assert forall|i: int| 0 <= i < rest.len() implies q != blob_path(
                dir,
                #[trigger] rest[i].0,
            ) by {
                assert(rest[i] == blobs[i]);
            }
            assert(same_at(files, mid, q));
            assert(q != path);
            assert(same_at(mid, after, q));
        }
        assert forall|q: Seq<char>|
            !temporary(q) && files.contains_key(q) implies #[trigger] holds(
            after,
            q,
            files[q],
        ) by {
            assert(holds(mid, q, files[q]));
            if q != path {
                assert(same_at(mid, after, q));
            }
        }
        assert forall|i: int|
            0 <= i < blobs.len() && after.contains_key(
                blob_path(dir, #[trigger] blobs[i].0),
            ) implies after[blob_path(dir, blobs[i].0)] == blobs[i].1 by {
            if i < rest.len() {
                assert(rest[i] == blobs[i]);
                assert(same_at(mid, after, blob_path(dir, rest[i].0)));
            } else if j < 3 {
                assert(same_at(mid, after, path));
            }
        }
        if k == 3 * blobs.len() {
            assert forall|i: int| 0 <= i < blobs.len() implies holds(
                after,
                blob_path(dir, #[trigger] blobs[i].0),
                blobs[i].1,
            ) by {
                if i < rest.len() {
                    assert(rest[i] == blobs[i]);
                    assert(holds(mid, blob_path(dir, rest[i].0), rest[i].1));
                    assert(same_at(mid, after, blob_path(dir, rest[i].0)));
                }
            }
        }
    }
}

/// A crash anywhere in a persist leaves a live baseline: the pointer is as it was, or the new
/// baseline is complete. No file but a temporary one and the pointer is lost or changed, so that
/// the previous baseline keeps its manifest and its contents. A persist that stopped before its end
/// leaves the pointer as it was; one that ran to its end leaves the new baseline complete.
pub proof fn law_persist_survives_a_crash(files: Disk, dir: Seq<char>, p: PendingView, k: int)
    requires
        persistable(p),
        addressed(files, dir, p),
        0 <= k <= store::persist_acts(dir, p).len(),
    ensures
        ({
            let after = disk::after_acts(files, store::persist_acts(dir, p).take(k));
            &&& same_at(files, after, store::baseline_at(dir)) || complete(after, dir, p)
            &&& kept_but(files, after, store::baseline_at(dir))
            &&& k < store::persist_acts(dir, p).len() ==> same_at(
                files,
                after,
                store::baseline_at(dir),
            )
            &&& k == store::persist_acts(dir, p).len() ==> complete(after, dir, p)
        }),
{
    let acts = store::persist_acts(dir, p);
    let dirs = seq![
        Act::CreateDirs(store::blobs_at(dir)),
        Act::CreateDirs(store::snaps_at(dir)),
    ];
    let blobs = store::blob_acts(dir, p.blobs);
    let name = store::snap_name(p.id)->0;
    let json = encode_utf8(manifest::canonical_text(p.manifest));
    let one = store::atomic(dir, store::snaps_at(dir), name, json);
    let two = store::atomic(dir, dir, "baseline"@, encode_utf8(p.id));
    let pointer = store::baseline_at(dir);
    let snap = store::manifest_at(dir, p.id)->0;
    lemma_blob_acts_len(dir, p.blobs);
    let n = 3 * p.blobs.len() as int;
    assert(acts =~= dirs + blobs + (one + two));
    // The parts that ran.
    let k0 = if k <= 2 {
        k
    } else {
        2
    };
    let k1 = if k - k0 <= n {
        k - k0
    } else {
        n
    };
    let k2 = if k - k0 - k1 <= 3 {
        k - k0 - k1
    } else {
        3
    };
    let k3 = k - k0 - k1 - k2;
    assert(acts.take(k) =~= ((dirs.take(k0) + blobs.take(k1)) + one.take(k2)) + two.take(k3));
    lemma_after_parts(files, (dirs.take(k0) + blobs.take(k1)) + one.take(k2), two.take(k3));
    lemma_after_parts(files, dirs.take(k0) + blobs.take(k1), one.take(k2));
    lemma_after_parts(files, dirs.take(k0), blobs.take(k1));
    // Creating directories touches no file.
    assert(dirs.take(0) =~= seq![]);
    assert(dirs.take(1).drop_last() =~= dirs.take(0));
    assert(dirs.take(2).drop_last() =~= dirs.take(1));
    assert(disk::after_acts(files, dirs.take(0)) == files);
    assert(disk::after_acts(files, dirs.take(1)) == files);
    assert(disk::after_acts(files, dirs.take(2)) == files);
    assert(disk::after_acts(files, dirs.take(k0)) == files);
    let d1 = disk::after_acts(files, blobs.take(k1));
    let d2 = disk::after_acts(d1, one.take(k2));
    let d3 = disk::after_acts(d2, two.take(k3));
    let after = disk::after_acts(files, acts.take(k));
    assert(after == d3);
    lemma_blobs(files, dir, p.blobs, k1);
    lemma_snap_path(dir, p.id);
    lemma_top_paths(dir);
    lemma_atomic(d1, dir, store::snaps_at(dir), name, json, k2);
    lemma_atomic(d2, dir, dir, "baseline"@, encode_utf8(p.id), k3);
    assert forall|i: int| 0 <= i < p.blobs.len() implies blob_path(dir, #[trigger] p.blobs[i].0)
        != pointer && blob_path(dir, p.blobs[i].0) != snap && !temporary(
        blob_path(dir, p.blobs[i].0),
    ) by {
        lemma_apart(dir, p.blobs[i].0, p.id);
        lemma_blob_path(dir, p.blobs[i].0);
    }
    assert(snap != pointer) by {
        reveal_strlit("snaps");
        reveal_strlit("baseline");
        let s = "snaps"@ + seq!['/'] + name;
        assert(s[0] == 's');
        lemma_under_tells(dir, s, "baseline"@);
    }
    // The pointer and the manifest before their turn.
    assert(same_at(files, d1, pointer));
    assert(same_at(files, d1, snap));
    assert(same_at(d1, d2, pointer));
    assert(same_at(d2, d3, snap));
    if k3 < 3 {
        assert(same_at(d2, d3, pointer));
    }
    assert forall|q: Seq<char>|
        !temporary(q) && q != pointer && files.contains_key(q) implies #[trigger] holds(
        after,
        q,
        files[q],
    ) by {
        assert(holds(d1, q, files[q]));
        if q == snap {
            if k2 < 3 {
                assert(same_at(d1, d2, q));
            }
        } else {
            assert(same_at(d1, d2, q));
        }
        assert(same_at(d2, d3, q));
    }
    if k3 == 3 {
        assert(holds(d3, pointer, encode_utf8(p.id)));
        assert(holds(d2, snap, json));
        assert forall|i: int| 0 <= i < p.blobs.len() implies holds(
            d3,
            blob_path(dir, #[trigger] p.blobs[i].0),
            p.blobs[i].1,
        ) by {
            let q = blob_path(dir, p.blobs[i].0);
            assert(holds(d1, q, p.blobs[i].1));
            assert(same_at(d1, d2, q));
            assert(same_at(d2, d3, q));
        }
    }
}

// --- reading back --------------------------------------------------------------------------------

/// Whether the answers were read off these files: a text, a manifest and a content read as what was
/// written, and a file that is not there reads as missing.
pub open spec fn read_off(a: Answers, files: Disk) -> bool {
    &&& forall|path: Seq<char>, t: Seq<char>|
        files.contains_key(path) && files[path] == #[trigger] encode_utf8(t)
            && #[trigger] a.store_text_of(path) is Some ==> a.store_text_of(path) == Some(
            TextView::Text(t),
        )
    &&& forall|path: Seq<char>|
        !files.contains_key(path) && #[trigger] a.store_text_of(path) is Some
            ==> a.store_text_of(path) == Some(TextView::Missing)
    &&& forall|path: Seq<char>, m: ManifestView|
        files.contains_key(path) && files[path] == encode_utf8(#[trigger] manifest::canonical_text(m))
            && #[trigger] a.manifest_of(path) is Some ==> a.manifest_of(path) == Some(Some(m))
    &&& forall|path: Seq<char>|
        !files.contains_key(path) && #[trigger] a.manifest_of(path) is Some ==> a.manifest_of(path)
            == Some(None::<ManifestView>)
    &&& forall|path: Seq<char>|
        #[trigger] a.bytes_of(Topic::StoreBytes, path) is Some ==> a.bytes_of(
            Topic::StoreBytes,
            path,
        ) == Some(
            if files.contains_key(path) {
                Some(files[path])
            } else {
                None
            },
        )
}

/// Whether a read that is done ended in `value`.
pub open spec fn ends_in<T>(next: Next<T>, value: T) -> bool {
    next matches Next::Done(r) ==> r == value
}

proof fn lemma_id_is_trimmed(id: Seq<char>)
    requires
        store::snap_name(id) is Some,
    ensures
        text::trimmed(id) == id,
{
    reveal_strlit("snap:");
    let hex = text::after_prefix(id, manifest::SNAP_PREFIX@)->0;
    assert(id[0] == manifest::SNAP_PREFIX@[0]);
    if hex.len() > 0 {
        assert(id.last() == hex.last());
        assert(text::is_hex_digit(hex[hex.len() - 1]));
    } else {
        assert(id.len() == 5);
        assert(id[4] == manifest::SNAP_PREFIX@[4]);
    }
    assert(text::trim_start(id) == id);
    assert(text::trim_end(id) == id);
}

/// A persisted snapshot reads back: as the live baseline, with its manifest, with each content
/// under its hash, and with each dirty file's content at the baseline. A file that was absent reads
/// as empty.
pub proof fn law_persisted_baseline_reads_back(
    files: Disk,
    root: Seq<char>,
    dir: Seq<char>,
    p: PendingView,
    a: Answers,
)
    requires
        persistable(p),
        complete(files, dir, p),
        read_off(a, files),
    ensures
        ends_in(store::baseline_step(dir, a), Some(p.id)),
        ends_in(store::load_step(dir, p.id, a), Some(p.manifest)),
        forall|i: int|
            0 <= i < p.blobs.len() ==> ends_in(
                store::blob_step(dir, #[trigger] p.blobs[i].0, a),
                Some(p.blobs[i].1),
            ),
        forall|i: int, path: Seq<char>|
            0 <= i < p.blobs.len() && manifest::recorded(p.manifest.files, path) == Some(
                Some(#[trigger] p.blobs[i].0),
            ) ==> ends_in(
                #[trigger] content::file_step(root, dir, p.id, path, a),
                content::text_of(Some(p.blobs[i].1)),
            ),
        forall|path: Seq<char>|
            manifest::recorded(p.manifest.files, path) == Some(None::<Seq<char>>) ==> ends_in(
                #[trigger] content::file_step(root, dir, p.id, path, a),
                Seq::<char>::empty(),
            ),
{
    lemma_id_is_trimmed(p.id);
    let snap = store::manifest_at(dir, p.id)->0;
    let pointer = store::baseline_at(dir);
    assert(files[pointer] == encode_utf8(p.id));
    assert(a.store_text_of(pointer) is Some ==> a.store_text_of(pointer) == Some(
        TextView::Text(p.id),
    ));
    assert(files[snap] == encode_utf8(manifest::canonical_text(p.manifest)));
    assert(a.manifest_of(snap) is Some ==> a.manifest_of(snap) == Some(Some(p.manifest)));
    assert forall|i: int| 0 <= i < p.blobs.len() implies ends_in(
        store::blob_step(dir, #[trigger] p.blobs[i].0, a),
        Some(p.blobs[i].1),
    ) by {
        let path = blob_path(dir, p.blobs[i].0);
        assert(holds(files, path, p.blobs[i].1));
        assert(a.bytes_of(Topic::StoreBytes, path) is Some ==> a.bytes_of(Topic::StoreBytes, path)
            == Some(Some(files[path])));
    }
    assert(manifest::SNAP_PREFIX@.is_prefix_of(p.id));
}

/// Whether two readings, each off its own disk, agree on every file that both disks hold alike.
pub open spec fn reads_alike(a: Answers, files: Disk, b: Answers, after: Disk) -> bool {
    &&& forall|path: Seq<char>|
        files.contains_key(path) && holds(after, path, files[path]) && a.store_text_of(path) is Some
            && #[trigger] b.store_text_of(path) is Some ==> b.store_text_of(path)
            == a.store_text_of(path)
    &&& forall|path: Seq<char>|
        files.contains_key(path) && holds(after, path, files[path]) && a.manifest_of(path) is Some
            && #[trigger] b.manifest_of(path) is Some ==> b.manifest_of(path) == a.manifest_of(path)
    &&& forall|path: Seq<char>|
        files.contains_key(path) && holds(after, path, files[path]) && a.bytes_of(
            Topic::StoreBytes,
            path,
        ) is Some && #[trigger] b.bytes_of(Topic::StoreBytes, path) is Some ==> b.bytes_of(
            Topic::StoreBytes,
            path,
        ) == a.bytes_of(Topic::StoreBytes, path)
}

/// A persist that fails is an error, and leaves the previous baseline as it was: read again, it is
/// still the live baseline, with the same manifest and the same contents. The step that failed may
/// have left anything in its temporary file.
pub proof fn law_failed_persist_keeps_the_previous_baseline(
    files: Disk,
    after: Disk,
    dir: Seq<char>,
    p: PendingView,
    fail: IoFail,
    id: Seq<char>,
    m: ManifestView,
    a: Answers,
    before: Answers,
    later: Answers,
)
    requires
        persistable(p),
        addressed(files, dir, p),
        a.disk_of(store::persist_words(dir, p.id)) == Some(Err::<(), IoFail>(fail)),
        fail.at < store::persist_acts(dir, p).len(),
        forall|q: Seq<char>|
            !temporary(q) ==> #[trigger] same_at(
                disk::after_acts(files, store::persist_acts(dir, p).take(fail.at as int)),
                after,
                q,
            ),
        read_off(before, files),
        reads_alike(before, files, later, after),
        store::baseline_step(dir, before) == Next::Done(Some(id)),
        store::load_step(dir, id, before) == Next::Done(Some(m)),
    ensures
        store::persist_step(dir, p, a) == Next::<Result<(), Seq<char>>>::Done(
            Err(store::persist_context(p, fail.at as int)),
        ),
        ends_in(store::baseline_step(dir, later), Some(id)),
        ends_in(store::load_step(dir, id, later), Some(m)),
        forall|hash: Seq<char>|
            store::blob_step(dir, hash, before) matches Next::Done(Some(bytes)) ==> ends_in(
                #[trigger] store::blob_step(dir, hash, later),
                Some(bytes),
            ),
{
    reveal_strlit("snaps");
    reveal_strlit("blobs");
    reveal_strlit("baseline");
    let mid = disk::after_acts(files, store::persist_acts(dir, p).take(fail.at as int));
    let pointer = store::baseline_at(dir);
    let snap = store::manifest_at(dir, id)->0;
    law_persist_survives_a_crash(files, dir, p, fail.at as int);
    lemma_top_paths(dir);
    lemma_snap_path(dir, id);
    let s = "snaps"@ + seq!['/'] + store::snap_name(id)->0;
    assert(s[0] == 's');
    lemma_under_tells(dir, s, "baseline"@);
    assert(same_at(mid, after, pointer));
    assert(same_at(mid, after, snap));
    assert(files.contains_key(pointer));
    assert(files.contains_key(snap));
    assert(holds(mid, snap, files[snap]));
    assert(holds(after, pointer, files[pointer]));
    assert(holds(after, snap, files[snap]));
    assert(later.store_text_of(pointer) is Some ==> later.store_text_of(pointer)
        == before.store_text_of(pointer));
    assert(later.manifest_of(snap) is Some ==> later.manifest_of(snap) == before.manifest_of(snap));
    assert forall|hash: Seq<char>|
        store::blob_step(dir, hash, before) is Done && store::blob_step(
            dir,
            hash,
            before,
        )->Done_0 is Some implies ends_in(
        #[trigger] store::blob_step(dir, hash, later),
        store::blob_step(dir, hash, before)->Done_0,
    ) by {
        let path = blob_path(dir, hash);
        lemma_blob_path(dir, hash);
        let x = "blobs"@ + seq!['/'] + hash;
        assert(x[0] == 'b' && x[1] == 'l');
        lemma_under_tells(dir, x, "baseline"@);
        assert(same_at(mid, after, path));
        assert(holds(mid, path, files[path]));
        assert(holds(after, path, files[path]));
    }
}

/// A recorded pick reads back as what its text says, and nothing but the pick and a temporary file
/// is touched. Cleared, it reads as no pick.
pub proof fn law_pick_reads_back(files: Disk, dir: Seq<char>, name: Seq<char>, a: Answers, b: Answers)
    requires
        read_off(
            a,
            disk::after_acts(files, store::atomic(dir, dir, "base-pick"@, encode_utf8(name))),
        ),
        read_off(b, disk::after_acts(files, seq![Act::Remove(store::pick_at(dir))])),
    ensures
        ends_in(store::read_pick_step(dir, a), Ok(store::pick_in(name))),
        ends_in(store::read_pick_step(dir, b), Ok(None)),
        kept_but(
            files,
            disk::after_acts(files, store::atomic(dir, dir, "base-pick"@, encode_utf8(name))),
            store::pick_at(dir),
        ),
        kept_but(
            files,
            disk::after_acts(files, seq![Act::Remove(store::pick_at(dir))]),
            store::pick_at(dir),
        ),
{
    let acts = store::atomic(dir, dir, "base-pick"@, encode_utf8(name));
    lemma_top_paths(dir);
    lemma_atomic(files, dir, dir, "base-pick"@, encode_utf8(name), 3);
    assert(acts.take(3) =~= acts);
    let written = disk::after_acts(files, acts);
    assert(holds(written, store::pick_at(dir), encode_utf8(name)));
    assert(written[store::pick_at(dir)] == encode_utf8(name));
    assert forall|q: Seq<char>|
        !temporary(q) && q != store::pick_at(dir) && files.contains_key(q) implies #[trigger] holds(
        written,
        q,
        files[q],
    ) by {
        assert(same_at(files, written, q));
    }
    let act = Act::Remove(store::pick_at(dir));
    let cleared = disk::after_acts(files, seq![act]);
    assert(seq![act].drop_last() =~= seq![]);
    assert(disk::after_acts(files, Seq::<Act>::empty()) == files);
    assert(cleared == files.remove(store::pick_at(dir)));
    assert(!cleared.contains_key(store::pick_at(dir)));
}

// --- pruning -------------------------------------------------------------------------------------

proof fn lemma_age_place(files: Seq<(Seq<char>, Mtime)>, at: Mtime)
    ensures
        store::age_place(files, at) <= files.len(),
        forall|i: int|
            0 <= i < store::age_place(files, at) ==> !store::later(at, (#[trigger] files[i]).1),
        store::age_place(files, at) < files.len() ==> store::later(
            at,
            files[store::age_place(files, at) as int].1,
        ),
    decreases files.len(),
{
    if files.len() > 0 && !store::later(at, files[0].1) {
        lemma_age_place(files.skip(1), at);
        assert forall|i: int| 0 <= i < store::age_place(files, at) implies !store::later(
            at,
            (#[trigger] files[i]).1,
        ) by {
            if i > 0 {
                assert(files[i] == files.skip(1)[i - 1]);
            }
        }
    }
}

/// Whether files stand newest first.
pub open spec fn newest_first(files: Seq<(Seq<char>, Mtime)>) -> bool {
    forall|i: int, j: int|
        0 <= i < j < files.len() ==> !store::later((#[trigger] files[j]).1, (#[trigger] files[i]).1)
}

/// The files but one, by age: newest first, each of the others and nothing else.
proof fn lemma_by_age(files: Seq<(Seq<char>, Mtime)>, keep: Seq<char>)
    ensures
        newest_first(store::by_age(files, keep)),
        forall|f: (Seq<char>, Mtime)| #[trigger]
            store::by_age(files, keep).contains(f) <==> files.contains(f) && f.0 != keep,
    decreases files.len(),
{
    let out = store::by_age(files, keep);
    if files.len() > 0 {
        let rest = files.drop_last();
        let done = store::by_age(rest, keep);
        let last = files.last();
        lemma_by_age(rest, keep);
        assert(files =~= rest.push(last));
        assert forall|f: (Seq<char>, Mtime)| files.contains(f) <==> rest.contains(f) || f == last by {
            if rest.contains(f) {
                let i = choose|i: int| 0 <= i < rest.len() && rest[i] == f;
                assert(files[i] == f);
            }
            if files.contains(f) {
                let i = choose|i: int| 0 <= i < files.len() && files[i] == f;
                if i < rest.len() {
                    assert(rest[i] == f);
                }
            }
            assert(files[files.len() - 1] == last);
        }
        if last.0 != keep {
            let k = store::age_place(done, last.1) as int;
            lemma_age_place(done, last.1);
            assert(out == done.insert(k, last));
            assert forall|f: (Seq<char>, Mtime)| #[trigger] out.contains(f) <==> done.contains(f)
                || f == last by {
                if done.contains(f) {
                    let i = choose|i: int| 0 <= i < done.len() && done[i] == f;
                    if i < k {
                        assert(out[i] == f);
                    } else {
                        assert(out[i + 1] == f);
                    }
                }
                if out.contains(f) {
                    let i = choose|i: int| 0 <= i < out.len() && out[i] == f;
                    if i < k {
                        assert(done[i] == f);
                    } else if i > k {
                        assert(done[i - 1] == f);
                    }
                }
                assert(out[k] == last);
            }
            assert forall|i: int, j: int| 0 <= i < j < out.len() implies !store::later(
                (#[trigger] out[j]).1,
                (#[trigger] out[i]).1,
            ) by {
                let x = if i < k {
                    i
                } else {
                    i - 1
                };
                let y = if j < k {
                    j
                } else {
                    j - 1
                };
                if i == k {
                    assert(store::later(last.1, done[k].1));
                    if y > k {
                        assert(!store::later(done[y].1, done[k].1));
                    }
                } else if j == k {
                    assert(!store::later(last.1, done[x].1));
                } else {
                    assert(out[i] == done[x] && out[j] == done[y]);
                }
            }
        }
    }
}

/// A prune keeps the newest baseline and the most recent few of the others: it never removes
/// `keep`, it removes only files that are listed, and no file it keeps among the others is older
/// than one it removes. It removes the rest: what it keeps of the others is a bounded tail.
pub proof fn law_prune_keeps_a_recent_tail(files: Seq<(Seq<char>, Mtime)>, keep: Seq<char>)
    ensures
        ({
            let others = store::by_age(files, keep);
            let gone = store::expired(files, keep);
            let tail = others.take(others.len() - gone.len());
            &&& forall|i: int|
                0 <= i < gone.len() ==> (#[trigger] gone[i]).0 != keep && files.contains(gone[i])
            &&& forall|f: (Seq<char>, Mtime)|
                files.contains(f) && f.0 != keep ==> #[trigger] tail.contains(f) || gone.contains(f)
            &&& tail.len() <= store::KEPT_MANIFESTS
            &&& gone.len() > 0 ==> tail.len() == store::KEPT_MANIFESTS
            &&& forall|i: int, j: int|
                0 <= i < tail.len() && 0 <= j < gone.len() ==> !store::later(
                    (#[trigger] gone[j]).1,
                    (#[trigger] tail[i]).1,
                )
        }),
{
    let others = store::by_age(files, keep);
    let gone = store::expired(files, keep);
    let n = others.len() - gone.len();
    let tail = others.take(n);
    lemma_by_age(files, keep);
    assert forall|i: int| 0 <= i < gone.len() implies (#[trigger] gone[i]).0 != keep
        && files.contains(gone[i]) by {
        assert(gone[i] == others[n + i]);
        assert(others.contains(gone[i]));
    }
    assert forall|f: (Seq<char>, Mtime)|
        files.contains(f) && f.0 != keep implies #[trigger] tail.contains(f) || gone.contains(f) by {
        assert(others.contains(f));
        let i = choose|i: int| 0 <= i < others.len() && others[i] == f;
        if i < n {
            assert(tail[i] == f);
        } else {
            assert(gone[i - n] == f);
        }
    }
    assert forall|i: int, j: int|
        0 <= i < tail.len() && 0 <= j < gone.len() implies !store::later(
        (#[trigger] gone[j]).1,
        (#[trigger] tail[i]).1,
    ) by {
        assert(gone[j] == others[n + j]);
        assert(tail[i] == others[i]);
    }
}

/// A blob is removed exactly when no manifest refers to it, so that every live baseline keeps its
/// contents.
pub proof fn law_prune_keeps_live_blobs(ms: Seq<ManifestView>, names: Seq<Seq<char>>, name: Seq<char>)
    ensures
        store::dead_blobs(ms, names).contains(name) <==> names.contains(name) && !store::live(
            ms,
            name,
        ),
    decreases names.len(),
{
    let dead = store::dead_blobs(ms, names);
    if names.len() > 0 {
        let rest = names.drop_last();
        let done = store::dead_blobs(ms, rest);
        let last = names.last();
        law_prune_keeps_live_blobs(ms, rest, name);
        if names.contains(name) {
            let i = choose|i: int| 0 <= i < names.len() && names[i] == name;
            if i < rest.len() {
                assert(rest[i] == name);
            }
        }
        if rest.contains(name) {
            let i = choose|i: int| 0 <= i < rest.len() && rest[i] == name;
            assert(names[i] == name);
        }
        assert(names[names.len() - 1] == last);
        if !store::live(ms, last) {
            if done.contains(name) {
                let i = choose|i: int| 0 <= i < done.len() && done[i] == name;
                assert(dead[i] == name);
            }
            if dead.contains(name) {
                let i = choose|i: int| 0 <= i < dead.len() && dead[i] == name;
                if i < done.len() {
                    assert(done[i] == name);
                }
            }
            assert(dead[dead.len() - 1] == last);
        }
    }
}

/// What a list of removals does.
proof fn lemma_removals(files: Disk, dir: Seq<char>, names: Seq<Seq<char>>, path: Seq<char>)
    requires
        forall|i: int|
            0 <= i < names.len() ==> path != disk::joined(dir, #[trigger] names[i]),
    ensures
        same_at(files, disk::after_acts(files, store::removals(dir, names)), path),
    decreases names.len(),
{
    let acts = store::removals(dir, names);
    if names.len() > 0 {
        let rest = names.drop_last();
        assert(acts.drop_last() =~= store::removals(dir, rest));
        assert forall|i: int| 0 <= i < rest.len() implies path != disk::joined(
            dir,
            #[trigger] rest[i],
        ) by {
            assert(rest[i] == names[i]);
        }
        lemma_removals(files, dir, rest, path);
        assert(acts.last() == Act::Remove(disk::joined(dir, names[names.len() - 1])));
    }
}

/// Whether every name is one of a file in its directory.
pub open spec fn plain(names: Seq<Seq<char>>) -> bool {
    forall|i: int|
        0 <= i < names.len() ==> (#[trigger] names[i]).len() > 0 && names[i][0] != '/'
}

/// The files behind the prune that keeps the manifest file `keep`: without the manifests that fell
/// off the tail, and without the blobs that no manifest read back refers to.
pub open spec fn pruned(
    files: Disk,
    dir: Seq<char>,
    keep: Seq<char>,
    snaps: Seq<(Seq<char>, Mtime)>,
    ms: Seq<ManifestView>,
    names: Seq<Seq<char>>,
) -> Disk {
    let gone = store::file_names(store::expired(snaps, keep));
    disk::after_acts(
        disk::after_acts(files, store::removals(store::snaps_at(dir), gone)),
        store::removals(store::blobs_at(dir), store::dead_blobs(ms, names)),
    )
}

/// The prune behind a persist leaves the persisted baseline complete, where its contents are those
/// that its manifest refers to and its manifest is among those read back.
pub proof fn law_persisted_baseline_survives_the_prune(
    files: Disk,
    dir: Seq<char>,
    p: PendingView,
    snaps: Seq<(Seq<char>, Mtime)>,
    ms: Seq<ManifestView>,
    names: Seq<Seq<char>>,
)
    requires
        persistable(p),
        complete(files, dir, p),
        plain(store::file_names(snaps)),
        plain(names),
        ms.contains(p.manifest),
        forall|i: int| 0 <= i < p.blobs.len() ==> store::refers(p.manifest, #[trigger] p.blobs[i].0),
    ensures
        complete(pruned(files, dir, store::snap_name(p.id)->0, snaps, ms, names), dir, p),
{
    reveal_strlit("snaps");
    reveal_strlit("blobs");
    reveal_strlit("baseline");
    let keep = store::snap_name(p.id)->0;
    let gone = store::file_names(store::expired(snaps, keep));
    let dead = store::dead_blobs(ms, names);
    let mid = disk::after_acts(files, store::removals(store::snaps_at(dir), gone));
    let after = disk::after_acts(mid, store::removals(store::blobs_at(dir), dead));
    let pointer = store::baseline_at(dir);
    let snap = store::manifest_at(dir, p.id)->0;
    law_prune_keeps_a_recent_tail(snaps, keep);
    lemma_top_paths(dir);
    lemma_snap_path(dir, p.id);
    let expired = store::expired(snaps, keep);
    // What the removed paths are.
    assert forall|i: int| 0 <= i < gone.len() implies disk::joined(
        store::snaps_at(dir),
        #[trigger] gone[i],
    ) == under(dir, "snaps"@ + seq!['/'] + gone[i]) && gone[i] != keep by {
        assert(snaps.contains(expired[i]));
        let j = choose|j: int| 0 <= j < snaps.len() && snaps[j] == expired[i];
        assert(store::file_names(snaps)[j] == gone[i]);
        lemma_inside(dir, "snaps"@, gone[i]);
    }
    assert forall|i: int| 0 <= i < dead.len() implies disk::joined(
        store::blobs_at(dir),
        #[trigger] dead[i],
    ) == under(dir, "blobs"@ + seq!['/'] + dead[i]) && !store::live(ms, dead[i]) by {
        law_prune_keeps_live_blobs(ms, names, dead[i]);
        assert(dead.contains(dead[i]));
        let j = choose|j: int| 0 <= j < names.len() && names[j] == dead[i];
        assert(names[j] == dead[i]);
        lemma_inside(dir, "blobs"@, dead[i]);
    }
    // The pointer, the manifest and the contents are none of them.
    let kept_snap = "snaps"@ + seq!['/'] + keep;
    assert forall|i: int| 0 <= i < gone.len() implies pointer != disk::joined(
        store::snaps_at(dir),
        #[trigger] gone[i],
    ) && snap != disk::joined(store::snaps_at(dir), gone[i]) by {
        let x = "snaps"@ + seq!['/'] + gone[i];
        lemma_under_tells(dir, x, "baseline"@);
        lemma_under_tells(dir, x, kept_snap);
        assert(x[0] == 's');
        assert(x.skip(6) =~= gone[i]);
        assert(kept_snap.skip(6) =~= keep);
    }
    lemma_removals(files, store::snaps_at(dir), gone, pointer);
    lemma_removals(files, store::snaps_at(dir), gone, snap);
    assert forall|i: int| 0 <= i < dead.len() implies pointer != disk::joined(
        store::blobs_at(dir),
        #[trigger] dead[i],
    ) && snap != disk::joined(store::blobs_at(dir), dead[i]) by {
        let x = "blobs"@ + seq!['/'] + dead[i];
        lemma_under_tells(dir, x, "baseline"@);
        lemma_under_tells(dir, x, kept_snap);
        assert(x[0] == 'b' && x[1] == 'l');
        assert(kept_snap[0] == 's');
    }
    lemma_removals(mid, store::blobs_at(dir), dead, pointer);
    lemma_removals(mid, store::blobs_at(dir), dead, snap);
    assert forall|i: int| 0 <= i < p.blobs.len() implies holds(
        after,
        blob_path(dir, #[trigger] p.blobs[i].0),
        p.blobs[i].1,
    ) by {
        let hash = p.blobs[i].0;
        let path = blob_path(dir, hash);
        lemma_blob_path(dir, hash);
        let y = "blobs"@ + seq!['/'] + hash;
        assert(holds(files, path, p.blobs[i].1));
        assert forall|j: int| 0 <= j < gone.len() implies path != disk::joined(
            store::snaps_at(dir),
            #[trigger] gone[j],
        ) by {
            let x = "snaps"@ + seq!['/'] + gone[j];
            lemma_under_tells(dir, x, y);
            assert(x[0] == 's' && y[0] == 'b');
        }
        lemma_removals(files, store::snaps_at(dir), gone, path);
        assert(store::live(ms, hash)) by {
            let m = choose|m: int| 0 <= m < ms.len() && ms[m] == p.manifest;
            assert(store::refers(ms[m], hash));
        }
        assert forall|j: int| 0 <= j < dead.len() implies path != disk::joined(
            store::blobs_at(dir),
            #[trigger] dead[j],
        ) by {
            let x = "blobs"@ + seq!['/'] + dead[j];
            lemma_under_tells(dir, x, y);
            assert(x.skip(6) =~= dead[j]);
            assert(y.skip(6) =~= hash);
        }
        lemma_removals(mid, store::blobs_at(dir), dead, path);
    }
}

/// A content is removed exactly where it is listed and no file of any manifest that is left has its
/// hash.
pub proof fn law_content_goes_where_no_manifest_names_it(
    ms: Seq<ManifestView>,
    names: Seq<Seq<char>>,
    name: Seq<char>,
)
    ensures
        store::dead_blobs(ms, names).contains(name) <==> names.contains(name) && (forall|i: int, j: int|
            0 <= i < ms.len() && 0 <= j < ms[i].files.len() ==> (#[trigger] ms[i].files[j]).1
                != Some(name)),
{
    law_prune_keeps_live_blobs(ms, names, name);
    if store::live(ms, name) {
        let i = choose|i: int| 0 <= i < ms.len() && store::refers(#[trigger] ms[i], name);
        let j = choose|j: int| 0 <= j < ms[i].files.len() && (#[trigger] ms[i].files[j]).1 == Some(name);
        assert(ms[i].files[j].1 == Some(name));
    } else {
        assert forall|i: int, j: int|
            0 <= i < ms.len() && 0 <= j < ms[i].files.len() implies (#[trigger] ms[i].files[j]).1
            != Some(name) by {
            if ms[i].files[j].1 == Some(name) {
                assert(store::refers(ms[i], name));
            }
        }
    }
}

} // verus!
