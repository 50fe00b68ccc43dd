//! Writes into the state directory, as plans that a caller carries out, and what they do to the
//! files there.

use vstd::prelude::*;
use vstd::string::*;

use crate::text;

verus! {

broadcast use vstd::string::group_string_axioms;

/// One step of a plan.
#[derive(Debug, PartialEq, Eq)]
pub enum DiskOp {
    /// Create a directory and its missing parents.
    CreateDirs(String),
    /// Write a whole file.
    Write(String, Vec<u8>),
    /// Move a file, over what stands there.
    Rename(String, String),
    /// Remove a file.
    Remove(String),
}

/// The view of a `DiskOp`.
pub enum Act {
    CreateDirs(Seq<char>),
    Write(Seq<char>, Seq<u8>),
    Rename(Seq<char>, Seq<char>),
    Remove(Seq<char>),
}

impl DeepView for DiskOp {
    type V = Act;

    open spec fn deep_view(&self) -> Act {
        match self {
            DiskOp::CreateDirs(p) => Act::CreateDirs(p@),
            DiskOp::Write(p, b) => Act::Write(p@, b@),
            DiskOp::Rename(a, b) => Act::Rename(a@, b@),
            DiskOp::Remove(p) => Act::Remove(p@),
        }
    }
}

/// The files of a disk, by path.
pub type Disk = Map<Seq<char>, Seq<u8>>;

/// The files after one step.
pub open spec fn after_act(disk: Disk, act: Act) -> Disk {
    match act {
        Act::CreateDirs(_) => disk,
        Act::Write(p, bytes) => disk.insert(p, bytes),
        Act::Rename(a, b) => if disk.contains_key(a) {
            disk.remove(a).insert(b, disk[a])
        } else {
            disk
        },
        Act::Remove(p) => disk.remove(p),
    }
}

/// The files after the steps of a plan.
pub open spec fn after_acts(disk: Disk, acts: Seq<Act>) -> Disk
    decreases acts.len(),
{
    if acts.len() == 0 {
        disk
    } else {
        after_act(after_acts(disk, acts.drop_last()), acts.last())
    }
}

// --- paths -------------------------------------------------------------------------

/// `name` inside `dir`; an absolute `name` stands alone.
pub open spec fn joined(dir: Seq<char>, name: Seq<char>) -> Seq<char> {
    if name.len() > 0 && name[0] == '/' {
        name
    } else if dir.len() == 0 || dir.last() == '/' {
        dir + name
    } else {
        dir + seq!['/'] + name
    }
}

/// `name` inside `dir`; an absolute `name` stands alone.
pub fn join(dir: &str, name: &str) -> (path: String)
    ensures
        path@ == joined(dir@, name@),
{
    let n = text::chars_of(name);
    if n.len() > 0 && n[0] == '/' {
        return name.to_owned();
    }
    let v = text::chars_of(dir);
    let mut path = dir.to_owned();
    if v.len() > 0 && v[v.len() - 1] != '/' {
        path.push('/');
        assert(path@ =~= dir@ + seq!['/']);
    }
    path.append(name);
    path
}

/// The offset of the last dot of `name`, where it has one behind its first character.
pub open spec fn last_dot(name: Seq<char>) -> Option<nat>
    decreases name.len(),
{
    if name.len() <= 1 {
        None
    } else if name.last() == '.' {
        Some((name.len() - 1) as nat)
    } else {
        last_dot(name.drop_last())
    }
}

/// The name of the temporary file next to `name`: its extension gives way to `tmp`.
pub open spec fn tmp_name(name: Seq<char>) -> Seq<char> {
    match last_dot(name) {
        Some(n) => name.take(n as int) + ".tmp"@,
        None => name + ".tmp"@,
    }
}

/// The name of the temporary file next to `name`.
pub fn temp_name(name: &str) -> (r: String)
    ensures
        r@ == tmp_name(name@),
{
    let v = text::chars_of(name);
    let mut n: usize = v.len();
    assert(v@.take(n as int) =~= v@);
    while n > 1 && v[n - 1] != '.'
        invariant
            n <= v.len(),
            last_dot(v@) == last_dot(v@.take(n as int)),
        decreases n,
    {
        assert(v@.take(n as int).drop_last() =~= v@.take(n - 1));
        n = n - 1;
    }
    if n > 1 {
        let mut r = text::slice_text(&v, 0, n - 1);
        assert(r@ =~= name@.take(n - 1));
        r.append(".tmp");
        r
    } else {
        let mut r = name.to_owned();
        r.append(".tmp");
        r
    }
}

/// A relative name stands behind its directory with one slash between; an absolute one stands alone,
/// and no directory puts nothing before it.
pub proof fn law_names_stand_behind_their_directory(dir: Seq<char>, name: Seq<char>)
    ensures
        name.len() > 0 && name[0] == '/' ==> joined(dir, name) == name,
        !(name.len() > 0 && name[0] == '/') ==> {
            &&& dir.len() > 0 && dir.last() != '/' ==> joined(dir, name) == dir + seq!['/'] + name
            &&& dir.len() > 0 && dir.last() == '/' ==> joined(dir, name) == dir + name
            &&& dir.len() == 0 ==> joined(dir, name) == name
        },
{
    assert(Seq::<char>::empty() + name =~= name);
    if dir.len() == 0 {
        assert(dir + name =~= name);
    }
}

/// The temporary file of a name takes the place of its extension, and stands behind a name that has
/// none.
pub proof fn law_temporary_name(stem: Seq<char>, ext: Seq<char>)
    requires
        !ext.contains('.'),
    ensures
        stem.len() > 0 ==> tmp_name(stem + seq!['.'] + ext) == stem + ".tmp"@,
        tmp_name(ext) == ext + ".tmp"@,
{
    lemma_last_dot(stem, ext);
    lemma_no_last_dot(ext);
    assert((stem + seq!['.'] + ext).take(stem.len() as int) =~= stem);
}

proof fn lemma_last_dot(stem: Seq<char>, ext: Seq<char>)
    requires
        !ext.contains('.'),
    ensures
        stem.len() > 0 ==> last_dot(stem + seq!['.'] + ext) == Some(stem.len()),
    decreases ext.len(),
{
    let name = stem + seq!['.'] + ext;
    if ext.len() == 0 {
        assert(name.last() == '.');
    } else {
        let rest = ext.drop_last();
        assert(name.last() == ext[ext.len() - 1]);
        assert forall|i: int| 0 <= i < rest.len() implies rest[i] != '.' by {
            assert(ext[i] != '.');
        }
        assert(name.drop_last() =~= stem + seq!['.'] + rest);
        lemma_last_dot(stem, rest);
    }
}

proof fn lemma_no_last_dot(name: Seq<char>)
    requires
        !name.contains('.'),
    ensures
        last_dot(name) is None,
    decreases name.len(),
{
    if name.len() > 1 {
        let rest = name.drop_last();
        assert(name.last() == name[name.len() - 1]);
        assert forall|i: int| 0 <= i < rest.len() implies rest[i] != '.' by {
            assert(name[i] != '.');
        }
        lemma_no_last_dot(rest);
    }
}

/// What the steps of a plan do to a file: a write puts its bytes there, a rename moves them from one
/// path to the other, a removal takes the file away, and a directory changes no file.
pub proof fn law_steps_change_their_own_files(
    files: Disk,
    path: Seq<char>,
    to: Seq<char>,
    other: Seq<char>,
    bytes: Seq<u8>,
)
    requires
        other != path,
        other != to,
    ensures
        after_acts(files, seq![]) == files,
        after_acts(files, seq![Act::CreateDirs(path)]) == files,
        after_act(files, Act::Write(path, bytes)).contains_key(path),
        after_act(files, Act::Write(path, bytes))[path] == bytes,
        !after_act(files, Act::Remove(path)).contains_key(path),
        files.contains_key(path) && path != to ==> {
            let moved = after_act(files, Act::Rename(path, to));
            &&& !moved.contains_key(path)
            &&& moved.contains_key(to)
            &&& moved[to] == files[path]
        },
        forall|act: Act|
            #![trigger after_act(files, act)]
            act == Act::Write(path, bytes) || act == Act::Remove(path) || act == Act::Rename(path, to)
                ==> {
                let after = after_act(files, act);
                &&& after.contains_key(other) == files.contains_key(other)
                &&& files.contains_key(other) ==> after[other] == files[other]
            },
{
    let one = seq![Act::CreateDirs(path)];
    assert(one.drop_last() =~= seq![]);
    reveal_with_fuel(after_acts, 2);
}

} // verus!
