//! A turn baseline's manifest: the working-copy parent and the files that were dirty, with the
//! canonical JSON text that its id digests.

use vstd::prelude::*;
use vstd::string::*;

use crate::outside;
use crate::store;
use crate::text;

verus! {

broadcast use vstd::string::group_string_axioms;

/// What a turn-baseline id starts with.
pub const SNAP_PREFIX: &'static str = "snap:";

/// A turn baseline: the working-copy parent plus the dirty files at snapshot time, each with the
/// hash of its content. A file without one was absent from the worktree.
#[derive(Debug, PartialEq, Eq)]
pub struct Manifest {
    pub parent: String,
    pub files: Vec<(String, Option<String>)>,
}

/// The view of a `Manifest`.
pub struct ManifestView {
    pub parent: Seq<char>,
    pub files: Seq<(Seq<char>, Option<Seq<char>>)>,
}

impl DeepView for Manifest {
    type V = ManifestView;

    open spec fn deep_view(&self) -> ManifestView {
        ManifestView { parent: self.parent@, files: self.files.deep_view() }
    }
}

impl Clone for Manifest {
    fn clone(&self) -> (r: Self)
        ensures
            r.deep_view() == self.deep_view(),
    {
        let mut files: Vec<(String, Option<String>)> = Vec::new();
        let mut i: usize = 0;
        while i < self.files.len()
            invariant
                i <= self.files.len(),
                files.deep_view() =~= self.files.deep_view().take(i as int),
            decreases self.files.len() - i,
        {
            let path = self.files[i].0.clone();
            let hash = self.files[i].1.clone();
            let ghost entry = (path@, hash.deep_view());
            let ghost done = files.deep_view();
            files.push((path, hash));
            assert(files.deep_view() =~= done.push(entry));
            assert(entry == self.files.deep_view()[i as int]);
            i = i + 1;
        }
        assert(files.deep_view() =~= self.files.deep_view());
        Manifest { parent: self.parent.clone(), files }
    }
}

// --- the files --------------------------------------------------------------------

/// Files in strictly ascending order of path: each path once.
pub open spec fn ascending(files: Seq<(Seq<char>, Option<Seq<char>>)>) -> bool {
    forall|i: int, j: int|
        0 <= i < j < files.len() ==> text::before(
            (#[trigger] files[i]).0,
            (#[trigger] files[j]).0,
        )
}

/// What is recorded of `path`, where anything is.
pub open spec fn recorded(
    files: Seq<(Seq<char>, Option<Seq<char>>)>,
    path: Seq<char>,
) -> Option<Option<Seq<char>>>
    decreases files.len(),
{
    if files.len() == 0 {
        None
    } else if files[0].0 == path {
        Some(files[0].1)
    } else {
        recorded(files.skip(1), path)
    }
}

/// How many leading files have a path before `path`.
pub open spec fn slot(files: Seq<(Seq<char>, Option<Seq<char>>)>, path: Seq<char>) -> nat
    decreases files.len(),
{
    if files.len() == 0 || !text::before(files[0].0, path) {
        0
    } else {
        1 + slot(files.skip(1), path)
    }
}

/// `files` with `hash` recorded of `path`, in place of what was.
pub open spec fn with_file(
    files: Seq<(Seq<char>, Option<Seq<char>>)>,
    path: Seq<char>,
    hash: Option<Seq<char>>,
) -> Seq<(Seq<char>, Option<Seq<char>>)> {
    let k = slot(files, path) as int;
    if k < files.len() && files[k].0 == path {
        files.update(k, (path, hash))
    } else {
        files.insert(k, (path, hash))
    }
}

proof fn lemma_slot_is(files: Seq<(Seq<char>, Option<Seq<char>>)>, path: Seq<char>, k: int)
    requires
        0 <= k <= files.len(),
        forall|i: int| 0 <= i < k ==> text::before((#[trigger] files[i]).0, path),
        k < files.len() ==> !text::before(files[k].0, path),
    ensures
        slot(files, path) == k,
    decreases files.len(),
{
    if k > 0 {
        assert(text::before(files[0].0, path));
        assert forall|i: int| 0 <= i < k - 1 implies text::before(
            (#[trigger] files.skip(1)[i]).0,
            path,
        ) by {
            assert(files.skip(1)[i] == files[i + 1]);
        }
        lemma_slot_is(files.skip(1), path, k - 1);
    }
}

proof fn lemma_slot(files: Seq<(Seq<char>, Option<Seq<char>>)>, path: Seq<char>)
    ensures
        slot(files, path) <= files.len(),
        forall|i: int| 0 <= i < slot(files, path) ==> text::before((#[trigger] files[i]).0, path),
        slot(files, path) < files.len() ==> !text::before(
            files[slot(files, path) as int].0,
            path,
        ),
    decreases files.len(),
{
    if files.len() > 0 && text::before(files[0].0, path) {
        lemma_slot(files.skip(1), path);
        assert forall|i: int| 0 <= i < slot(files, path) implies text::before(
            (#[trigger] files[i]).0,
            path,
        ) by {
            if i > 0 {
                assert(files[i] == files.skip(1)[i - 1]);
            }
        }
    }
}

/// Recording a file keeps the files in ascending order.
pub proof fn lemma_with_file_ascending(
    files: Seq<(Seq<char>, Option<Seq<char>>)>,
    path: Seq<char>,
    hash: Option<Seq<char>>,
)
    requires
        ascending(files),
    ensures
        ascending(with_file(files, path, hash)),
{
    let k = slot(files, path) as int;
    let out = with_file(files, path, hash);
    lemma_slot(files, path);
    if !(k < files.len() && files[k].0 == path) {
        assert forall|i: int, j: int| 0 <= i < j < out.len() implies text::before(
            (#[trigger] out[i]).0,
            (#[trigger] out[j]).0,
        ) by {
            let a = if i < k {
                i
            } else {
                i - 1
            };
            let b = if j < k {
                j
            } else {
                j - 1
            };
            if i == k {
                text::lemma_before_total(path, files[k].0);
                if b > k {
                    text::lemma_before_transitive(path, files[k].0, files[b].0);
                }
            } else if j == k {
                assert(out[i] == files[a]);
            } else {
                assert(out[i] == files[a] && out[j] == files[b]);
            }
        }
    }
}

/// Whether any file is recorded under `path`.
pub open spec fn names(files: Seq<(Seq<char>, Option<Seq<char>>)>, path: Seq<char>) -> bool {
    exists|i: int| 0 <= i < files.len() && (#[trigger] files[i]).0 == path
}

/// What `recorded` gives is what stands first under the path.
pub proof fn lemma_recorded(files: Seq<(Seq<char>, Option<Seq<char>>)>, path: Seq<char>)
    ensures
        recorded(files, path) is Some <==> names(files, path),
        recorded(files, path) is Some ==> exists|i: int|
            0 <= i < files.len() && (#[trigger] files[i]).0 == path && recorded(files, path)
                == Some(files[i].1),
    decreases files.len(),
{
    if files.len() > 0 {
        if files[0].0 == path {
            assert(recorded(files, path) == Some(files[0].1));
        } else {
            let rest = files.skip(1);
            lemma_recorded(rest, path);
            if names(rest, path) {
                let i = choose|i: int|
                    0 <= i < rest.len() && (#[trigger] rest[i]).0 == path && recorded(rest, path)
                        == Some(rest[i].1);
                assert(files[i + 1] == rest[i]);
            }
            if names(files, path) {
                let i = choose|i: int| 0 <= i < files.len() && (#[trigger] files[i]).0 == path;
                assert(rest[i - 1] == files[i]);
            }
        }
    }
}

/// Where each path stands once, `recorded` gives what stands under it.
pub proof fn lemma_recorded_at(files: Seq<(Seq<char>, Option<Seq<char>>)>, i: int)
    requires
        ascending(files),
        0 <= i < files.len(),
    ensures
        recorded(files, files[i].0) == Some(files[i].1),
    decreases files.len(),
{
    if i > 0 {
        assert(text::before(files[0].0, files[i].0));
        text::lemma_before_irreflexive(files[i].0);
        let rest = files.skip(1);
        assert forall|a: int, b: int| 0 <= a < b < rest.len() implies text::before(
            (#[trigger] rest[a]).0,
            (#[trigger] rest[b]).0,
        ) by {
            assert(rest[a] == files[a + 1] && rest[b] == files[b + 1]);
        }
        assert(rest[i - 1] == files[i]);
        lemma_recorded_at(rest, i - 1);
    }
}

/// A file reads back as it was recorded, and no other file is touched.
pub proof fn law_recorded_reads_back(
    files: Seq<(Seq<char>, Option<Seq<char>>)>,
    path: Seq<char>,
    hash: Option<Seq<char>>,
    other: Seq<char>,
)
    requires
        ascending(files),
    ensures
        recorded(with_file(files, path, hash), path) == Some(hash),
        other != path ==> recorded(with_file(files, path, hash), other) == recorded(files, other),
{
    let out = with_file(files, path, hash);
    let k = slot(files, path) as int;
    lemma_slot(files, path);
    lemma_with_file_ascending(files, path, hash);
    assert(out[k] == (path, hash));
    lemma_recorded_at(out, k);
    if other != path {
        lemma_recorded(files, other);
        lemma_recorded(out, other);
        let replaced = k < files.len() && files[k].0 == path;
        if names(files, other) {
            let i = choose|i: int| 0 <= i < files.len() && (#[trigger] files[i]).0 == other;
            let j = if replaced || i < k {
                i
            } else {
                i + 1
            };
            assert(out[j] == files[i]);
            lemma_recorded_at(files, i);
            lemma_recorded_at(out, j);
        } else if names(out, other) {
            let j = choose|j: int| 0 <= j < out.len() && (#[trigger] out[j]).0 == other;
            let i = if replaced || j < k {
                j
            } else {
                j - 1
            };
            assert(j != k);
            assert(files[i] == out[j]);
        }
    }
}

impl Manifest {
    /// A manifest with no file recorded.
    pub fn new(parent: &str) -> (m: Manifest)
        ensures
            m.deep_view() == (ManifestView { parent: parent@, files: seq![] }),
            ascending(m.deep_view().files),
    {
        let m = Manifest { parent: parent.to_owned(), files: Vec::new() };
        assert(m.deep_view().files =~= seq![]);
        m
    }

    /// Record the content hash of `path`, or its absence.
    pub fn record(&mut self, path: String, hash: Option<String>)
        ensures
            final(self).deep_view() == (ManifestView {
                parent: old(self).deep_view().parent,
                files: with_file(old(self).deep_view().files, path@, hash.deep_view()),
            }),
    {
        let ghost files = self.files.deep_view();
        let mut k: usize = 0;
        while k < self.files.len() && text::precedes(self.files[k].0.as_str(), path.as_str())
            invariant
                k <= self.files.len(),
                files == self.files.deep_view(),
                *self == *old(self),
                forall|i: int| 0 <= i < k ==> text::before((#[trigger] files[i]).0, path@),
            decreases self.files.len() - k,
        {
            assert(files[k as int].0 == self.files@[k as int].0@);
            k = k + 1;
        }
        proof {
            if k < files.len() {
                assert(files[k as int].0 == self.files@[k as int].0@);
            }
            lemma_slot_is(files, path@, k as int);
        }
        let ghost entry = (path@, hash.deep_view());
        if k < self.files.len() && text::same(self.files[k].0.as_str(), path.as_str()) {
            self.files.set(k, (path, hash));
            assert(self.files.deep_view() =~= files.update(k as int, entry));
        } else {
            self.files.insert(k, (path, hash));
            assert(self.files.deep_view() =~= files.insert(k as int, entry));
        }
    }

    /// What is recorded of `path`, where anything is.
    pub fn get(&self, path: &str) -> (r: Option<&Option<String>>)
        ensures
            r.deep_view() == recorded(self.deep_view().files, path@),
    {
        let ghost files = self.files.deep_view();
        let mut i: usize = 0;
        assert(files.skip(0) =~= files);
        while i < self.files.len()
            invariant
                i <= self.files.len(),
                files == self.files.deep_view(),
                recorded(files, path@) == recorded(files.skip(i as int), path@),
            decreases self.files.len() - i,
        {
            let ghost rest = files.skip(i as int);
            assert(rest[0] == (self.files@[i as int].0@, self.files@[i as int].1.deep_view()));
            if text::same(self.files[i].0.as_str(), path) {
                return Some(&self.files[i].1);
            }
            assert(rest.skip(1) =~= files.skip(i + 1));
            i = i + 1;
        }
        None
    }

    /// The canonical JSON text of the manifest.
    pub fn canonical(&self) -> (json: String)
        ensures
            json@ == canonical_text(self.deep_view()),
    {
        let mut json = String::new();
        json.append("{\"parent\":");
        json.append(outside::json_text(self.parent.as_str()).as_str());
        json.append(",\"files\":{");
        let ghost head = json@;
        let ghost files = self.files.deep_view();
        assert(files.skip(0) =~= files);
        assert(head + members(files) =~= json@ + members(files));
        let mut i: usize = 0;
        while i < self.files.len()
            invariant
                i <= self.files.len(),
                files == self.files.deep_view(),
                head + members(files) == (if i == 0 || i == files.len() {
                    json@ + members(files.skip(i as int))
                } else {
                    json@ + seq![','] + members(files.skip(i as int))
                }),
            decreases self.files.len() - i,
        {
            let ghost rest = files.skip(i as int);
            let ghost start = json@;
            if i > 0 {
                json.push(',');
            }
            let ghost lead = json@;
            json.append(outside::json_text(self.files[i].0.as_str()).as_str());
            json.push(':');
            match &self.files[i].1 {
                Some(hash) => {
                    json.append(outside::json_text(hash.as_str()).as_str());
                },
                None => {
                    json.append("null");
                },
            }
            proof {
                assert(rest[0] == (self.files@[i as int].0@, self.files@[i as int].1.deep_view()));
                assert(json@ =~= lead + member(rest[0]));
                assert(rest.skip(1) =~= files.skip(i + 1));
                if i + 1 == files.len() {
                    assert(members(files.skip(i + 1)) =~= seq![]);
                    assert(members(rest) =~= member(rest[0]));
                    assert(json@ + members(files.skip(i + 1)) =~= lead + members(rest));
                } else {
                    assert(json@ + seq![','] + members(files.skip(i + 1)) =~= lead + members(rest));
                }
                if i > 0 {
                    assert(lead =~= start + seq![',']);
                }
            }
            i = i + 1;
        }
        assert(files.skip(i as int) =~= seq![]);
        assert(head + members(files) =~= json@);
        json.append("}}");
        json
    }

    /// The baseline id: the digest of the canonical text, behind its prefix. It is `snap:` and
    /// sixty-four lower-case hexadecimal digits, so that it names a manifest file.
    pub fn id(&self) -> (id: String)
        ensures
            id@ == manifest_id(self.deep_view()),
            well_formed_id(id@),
            store::snap_name(id@) is Some,
    {
        let json = self.canonical();
        let digest = outside::sha256_digest(json.as_str().as_bytes());
        let mut id = SNAP_PREFIX.to_owned();
        id.append(text::hex_text(digest.as_slice()).as_str());
        proof {
            reveal_strlit("snap:");
            let hex = text::hex(digest@);
            text::lemma_hex(digest@, digest@);
            assert forall|i: int| 5 <= i < 69 implies text::is_lower_hex(#[trigger] id@[i]) by {
                assert(id@[i] == hex[i - 5]);
            }
            assert(SNAP_PREFIX@.is_prefix_of(id@));
            assert(id@.skip(SNAP_PREFIX@.len() as int) =~= hex);
        }
        id
    }
}

// --- the canonical text -------------------------------------------------------------

/// One file of the canonical text.
pub open spec fn member(file: (Seq<char>, Option<Seq<char>>)) -> Seq<char> {
    outside::json_string(file.0) + seq![':'] + match file.1 {
        Some(hash) => outside::json_string(hash),
        None => "null"@,
    }
}

/// The files of the canonical text, commas between them.
pub open spec fn members(files: Seq<(Seq<char>, Option<Seq<char>>)>) -> Seq<char>
    decreases files.len(),
{
    if files.len() == 0 {
        seq![]
    } else if files.len() == 1 {
        member(files[0])
    } else {
        member(files[0]) + seq![','] + members(files.skip(1))
    }
}

/// The canonical JSON text of a manifest: an object with the parent, then the files.
pub open spec fn canonical_text(m: ManifestView) -> Seq<char> {
    "{\"parent\":"@ + outside::json_string(m.parent) + ",\"files\":{"@ + members(m.files) + "}}"@
}

/// Whether a text is shaped as a baseline id: the prefix, then a digest in lower-case hexadecimal.
pub open spec fn well_formed_id(id: Seq<char>) -> bool {
    &&& id.len() == 69
    &&& SNAP_PREFIX@.is_prefix_of(id)
    &&& forall|i: int| 5 <= i < 69 ==> text::is_lower_hex(#[trigger] id[i])
}

/// The baseline id of a manifest.
pub open spec fn manifest_id(m: ManifestView) -> Seq<char> {
    SNAP_PREFIX@ + text::hex(outside::sha256(vstd::utf8::encode_utf8(canonical_text(m))))
}

// --- laws ----------------------------------------------------------------------------

proof fn lemma_json_char(a: char, b: char, x: Seq<char>, y: Seq<char>)
    requires
        outside::json_char(a) + x == outside::json_char(b) + y,
    ensures
        a == b,
        x == y,
{
    let ja = outside::json_char(a);
    let jb = outside::json_char(b);
    let l = ja + x;
    let r = jb + y;
    vstd::utf8::char_is_scalar(a);
    vstd::utf8::char_is_scalar(b);
    assert(l[0] == ja[0] && r[0] == jb[0]);
    if ja.len() > 1 && jb.len() > 1 {
        assert(l[1] == ja[1] && r[1] == jb[1]);
        if ja[1] == 'u' && jb[1] == 'u' {
            let m = seq![a as u32 as u8];
            let n = seq![b as u32 as u8];
            assert(ja =~= seq!['\\', 'u', '0', '0'] + text::hex(m));
            assert(jb =~= seq!['\\', 'u', '0', '0'] + text::hex(n));
            assert(text::hex(m) =~= l.subrange(4, 6));
            assert(text::hex(n) =~= r.subrange(4, 6));
            text::lemma_hex(m, n);
            assert(m[0] == n[0]);
        }
    }
    assert(a == b);
    assert(x =~= l.skip(ja.len() as int));
    assert(y =~= r.skip(jb.len() as int));
}

proof fn lemma_json_chars(s: Seq<char>, t: Seq<char>, x: Seq<char>, y: Seq<char>)
    requires
        outside::json_chars(s) + seq!['"'] + x == outside::json_chars(t) + seq!['"'] + y,
    ensures
        s == t,
        x == y,
    decreases s.len(),
{
    let l = outside::json_chars(s) + seq!['"'] + x;
    let r = outside::json_chars(t) + seq!['"'] + y;
    if s.len() == 0 || t.len() == 0 {
        if s.len() > 0 {
            assert(l[0] == outside::json_char(s[0])[0]);
            assert(r[0] == '"');
            assert(false);
        }
        if t.len() > 0 {
            assert(r[0] == outside::json_char(t[0])[0]);
            assert(l[0] == '"');
            assert(false);
        }
        assert(s =~= t);
        assert(x =~= l.skip(1));
        assert(y =~= r.skip(1));
    } else {
        let l_rest = outside::json_chars(s.skip(1)) + seq!['"'] + x;
        let r_rest = outside::json_chars(t.skip(1)) + seq!['"'] + y;
        assert(l =~= outside::json_char(s[0]) + l_rest);
        assert(r =~= outside::json_char(t[0]) + r_rest);
        lemma_json_char(s[0], t[0], l_rest, r_rest);
        lemma_json_chars(s.skip(1), t.skip(1), x, y);
        assert(s =~= seq![s[0]] + s.skip(1));
        assert(t =~= seq![t[0]] + t.skip(1));
    }
}

/// A JSON string shows where it ends: two texts that start with one hold the same string.
proof fn lemma_json_string(s: Seq<char>, t: Seq<char>, x: Seq<char>, y: Seq<char>)
    requires
        outside::json_string(s) + x == outside::json_string(t) + y,
    ensures
        s == t,
        x == y,
{
    let l = outside::json_chars(s) + seq!['"'] + x;
    let r = outside::json_chars(t) + seq!['"'] + y;
    assert(outside::json_string(s) + x =~= seq!['"'] + l);
    assert(outside::json_string(t) + y =~= seq!['"'] + r);
    assert(l =~= (seq!['"'] + l).skip(1));
    assert(r =~= (seq!['"'] + r).skip(1));
    lemma_json_chars(s, t, x, y);
}

proof fn lemma_cancel(p: Seq<char>, x: Seq<char>, y: Seq<char>)
    requires
        p + x == p + y,
    ensures
        x == y,
{
    assert(x =~= (p + x).skip(p.len() as int));
    assert(y =~= (p + y).skip(p.len() as int));
}

/// What follows the first file of a file list.
spec fn tail(files: Seq<(Seq<char>, Option<Seq<char>>)>) -> Seq<char> {
    if files.len() == 1 {
        seq![]
    } else {
        seq![','] + members(files.skip(1))
    }
}

spec fn value(hash: Option<Seq<char>>) -> Seq<char> {
    match hash {
        Some(hash) => outside::json_string(hash),
        None => "null"@,
    }
}

proof fn lemma_value(v: Option<Seq<char>>, w: Option<Seq<char>>, x: Seq<char>, y: Seq<char>)
    requires
        value(v) + x == value(w) + y,
    ensures
        v == w,
        x == y,
{
    reveal_strlit("null");
    match (v, w) {
        (Some(a), Some(b)) => {
            lemma_json_string(a, b, x, y);
        },
        (None, None) => {
            lemma_cancel("null"@, x, y);
        },
        (Some(a), None) => {
            assert((value(v) + x)[0] == '"');
            assert((value(w) + y)[0] == 'n');
        },
        (None, Some(b)) => {
            assert((value(v) + x)[0] == 'n');
            assert((value(w) + y)[0] == '"');
        },
    }
}

/// A non-empty file list from its first path on.
proof fn lemma_unfold(f: Seq<(Seq<char>, Option<Seq<char>>)>, x: Seq<char>)
    requires
        f.len() > 0,
    ensures
        members(f) + seq!['}'] + x == outside::json_string(f[0].0) + (seq![':'] + (value(f[0].1) + (
        tail(f) + seq!['}'] + x))),
{
    assert(member(f[0]) =~= outside::json_string(f[0].0) + seq![':'] + value(f[0].1));
    assert(members(f) =~= member(f[0]) + tail(f));
    let t = tail(f) + seq!['}'] + x;
    assert(members(f) + seq!['}'] + x =~= member(f[0]) + t);
    assert(member(f[0]) + t =~= outside::json_string(f[0].0) + (seq![':'] + (value(f[0].1) + t)));
}

proof fn lemma_members(
    f: Seq<(Seq<char>, Option<Seq<char>>)>,
    g: Seq<(Seq<char>, Option<Seq<char>>)>,
    x: Seq<char>,
    y: Seq<char>,
)
    requires
        members(f) + seq!['}'] + x == members(g) + seq!['}'] + y,
    ensures
        f == g,
    decreases f.len(),
{
    if f.len() == 0 || g.len() == 0 {
        lemma_first_char(f, x);
        lemma_first_char(g, y);
        assert(f =~= g);
    } else {
        let after_f = tail(f) + seq!['}'] + x;
        let after_g = tail(g) + seq!['}'] + y;
        let from_f = value(f[0].1) + after_f;
        let from_g = value(g[0].1) + after_g;
        lemma_unfold(f, x);
        lemma_unfold(g, y);
        lemma_json_string(f[0].0, g[0].0, seq![':'] + from_f, seq![':'] + from_g);
        lemma_cancel(seq![':'], from_f, from_g);
        lemma_value(f[0].1, g[0].1, after_f, after_g);
        assert(after_f[0] == if f.len() == 1 {
            '}'
        } else {
            ','
        });
        assert(after_g[0] == if g.len() == 1 {
            '}'
        } else {
            ','
        });
        if f.len() > 1 {
            let rest_f = members(f.skip(1)) + seq!['}'] + x;
            let rest_g = members(g.skip(1)) + seq!['}'] + y;
            assert(after_f =~= seq![','] + rest_f);
            assert(after_g =~= seq![','] + rest_g);
            lemma_cancel(seq![','], rest_f, rest_g);
            lemma_members(f.skip(1), g.skip(1), x, y);
        }
        assert(f.skip(1) =~= g.skip(1));
        assert(f =~= seq![f[0]] + f.skip(1));
        assert(g =~= seq![g[0]] + g.skip(1));
    }
}

proof fn lemma_first_char(f: Seq<(Seq<char>, Option<Seq<char>>)>, x: Seq<char>)
    ensures
        (members(f) + seq!['}'] + x)[0] == if f.len() == 0 {
            '}'
        } else {
            '"'
        },
{
    if f.len() > 0 {
        lemma_unfold(f, x);
    }
}

/// The canonical text tells manifests apart: another parent, another path or another content
/// hash gives another text.
pub proof fn law_canonical_text_tells_manifests_apart(a: ManifestView, b: ManifestView)
    requires
        canonical_text(a) == canonical_text(b),
    ensures
        a == b,
{
    reveal_strlit("}}");
    let rest_a = ",\"files\":{"@ + members(a.files) + "}}"@;
    let rest_b = ",\"files\":{"@ + members(b.files) + "}}"@;
    assert(canonical_text(a) =~= "{\"parent\":"@ + (outside::json_string(a.parent) + rest_a));
    assert(canonical_text(b) =~= "{\"parent\":"@ + (outside::json_string(b.parent) + rest_b));
    lemma_cancel(
        "{\"parent\":"@,
        outside::json_string(a.parent) + rest_a,
        outside::json_string(b.parent) + rest_b,
    );
    lemma_json_string(a.parent, b.parent, rest_a, rest_b);
    let files_a = members(a.files) + seq!['}'] + seq!['}'];
    let files_b = members(b.files) + seq!['}'] + seq!['}'];
    assert("}}"@ =~= seq!['}', '}']);
    assert(rest_a =~= ",\"files\":{"@ + files_a);
    assert(rest_b =~= ",\"files\":{"@ + files_b);
    lemma_cancel(",\"files\":{"@, files_a, files_b);
    lemma_members(a.files, b.files, seq!['}'], seq!['}']);
}

/// Two file lists that record the same of every path are the same list.
pub proof fn lemma_same_records(
    f: Seq<(Seq<char>, Option<Seq<char>>)>,
    g: Seq<(Seq<char>, Option<Seq<char>>)>,
)
    requires
        ascending(f),
        ascending(g),
        forall|p: Seq<char>| #[trigger] recorded(f, p) == recorded(g, p),
    ensures
        f == g,
    decreases f.len(),
{
    if f.len() == 0 || g.len() == 0 {
        if f.len() > 0 {
            lemma_recorded_at(f, 0);
            assert(recorded(g, f[0].0) is None);
        }
        if g.len() > 0 {
            lemma_recorded_at(g, 0);
            assert(recorded(f, g[0].0) is None);
        }
        assert(f =~= g);
    } else {
        lemma_recorded_at(f, 0);
        lemma_recorded_at(g, 0);
        lemma_recorded(g, f[0].0);
        lemma_recorded(f, g[0].0);
        assert(recorded(g, f[0].0) is Some);
        assert(recorded(f, g[0].0) is Some);
        let j = choose|j: int| 0 <= j < g.len() && (#[trigger] g[j]).0 == f[0].0;
        let i = choose|i: int| 0 <= i < f.len() && (#[trigger] f[i]).0 == g[0].0;
        if j > 0 {
            assert(text::before(g[0].0, g[j].0));
            if i > 0 {
                assert(text::before(f[0].0, f[i].0));
                text::lemma_before_transitive(g[0].0, f[0].0, g[0].0);
            }
            text::lemma_before_irreflexive(g[0].0);
        }
        assert(f[0] == g[0]);
        lemma_rest_records(f);
        lemma_rest_records(g);
        assert forall|p: Seq<char>| #[trigger] recorded(f.skip(1), p) == recorded(g.skip(1), p) by {
            assert(recorded(f, p) == recorded(g, p));
        }
        lemma_same_records(f.skip(1), g.skip(1));
        assert(f =~= seq![f[0]] + f.skip(1));
        assert(g =~= seq![g[0]] + g.skip(1));
    }
}

/// What a file list records behind its first file.
proof fn lemma_rest_records(f: Seq<(Seq<char>, Option<Seq<char>>)>)
    requires
        ascending(f),
        f.len() > 0,
    ensures
        ascending(f.skip(1)),
        recorded(f.skip(1), f[0].0) is None,
{
    let rest = f.skip(1);
    assert forall|a: int, b: int| 0 <= a < b < rest.len() implies text::before(
        (#[trigger] rest[a]).0,
        (#[trigger] rest[b]).0,
    ) by {
        assert(rest[a] == f[a + 1] && rest[b] == f[b + 1]);
    }
    lemma_recorded(rest, f[0].0);
    if names(rest, f[0].0) {
        let k = choose|k: int| 0 <= k < rest.len() && (#[trigger] rest[k]).0 == f[0].0;
        assert(rest[k] == f[k + 1]);
        assert(text::before(f[0].0, f[k + 1].0));
        text::lemma_before_irreflexive(f[0].0);
    }
}

/// A baseline id is its prefix and hexadecimal digits, and two manifests share an id exactly
/// where their canonical texts share a digest.
pub proof fn law_id_is_the_digest_of_the_canonical_text(a: ManifestView, b: ManifestView)
    ensures
        text::after_prefix(manifest_id(a), SNAP_PREFIX@) == Some(
            text::hex(outside::sha256(vstd::utf8::encode_utf8(canonical_text(a)))),
        ),
        text::all_hex(text::after_prefix(manifest_id(a), SNAP_PREFIX@)->0),
        manifest_id(a) == manifest_id(b) <==> outside::sha256(
            vstd::utf8::encode_utf8(canonical_text(a)),
        ) == outside::sha256(vstd::utf8::encode_utf8(canonical_text(b))),
{
    let da = outside::sha256(vstd::utf8::encode_utf8(canonical_text(a)));
    let db = outside::sha256(vstd::utf8::encode_utf8(canonical_text(b)));
    text::lemma_hex(da, db);
    assert(manifest_id(a).skip(SNAP_PREFIX@.len() as int) =~= text::hex(da));
    assert(SNAP_PREFIX@.is_prefix_of(manifest_id(a)));
    if manifest_id(a) == manifest_id(b) {
        lemma_cancel(SNAP_PREFIX@, text::hex(da), text::hex(db));
    }
}

/// The canonical text of a manifest is the JSON object of its parent and its files: each file a member
/// of its path and its hash, or of `null` where it was absent, one behind the other with commas
/// between. The id is `snap:` and the digest of that text.
pub proof fn law_canonical_text_is_the_json_object(
    parent: Seq<char>,
    files: Seq<(Seq<char>, Option<Seq<char>>)>,
    file: (Seq<char>, Option<Seq<char>>),
)
    ensures
        canonical_text(ManifestView { parent, files: seq![] }) == "{\"parent\":"@
            + outside::json_string(parent) + ",\"files\":{}}"@,
        ({
            let text = |fs: Seq<(Seq<char>, Option<Seq<char>>)>|
                canonical_text(ManifestView { parent, files: fs });
            let one = outside::json_string(file.0) + seq![':'] + match file.1 {
                Some(hash) => outside::json_string(hash),
                None => "null"@,
            };
            let before = text(files).take(text(files).len() - 2);
            text(files.push(file)) == before + (if files.len() == 0 {
                seq![]
            } else {
                seq![',']
            }) + one + "}}"@
        }),
        manifest_id(ManifestView { parent, files }) == "snap:"@ + text::hex(
            outside::sha256(
                vstd::utf8::encode_utf8(canonical_text(ManifestView { parent, files })),
            ),
        ),
{
    reveal_strlit("}}");
    reveal_strlit(",\"files\":{");
    reveal_strlit(",\"files\":{}}");
    let head = "{\"parent\":"@ + outside::json_string(parent);
    assert(",\"files\":{"@ + members(seq![]) + "}}"@ =~= ",\"files\":{}}"@);
    assert(canonical_text(ManifestView { parent, files: seq![] }) =~= head
        + ",\"files\":{}}"@);
    lemma_members_push(files, file);
    let whole = canonical_text(ManifestView { parent, files });
    assert(whole.take(whole.len() - 2) =~= head + ",\"files\":{"@ + members(files));
    let more = canonical_text(ManifestView { parent, files: files.push(file) });
    let comma = if files.len() == 0 {
        Seq::<char>::empty()
    } else {
        seq![',']
    };
    assert(more =~= head + ",\"files\":{"@ + members(files) + comma + member(file) + "}}"@);
}

proof fn lemma_members_push(
    files: Seq<(Seq<char>, Option<Seq<char>>)>,
    file: (Seq<char>, Option<Seq<char>>),
)
    ensures
        members(files.push(file)) == members(files) + (if files.len() == 0 {
            Seq::<char>::empty()
        } else {
            seq![',']
        }) + member(file),
    decreases files.len(),
{
    let all = files.push(file);
    if files.len() == 0 {
        assert(members(all) =~= members(files) + Seq::<char>::empty() + member(file));
    } else if files.len() == 1 {
        assert(all.skip(1) =~= seq![file]);
        assert(members(all) == member(files[0]) + seq![','] + members(seq![file]));
        assert(members(seq![file]) == member(file));
    } else {
        assert(all.skip(1) =~= files.skip(1).push(file));
        lemma_members_push(files.skip(1), file);
        assert(members(all) =~= members(files) + seq![','] + member(file));
    }
}

} // verus!
