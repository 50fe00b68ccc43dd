//! The vocabulary shared by the two backends: failures, resolved bases, worktree roots, and
//! the spelling rules for commit hashes and base picks.

use vstd::prelude::*;
use vstd::string::*;

use crate::outside;
use crate::text;

verus! {

broadcast use vstd::string::group_string_axioms;

/// A repository failure, as the message a reader sees.
#[derive(Debug, PartialEq, Eq)]
pub struct GitFail(pub String);

impl DeepView for GitFail {
    type V = Seq<char>;

    open spec fn deep_view(&self) -> Seq<char> {
        self.0@
    }
}

impl Clone for GitFail {
    fn clone(&self) -> (r: Self)
        ensures
            r.deep_view() == self.deep_view(),
    {
        GitFail(self.0.clone())
    }
}

/// The view of a fallible result.
pub open spec fn outcome<T: DeepView>(r: Result<T, GitFail>) -> Result<T::V, Seq<char>> {
    match r {
        Ok(t) => Ok(t.deep_view()),
        Err(e) => Err(e.deep_view()),
    }
}

/// Where a directory stands: in the worktree at a root, in none, or not known because the
/// backend could not run.
#[derive(Debug, PartialEq, Eq)]
pub enum Worktree {
    Root(String),
    Outside,
    Unknown,
}

/// The view of a `Worktree`.
pub enum WorktreeView {
    Root(Seq<char>),
    Outside,
    Unknown,
}

impl DeepView for Worktree {
    type V = WorktreeView;

    open spec fn deep_view(&self) -> WorktreeView {
        match self {
            Worktree::Root(p) => WorktreeView::Root(p@),
            Worktree::Outside => WorktreeView::Outside,
            Worktree::Unknown => WorktreeView::Unknown,
        }
    }
}

impl Clone for Worktree {
    fn clone(&self) -> (r: Self)
        ensures
            r.deep_view() == self.deep_view(),
    {
        match self {
            Worktree::Root(p) => Worktree::Root(p.clone()),
            Worktree::Outside => Worktree::Outside,
            Worktree::Unknown => Worktree::Unknown,
        }
    }
}

/// One file of a git worktree listing.
#[derive(Debug, PartialEq, Eq)]
pub struct WorktreeEntry {
    pub path: String,
    pub is_dir: bool,
    pub ignored: bool,
}

/// The view of a `WorktreeEntry`.
pub struct WorktreeRow {
    pub path: Seq<char>,
    pub is_dir: bool,
    pub ignored: bool,
}

impl DeepView for WorktreeEntry {
    type V = WorktreeRow;

    open spec fn deep_view(&self) -> WorktreeRow {
        WorktreeRow { path: self.path@, is_dir: self.is_dir, ignored: self.ignored }
    }
}

impl Clone for WorktreeEntry {
    fn clone(&self) -> (r: Self)
        ensures
            r.deep_view() == self.deep_view(),
    {
        WorktreeEntry { path: self.path.clone(), is_dir: self.is_dir, ignored: self.ignored }
    }
}

/// A base that resolved to a commit: a named branch, or any other revision as it was spelled.
#[derive(Debug, PartialEq, Eq)]
pub enum ResolvedBase {
    Branch { name: String, oid: String },
    Rev { spelling: String, oid: String },
}

/// The view of a `ResolvedBase`.
pub enum BaseView {
    Branch { name: Seq<char>, oid: Seq<char> },
    Rev { spelling: Seq<char>, oid: Seq<char> },
}

impl BaseView {
    /// The commit that the base resolved to.
    pub open spec fn oid(self) -> Seq<char> {
        match self {
            BaseView::Branch { name, oid } => oid,
            BaseView::Rev { spelling, oid } => oid,
        }
    }
}

impl DeepView for ResolvedBase {
    type V = BaseView;

    open spec fn deep_view(&self) -> BaseView {
        match self {
            ResolvedBase::Branch { name, oid } => BaseView::Branch { name: name@, oid: oid@ },
            ResolvedBase::Rev { spelling, oid } => BaseView::Rev {
                spelling: spelling@,
                oid: oid@,
            },
        }
    }
}

impl Clone for ResolvedBase {
    fn clone(&self) -> (r: Self)
        ensures
            r.deep_view() == self.deep_view(),
    {
        match self {
            ResolvedBase::Branch { name, oid } => ResolvedBase::Branch {
                name: name.clone(),
                oid: oid.clone(),
            },
            ResolvedBase::Rev { spelling, oid } => ResolvedBase::Rev {
                spelling: spelling.clone(),
                oid: oid.clone(),
            },
        }
    }
}

impl ResolvedBase {
    /// The commit that the base resolved to.
    pub fn oid(&self) -> (r: &str)
        ensures
            r@ == self.deep_view().oid(),
    {
        match self {
            ResolvedBase::Branch { oid, .. } => oid.as_str(),
            ResolvedBase::Rev { oid, .. } => oid.as_str(),
        }
    }
}

/// What the base chain came to: the base that won, and the first spelling it skipped.
#[derive(Debug, PartialEq, Eq)]
pub struct BaseStatus {
    pub winner: Option<ResolvedBase>,
    pub skipped: Option<String>,
}

/// The view of a `BaseStatus`.
pub struct StatusView {
    pub winner: Option<BaseView>,
    pub skipped: Option<Seq<char>>,
}

impl DeepView for BaseStatus {
    type V = StatusView;

    open spec fn deep_view(&self) -> StatusView {
        StatusView { winner: self.winner.deep_view(), skipped: self.skipped.deep_view() }
    }
}

impl Clone for BaseStatus {
    fn clone(&self) -> (r: Self)
        ensures
            r.deep_view() == self.deep_view(),
    {
        BaseStatus { winner: self.winner.clone(), skipped: self.skipped.clone() }
    }
}

// --- spelling rules ----------------------------------------------------------------

/// The first `n` characters of `s`, or all of them.
pub open spec fn first_chars(s: Seq<char>, n: int) -> Seq<char> {
    if s.len() <= n {
        s
    } else {
        s.take(n)
    }
}

/// The first `n` characters of `s`, or all of them.
pub fn leading(s: &str, n: usize) -> (r: String)
    ensures
        r@ == first_chars(s@, n as int),
{
    let v = text::chars_of(s);
    let to: usize = if v.len() <= n {
        v.len()
    } else {
        n
    };
    let r = text::slice_text(&v, 0, to);
    assert(r@ =~= first_chars(s@, n as int));
    r
}

/// git's abbreviated commit id: seven hex digits.
pub open spec fn abbreviation(oid: Seq<char>) -> Seq<char> {
    first_chars(oid, 7)
}

/// git's abbreviated commit id: seven hex digits.
pub fn abbreviate_oid(oid: &str) -> (r: String)
    ensures
        r@ == abbreviation(oid@),
{
    leading(oid, 7)
}

/// Whether `spelling` is a hash prefix of `oid`.
pub open spec fn sha_prefix(spelling: Seq<char>, oid: Seq<char>) -> bool {
    spelling.len() > 0 && text::all_hex(spelling) && spelling.is_prefix_of(oid)
}

/// Whether `spelling` is a hash prefix of `oid`.
pub fn spelling_is_sha_prefix(spelling: &str, oid: &str) -> (b: bool)
    ensures
        b == sha_prefix(spelling@, oid@),
{
    !spelling.is_empty() && text::only_hex(spelling) && text::has_prefix(oid, spelling)
}

/// A hash prefix completes to the abbreviation of its commit; any other spelling stands.
pub fn complete_sha_prefix(spelling: &str, oid: &str) -> (r: String)
    ensures
        r@ == (if sha_prefix(spelling@, oid@) {
            abbreviation(oid@)
        } else {
            spelling@
        }),
{
    if spelling_is_sha_prefix(spelling, oid) {
        abbreviate_oid(oid)
    } else {
        spelling.to_owned()
    }
}

/// Whether `name` can be a base pick: not empty, and no option.
pub open spec fn pick_shaped(name: Seq<char>) -> bool {
    name.len() > 0 && name[0] != '-'
}

/// Whether `name` can be a base pick: not empty, and no option.
pub fn pick_spelling_shaped(name: &str) -> (b: bool)
    ensures
        b == pick_shaped(name@),
{
    let v = text::chars_of(name);
    v.len() > 0 && v[0] != '-'
}

/// The key of a worktree: the digest of its path.
pub open spec fn key_of(root: Seq<char>) -> Seq<char> {
    text::hex(outside::sha256(vstd::utf8::encode_utf8(root)))
}

/// The key of a worktree: the digest of its path, in sixty-four lower-case hexadecimal digits.
pub fn worktree_key(root: &str) -> (r: String)
    ensures
        r@ == key_of(root@),
        r@.len() == 64,
        text::all_lower_hex(r@),
{
    let digest = outside::sha256_digest(root.as_bytes());
    proof {
        text::lemma_hex(digest@, digest@);
    }
    text::hex_text(digest.as_slice())
}

} // verus!
