//! Caches of immutable answers, from a revision and a second revision or a path.

use vstd::prelude::*;
use vstd::string::*;

use crate::answers;
use crate::table::Table;

verus! {

broadcast use vstd::string::group_string_axioms;

/// How many ancestors the ancestor cache holds before it starts over.
pub const ANCESTORS: usize = 128;

/// How many contents the content cache holds before it starts over.
pub const CONTENTS: usize = 256;

/// How many bytes of content the content cache holds before it starts over.
pub const CONTENT_BYTES: usize = 67_108_864;

/// A cache from a (revision, revision-or-path) pair to an immutable answer.
#[derive(Debug)]
pub struct PinnedCache<T> {
    table: Table<(String, String), Option<T>>,
}

impl<T> PinnedCache<T> {
    /// The answer held for a pair.
    pub closed spec fn held(self, rev: Seq<char>, other: Seq<char>) -> Option<Option<T>> {
        self.table.lookup((rev, other))
    }

    /// How many answers are held.
    pub closed spec fn count(self) -> nat {
        self.table.count()
    }

    /// The answers held.
    pub closed spec fn answers(self) -> Seq<Option<T>> {
        self.table.values()
    }

    /// An empty cache.
    pub fn new() -> (c: Self)
        ensures
            forall|a: Seq<char>, b: Seq<char>| #[trigger] c.held(a, b) is None,
            c.count() == 0,
            c.answers() == Seq::<Option<T>>::empty(),
    {
        PinnedCache { table: Table::new() }
    }

    /// The answer held for a pair.
    pub fn get(&self, rev: &str, other: &str) -> (r: Option<&Option<T>>)
        ensures
            match r {
                Some(v) => self.held(rev@, other@) == Some(*v),
                None => self.held(rev@, other@) is None,
            },
    {
        self.table.get(&(rev.to_owned(), other.to_owned()))
    }

    /// Hold an answer; a full cache starts over first.
    fn hold(&mut self, full: bool, rev: &str, other: &str, value: Option<T>)
        ensures
            final(self).held(rev@, other@) == Some(value),
            forall|a: Seq<char>, b: Seq<char>|
                a != rev@ || b != other@ ==> #[trigger] final(self).held(a, b) == (if full {
                    None
                } else {
                    old(self).held(a, b)
                }),
            full ==> final(self).count() == 1,
            old(self).held(rev@, other@) is None && !full ==> final(self).count() == old(
                self,
            ).count() + 1,
            old(self).held(rev@, other@) is Some && !full ==> final(self).count() == old(
                self,
            ).count(),
            full ==> final(self).answers() == seq![value],
            old(self).held(rev@, other@) is None && !full ==> final(self).answers() == old(
                self,
            ).answers().push(value),
    {
        if full {
            self.table.clear();
        }
        let key = (rev.to_owned(), other.to_owned());
        let ghost id = (rev@, other@);
        let ghost between = self.table;
        self.table.insert(key, value);
        proof {
            if full {
                assert(self.answers() =~= seq![value]);
            }
            assert forall|a: Seq<char>, b: Seq<char>|
                a != rev@ || b != other@ implies #[trigger] self.held(a, b) == (if full {
                None
            } else {
                old(self).held(a, b)
            }) by {
                assert((a, b) != id);
                assert(between.lookup((a, b)) == self.table.lookup((a, b)));
            }
        }
    }
}

/// An empty ancestor cache.
pub fn ancestor_cache() -> (c: PinnedCache<String>)
    ensures
        forall|a: Seq<char>, b: Seq<char>| #[trigger] c.held(a, b) is None,
        c.count() == 0,
        c.answers() == Seq::<Option<String>>::empty(),
{
    PinnedCache::new()
}

/// An empty content cache.
pub fn cat_cache() -> (c: PinnedCache<Vec<u8>>)
    ensures
        forall|a: Seq<char>, b: Seq<char>| #[trigger] c.held(a, b) is None,
        c.count() == 0,
        c.answers() == Seq::<Option<Vec<u8>>>::empty(),
{
    PinnedCache::new()
}

/// How many bytes a content has; an absent one has none.
pub open spec fn byte_count(content: Option<Seq<u8>>) -> nat {
    match content {
        Some(bytes) => bytes.len(),
        None => 0,
    }
}

/// How many bytes the contents hold together.
pub open spec fn total_bytes(contents: Seq<Option<Vec<u8>>>) -> nat
    decreases contents.len(),
{
    if contents.len() == 0 {
        0
    } else {
        total_bytes(contents.drop_last()) + match contents.last() {
            Some(bytes) => bytes@.len(),
            None => 0,
        }
    }
}

/// Whether the content cache starts over before it holds one more.
pub open spec fn contents_full(cache: PinnedCache<Vec<u8>>) -> bool {
    cache.count() >= CONTENTS || total_bytes(cache.answers()) >= CONTENT_BYTES
}

proof fn lemma_total_bytes(contents: Seq<Option<Vec<u8>>>, n: int)
    requires
        0 <= n <= contents.len(),
    ensures
        total_bytes(contents.take(n)) <= total_bytes(contents),
    decreases contents.len(),
{
    if n == contents.len() {
        assert(contents.take(n) =~= contents);
    } else {
        lemma_total_bytes(contents.drop_last(), n);
        assert(contents.drop_last().take(n) =~= contents.take(n));
    }
}

impl PinnedCache<String> {
    /// Hold an ancestor.
    pub fn hold_ancestor(&mut self, base: &str, parent: &str, value: Option<String>)
        ensures
            final(self).held(base@, parent@) == Some(value),
            forall|a: Seq<char>, b: Seq<char>|
                a != base@ || b != parent@ ==> #[trigger] final(self).held(a, b) == (if old(
                    self,
                ).count() >= ANCESTORS {
                    None
                } else {
                    old(self).held(a, b)
                }),
            old(self).held(base@, parent@) is None ==> final(self).count() == (if old(self).count()
                >= ANCESTORS {
                0
            } else {
                old(self).count()
            }) + 1,
            old(self).count() <= ANCESTORS ==> final(self).count() <= ANCESTORS,
    {
        let full = self.table.len() >= ANCESTORS;
        self.hold(full, base, parent, value);
    }
}

impl PinnedCache<Vec<u8>> {
    /// Whether the cache starts over before it holds one more content.
    fn full(&self) -> (b: bool)
        ensures
            b == contents_full(*self),
    {
        if self.table.len() >= CONTENTS {
            return true;
        }
        let mut sum: usize = 0;
        let mut i: usize = 0;
        let ghost all = self.answers();
        while i < self.table.len()
            invariant
                all == self.answers(),
                all.len() == self.table.count(),
                i <= self.table.count(),
                sum == total_bytes(all.take(i as int)),
                sum < CONTENT_BYTES,
            decreases self.table.count() - i,
        {
            proof {
                assert(all.take(i + 1).drop_last() =~= all.take(i as int));
                lemma_total_bytes(all, i + 1);
            }
            if let Some(bytes) = self.table.value_at(i) {
                if bytes.len() >= CONTENT_BYTES - sum {
                    return true;
                }
                sum = sum + bytes.len();
            }
            i = i + 1;
        }
        assert(all.take(i as int) =~= all);
        false
    }

    /// Hold a content. Both entries and bytes are bounded, and a full cache starts over: what it
    /// held comes from commits, so it reads again as it was.
    pub fn hold_content(&mut self, rev: &str, path: &str, value: Option<Vec<u8>>)
        ensures
            final(self).held(rev@, path@) == Some(value),
            forall|a: Seq<char>, b: Seq<char>|
                a != rev@ || b != path@ ==> #[trigger] final(self).held(a, b) == (if contents_full(
                    *old(self),
                ) {
                    None
                } else {
                    old(self).held(a, b)
                }),
            old(self).held(rev@, path@) is None ==> {
                let full = contents_full(*old(self));
                &&& final(self).count() == (if full {
                    0
                } else {
                    old(self).count()
                }) + 1
                &&& total_bytes(final(self).answers()) == (if full {
                    0
                } else {
                    total_bytes(old(self).answers())
                }) + byte_count(answers::bytes_view(value))
            },
            old(self).count() <= CONTENTS ==> final(self).count() <= CONTENTS,
    {
        let full = self.full();
        self.hold(full, rev, path, value);
        proof {
            reveal_with_fuel(total_bytes, 2);
            let held = old(self).answers();
            assert(seq![value].drop_last() =~= Seq::<Option<Vec<u8>>>::empty());
            assert(held.push(value).drop_last() =~= held);
        }
    }
}

/// A copy of bytes that may be absent.
pub fn copy_bytes(b: &Option<Vec<u8>>) -> (r: Option<Vec<u8>>)
    ensures
        answers::bytes_view(r) == answers::bytes_view(*b),
{
    match b {
        Some(v) => {
            let c = v.clone();
            assert(c@ =~= v@);
            Some(c)
        },
        None => None,
    }
}

} // verus!
