//! A small association list, searched by key.

use vstd::prelude::*;
use vstd::string::*;

use crate::text;

verus! {

broadcast use vstd::string::group_string_axioms;

/// What a table can be searched by.
pub trait Key: Sized {
    type Id;

    spec fn id(&self) -> Self::Id;

    fn same(&self, other: &Self) -> (b: bool)
        ensures
            b == (self.id() == other.id()),
    ;
}

impl Key for (String, String) {
    type Id = (Seq<char>, Seq<char>);

    open spec fn id(&self) -> (Seq<char>, Seq<char>) {
        (self.0@, self.1@)
    }

    fn same(&self, other: &Self) -> (b: bool) {
        text::same(self.0.as_str(), other.0.as_str()) && text::same(
            self.1.as_str(),
            other.1.as_str(),
        )
    }
}

/// The value of the first entry under `k`.
pub open spec fn find<K: Key, V>(entries: Seq<(K, V)>, k: K::Id) -> Option<V>
    decreases entries.len(),
{
    if entries.len() == 0 {
        None
    } else if entries[0].0.id() == k {
        Some(entries[0].1)
    } else {
        find(entries.skip(1), k)
    }
}

proof fn lemma_find_miss<K: Key, V>(entries: Seq<(K, V)>, k: K::Id)
    requires
        forall|i: int| 0 <= i < entries.len() ==> (#[trigger] entries[i]).0.id() != k,
    ensures
        find(entries, k) is None,
    decreases entries.len(),
{
    if entries.len() > 0 {
        assert(entries[0].0.id() != k);
        assert forall|i: int| 0 <= i < entries.skip(1).len() implies (#[trigger] entries.skip(
            1,
        )[i]).0.id() != k by {
            assert(entries.skip(1)[i] == entries[i + 1]);
        }
        lemma_find_miss(entries.skip(1), k);
    }
}

proof fn lemma_find_at<K: Key, V>(entries: Seq<(K, V)>, k: K::Id, at: int)
    requires
        0 <= at < entries.len(),
        entries[at].0.id() == k,
        forall|i: int| 0 <= i < at ==> (#[trigger] entries[i]).0.id() != k,
    ensures
        find(entries, k) == Some(entries[at].1),
    decreases entries.len(),
{
    if at > 0 {
        assert(entries[0].0.id() != k);
        assert forall|i: int| 0 <= i < at - 1 implies (#[trigger] entries.skip(1)[i]).0.id()
            != k by {
            assert(entries.skip(1)[i] == entries[i + 1]);
        }
        lemma_find_at(entries.skip(1), k, at - 1);
    }
}

proof fn lemma_find_push<K: Key, V>(entries: Seq<(K, V)>, e: (K, V), k: K::Id)
    ensures
        find(entries.push(e), k) == (match find(entries, k) {
            Some(v) => Some(v),
            None => if e.0.id() == k {
                Some(e.1)
            } else {
                None
            },
        }),
    decreases entries.len(),
{
    if entries.len() == 0 {
        reveal_with_fuel(find, 2);
        assert(entries.push(e).skip(1) =~= Seq::<(K, V)>::empty());
    } else if entries[0].0.id() != k {
        lemma_find_push(entries.skip(1), e, k);
        assert(entries.push(e).skip(1) =~= entries.skip(1).push(e));
    }
}

proof fn lemma_find_update<K: Key, V>(entries: Seq<(K, V)>, e: (K, V), at: int, k: K::Id)
    requires
        0 <= at < entries.len(),
        entries[at].0.id() == e.0.id(),
        k != e.0.id(),
    ensures
        find(entries.update(at, e), k) == find(entries, k),
    decreases entries.len(),
{
    let changed = entries.update(at, e);
    if at == 0 {
        assert(changed.skip(1) =~= entries.skip(1));
    } else {
        assert(changed[0] == entries[0]);
        if entries[0].0.id() != k {
            lemma_find_update(entries.skip(1), e, at - 1, k);
            assert(changed.skip(1) =~= entries.skip(1).update(at - 1, e));
        }
    }
}

/// An association list.
#[derive(Debug)]
pub struct Table<K, V> {
    entries: Vec<(K, V)>,
}

impl<K: Key, V> Table<K, V> {
    /// The value under `k`.
    pub closed spec fn lookup(self, k: K::Id) -> Option<V> {
        find(self.entries@, k)
    }

    /// How many keys have a value.
    pub closed spec fn count(self) -> nat {
        self.entries@.len()
    }

    /// The values, in the order their keys came.
    pub closed spec fn values(self) -> Seq<V> {
        Seq::new(self.entries@.len(), |i: int| self.entries@[i].1)
    }

    pub fn new() -> (t: Self)
        ensures
            forall|k: K::Id| #[trigger] t.lookup(k) is None,
            t.count() == 0,
            t.values() == Seq::<V>::empty(),
    {
        let t = Table { entries: Vec::new() };
        assert(t.values() =~= Seq::<V>::empty());
        t
    }

    /// How many keys have a value.
    pub fn len(&self) -> (n: usize)
        ensures
            n == self.count(),
            n == self.values().len(),
    {
        self.entries.len()
    }

    fn position(&self, k: &K) -> (at: Option<usize>)
        ensures
            match at {
                Some(i) => i < self.entries.len() && self.entries@[i as int].0.id() == k.id()
                    && self.lookup(k.id()) == Some(self.entries@[i as int].1) && forall|j: int|
                    0 <= j < i ==> (#[trigger] self.entries@[j]).0.id() != k.id(),
                None => self.lookup(k.id()) is None,
            },
    {
        let mut i: usize = 0;
        while i < self.entries.len()
            invariant
                i <= self.entries.len(),
                forall|j: int| 0 <= j < i ==> (#[trigger] self.entries@[j]).0.id() != k.id(),
            decreases self.entries.len() - i,
        {
            if self.entries[i].0.same(k) {
                proof {
                    lemma_find_at(self.entries@, k.id(), i as int);
                }
                return Some(i);
            }
            i = i + 1;
        }
        proof {
            lemma_find_miss(self.entries@, k.id());
        }
        None
    }

    /// The value under `k`.
    pub fn get(&self, k: &K) -> (v: Option<&V>)
        ensures
            match v {
                Some(v) => self.lookup(k.id()) == Some(*v),
                None => self.lookup(k.id()) is None,
            },
    {
        match self.position(k) {
            Some(i) => Some(&self.entries[i].1),
            None => None,
        }
    }

    /// The value of the entry at `i`.
    pub fn value_at(&self, i: usize) -> (v: &V)
        requires
            i < self.count(),
        ensures
            *v == self.values()[i as int],
    {
        &self.entries[i].1
    }

    /// Put `v` under `k`, in place of what stood there.
    pub fn insert(&mut self, k: K, v: V)
        ensures
            final(self).lookup(k.id()) == Some(v),
            forall|other: K::Id|
                other != k.id() ==> #[trigger] final(self).lookup(other) == old(self).lookup(other),
            final(self).count() == (if old(self).lookup(k.id()) is Some {
                old(self).count()
            } else {
                old(self).count() + 1
            }),
            old(self).lookup(k.id()) is None ==> final(self).values() == old(self).values().push(v),
    {
        let ghost before = self.entries@;
        let ghost e = (k, v);
        match self.position(&k) {
            Some(i) => {
                self.entries.set(i, (k, v));
                proof {
                    assert forall|other: K::Id| other != e.0.id() implies #[trigger] self.lookup(
                        other,
                    ) == old(self).lookup(other) by {
                        lemma_find_update(before, e, i as int, other);
                    }
                    lemma_find_at(self.entries@, e.0.id(), i as int);
                }
            },
            None => {
                self.entries.push((k, v));
                proof {
                    assert forall|other: K::Id| other != e.0.id() implies #[trigger] self.lookup(
                        other,
                    ) == old(self).lookup(other) by {
                        lemma_find_push(before, e, other);
                    }
                    lemma_find_push(before, e, e.0.id());
                    assert(self.values() =~= old(self).values().push(e.1));
                }
            },
        }
    }

    /// Drop every entry.
    pub fn clear(&mut self)
        ensures
            forall|k: K::Id| #[trigger] final(self).lookup(k) is None,
            final(self).count() == 0,
            final(self).values() == Seq::<V>::empty(),
    {
        self.entries.clear();
        assert(self.values() =~= Seq::<V>::empty());
    }
}

} // verus!
