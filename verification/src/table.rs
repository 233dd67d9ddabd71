//! A small keyed table: a vector of (key, value) pairs with distinct keys.
//! Lookups are specified by a recursive find over the entry sequence; the
//! lemmas here relate find and weighted sums to pushing and removing entries,
//! which is all the quorum-store components need.

use vstd::prelude::*;

verus! {

/// The value under `k`, if any.
pub open spec fn spec_find<V>(s: Seq<(u64, V)>, k: u64) -> Option<V>
    decreases s.len(),
{
    if s.len() == 0 {
        None
    } else if s.last().0 == k {
        Some(s.last().1)
    } else {
        spec_find(s.drop_last(), k)
    }
}

/// No two entries share a key.
pub open spec fn distinct_keys<V>(s: Seq<(u64, V)>) -> bool {
    forall|i: int, j: int| 0 <= i < j < s.len() ==> s[i].0 != s[j].0
}

/// The sum of `weight` over all entries.
pub open spec fn sum_by<V>(s: Seq<(u64, V)>, weight: spec_fn(V) -> int) -> int
    decreases s.len(),
{
    if s.len() == 0 {
        0
    } else {
        sum_by(s.drop_last(), weight) + weight(s.last().1)
    }
}

pub proof fn lemma_find_present<V>(s: Seq<(u64, V)>, i: int)
    requires
        distinct_keys(s),
        0 <= i < s.len(),
    ensures
        spec_find(s, s[i].0) == Some(s[i].1),
    decreases s.len(),
{
    if i + 1 < s.len() {
        assert(s.drop_last()[i] == s[i]);
        lemma_find_present(s.drop_last(), i);
    }
}

pub proof fn lemma_find_absent<V>(s: Seq<(u64, V)>, k: u64)
    requires
        forall|i: int| 0 <= i < s.len() ==> s[i].0 != k,
    ensures
        spec_find(s, k) is None,
    decreases s.len(),
{
    if s.len() > 0 {
        assert(s.last() == s[s.len() - 1]);
        assert(forall|i: int| 0 <= i < s.len() - 1 ==> s.drop_last()[i] == s[i]);
        lemma_find_absent(s.drop_last(), k);
    }
}

/// If a find fails, no entry holds the key.
pub proof fn lemma_find_none<V>(s: Seq<(u64, V)>, k: u64)
    requires
        spec_find(s, k) is None,
    ensures
        forall|i: int| 0 <= i < s.len() ==> s[i].0 != k,
    decreases s.len(),
{
    if s.len() > 0 {
        lemma_find_none(s.drop_last(), k);
        assert(s.last() == s[s.len() - 1]);
        assert(forall|i: int| 0 <= i < s.len() - 1 ==> s.drop_last()[i] == s[i]);
    }
}

/// If a find succeeds, some entry holds the key and value.
pub proof fn lemma_find_index<V>(s: Seq<(u64, V)>, k: u64)
    requires
        spec_find(s, k) is Some,
    ensures
        exists|i: int|
            0 <= i < s.len() && s[i].0 == k && s[i].1 == spec_find(s, k)->Some_0,
    decreases s.len(),
{
    if s.len() > 0 {
        if s.last().0 == k {
            assert(s[s.len() - 1].0 == k && s[s.len() - 1].1 == spec_find(s, k)->Some_0);
        } else {
            lemma_find_index(s.drop_last(), k);
            let i = choose|i: int|
                0 <= i < s.drop_last().len() && s.drop_last()[i].0 == k && s.drop_last()[i].1
                    == spec_find(s.drop_last(), k)->Some_0;
            assert(s[i] == s.drop_last()[i]);
        }
    }
}

/// A find over an entry prepended to a sequence: later entries shadow it.
pub proof fn lemma_find_cons<V>(e: (u64, V), s: Seq<(u64, V)>)
    ensures
        spec_find(seq![e] + s, e.0) == match spec_find(s, e.0) {
            Some(v) => Some(v),
            None => Some(e.1),
        },
        forall|k: u64| k != e.0 ==> spec_find(seq![e] + s, k) == spec_find(s, k),
    decreases s.len(),
{
    let t = seq![e] + s;
    if s.len() == 0 {
        assert(t =~= seq![e]);
        assert(t.last() == e);
        assert(t.drop_last() =~= Seq::<(u64, V)>::empty());
        assert forall|k: u64| k != e.0 implies spec_find(t, k) == spec_find(s, k) by {
            assert(spec_find(t, k) == spec_find(t.drop_last(), k));
        }
    } else {
        assert(t.last() == s.last());
        assert(t.drop_last() =~= seq![e] + s.drop_last());
        lemma_find_cons(e, s.drop_last());
        assert forall|k: u64| k != e.0 implies spec_find(t, k) == spec_find(s, k) by {
            if s.last().0 == k {
                assert(spec_find(t, k) == Some(t.last().1));
            } else {
                assert(spec_find(t, k) == spec_find(t.drop_last(), k));
                assert(spec_find(s, k) == spec_find(s.drop_last(), k));
            }
        }
        if s.last().0 == e.0 {
            assert(spec_find(t, e.0) == Some(t.last().1));
        } else {
            assert(spec_find(t, e.0) == spec_find(t.drop_last(), e.0));
            assert(spec_find(s, e.0) == spec_find(s.drop_last(), e.0));
        }
    }
}

/// Removing the entry at `i` removes exactly its key.
pub proof fn lemma_find_remove<V>(s: Seq<(u64, V)>, i: int)
    requires
        distinct_keys(s),
        0 <= i < s.len(),
    ensures
        distinct_keys(s.remove(i)),
        spec_find(s.remove(i), s[i].0) is None,
        forall|k: u64| k != s[i].0 ==> spec_find(s.remove(i), k) == spec_find(s, k),
    decreases s.len(),
{
    let t = s.remove(i);
    assert(forall|a: int| 0 <= a < i ==> t[a] == s[a]);
    assert(forall|a: int| i <= a < t.len() ==> t[a] == s[a + 1]);
    assert(forall|a: int| 0 <= a < t.len() ==> t[a].0 != s[i].0);
    lemma_find_absent(t, s[i].0);
    if i + 1 == s.len() {
        assert(t =~= s.drop_last());
        assert forall|k: u64| k != s[i].0 implies spec_find(t, k) == spec_find(s, k) by {
            assert(s.last().0 == s[i].0);
            assert(spec_find(s, k) == spec_find(s.drop_last(), k));
        }
    } else {
        assert(t.drop_last() =~= s.drop_last().remove(i));
        assert(t.last() == s.last());
        assert(s.drop_last()[i] == s[i]);
        lemma_find_remove(s.drop_last(), i);
        assert forall|k: u64| k != s[i].0 implies spec_find(t, k) == spec_find(s, k) by {
            if s.last().0 == k {
                assert(spec_find(t, k) == Some(t.last().1));
                assert(spec_find(s, k) == Some(s.last().1));
            } else {
                assert(spec_find(t, k) == spec_find(s.drop_last().remove(i), k));
                assert(spec_find(s, k) == spec_find(s.drop_last(), k));
            }
        }
    }
}

pub proof fn lemma_sum_by_push<V>(s: Seq<(u64, V)>, e: (u64, V), weight: spec_fn(V) -> int)
    ensures
        sum_by(s.push(e), weight) == sum_by(s, weight) + weight(e.1),
{
    assert(s.push(e).drop_last() =~= s);
}

pub proof fn lemma_sum_by_remove<V>(s: Seq<(u64, V)>, i: int, weight: spec_fn(V) -> int)
    requires
        0 <= i < s.len(),
    ensures
        sum_by(s.remove(i), weight) == sum_by(s, weight) - weight(s[i].1),
    decreases s.len(),
{
    let t = s.remove(i);
    if i + 1 == s.len() {
        assert(t =~= s.drop_last());
    } else {
        assert(t.drop_last() =~= s.drop_last().remove(i));
        assert(t.last() == s.last());
        assert(s.drop_last()[i] == s[i]);
        lemma_sum_by_remove(s.drop_last(), i, weight);
    }
}

/// Every entry's weight is bounded below, so the sum of a part is bounded by
/// the whole: removing entries can only shrink a sum of non-negative weights.
pub proof fn lemma_sum_by_nonneg<V>(s: Seq<(u64, V)>, weight: spec_fn(V) -> int)
    requires
        forall|i: int| 0 <= i < s.len() ==> weight(#[trigger] s[i].1) >= 0,
    ensures
        sum_by(s, weight) >= 0,
    decreases s.len(),
{
    if s.len() > 0 {
        assert(s.last() == s[s.len() - 1]);
        assert(forall|i: int| 0 <= i < s.len() - 1 ==> s.drop_last()[i] == s[i]);
        lemma_sum_by_nonneg(s.drop_last(), weight);
    }
}

/// A keyed table with distinct keys.
pub struct Table<V> {
    entries: Vec<(u64, V)>,
}

impl<V> Table<V> {
    /// The entry sequence, in insertion order.
    pub closed spec fn entries(&self) -> Seq<(u64, V)> {
        self.entries@
    }

    /// The value under `k`, if any.
    pub open spec fn find(&self, k: u64) -> Option<V> {
        spec_find(self.entries(), k)
    }

    pub open spec fn contains(&self, k: u64) -> bool {
        self.find(k) is Some
    }

    pub open spec fn wf(&self) -> bool {
        distinct_keys(self.entries())
    }

    pub fn new() -> (r: Table<V>)
        ensures
            r.wf(),
            r.entries() == Seq::<(u64, V)>::empty(),
    {
        Table { entries: Vec::new() }
    }

    pub fn len(&self) -> (r: usize)
        ensures
            r == self.entries().len(),
    {
        self.entries.len()
    }

    /// A borrow of the entry at position `i`.
    pub fn at(&self, i: usize) -> (r: &(u64, V))
        requires
            i < self.entries().len(),
        ensures
            *r == self.entries()[i as int],
    {
        &self.entries[i]
    }

    /// The position of the entry with key `k`, if any.
    pub fn find_index(&self, k: u64) -> (r: Option<usize>)
        requires
            self.wf(),
        ensures
            match r {
                Some(i) => {
                    &&& i < self.entries().len()
                    &&& self.entries()[i as int].0 == k
                    &&& self.find(k) == Some(self.entries()[i as int].1)
                },
                None => self.find(k) is None,
            },
    {
        let mut i: usize = 0;
        while i < self.entries.len()
            invariant
                self.wf(),
                i <= self.entries@.len(),
                forall|j: int| 0 <= j < i ==> self.entries@[j].0 != k,
            decreases self.entries@.len() - i,
        {
            if self.entries[i].0 == k {
                proof {
                    lemma_find_present(self.entries@, i as int);
                }
                return Some(i);
            }
            i = i + 1;
        }
        proof {
            lemma_find_absent(self.entries@, k);
        }
        None
    }

    /// A borrow of the value under `k`, if any.
    pub fn get(&self, k: u64) -> (r: Option<&V>)
        requires
            self.wf(),
        ensures
            match r {
                Some(v) => self.find(k) == Some(*v),
                None => self.find(k) is None,
            },
    {
        match self.find_index(k) {
            Some(i) => Some(&self.entries[i].1),
            None => None,
        }
    }

    pub fn contains_key(&self, k: u64) -> (r: bool)
        requires
            self.wf(),
        ensures
            r == self.contains(k),
    {
        match self.find_index(k) {
            Some(_) => true,
            None => false,
        }
    }

    /// Add a binding for a key not yet present.
    pub fn insert_new(&mut self, k: u64, v: V)
        requires
            old(self).wf(),
            !old(self).contains(k),
        ensures
            final(self).wf(),
            final(self).entries() == old(self).entries().push((k, v)),
            final(self).find(k) == Some(v),
            forall|k2: u64| k2 != k ==> final(self).find(k2) == old(self).find(k2),
    {
        proof {
            lemma_find_none(self.entries@, k);
        }
        self.entries.push((k, v));
        proof {
            let s = self.entries@;
            assert(s.drop_last() =~= old(self).entries());
            assert forall|k2: u64| k2 != k implies spec_find(s, k2) == spec_find(
                s.drop_last(),
                k2,
            ) by {
            }
        }
    }

    /// Remove the binding of `k`, handing back its value.
    pub fn remove_entry(&mut self, k: u64) -> (r: Option<V>)
        requires
            old(self).wf(),
        ensures
            final(self).wf(),
            r == old(self).find(k),
            final(self).find(k) is None,
            forall|k2: u64| k2 != k ==> final(self).find(k2) == old(self).find(k2),
            match r {
                Some(_) => exists|i: int|
                    0 <= i < old(self).entries().len() && old(self).entries()[i].0 == k
                        && final(self).entries() == old(self).entries().remove(i),
                None => final(self).entries() == old(self).entries(),
            },
    {
        match self.find_index(k) {
            Some(i) => {
                proof {
                    lemma_find_remove(self.entries@, i as int);
                }
                let (_, v) = self.entries.remove(i);
                Some(v)
            },
            None => None,
        }
    }

    /// Hand out every entry, leaving the table empty.
    pub fn take_all(&mut self) -> (r: Vec<(u64, V)>)
        ensures
            r@ == old(self).entries(),
            final(self).wf(),
            final(self).entries() == Seq::<(u64, V)>::empty(),
    {
        let mut v: Vec<(u64, V)> = Vec::new();
        core::mem::swap(&mut v, &mut self.entries);
        v
    }

    /// Drop every entry.
    pub fn clear(&mut self)
        ensures
            final(self).wf(),
            final(self).entries() == Seq::<(u64, V)>::empty(),
            forall|k: u64| final(self).find(k) is None,
    {
        self.entries = Vec::new();
    }
}

} // verus!
