//! A small association table from `u64` keys to owned values.
//!
//! The table is backed by a vector of key-value rows whose keys are pairwise
//! distinct; its mathematical view is the `Map` those rows induce.  Rows stay
//! addressable by position, which the rest of the library uses to walk every
//! entry in a stable storage order.

use vstd::prelude::*;

verus! {

/// The map induced by a sequence of key-value rows; later rows win.
pub open spec fn map_of<V>(s: Seq<(u64, V)>) -> Map<u64, V>
    decreases s.len(),
{
    if s.len() == 0 {
        Map::empty()
    } else {
        map_of(s.drop_last()).insert(s.last().0, s.last().1)
    }
}

/// No two rows carry the same key.
pub open spec fn keys_unique<V>(s: Seq<(u64, V)>) -> bool {
    forall|i: int, j: int| 0 <= i < j < s.len() ==> (#[trigger] s[i]).0 != (#[trigger] s[j]).0
}

/// A key is in the induced map exactly when some row carries it.
pub proof fn lemma_map_of_domain<V>(s: Seq<(u64, V)>)
    ensures
        forall|k: u64|
            #[trigger] map_of(s).contains_key(k) <==> exists|i: int|
                0 <= i < s.len() && (#[trigger] s[i]).0 == k,
    decreases s.len(),
{
    if s.len() > 0 {
        let d = s.drop_last();
        lemma_map_of_domain(d);
        assert forall|k: u64|
            (exists|i: int| 0 <= i < s.len() && (#[trigger] s[i]).0 == k) implies map_of(
            s,
        ).contains_key(k) by {
            let i = choose|i: int| 0 <= i < s.len() && (#[trigger] s[i]).0 == k;
            if i < s.len() - 1 {
                assert(d[i] == s[i]);
                assert(exists|j: int| 0 <= j < d.len() && (#[trigger] d[j]).0 == k);
                assert(map_of(d).contains_key(k));
            }
        }
        assert forall|k: u64| #[trigger]
            map_of(s).contains_key(k) implies exists|i: int|
            0 <= i < s.len() && (#[trigger] s[i]).0 == k by {
            if k == s.last().0 {
                assert(s[s.len() - 1].0 == k);
            } else {
                assert(map_of(d).contains_key(k));
                let i = choose|i: int| 0 <= i < d.len() && (#[trigger] d[i]).0 == k;
                assert(s[i].0 == k);
            }
        }
    }
}

/// With distinct keys, each row determines the value the induced map holds.
pub proof fn lemma_map_of_index<V>(s: Seq<(u64, V)>, i: int)
    requires
        keys_unique(s),
        0 <= i < s.len(),
    ensures
        map_of(s).contains_key(s[i].0),
        map_of(s)[s[i].0] == s[i].1,
    decreases s.len(),
{
    if i < s.len() - 1 {
        assert(keys_unique(s.drop_last()));
        assert(s.drop_last()[i] == s[i]);
        lemma_map_of_index(s.drop_last(), i);
        assert(s.last().0 != s[i].0);
    }
}

/// An association table from `u64` keys to values of type `V`.
pub struct Table<V> {
    entries: Vec<(u64, V)>,
}

impl<V> View for Table<V> {
    type V = Map<u64, V>;

    open spec fn view(&self) -> Map<u64, V> {
        map_of(self.rows())
    }
}

impl<V> Table<V> {
    /// The stored rows, in storage order.
    pub closed spec fn rows(self) -> Seq<(u64, V)> {
        self.entries@
    }

    /// Keys are pairwise distinct.
    pub open spec fn wf(self) -> bool {
        keys_unique(self.rows())
    }

    pub fn new() -> (t: Self)
        ensures
            t.wf(),
            t.rows() == Seq::<(u64, V)>::empty(),
            t@ == Map::<u64, V>::empty(),
    {
        Table { entries: Vec::new() }
    }

    /// Position of the row carrying `key`, if any.
    fn position(&self, key: u64) -> (r: Option<usize>)
        ensures
            match r {
                Some(i) => i < self.rows().len() && self.rows()[i as int].0 == key,
                None => forall|i: int| 0 <= i < self.rows().len() ==> (#[trigger] self.rows()[i]).0 != key,
            },
    {
        let n = self.entries.len();
        let mut i: usize = 0;
        while i < n
            invariant
                n == self.rows().len(),
                i <= n,
                forall|j: int| 0 <= j < i ==> (#[trigger] self.rows()[j]).0 != key,
            decreases n - i,
        {
            if self.entries[i].0 == key {
                return Some(i);
            }
            i = i + 1;
        }
        None
    }

    pub fn contains_key(&self, key: u64) -> (r: bool)
        ensures
            r == self@.contains_key(key),
    {
        proof {
            lemma_map_of_domain(self.rows());
        }
        self.position(key).is_some()
    }

    pub fn get(&self, key: u64) -> (r: Option<&V>)
        requires
            self.wf(),
        ensures
            match r {
                Some(v) => self@.contains_key(key) && *v == self@[key],
                None => !self@.contains_key(key),
            },
    {
        proof {
            lemma_map_of_domain(self.rows());
        }
        match self.position(key) {
            Some(i) => {
                proof {
                    lemma_map_of_index(self.rows(), i as int);
                }
                Some(&self.entries[i].1)
            },
            None => None,
        }
    }

    pub fn len(&self) -> (n: usize)
        ensures
            n == self.rows().len(),
    {
        self.entries.len()
    }

    /// The row at position `i`, for walking the table in storage order.
    pub fn row(&self, i: usize) -> (r: &(u64, V))
        requires
            i < self.rows().len(),
        ensures
            *r == self.rows()[i as int],
    {
        &self.entries[i]
    }

    /// Inserts `value` under `key`, replacing any previous value in place;
    /// a fresh key is appended as a new last row.
    pub fn insert(&mut self, key: u64, value: V)
        requires
            old(self).wf(),
        ensures
            final(self).wf(),
            final(self)@ == old(self)@.insert(key, value),
            old(self)@.contains_key(key) ==> exists|i: int|
                0 <= i < old(self).rows().len() && (#[trigger] old(self).rows()[i]).0 == key
                    && final(self).rows() == old(self).rows().update(i, (key, value)),
            !old(self)@.contains_key(key) ==> final(self).rows() == old(self).rows().push(
                (key, value),
            ),
    {
        proof {
            lemma_map_of_domain(self.rows());
        }
        let ghost s0 = self.rows();
        match self.position(key) {
            Some(i) => {
                self.entries[i] = (key, value);
                proof {
                    lemma_map_of_update(s0, i as int, self.rows()[i as int]);
                }
            },
            None => {
                self.entries.push((key, value));
                proof {
                    lemma_map_of_push(s0, (key, value));
                }
            },
        }
    }

    /// Removes the row carrying `key` and returns its value, if any.
    pub fn remove(&mut self, key: u64) -> (r: Option<V>)
        requires
            old(self).wf(),
        ensures
            final(self).wf(),
            final(self)@ == old(self)@.remove(key),
            old(self)@.contains_key(key) ==> r == Some(old(self)@[key]),
            !old(self)@.contains_key(key) ==> r is None && final(self).rows() == old(self).rows(),
            old(self)@.contains_key(key) ==> exists|i: int|
                0 <= i < old(self).rows().len() && (#[trigger] old(self).rows()[i]).0 == key
                    && final(self).rows() == old(self).rows().update(
                    i,
                    old(self).rows().last(),
                ).drop_last(),
    {
        proof {
            lemma_map_of_domain(self.rows());
        }
        let ghost s0 = self.rows();
        match self.position(key) {
            Some(i) => {
                proof {
                    lemma_map_of_index(s0, i as int);
                    lemma_map_of_remove(s0, i as int);
                }
                let (_, v) = self.entries.swap_remove(i);
                Some(v)
            },
            None => {
                proof {
                    assert(map_of(s0) =~= map_of(s0).remove(key));
                }
                None
            },
        }
    }
}

/// Updating a row in place with the same key updates the induced map.
proof fn lemma_map_of_update<V>(s: Seq<(u64, V)>, i: int, p: (u64, V))
    requires
        keys_unique(s),
        0 <= i < s.len(),
        p.0 == s[i].0,
    ensures
        keys_unique(s.update(i, p)),
        map_of(s.update(i, p)) == map_of(s).insert(p.0, p.1),
{
    let s2 = s.update(i, p);
    assert(keys_unique(s2));
    lemma_map_of_domain(s);
    lemma_map_of_domain(s2);
    assert forall|k: u64| #[trigger]
        map_of(s2).contains_key(k) implies map_of(s).insert(p.0, p.1).contains_key(k) by {
        let j = choose|j: int| 0 <= j < s2.len() && (#[trigger] s2[j]).0 == k;
        if j != i {
            assert(s[j].0 == k);
        }
    }
    assert forall|k: u64| #[trigger]
        map_of(s).insert(p.0, p.1).contains_key(k) implies map_of(s2).contains_key(k) by {
        if k == p.0 {
            assert(s2[i].0 == k);
        } else {
            let j = choose|j: int| 0 <= j < s.len() && (#[trigger] s[j]).0 == k;
            assert(s2[j].0 == k);
        }
    }
    assert forall|k: u64| #[trigger]
        map_of(s2).contains_key(k) implies map_of(s2)[k] == map_of(s).insert(p.0, p.1)[k] by {
        if k == p.0 {
            lemma_map_of_index(s2, i);
        } else {
            let j = choose|j: int| 0 <= j < s.len() && (#[trigger] s[j]).0 == k;
            assert(s2[j] == s[j]);
            lemma_map_of_index(s2, j);
            lemma_map_of_index(s, j);
        }
    }
    assert(map_of(s2) =~= map_of(s).insert(p.0, p.1));
}

/// Appending a row with a fresh key extends the induced map.
proof fn lemma_map_of_push<V>(s: Seq<(u64, V)>, p: (u64, V))
    requires
        keys_unique(s),
        forall|i: int| 0 <= i < s.len() ==> (#[trigger] s[i]).0 != p.0,
    ensures
        keys_unique(s.push(p)),
        map_of(s.push(p)) == map_of(s).insert(p.0, p.1),
{
    let s2 = s.push(p);
    assert forall|i: int, j: int| 0 <= i < j < s2.len() implies (#[trigger] s2[i]).0 != (
    #[trigger] s2[j]).0 by {
        if j < s2.len() - 1 {
            assert(s2[i] == s[i] && s2[j] == s[j]);
        } else {
            assert(s2[i] == s[i] && s2[j] == p);
        }
    }
    assert(s2.drop_last() =~= s);
    assert(map_of(s2) == map_of(s).insert(p.0, p.1));
}

/// Swap-removing the row at `i` removes its key from the induced map.
proof fn lemma_map_of_remove<V>(s: Seq<(u64, V)>, i: int)
    requires
        keys_unique(s),
        0 <= i < s.len(),
    ensures
        keys_unique(s.update(i, s.last()).drop_last()),
        map_of(s.update(i, s.last()).drop_last()) == map_of(s).remove(s[i].0),
{
    let k0 = s[i].0;
    let s2 = s.update(i, s.last()).drop_last();
    assert forall|a: int, b: int| 0 <= a < b < s2.len() implies (#[trigger] s2[a]).0 != (
    #[trigger] s2[b]).0 by {
        let n = s.len() - 1;
        let pa = if a == i { s[n] } else { s[a] };
        let pb = if b == i { s[n] } else { s[b] };
        assert(s2[a] == pa && s2[b] == pb);
    }
    lemma_map_of_domain(s);
    lemma_map_of_domain(s2);
    assert forall|k: u64| #[trigger]
        map_of(s2).contains_key(k) implies map_of(s).remove(k0).contains_key(k) by {
        let j = choose|j: int| 0 <= j < s2.len() && (#[trigger] s2[j]).0 == k;
        if j == i {
            assert(s[s.len() - 1].0 == k);
        } else {
            assert(s[j].0 == k);
        }
        assert(k != k0);
    }
    assert forall|k: u64| #[trigger]
        map_of(s).remove(k0).contains_key(k) implies map_of(s2).contains_key(k) by {
        let j = choose|j: int| 0 <= j < s.len() && (#[trigger] s[j]).0 == k;
        if j == s.len() - 1 {
            if i < s.len() - 1 {
                assert(s2[i].0 == k);
            }
        } else {
            assert(s2[j].0 == k);
        }
    }
    assert forall|k: u64| #[trigger]
        map_of(s2).contains_key(k) implies map_of(s2)[k] == map_of(s).remove(k0)[k] by {
        let j = choose|j: int| 0 <= j < s2.len() && (#[trigger] s2[j]).0 == k;
        lemma_map_of_index(s2, j);
        if j == i {
            lemma_map_of_index(s, s.len() - 1);
        } else {
            lemma_map_of_index(s, j);
        }
    }
    assert(map_of(s2) =~= map_of(s).remove(k0));
}

/// Sum of `f` over the rows of a sequence.
pub open spec fn seq_sum<T>(s: Seq<T>, f: spec_fn(T) -> int) -> int
    decreases s.len(),
{
    if s.len() == 0 {
        0
    } else {
        seq_sum(s.drop_last(), f) + f(s.last())
    }
}

/// Replacing one element changes the sum by the difference of contributions.
pub proof fn lemma_seq_sum_update<T>(s: Seq<T>, i: int, x: T, f: spec_fn(T) -> int)
    requires
        0 <= i < s.len(),
    ensures
        seq_sum(s.update(i, x), f) == seq_sum(s, f) - f(s[i]) + f(x),
    decreases s.len(),
{
    let s2 = s.update(i, x);
    if i == s.len() - 1 {
        assert(s2.drop_last() =~= s.drop_last());
    } else {
        assert(s2.drop_last() =~= s.drop_last().update(i, x));
        lemma_seq_sum_update(s.drop_last(), i, x, f);
    }
}

/// Appending an element adds its contribution.
pub proof fn lemma_seq_sum_push<T>(s: Seq<T>, x: T, f: spec_fn(T) -> int)
    ensures
        seq_sum(s.push(x), f) == seq_sum(s, f) + f(x),
{
    assert(s.push(x).drop_last() =~= s);
}

/// With non-negative contributions the sum dominates each single one.
pub proof fn lemma_seq_sum_elem_bound<T>(s: Seq<T>, i: int, f: spec_fn(T) -> int)
    requires
        0 <= i < s.len(),
        forall|t: T| #[trigger] f(t) >= 0,
    ensures
        f(s[i]) <= seq_sum(s, f),
        seq_sum(s, f) >= 0,
    decreases s.len(),
{
    if s.len() > 0 {
        if i == s.len() - 1 {
            lemma_seq_sum_nonneg(s.drop_last(), f);
        } else {
            assert(s.drop_last()[i] == s[i]);
            lemma_seq_sum_elem_bound(s.drop_last(), i, f);
        }
    }
}

/// A sum of non-negative contributions is non-negative.
pub proof fn lemma_seq_sum_nonneg<T>(s: Seq<T>, f: spec_fn(T) -> int)
    requires
        forall|t: T| #[trigger] f(t) >= 0,
    ensures
        seq_sum(s, f) >= 0,
    decreases s.len(),
{
    if s.len() > 0 {
        lemma_seq_sum_nonneg(s.drop_last(), f);
    }
}

} // verus!
