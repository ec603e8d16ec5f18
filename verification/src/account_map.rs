//! A small verified map from account identifiers to values, kept as an
//! association list with pairwise-distinct keys. The ledger stores its
//! balances, locked amounts and unlock times in such maps.

use vstd::prelude::*;

verus! {

/// True when no key occurs twice in the entry sequence.
pub open spec fn uniq_keys<V>(s: Seq<(u128, V)>) -> bool {
    forall|i: int, j: int|
        0 <= i < j < s.len() ==> (#[trigger] s[i]).0 != (#[trigger] s[j]).0
}

/// True when some entry carries the key `k`.
pub open spec fn has_key<V>(s: Seq<(u128, V)>, k: u128) -> bool {
    exists|i: int| 0 <= i < s.len() && (#[trigger] s[i]).0 == k
}

/// The index of the entry carrying key `k`; meaningful only when
/// `has_key(s, k)` holds, and unique under `uniq_keys(s)`.
pub open spec fn key_index<V>(s: Seq<(u128, V)>, k: u128) -> int {
    choose|i: int| 0 <= i < s.len() && (#[trigger] s[i]).0 == k
}

/// The value stored under key `k`, if any.
pub open spec fn value_of<V>(s: Seq<(u128, V)>, k: u128) -> Option<V> {
    if has_key(s, k) {
        Some(s[key_index(s, k)].1)
    } else {
        None
    }
}

/// Under distinct keys, the entry at index `i` is the one `value_of`
/// reports for its key.
pub proof fn lemma_key_at<V>(s: Seq<(u128, V)>, i: int)
    requires
        uniq_keys(s),
        0 <= i < s.len(),
    ensures
        has_key(s, s[i].0),
        key_index(s, s[i].0) == i,
        value_of(s, s[i].0) == Some(s[i].1),
{
    let k = s[i].0;
    assert(has_key(s, k));
    let j = key_index(s, k);
    assert(0 <= j < s.len() && s[j].0 == k);
    if j < i {
        assert(s[j].0 != s[i].0);
    } else if i < j {
        assert(s[i].0 != s[j].0);
    }
}

/// Replacing the value at index `i` by `v`, under the same key, keeps the
/// keys distinct, stores `v` under that key and leaves every other key's
/// value as it was.
pub proof fn lemma_update_value<V>(s: Seq<(u128, V)>, i: int, v: V)
    requires
        uniq_keys(s),
        0 <= i < s.len(),
    ensures
        uniq_keys(s.update(i, (s[i].0, v))),
        value_of(s.update(i, (s[i].0, v)), s[i].0) == Some(v),
        forall|k2: u128|
            k2 != s[i].0 ==> value_of(s.update(i, (s[i].0, v)), k2) == value_of(s, k2),
        forall|k2: u128|
            k2 != s[i].0 ==> has_key(s.update(i, (s[i].0, v)), k2) == has_key(s, k2),
{
    let k = s[i].0;
    let s2 = s.update(i, (k, v));
    assert forall|a: int, b: int| 0 <= a < b < s2.len() implies s2[a].0 != s2[b].0 by {
        assert(s2[a].0 == s[a].0);
        assert(s2[b].0 == s[b].0);
        assert(s[a].0 != s[b].0);
    }
    lemma_key_at(s2, i);
    assert forall|k2: u128|
        k2 != k implies value_of(s2, k2) == value_of(s, k2) && has_key(s2, k2) == has_key(
        s,
        k2,
    ) by {
        if has_key(s, k2) {
            let j = key_index(s, k2);
            assert(0 <= j < s.len() && s[j].0 == k2);
            assert(j != i);
            assert(s2[j] == s[j]);
            lemma_key_at(s2, j);
        } else {
            if has_key(s2, k2) {
                let j = key_index(s2, k2);
                assert(s2[j].0 == k2);
                assert(j != i);
                assert(s[j].0 == k2);
                assert(has_key(s, k2));
            }
        }
    }
}

/// Appending an entry under a fresh key keeps the keys distinct, stores
/// its value under that key and leaves every other key's value as it was.
pub proof fn lemma_push_value<V>(s: Seq<(u128, V)>, k: u128, v: V)
    requires
        uniq_keys(s),
        !has_key(s, k),
    ensures
        uniq_keys(s.push((k, v))),
        value_of(s.push((k, v)), k) == Some(v),
        forall|k2: u128| k2 != k ==> value_of(s.push((k, v)), k2) == value_of(s, k2),
        forall|k2: u128| k2 != k ==> has_key(s.push((k, v)), k2) == has_key(s, k2),
{
    let s2 = s.push((k, v));
    let n = s.len() as int;
    assert forall|a: int, b: int| 0 <= a < b < s2.len() implies s2[a].0 != s2[b].0 by {
        if b < n {
            assert(s2[a] == s[a]);
            assert(s2[b] == s[b]);
            assert(s[a].0 != s[b].0);
        } else {
            assert(s2[b] == (k, v));
            assert(s2[a] == s[a]);
            if s[a].0 == k {
                assert(has_key(s, k));
            }
        }
    }
    lemma_key_at(s2, n);
    assert forall|k2: u128|
        k2 != k implies value_of(s2, k2) == value_of(s, k2) && has_key(s2, k2) == has_key(
        s,
        k2,
    ) by {
        if has_key(s, k2) {
            let j = key_index(s, k2);
            assert(0 <= j < n && s[j].0 == k2);
            assert(s2[j] == s[j]);
            lemma_key_at(s2, j);
        } else {
            if has_key(s2, k2) {
                let j = key_index(s2, k2);
                assert(s2[j].0 == k2);
                assert(j < n);
                assert(s[j].0 == k2);
                assert(has_key(s, k2));
            }
        }
    }
}

/// Removing the entry at index `i` keeps the keys distinct, drops its key
/// and leaves every other key's value as it was.
pub proof fn lemma_remove_value<V>(s: Seq<(u128, V)>, i: int)
    requires
        uniq_keys(s),
        0 <= i < s.len(),
    ensures
        uniq_keys(s.remove(i)),
        !has_key(s.remove(i), s[i].0),
        forall|k2: u128| k2 != s[i].0 ==> value_of(s.remove(i), k2) == value_of(s, k2),
        forall|k2: u128| k2 != s[i].0 ==> has_key(s.remove(i), k2) == has_key(s, k2),
{
    let k = s[i].0;
    let s2 = s.remove(i);
    s.remove_ensures(i);
    assert forall|a: int, b: int| 0 <= a < b < s2.len() implies s2[a].0 != s2[b].0 by {
        if b < i {
            assert(s2[a] == s[a]);
            assert(s2[b] == s[b]);
            assert(s[a].0 != s[b].0);
        } else if a < i {
            assert(s2[a] == s[a]);
            assert(s2[b] == s[b + 1]);
            assert(s[a].0 != s[b + 1].0);
        } else {
            assert(s2[a] == s[a + 1]);
            assert(s2[b] == s[b + 1]);
            assert(s[a + 1].0 != s[b + 1].0);
        }
    }
    assert forall|x: int| 0 <= x < s2.len() implies s2[x].0 != k by {
        if x < i {
            assert(s2[x] == s[x]);
            assert(s[x].0 != s[i].0);
        } else {
            assert(s2[x] == s[x + 1]);
            assert(s[i].0 != s[x + 1].0);
        }
    }
    if has_key(s2, k) {
        let j = key_index(s2, k);
        assert(s2[j].0 != k);
    }
    assert forall|k2: u128|
        k2 != k implies value_of(s2, k2) == value_of(s, k2) && has_key(s2, k2) == has_key(
        s,
        k2,
    ) by {
        if has_key(s, k2) {
            let j = key_index(s, k2);
            assert(0 <= j < s.len() && s[j].0 == k2);
            assert(j != i);
            if j < i {
                assert(s2[j] == s[j]);
                lemma_key_at(s2, j);
            } else {
                assert(s2[j - 1] == s[j]);
                lemma_key_at(s2, j - 1);
            }
        } else {
            if has_key(s2, k2) {
                let j = key_index(s2, k2);
                assert(s2[j].0 == k2);
                if j < i {
                    assert(s[j].0 == k2);
                } else {
                    assert(s[j + 1].0 == k2);
                }
                assert(has_key(s, k2));
            }
        }
    }
}

/// The sum of all stored amounts, from the last entry backwards.
pub open spec fn sum_values(s: Seq<(u128, u128)>) -> int
    decreases s.len(),
{
    if s.len() == 0 {
        0
    } else {
        sum_values(s.drop_last()) + s.last().1 as int
    }
}

/// Appending an entry adds its amount to the sum.
pub proof fn lemma_sum_push(s: Seq<(u128, u128)>, p: (u128, u128))
    ensures
        sum_values(s.push(p)) == sum_values(s) + p.1 as int,
{
    let s2 = s.push(p);
    assert(s2.drop_last() =~= s);
    assert(s2.last() == p);
}

/// Replacing the entry at index `i` replaces its amount in the sum.
pub proof fn lemma_sum_update(s: Seq<(u128, u128)>, i: int, p: (u128, u128))
    requires
        0 <= i < s.len(),
    ensures
        sum_values(s.update(i, p)) == sum_values(s) - s[i].1 as int + p.1 as int,
    decreases s.len(),
{
    let s2 = s.update(i, p);
    if i == s.len() - 1 {
        assert(s2.drop_last() =~= s.drop_last());
        assert(s2.last() == p);
        assert(s.last() == s[i]);
    } else {
        assert(s2.drop_last() =~= s.drop_last().update(i, p));
        lemma_sum_update(s.drop_last(), i, p);
        assert(s2.last() == s.last());
        assert(s.drop_last()[i] == s[i]);
    }
}

/// Removing the entry at index `i` takes its amount out of the sum.
pub proof fn lemma_sum_remove(s: Seq<(u128, u128)>, i: int)
    requires
        0 <= i < s.len(),
    ensures
        sum_values(s.remove(i)) == sum_values(s) - s[i].1 as int,
    decreases s.len(),
{
    let s2 = s.remove(i);
    s.remove_ensures(i);
    if i == s.len() - 1 {
        assert(s2 =~= s.drop_last());
        assert(s.last() == s[i]);
    } else {
        assert(s2.drop_last() =~= s.drop_last().remove(i));
        lemma_sum_remove(s.drop_last(), i);
        assert(s2.last() == s.last());
        assert(s.drop_last()[i] == s[i]);
    }
}

/// The sum of unsigned amounts is never negative.
pub proof fn lemma_sum_nonneg(s: Seq<(u128, u128)>)
    ensures
        sum_values(s) >= 0,
    decreases s.len(),
{
    if s.len() != 0 {
        lemma_sum_nonneg(s.drop_last());
    }
}

/// A map from account identifiers to values, stored as an association
/// list whose keys are pairwise distinct.
pub struct AccountMap<V> {
    /// The (key, value) entries; no key occurs twice.
    pub entries: Vec<(u128, V)>,
}

impl<V: Copy> AccountMap<V> {
    /// Well-formedness: the keys are pairwise distinct.
    pub open spec fn wf(self) -> bool {
        uniq_keys(self.entries@)
    }

    /// True when the map holds an entry for `k`.
    pub open spec fn contains_key(self, k: u128) -> bool {
        has_key(self.entries@, k)
    }

    /// The value stored under `k`, if any.
    pub open spec fn spec_get(self, k: u128) -> Option<V> {
        value_of(self.entries@, k)
    }

    /// The empty map.
    pub fn empty() -> (m: Self)
        ensures
            m.wf(),
            m.entries@ == Seq::<(u128, V)>::empty(),
            forall|k: u128| !(#[trigger] m.contains_key(k)),
    {
        let m = AccountMap { entries: Vec::new() };
        m
    }

    /// The position of `k`'s entry, when one exists.
    fn position(&self, k: u128) -> (r: Option<usize>)
        ensures
            match r {
                Some(i) => i < self.entries@.len() && self.entries@[i as int].0 == k,
                None => !self.contains_key(k),
            },
    {
        let n = self.entries.len();
        let mut i: usize = 0;
        while i < n
            invariant
                i <= n,
                n == self.entries@.len(),
                forall|j: int| 0 <= j < i ==> (#[trigger] self.entries@[j]).0 != k,
            decreases n - i,
        {
            if self.entries[i].0 == k {
                return Some(i);
            }
            i = i + 1;
        }
        None
    }

    /// Stores `v` under `k`, replacing any earlier value.
    pub fn insert(&mut self, k: u128, v: V)
        requires
            old(self).wf(),
        ensures
            final(self).wf(),
            final(self).contains_key(k),
            final(self).spec_get(k) == Some(v),
            forall|k2: u128|
                k2 != k ==> #[trigger] final(self).spec_get(k2) == old(self).spec_get(k2),
            forall|k2: u128|
                k2 != k ==> (#[trigger] final(self).contains_key(k2) == old(self).contains_key(
                    k2,
                )),
            !old(self).contains_key(k) ==> final(self).entries@ == old(self).entries@.push(
                (k, v),
            ),
            old(self).contains_key(k) ==> final(self).entries@ == old(self).entries@.update(
                key_index(old(self).entries@, k),
                (k, v),
            ),
    {
        match self.position(k) {
            Some(i) => {
                proof {
                    lemma_key_at(self.entries@, i as int);
                    lemma_update_value(self.entries@, i as int, v);
                }
                self.entries[i] = (k, v);
            },
            None => {
                proof {
                    lemma_push_value(self.entries@, k, v);
                }
                self.entries.push((k, v));
            },
        }
    }

    /// Drops the entry under `k`, if one exists.
    pub fn remove(&mut self, k: u128)
        requires
            old(self).wf(),
        ensures
            final(self).wf(),
            !final(self).contains_key(k),
            final(self).spec_get(k) == None::<V>,
            forall|k2: u128|
                k2 != k ==> #[trigger] final(self).spec_get(k2) == old(self).spec_get(k2),
            forall|k2: u128|
                k2 != k ==> (#[trigger] final(self).contains_key(k2) == old(self).contains_key(
                    k2,
                )),
            !old(self).contains_key(k) ==> *final(self) == *old(self),
            old(self).contains_key(k) ==> final(self).entries@ == old(self).entries@.remove(
                key_index(old(self).entries@, k),
            ),
    {
        match self.position(k) {
            Some(i) => {
                proof {
                    lemma_key_at(self.entries@, i as int);
                    lemma_remove_value(self.entries@, i as int);
                }
                self.entries.remove(i);
            },
            None => {},
        }
    }

    /// Looks the key up; `None` when it is absent.
    pub fn get(&self, k: u128) -> (r: Option<V>)
        requires
            self.wf(),
        ensures
            r == self.spec_get(k),
    {
        match self.position(k) {
            Some(i) => {
                proof {
                    lemma_key_at(self.entries@, i as int);
                }
                Some(self.entries[i].1)
            },
            None => None,
        }
    }
}

} // verus!
