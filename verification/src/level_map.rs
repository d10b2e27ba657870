//! A map from prices to values, kept in ascending order of the price.

use vstd::prelude::*;

verus! {

/// The prices ascend.
pub open spec fn ascending<V>(s: Seq<(i64, V)>) -> bool {
    forall|i: int, j: int| 0 <= i < j < s.len() ==> (#[trigger] s[i]).0 < (#[trigger] s[j]).0
}

/// The price is listed.
pub open spec fn has_key<V>(s: Seq<(i64, V)>, k: i64) -> bool {
    exists|i: int| 0 <= i < s.len() && (#[trigger] s[i]).0 == k
}

/// The value listed for a price.
pub open spec fn value_of<V>(s: Seq<(i64, V)>, k: i64) -> V {
    s[choose|i: int| 0 <= i < s.len() && (#[trigger] s[i]).0 == k].1
}

/// The map that a listing stands for.
pub open spec fn map_of<V>(s: Seq<(i64, V)>) -> Map<i64, V> {
    Map::new(|k: i64| has_key(s, k), |k: i64| value_of(s, k))
}

proof fn lemma_value_at<V>(s: Seq<(i64, V)>, i: int)
    requires
        ascending(s),
        0 <= i < s.len(),
    ensures
        has_key(s, s[i].0),
        value_of(s, s[i].0) == s[i].1,
{
    let k = s[i].0;
    let j = choose|j: int| 0 <= j < s.len() && (#[trigger] s[j]).0 == k;
    assert(s[i].0 == k);
    if i < j {
        assert(s[i].0 < s[j].0);
    } else if j < i {
        assert(s[j].0 < s[i].0);
    }
}

/// The map holds what the listing lists.
pub proof fn map_of_lists<V>(s: Seq<(i64, V)>)
    requires
        ascending(s),
    ensures
        forall|i: int|
            0 <= i < s.len() ==> map_of(s).dom().contains((#[trigger] s[i]).0) && map_of(s)[s[i].0]
                == s[i].1,
{
    assert forall|i: int| 0 <= i < s.len() implies map_of(s).dom().contains((#[trigger] s[i]).0)
        && map_of(s)[s[i].0] == s[i].1 by {
        lemma_value_at(s, i);
    }
}

/// A listing stands for a map if each price of the map is listed with its value and nothing else
/// is listed.
proof fn lemma_same_map<V>(t: Seq<(i64, V)>, m: Map<i64, V>)
    requires
        ascending(t),
        forall|i: int| 0 <= i < t.len() ==> m.dom().contains((#[trigger] t[i]).0) && m[t[i].0] == t[i].1,
        forall|k: i64| #[trigger] m.dom().contains(k) ==> has_key(t, k),
    ensures
        map_of(t) == m,
{
    assert forall|k: i64| map_of(t).dom().contains(k) implies map_of(t)[k] == m[k] by {
        let i = choose|i: int| 0 <= i < t.len() && (#[trigger] t[i]).0 == k;
        lemma_value_at(t, i);
    }
    assert(map_of(t).dom() =~= m.dom());
    assert(map_of(t) =~= m);
}

/// A map from prices to values.
#[derive(Debug)]
pub struct LevelMap<V> {
    entries: Vec<(i64, V)>,
}

impl<V> View for LevelMap<V> {
    type V = Map<i64, V>;

    open spec fn view(&self) -> Map<i64, V> {
        map_of(self.listing())
    }
}

impl<V> LevelMap<V> {
    /// The prices with their values in ascending order.
    pub closed spec fn listing(&self) -> Seq<(i64, V)> {
        self.entries@
    }

    /// The prices ascend.
    pub open spec fn wf(&self) -> bool {
        ascending(self.listing())
    }

    /// An empty map.
    pub fn new() -> (r: Self)
        ensures
            r.wf(),
            r.listing() == Seq::<(i64, V)>::empty(),
            r@ == Map::<i64, V>::empty(),
    {
        let r = LevelMap { entries: Vec::new() };
        assert(r@ =~= Map::<i64, V>::empty());
        r
    }

    /// The number of prices.
    pub fn len(&self) -> (r: usize)
        ensures
            r == self.listing().len(),
    {
        self.entries.len()
    }

    /// The price at a position of the listing.
    pub fn key_at(&self, i: usize) -> (r: i64)
        requires
            i < self.listing().len(),
        ensures
            r == self.listing()[i as int].0,
    {
        self.entries[i].0
    }

    /// The value at a position of the listing.
    pub fn value_at(&self, i: usize) -> (r: &V)
        requires
            i < self.listing().len(),
        ensures
            *r == self.listing()[i as int].1,
    {
        &self.entries[i].1
    }

    /// The position of the first price that is not below `k`.
    fn position(&self, k: i64) -> (r: usize)
        requires
            self.wf(),
        ensures
            r <= self.listing().len(),
            forall|i: int| 0 <= i < r ==> (#[trigger] self.listing()[i]).0 < k,
            forall|i: int|
                r <= i < self.listing().len() ==> (#[trigger] self.listing()[i]).0 >= k,
    {
        let mut left: usize = 0;
        let mut right: usize = self.entries.len();
        while left < right
            invariant
                left <= right <= self.entries@.len(),
                self.wf(),
                forall|i: int| 0 <= i < left ==> (#[trigger] self.listing()[i]).0 < k,
                forall|i: int|
                    right <= i < self.listing().len() ==> (#[trigger] self.listing()[i]).0 >= k,
            decreases right - left,
        {
            let mid: usize = left + (right - left) / 2;
            let ghost m = self.listing()[mid as int];
            if self.entries[mid].0 < k {
                left = mid + 1;
            } else {
                right = mid;
            }
        }
        left
    }

    /// The value of a price.
    pub fn get(&self, k: &i64) -> (r: Option<&V>)
        requires
            self.wf(),
        ensures
            match r {
                Some(v) => self@.dom().contains(*k) && self@[*k] == *v,
                None => !self@.dom().contains(*k),
            },
    {
        let i: usize = self.position(*k);
        if i < self.entries.len() && self.entries[i].0 == *k {
            proof {
                lemma_value_at(self.listing(), i as int);
            }
            Some(&self.entries[i].1)
        } else {
            assert forall|j: int| 0 <= j < self.listing().len() implies (
            #[trigger] self.listing()[j]).0 != *k by {
                if j > i {
                    assert(self.listing()[i as int].0 < self.listing()[j].0);
                }
            }
            None
        }
    }

    /// Sets the value of a price.
    pub fn insert(&mut self, k: i64, v: V)
        requires
            old(self).wf(),
        ensures
            final(self).wf(),
            final(self)@ == old(self)@.insert(k, v),
    {
        let i: usize = self.position(k);
        let ghost before = self.listing();
        if i < self.entries.len() && self.entries[i].0 == k {
            self.entries.set(i, (k, v));
            proof {
                let after = self.listing();
                assert(after =~= before.update(i as int, (k, v)));
                assert forall|a: int, b: int| 0 <= a < b < after.len() implies (
                #[trigger] after[a]).0 < (#[trigger] after[b]).0 by {
                    assert(before[a].0 < before[b].0);
                }
                map_of_lists(before);
                assert forall|j: int| 0 <= j < after.len() implies map_of(before).insert(
                    k,
                    v,
                ).dom().contains((#[trigger] after[j]).0) && map_of(before).insert(
                    k,
                    v,
                )[after[j].0] == after[j].1 by {
                    if j != i {
                        assert(after[j] == before[j]);
                        if j < i {
                            assert(before[j].0 < before[i as int].0);
                        } else {
                            assert(before[i as int].0 < before[j].0);
                        }
                    }
                }
                assert forall|x: i64| #[trigger]
                    map_of(before).insert(k, v).dom().contains(x) implies has_key(after, x) by {
                    if x == k {
                        assert(after[i as int].0 == x);
                    } else {
                        let j = choose|j: int|
                            0 <= j < before.len() && (#[trigger] before[j]).0 == x;
                        assert(after[j].0 == x);
                    }
                }
                lemma_same_map(after, map_of(before).insert(k, v));
            }
        } else {
            proof {
                assert forall|j: int| i <= j < before.len() implies (#[trigger] before[j]).0
                    > k by {
                    if j > i {
                        assert(before[i as int].0 < before[j].0);
                    }
                }
                lemma_insert(before, i as int, k, v);
            }
            self.entries.insert(i, (k, v));
        }
    }

    /// Drops a price.
    pub fn remove(&mut self, k: i64) -> (r: Option<V>)
        requires
            old(self).wf(),
        ensures
            final(self).wf(),
            final(self)@ == old(self)@.remove(k),
            match r {
                Some(v) => old(self)@.dom().contains(k) && old(self)@[k] == v,
                None => !old(self)@.dom().contains(k),
            },
    {
        let i: usize = self.position(k);
        let ghost before = self.listing();
        if i < self.entries.len() && self.entries[i].0 == k {
            proof {
                lemma_value_at(before, i as int);
                lemma_remove(before, i as int);
            }
            let (_, v) = self.entries.remove(i);
            Some(v)
        } else {
            assert forall|j: int| 0 <= j < before.len() implies (#[trigger] before[j]).0 != k by {
                if j > i {
                    assert(before[i as int].0 < before[j].0);
                }
            }
            assert(!has_key(before, k));
            assert(map_of(before).remove(k) =~= map_of(before));
            None
        }
    }
}

proof fn lemma_insert<V>(s: Seq<(i64, V)>, at: int, k: i64, v: V)
    requires
        ascending(s),
        0 <= at <= s.len(),
        forall|i: int| 0 <= i < at ==> (#[trigger] s[i]).0 < k,
        forall|i: int| at <= i < s.len() ==> (#[trigger] s[i]).0 > k,
    ensures
        ascending(s.insert(at, (k, v))),
        map_of(s.insert(at, (k, v))) == map_of(s).insert(k, v),
{
    let t = s.insert(at, (k, v));
    assert forall|i: int, j: int| 0 <= i < j < t.len() implies (#[trigger] t[i]).0 < (
    #[trigger] t[j]).0 by {
        if i < at {
            assert(t[i] == s[i]);
        } else if i > at {
            assert(t[i] == s[i - 1]);
        }
        if j < at {
            assert(t[j] == s[j]);
        } else if j > at {
            assert(t[j] == s[j - 1]);
        }
    }
    map_of_lists(s);
    let m = map_of(s).insert(k, v);
    assert forall|i: int| 0 <= i < t.len() implies m.dom().contains((#[trigger] t[i]).0)
        && m[t[i].0] == t[i].1 by {
        if i < at {
            assert(t[i] == s[i]);
        } else if i > at {
            assert(t[i] == s[i - 1]);
        }
    }
    assert forall|x: i64| #[trigger] m.dom().contains(x) implies has_key(t, x) by {
        if x == k {
            assert(t[at].0 == x);
        } else {
            let j = choose|j: int| 0 <= j < s.len() && (#[trigger] s[j]).0 == x;
            if j < at {
                assert(t[j].0 == x);
            } else {
                assert(t[j + 1].0 == x);
            }
        }
    }
    lemma_same_map(t, m);
}

proof fn lemma_remove<V>(s: Seq<(i64, V)>, at: int)
    requires
        ascending(s),
        0 <= at < s.len(),
    ensures
        ascending(s.remove(at)),
        map_of(s.remove(at)) == map_of(s).remove(s[at].0),
{
    let t = s.remove(at);
    let k = s[at].0;
    assert forall|i: int, j: int| 0 <= i < j < t.len() implies (#[trigger] t[i]).0 < (
    #[trigger] t[j]).0 by {
        let a = if i < at {
            i
        } else {
            i + 1
        };
        let b = if j < at {
            j
        } else {
            j + 1
        };
        assert(t[i] == s[a] && t[j] == s[b]);
    }
    map_of_lists(s);
    let m = map_of(s).remove(k);
    assert forall|i: int| 0 <= i < t.len() implies m.dom().contains((#[trigger] t[i]).0)
        && m[t[i].0] == t[i].1 by {
        if i < at {
            assert(t[i] == s[i]);
            assert(s[i].0 < s[at].0);
        } else {
            assert(t[i] == s[i + 1]);
            assert(s[at].0 < s[i + 1].0);
        }
    }
    assert forall|x: i64| #[trigger] m.dom().contains(x) implies has_key(t, x) by {
        let j = choose|j: int| 0 <= j < s.len() && (#[trigger] s[j]).0 == x;
        if j < at {
            assert(t[j].0 == x);
        } else {
            assert(t[j - 1].0 == x);
        }
    }
    lemma_same_map(t, m);
}

proof fn lemma_prefix_equal<V>(s: Seq<(i64, V)>, t: Seq<(i64, V)>, m: int)
    requires
        ascending(s),
        ascending(t),
        map_of(s) == map_of(t),
        0 <= m <= s.len(),
        m <= t.len(),
    ensures
        forall|i: int| 0 <= i < m ==> s[i] == t[i],
    decreases m,
{
    if m > 0 {
        lemma_prefix_equal(s, t, m - 1);
        map_of_lists(s);
        map_of_lists(t);
        let a = s[m - 1].0;
        let b = t[m - 1].0;
        assert(map_of(t).dom().contains(a));
        let j = choose|j: int| 0 <= j < t.len() && (#[trigger] t[j]).0 == a;
        assert(map_of(s).dom().contains(b));
        let i = choose|i: int| 0 <= i < s.len() && (#[trigger] s[i]).0 == b;
        if j < m - 1 {
            assert(s[j] == t[j]);
            assert(s[j].0 < s[m - 1].0);
        }
        if i < m - 1 {
            assert(s[i] == t[i]);
            assert(t[i].0 < t[m - 1].0);
        }
        if j > m - 1 {
            assert(t[m - 1].0 < t[j].0);
        }
        if i > m - 1 {
            assert(s[m - 1].0 < s[i].0);
        }
        assert(a == b);
        assert(map_of(s)[a] == s[m - 1].1);
        assert(map_of(t)[b] == t[m - 1].1);
    }
}

proof fn lemma_not_longer<V>(s: Seq<(i64, V)>, t: Seq<(i64, V)>)
    requires
        ascending(s),
        ascending(t),
        map_of(s) == map_of(t),
    ensures
        s.len() <= t.len(),
{
    if s.len() > t.len() {
        lemma_prefix_equal(s, t, t.len() as int);
        map_of_lists(s);
        let k = s[t.len() as int].0;
        assert(map_of(t).dom().contains(k));
        let j = choose|j: int| 0 <= j < t.len() && (#[trigger] t[j]).0 == k;
        assert(s[j] == t[j]);
        assert(s[j].0 < s[t.len() as int].0);
    }
}

/// A map has one listing.
pub proof fn listing_is_unique<V>(s: Seq<(i64, V)>, t: Seq<(i64, V)>)
    requires
        ascending(s),
        ascending(t),
        map_of(s) == map_of(t),
    ensures
        s == t,
{
    lemma_not_longer(s, t);
    lemma_not_longer(t, s);
    lemma_prefix_equal(s, t, s.len() as int);
    assert(s =~= t);
}

} // verus!
