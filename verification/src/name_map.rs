//! A map from names to values, kept in ascending order of the name.

use crate::text;
use crate::text::{same_text, text_before};
use vstd::prelude::*;

verus! {

/// The names ascend.
pub open spec fn ascending<V>(s: Seq<(Seq<char>, V)>) -> bool {
    forall|i: int, j: int|
        0 <= i < j < s.len() ==> text::comes_before((#[trigger] s[i]).0, (#[trigger] s[j]).0)
}

/// The name is listed.
pub open spec fn has_name<V>(s: Seq<(Seq<char>, V)>, k: Seq<char>) -> bool {
    exists|i: int| 0 <= i < s.len() && (#[trigger] s[i]).0 == k
}

/// The value listed for a name.
pub open spec fn value_of<V>(s: Seq<(Seq<char>, V)>, k: Seq<char>) -> V {
    s[choose|i: int| 0 <= i < s.len() && (#[trigger] s[i]).0 == k].1
}

/// The map that a listing stands for.
pub open spec fn map_of<V>(s: Seq<(Seq<char>, V)>) -> Map<Seq<char>, V> {
    Map::new(|k: Seq<char>| has_name(s, k), |k: Seq<char>| value_of(s, k))
}

proof fn lemma_value_at<V>(s: Seq<(Seq<char>, V)>, i: int)
    requires
        ascending(s),
        0 <= i < s.len(),
    ensures
        has_name(s, s[i].0),
        value_of(s, s[i].0) == s[i].1,
{
    broadcast use text::before_irreflexive;

    let k = s[i].0;
    let j = choose|j: int| 0 <= j < s.len() && (#[trigger] s[j]).0 == k;
    assert(s[i].0 == k);
    if i < j {
        assert(text::comes_before(s[i].0, s[j].0));
    } else if j < i {
        assert(text::comes_before(s[j].0, s[i].0));
    }
}

/// The map holds what the listing lists.
pub proof fn map_of_lists<V>(s: Seq<(Seq<char>, V)>)
    requires
        ascending(s),
    ensures
        forall|i: int|
            0 <= i < s.len() ==> map_of(s).dom().contains((#[trigger] s[i]).0) && map_of(s)[s[i].0]
                == s[i].1,
{
    assert forall|i: int| 0 <= i < s.len() implies map_of(s).dom().contains((#[trigger] s[i]).0)
        && map_of(s)[s[i].0] == s[i].1 by {
        lemma_value_at(s, i);
    }
}

/// The map holds as many names as the listing lists.
pub proof fn map_of_counts<V>(s: Seq<(Seq<char>, V)>)
    requires
        ascending(s),
    ensures
        map_of(s).dom().len() == s.len(),
{
    broadcast use text::before_irreflexive;

    let names = Seq::new(s.len(), |i: int| s[i].0);
    assert forall|i: int, j: int| 0 <= i < j < names.len() implies names[i] != names[j] by {
        assert(text::comes_before(s[i].0, s[j].0));
    }
    assert(names.no_duplicates());
    names.unique_seq_to_set();
    assert forall|k: Seq<char>| names.to_set().contains(k) == map_of(s).dom().contains(k) by {
        if has_name(s, k) {
            let i = choose|i: int| 0 <= i < s.len() && (#[trigger] s[i]).0 == k;
            assert(names[i] == k);
        }
        if names.contains(k) {
            let i = choose|i: int| 0 <= i < names.len() && names[i] == k;
            assert(s[i].0 == k);
        }
    }
    assert(map_of(s).dom() =~= names.to_set());
}

/// A listing stands for a map if each name of the map is listed with its value and nothing else
/// is listed.
proof fn lemma_same_map<V>(t: Seq<(Seq<char>, V)>, m: Map<Seq<char>, V>)
    requires
        ascending(t),
        forall|i: int|
            0 <= i < t.len() ==> m.dom().contains((#[trigger] t[i]).0) && m[t[i].0] == t[i].1,
        forall|k: Seq<char>| #[trigger] m.dom().contains(k) ==> has_name(t, k),
    ensures
        map_of(t) == m,
{
    assert forall|k: Seq<char>| map_of(t).dom().contains(k) implies map_of(t)[k] == m[k] by {
        let i = choose|i: int| 0 <= i < t.len() && (#[trigger] t[i]).0 == k;
        lemma_value_at(t, i);
    }
    assert(map_of(t).dom() =~= m.dom());
    assert(map_of(t) =~= m);
}

/// The names before `k` come first, the names behind it last.
spec fn parted<V>(s: Seq<(Seq<char>, V)>, at: int, k: Seq<char>) -> bool {
    &&& 0 <= at <= s.len()
    &&& forall|i: int| 0 <= i < at ==> text::comes_before((#[trigger] s[i]).0, k)
    &&& forall|i: int| at <= i < s.len() ==> !text::comes_before((#[trigger] s[i]).0, k)
}

proof fn lemma_behind<V>(s: Seq<(Seq<char>, V)>, at: int, k: Seq<char>)
    requires
        ascending(s),
        parted(s, at, k),
    ensures
        at < s.len() && s[at].0 != k ==> text::comes_before(k, s[at].0),
        forall|i: int| at < i < s.len() ==> text::comes_before(k, (#[trigger] s[i]).0),
        at == s.len() || s[at].0 != k ==> !has_name(s, k),
{
    broadcast use {text::before_irreflexive, text::before_transitive};

    if at < s.len() {
        text::before_total(s[at].0, k);
        assert forall|i: int| at < i < s.len() implies text::comes_before(
            k,
            (#[trigger] s[i]).0,
        ) by {
            assert(text::comes_before(s[at].0, s[i].0));
        }
    }
}

proof fn lemma_insert<V>(s: Seq<(Seq<char>, V)>, at: int, k: Seq<char>, v: V)
    requires
        ascending(s),
        parted(s, at, k),
        at == s.len() || s[at].0 != k,
    ensures
        ascending(s.insert(at, (k, v))),
        map_of(s.insert(at, (k, v))) == map_of(s).insert(k, v),
{
    broadcast use {text::before_irreflexive, text::before_transitive};

    lemma_behind(s, at, k);
    let t = s.insert(at, (k, v));
    assert forall|i: int, j: int| 0 <= i < j < t.len() implies text::comes_before(
        (#[trigger] t[i]).0,
        (#[trigger] t[j]).0,
    ) by {
        if i < at {
            assert(t[i] == s[i]);
        } else if i > at {
            assert(t[i] == s[i - 1]);
        }
        if j < at {
            assert(t[j] == s[j]);
        } else if j > at {
            assert(t[j] == s[j - 1]);
        }
    }
    map_of_lists(s);
    let m = map_of(s).insert(k, v);
    assert forall|i: int| 0 <= i < t.len() implies m.dom().contains((#[trigger] t[i]).0)
        && m[t[i].0] == t[i].1 by {
        if i < at {
            assert(t[i] == s[i]);
        } else if i > at {
            assert(t[i] == s[i - 1]);
        }
    }
    assert forall|x: Seq<char>| #[trigger] m.dom().contains(x) implies has_name(t, x) by {
        if x == k {
            assert(t[at].0 == x);
        } else {
            let j = choose|j: int| 0 <= j < s.len() && (#[trigger] s[j]).0 == x;
            if j < at {
                assert(t[j].0 == x);
            } else {
                assert(t[j + 1].0 == x);
            }
        }
    }
    lemma_same_map(t, m);
}

proof fn lemma_update<V>(s: Seq<(Seq<char>, V)>, at: int, v: V)
    requires
        ascending(s),
        0 <= at < s.len(),
    ensures
        ascending(s.update(at, (s[at].0, v))),
        map_of(s.update(at, (s[at].0, v))) == map_of(s).insert(s[at].0, v),
{
    broadcast use text::before_irreflexive;

    let k = s[at].0;
    let t = s.update(at, (k, v));
    assert forall|i: int, j: int| 0 <= i < j < t.len() implies text::comes_before(
        (#[trigger] t[i]).0,
        (#[trigger] t[j]).0,
    ) by {
        assert(text::comes_before(s[i].0, s[j].0));
    }
    map_of_lists(s);
    let m = map_of(s).insert(k, v);
    assert forall|i: int| 0 <= i < t.len() implies m.dom().contains((#[trigger] t[i]).0)
        && m[t[i].0] == t[i].1 by {
        if i < at {
            assert(text::comes_before(s[i].0, s[at].0));
        } else if i > at {
            assert(text::comes_before(s[at].0, s[i].0));
        }
    }
    assert forall|x: Seq<char>| #[trigger] m.dom().contains(x) implies has_name(t, x) by {
        if x == k {
            assert(t[at].0 == x);
        } else {
            let j = choose|j: int| 0 <= j < s.len() && (#[trigger] s[j]).0 == x;
            assert(t[j].0 == x);
        }
    }
    lemma_same_map(t, m);
}

proof fn lemma_remove<V>(s: Seq<(Seq<char>, V)>, at: int)
    requires
        ascending(s),
        0 <= at < s.len(),
    ensures
        ascending(s.remove(at)),
        map_of(s.remove(at)) == map_of(s).remove(s[at].0),
{
    broadcast use text::before_irreflexive;

    let t = s.remove(at);
    let k = s[at].0;
    assert forall|i: int, j: int| 0 <= i < j < t.len() implies text::comes_before(
        (#[trigger] t[i]).0,
        (#[trigger] t[j]).0,
    ) by {
        let a = if i < at {
            i
        } else {
            i + 1
        };
        let b = if j < at {
            j
        } else {
            j + 1
        };
        assert(t[i] == s[a] && t[j] == s[b]);
    }
    map_of_lists(s);
    let m = map_of(s).remove(k);
    assert forall|i: int| 0 <= i < t.len() implies m.dom().contains((#[trigger] t[i]).0)
        && m[t[i].0] == t[i].1 by {
        if i < at {
            assert(t[i] == s[i]);
            assert(text::comes_before(s[i].0, s[at].0));
        } else {
            assert(t[i] == s[i + 1]);
            assert(text::comes_before(s[at].0, s[i + 1].0));
        }
    }
    assert forall|x: Seq<char>| #[trigger] m.dom().contains(x) implies has_name(t, x) by {
        let j = choose|j: int| 0 <= j < s.len() && (#[trigger] s[j]).0 == x;
        if j < at {
            assert(t[j].0 == x);
        } else {
            assert(t[j - 1].0 == x);
        }
    }
    lemma_same_map(t, m);
}

/// A map from names to values.
#[derive(Debug)]
pub struct NameMap<V> {
    entries: Vec<(String, V)>,
}

impl<V> View for NameMap<V> {
    type V = Map<Seq<char>, V>;

    open spec fn view(&self) -> Map<Seq<char>, V> {
        map_of(self.listing())
    }
}

impl<V> NameMap<V> {
    /// The names with their values in ascending order.
    pub closed spec fn listing(&self) -> Seq<(Seq<char>, V)> {
        Seq::new(self.entries@.len(), |i: int| (self.entries@[i].0@, self.entries@[i].1))
    }

    /// The names ascend.
    pub open spec fn wf(&self) -> bool {
        ascending(self.listing())
    }

    /// An empty map.
    pub fn new() -> (r: Self)
        ensures
            r.wf(),
            r.listing() == Seq::<(Seq<char>, V)>::empty(),
            r@ == Map::<Seq<char>, V>::empty(),
    {
        let r = NameMap { entries: Vec::new() };
        assert(r.listing() =~= Seq::<(Seq<char>, V)>::empty());
        assert(r@ =~= Map::<Seq<char>, V>::empty());
        r
    }

    /// The number of names.
    pub fn len(&self) -> (r: usize)
        ensures
            r == self.listing().len(),
    {
        self.entries.len()
    }

    /// The name at a position of the listing.
    pub fn name_at(&self, i: usize) -> (r: &str)
        requires
            i < self.listing().len(),
        ensures
            r@ == self.listing()[i as int].0,
    {
        self.entries[i].0.as_str()
    }

    /// The value at a position of the listing.
    pub fn value_at(&self, i: usize) -> (r: &V)
        requires
            i < self.listing().len(),
        ensures
            *r == self.listing()[i as int].1,
    {
        &self.entries[i].1
    }

    fn position(&self, k: &str) -> (r: usize)
        requires
            self.wf(),
        ensures
            parted(self.listing(), r as int, k@),
    {
        broadcast use {text::before_irreflexive, text::before_transitive};

        let ghost s = self.listing();
        let mut i: usize = 0;
        while i < self.entries.len() && text_before(self.entries[i].0.as_str(), k)
            invariant
                i <= self.entries@.len(),
                s == self.listing(),
                forall|j: int| 0 <= j < i ==> text::comes_before((#[trigger] s[j]).0, k@),
            decreases self.entries@.len() - i,
        {
            assert(s[i as int].0 == self.entries@[i as int].0@);
            i = i + 1;
        }
        assert forall|j: int| i <= j < s.len() implies !text::comes_before(
            (#[trigger] s[j]).0,
            k@,
        ) by {
            assert(s[i as int].0 == self.entries@[i as int].0@);
            if j > i {
                assert(text::comes_before(s[i as int].0, s[j].0));
                if text::comes_before(s[j].0, k@) {
                    text::before_transitive(s[i as int].0, s[j].0, k@);
                }
            }
        }
        i
    }

    /// The position of a name in the listing.
    pub fn find(&self, k: &str) -> (r: Option<usize>)
        requires
            self.wf(),
        ensures
            match r {
                Some(i) => i < self.listing().len() && self.listing()[i as int].0 == k@
                    && self@.dom().contains(k@) && self@[k@] == self.listing()[i as int].1,
                None => !self@.dom().contains(k@),
            },
    {
        let i: usize = self.position(k);
        proof {
            lemma_behind(self.listing(), i as int, k@);
        }
        if i < self.entries.len() && same_text(self.entries[i].0.as_str(), k) {
            proof {
                lemma_value_at(self.listing(), i as int);
            }
            Some(i)
        } else {
            None
        }
    }

    /// The value of a name.
    pub fn get(&self, k: &str) -> (r: Option<&V>)
        requires
            self.wf(),
        ensures
            match r {
                Some(v) => self@.dom().contains(k@) && self@[k@] == *v,
                None => !self@.dom().contains(k@),
            },
    {
        match self.find(k) {
            Some(i) => Some(&self.entries[i].1),
            None => None,
        }
    }

    /// Sets the value of a name.
    pub fn insert(&mut self, k: &str, v: V)
        requires
            old(self).wf(),
        ensures
            final(self).wf(),
            final(self)@ == old(self)@.insert(k@, v),
    {
        let i: usize = self.position(k);
        let ghost before = self.listing();
        if i < self.entries.len() && same_text(self.entries[i].0.as_str(), k) {
            proof {
                lemma_update(before, i as int, v);
            }
            self.entries.set(i, (k.to_owned(), v));
            assert(self.listing() =~= before.update(i as int, (before[i as int].0, v)));
        } else {
            proof {
                lemma_insert(before, i as int, k@, v);
            }
            self.entries.insert(i, (k.to_owned(), v));
            assert(self.listing() =~= before.insert(i as int, (k@, v)));
        }
    }

    /// Drops a name.
    pub fn remove(&mut self, k: &str) -> (r: Option<V>)
        requires
            old(self).wf(),
        ensures
            final(self).wf(),
            final(self)@ == old(self)@.remove(k@),
            match r {
                Some(v) => old(self)@.dom().contains(k@) && old(self)@[k@] == v,
                None => !old(self)@.dom().contains(k@),
            },
    {
        let ghost before = self.listing();
        match self.find(k) {
            Some(i) => {
                proof {
                    lemma_remove(before, i as int);
                }
                let (_, v) = self.entries.remove(i);
                assert(self.listing() =~= before.remove(i as int));
                Some(v)
            },
            None => {
                assert(map_of(before).remove(k@) =~= map_of(before));
                None
            },
        }
    }

    /// Drops all names.
    pub fn clear(&mut self)
        ensures
            final(self).wf(),
            final(self)@ == Map::<Seq<char>, V>::empty(),
            final(self).listing() == Seq::<(Seq<char>, V)>::empty(),
    {
        self.entries.clear();
        assert(self.listing() =~= Seq::<(Seq<char>, V)>::empty());
        assert(self@ =~= Map::<Seq<char>, V>::empty());
    }

    /// Sets the value at a position of the listing.
    pub fn set_at(&mut self, i: usize, v: V)
        requires
            old(self).wf(),
            i < old(self).listing().len(),
        ensures
            final(self).wf(),
            final(self).listing() == old(self).listing().update(
                i as int,
                (old(self).listing()[i as int].0, v),
            ),
            final(self)@ == old(self)@.insert(old(self).listing()[i as int].0, v),
    {
        let ghost before = self.listing();
        proof {
            lemma_update(before, i as int, v);
        }
        let name: String = self.entries[i].0.clone();
        self.entries.set(i, (name, v));
        assert(self.listing() =~= before.update(i as int, (before[i as int].0, v)));
    }

    /// The names in ascending order.
    pub fn names(&self) -> (r: Vec<String>)
        ensures
            r@.len() == self.listing().len(),
            forall|i: int| 0 <= i < r@.len() ==> (#[trigger] r@[i])@ == self.listing()[i].0,
    {
        let mut names: Vec<String> = Vec::new();
        let mut i: usize = 0;
        while i < self.entries.len()
            invariant
                i <= self.entries@.len(),
                names@.len() == i,
                forall|j: int| 0 <= j < i ==> (#[trigger] names@[j])@ == self.listing()[j].0,
            decreases self.entries@.len() - i,
        {
            names.push(self.entries[i].0.clone());
            i = i + 1;
        }
        names
    }
}

/// The views of the values of a map.
pub open spec fn views<V: View>(m: Map<Seq<char>, V>) -> Map<Seq<char>, V::V> {
    Map::new(|k: Seq<char>| m.dom().contains(k), |k: Seq<char>| m[k]@)
}

/// Values that can be copied.
pub trait Copied: View + Sized {
    /// The value can be used.
    spec fn valid(&self) -> bool;

    /// An equal value.
    fn copied(&self) -> (r: Self)
        requires
            self.valid(),
        ensures
            r.valid(),
            r@ == self@,
    ;
}

/// All values of a map can be used.
pub open spec fn all_valid<V: Copied>(m: Map<Seq<char>, V>) -> bool {
    forall|k: Seq<char>| #[trigger] m.dom().contains(k) ==> m[k].valid()
}

impl<V: Copied> NameMap<V> {
    /// An equal map.
    pub fn copied(&self) -> (r: Self)
        requires
            self.wf(),
            all_valid(self@),
        ensures
            r.wf(),
            all_valid(r@),
            views(r@) == views(self@),
    {
        let mut r: NameMap<V> = NameMap::new();
        let ghost s = self.listing();
        proof {
            map_of_lists(s);
        }
        let mut i: usize = 0;
        while i < self.entries.len()
            invariant
                i <= s.len(),
                s == self.listing(),
                self.wf(),
                all_valid(self@),
                forall|j: int|
                    0 <= j < s.len() ==> self@.dom().contains((#[trigger] s[j]).0) && self@[s[j].0]
                        == s[j].1,
                r.wf(),
                all_valid(r@),
                forall|k: Seq<char>| #[trigger]
                    r@.dom().contains(k) ==> self@.dom().contains(k) && r@[k]@ == self@[k]@,
                forall|j: int| 0 <= j < i ==> r@.dom().contains((#[trigger] s[j]).0),
            decreases s.len() - i,
        {
            let entry = &self.entries[i];
            assert(s[i as int] == (entry.0@, entry.1));
            let v = entry.1.copied();
            r.insert(entry.0.as_str(), v);
            i = i + 1;
        }
        proof {
            assert forall|k: Seq<char>| self@.dom().contains(k) implies r@.dom().contains(k) by {
                let j = choose|j: int| 0 <= j < s.len() && (#[trigger] s[j]).0 == k;
                assert(r@.dom().contains(s[j].0));
            }
            assert(views(r@) =~= views(self@));
        }
        r
    }
}

} // verus!
