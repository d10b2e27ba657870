//! Sets of names, and indices from names or instruments to sets of names.

use crate::instrument::InstrumentId;
use crate::name_map;
use crate::name_map::NameMap;
use crate::text;
use vstd::prelude::*;

verus! {

/// Names in strictly ascending order.
pub open spec fn ascends(names: Seq<Seq<char>>) -> bool {
    forall|i: int, j: int|
        0 <= i < j < names.len() ==> text::comes_before(#[trigger] names[i], #[trigger] names[j])
}

/// The members of a set in ascending order.
pub open spec fn lists(names: Seq<Seq<char>>, set: Set<Seq<char>>) -> bool {
    ascends(names) && forall|k: Seq<char>| #[trigger] set.contains(k) <==> names.contains(k)
}

/// A set is listed in one way only.
pub proof fn listing_of_set_is_unique(a: Seq<Seq<char>>, b: Seq<Seq<char>>, set: Set<Seq<char>>)
    requires
        lists(a, set),
        lists(b, set),
    ensures
        a == b,
    decreases a.len(),
{
    broadcast use {text::before_irreflexive, text::before_transitive};

    if a.len() == 0 {
        if b.len() > 0 {
            assert(b.contains(b[0]));
            assert(set.contains(b[0]));
        }
        assert(a =~= b);
    } else {
        assert(a.contains(a[a.len() - 1]));
        assert(set.contains(a.last()));
        let j = choose|j: int| 0 <= j < b.len() && b[j] == a.last();
        assert(b.contains(b[b.len() - 1]));
        assert(set.contains(b.last()));
        let i = choose|i: int| 0 <= i < a.len() && a[i] == b.last();
        assert(a.last() == b.last()) by {
            if i < a.len() - 1 && j < b.len() - 1 {
                assert(text::comes_before(a[i], a[a.len() - 1]));
                assert(text::comes_before(b[j], b[b.len() - 1]));
                text::before_transitive(a[i], a[a.len() - 1], b[b.len() - 1]);
            }
        }
        lemma_listing_without_last(a, set);
        lemma_listing_without_last(b, set);
        listing_of_set_is_unique(a.drop_last(), b.drop_last(), set.remove(a.last()));
        assert(a =~= a.drop_last().push(a.last()));
        assert(b =~= b.drop_last().push(b.last()));
    }
}

proof fn lemma_listing_without_last(a: Seq<Seq<char>>, set: Set<Seq<char>>)
    requires
        lists(a, set),
        a.len() > 0,
    ensures
        lists(a.drop_last(), set.remove(a.last())),
{
    broadcast use text::before_irreflexive;

    let front = a.drop_last();
    let rest = set.remove(a.last());
    assert forall|i: int, j: int| 0 <= i < j < front.len() implies text::comes_before(
        #[trigger] front[i],
        #[trigger] front[j],
    ) by {
        assert(text::comes_before(a[i], a[j]));
    }
    assert forall|k: Seq<char>| #[trigger] rest.contains(k) <==> front.contains(k) by {
        if rest.contains(k) {
            assert(set.contains(k));
            let i = choose|i: int| 0 <= i < a.len() && a[i] == k;
            assert(front[i] == k);
        }
        if front.contains(k) {
            let i = choose|i: int| 0 <= i < front.len() && front[i] == k;
            assert(a[i] == k);
            assert(a.contains(k));
            assert(text::comes_before(a[i], a[a.len() - 1]));
        }
    }
}

/// A set of names.
#[derive(Debug)]
pub struct NameSet {
    names: NameMap<()>,
}

impl View for NameSet {
    type V = Set<Seq<char>>;

    closed spec fn view(&self) -> Set<Seq<char>> {
        self.names@.dom()
    }
}

impl NameSet {
    /// The names are in order.
    pub closed spec fn wf(&self) -> bool {
        self.names.wf()
    }

    /// An empty set.
    pub fn new() -> (r: Self)
        ensures
            r.wf(),
            r@ == Set::<Seq<char>>::empty(),
    {
        let r = NameSet { names: NameMap::new() };
        assert(r@ =~= Set::<Seq<char>>::empty());
        r
    }

    /// Adds a name.
    pub fn insert(&mut self, name: &str)
        requires
            old(self).wf(),
        ensures
            final(self).wf(),
            final(self)@ == old(self)@.insert(name@),
    {
        self.names.insert(name, ());
        assert(self@ =~= old(self)@.insert(name@));
    }

    /// Drops a name.
    pub fn remove(&mut self, name: &str)
        requires
            old(self).wf(),
        ensures
            final(self).wf(),
            final(self)@ == old(self)@.remove(name@),
    {
        self.names.remove(name);
        assert(self@ =~= old(self)@.remove(name@));
    }

    /// The set has the name.
    pub fn contains(&self, name: &str) -> (r: bool)
        requires
            self.wf(),
        ensures
            r == self@.contains(name@),
    {
        match self.names.get(name) {
            Some(_) => true,
            None => false,
        }
    }

    /// The number of names.
    pub fn len(&self) -> (r: usize)
        requires
            self.wf(),
        ensures
            exists|names: Seq<Seq<char>>| #[trigger] lists(names, self@) && r == names.len(),
    {
        proof {
            let names = Seq::new(
                self.names.listing().len(),
                |i: int| self.names.listing()[i].0,
            );
            lemma_names_list(self.names.listing(), names);
            assert(lists(names, self@));
        }
        self.names.len()
    }

    /// The names in ascending order.
    pub fn names(&self) -> (r: Vec<String>)
        requires
            self.wf(),
        ensures
            lists(text::texts(r@), self@),
    {
        let r = self.names.names();
        proof {
            lemma_names_list(self.names.listing(), text::texts(r@));
        }
        r
    }
}

proof fn lemma_names_list<V>(listing: Seq<(Seq<char>, V)>, names: Seq<Seq<char>>)
    requires
        name_map::ascending(listing),
        names.len() == listing.len(),
        forall|i: int| 0 <= i < names.len() ==> #[trigger] names[i] == listing[i].0,
    ensures
        lists(names, name_map::map_of(listing).dom()),
{
    let set = name_map::map_of(listing).dom();
    name_map::map_of_lists(listing);
    assert forall|i: int, j: int| 0 <= i < j < names.len() implies text::comes_before(
        #[trigger] names[i],
        #[trigger] names[j],
    ) by {
        assert(text::comes_before(listing[i].0, listing[j].0));
    }
    assert forall|k: Seq<char>| #[trigger] set.contains(k) <==> names.contains(k) by {
        if set.contains(k) {
            let i = choose|i: int| 0 <= i < listing.len() && (#[trigger] listing[i]).0 == k;
            assert(names[i] == k);
        }
        if names.contains(k) {
            let i = choose|i: int| 0 <= i < names.len() && names[i] == k;
            assert(listing[i].0 == k);
            assert(set.contains(listing[i].0));
        }
    }
}

/// The set at a key of an index; the empty set at a key that the index does not have.
pub open spec fn set_at<K>(index: Map<K, Set<Seq<char>>>, k: K) -> Set<Seq<char>> {
    if index.dom().contains(k) {
        index[k]
    } else {
        Set::empty()
    }
}

/// An index with a name added at a key.
pub open spec fn added<K>(index: Map<K, Set<Seq<char>>>, k: K, name: Seq<char>) -> Map<
    K,
    Set<Seq<char>>,
> {
    index.insert(k, set_at(index, k).insert(name))
}

/// An index with a name dropped at a key.
pub open spec fn dropped<K>(index: Map<K, Set<Seq<char>>>, k: K, name: Seq<char>) -> Map<
    K,
    Set<Seq<char>>,
> {
    if index.dom().contains(k) {
        index.insert(k, index[k].remove(name))
    } else {
        index
    }
}

/// An index from names to sets of names.
#[derive(Debug)]
pub struct NameIndex {
    sets: NameMap<NameSet>,
}

impl View for NameIndex {
    type V = Map<Seq<char>, Set<Seq<char>>>;

    closed spec fn view(&self) -> Map<Seq<char>, Set<Seq<char>>> {
        Map::new(|k: Seq<char>| self.sets@.dom().contains(k), |k: Seq<char>| self.sets@[k]@)
    }
}

impl NameIndex {
    /// The keys and the sets are in order.
    pub closed spec fn wf(&self) -> bool {
        self.sets.wf() && forall|k: Seq<char>| #[trigger]
            self.sets@.dom().contains(k) ==> self.sets@[k].wf()
    }

    /// An empty index.
    pub fn new() -> (r: Self)
        ensures
            r.wf(),
            r@ == Map::<Seq<char>, Set<Seq<char>>>::empty(),
    {
        let r = NameIndex { sets: NameMap::new() };
        assert(r@ =~= Map::<Seq<char>, Set<Seq<char>>>::empty());
        r
    }

    /// Adds a name at a key.
    pub fn add_name(&mut self, k: &str, name: &str)
        requires
            old(self).wf(),
        ensures
            final(self).wf(),
            final(self)@ == added(old(self)@, k@, name@),
    {
        let mut set = match self.sets.remove(k) {
            Some(set) => set,
            None => NameSet::new(),
        };
        set.insert(name);
        self.sets.insert(k, set);
        assert(self@ =~= added(old(self)@, k@, name@));
    }

    /// Drops a name at a key.
    pub fn drop_name(&mut self, k: &str, name: &str)
        requires
            old(self).wf(),
        ensures
            final(self).wf(),
            final(self)@ == dropped(old(self)@, k@, name@),
    {
        match self.sets.remove(k) {
            Some(mut set) => {
                set.remove(name);
                self.sets.insert(k, set);
            },
            None => {},
        }
        assert(self@ =~= dropped(old(self)@, k@, name@));
    }

    /// The names at a key in ascending order.
    pub fn names_at(&self, k: &str) -> (r: Vec<String>)
        requires
            self.wf(),
        ensures
            lists(text::texts(r@), set_at(self@, k@)),
    {
        match self.sets.get(k) {
            Some(set) => set.names(),
            None => {
                let r: Vec<String> = Vec::new();
                assert(lists(text::texts(r@), Set::empty()));
                r
            },
        }
    }
}

/// An index from instruments to sets of names.
#[derive(Debug)]
pub struct InstrumentNameIndex {
    by_symbol: NameMap<NameIndex>,
}

impl View for InstrumentNameIndex {
    type V = Map<(Seq<char>, Seq<char>), Set<Seq<char>>>;

    closed spec fn view(&self) -> Map<(Seq<char>, Seq<char>), Set<Seq<char>>> {
        Map::new(
            |k: (Seq<char>, Seq<char>)|
                self.by_symbol@.dom().contains(k.0) && self.by_symbol@[k.0]@.dom().contains(k.1),
            |k: (Seq<char>, Seq<char>)| self.by_symbol@[k.0]@[k.1],
        )
    }
}

impl InstrumentNameIndex {
    /// The keys and the sets are in order.
    pub closed spec fn wf(&self) -> bool {
        self.by_symbol.wf() && forall|k: Seq<char>| #[trigger]
            self.by_symbol@.dom().contains(k) ==> self.by_symbol@[k].wf()
    }

    /// An empty index.
    pub fn new() -> (r: Self)
        ensures
            r.wf(),
            r@ == Map::<(Seq<char>, Seq<char>), Set<Seq<char>>>::empty(),
    {
        let r = InstrumentNameIndex { by_symbol: NameMap::new() };
        assert(r@ =~= Map::<(Seq<char>, Seq<char>), Set<Seq<char>>>::empty());
        r
    }

    /// Adds a name at an instrument.
    pub fn add_name(&mut self, k: &InstrumentId, name: &str)
        requires
            old(self).wf(),
        ensures
            final(self).wf(),
            final(self)@ == added(old(self)@, k@, name@),
    {
        let mut index = match self.by_symbol.remove(k.symbol.as_str()) {
            Some(index) => index,
            None => NameIndex::new(),
        };
        index.add_name(k.exchange.as_str(), name);
        self.by_symbol.insert(k.symbol.as_str(), index);
        assert(self@ =~= added(old(self)@, k@, name@));
    }

    /// Drops a name at an instrument.
    pub fn drop_name(&mut self, k: &InstrumentId, name: &str)
        requires
            old(self).wf(),
        ensures
            final(self).wf(),
            final(self)@ == dropped(old(self)@, k@, name@),
    {
        match self.by_symbol.remove(k.symbol.as_str()) {
            Some(mut index) => {
                index.drop_name(k.exchange.as_str(), name);
                self.by_symbol.insert(k.symbol.as_str(), index);
            },
            None => {},
        }
        assert(self@ =~= dropped(old(self)@, k@, name@));
    }

    /// The names at an instrument in ascending order.
    pub fn names_at(&self, k: &InstrumentId) -> (r: Vec<String>)
        requires
            self.wf(),
        ensures
            lists(text::texts(r@), set_at(self@, k@)),
    {
        match self.by_symbol.get(k.symbol.as_str()) {
            Some(index) => index.names_at(k.exchange.as_str()),
            None => {
                let r: Vec<String> = Vec::new();
                assert(lists(text::texts(r@), Set::empty()));
                r
            },
        }
    }
}

/// A map from instruments to values.
#[derive(Debug)]
pub struct InstrumentMap<V> {
    by_symbol: NameMap<NameMap<V>>,
}

impl<V> View for InstrumentMap<V> {
    type V = Map<(Seq<char>, Seq<char>), V>;

    closed spec fn view(&self) -> Map<(Seq<char>, Seq<char>), V> {
        Map::new(
            |k: (Seq<char>, Seq<char>)|
                self.by_symbol@.dom().contains(k.0) && self.by_symbol@[k.0]@.dom().contains(k.1),
            |k: (Seq<char>, Seq<char>)| self.by_symbol@[k.0]@[k.1],
        )
    }
}

impl<V> InstrumentMap<V> {
    /// The keys are in order.
    pub closed spec fn wf(&self) -> bool {
        self.by_symbol.wf() && forall|k: Seq<char>| #[trigger]
            self.by_symbol@.dom().contains(k) ==> self.by_symbol@[k].wf()
    }

    /// An empty map.
    pub fn new() -> (r: Self)
        ensures
            r.wf(),
            r@ == Map::<(Seq<char>, Seq<char>), V>::empty(),
    {
        let r = InstrumentMap { by_symbol: NameMap::new() };
        assert(r@ =~= Map::<(Seq<char>, Seq<char>), V>::empty());
        r
    }

    /// Sets the value of an instrument.
    pub fn insert(&mut self, k: &InstrumentId, v: V)
        requires
            old(self).wf(),
        ensures
            final(self).wf(),
            final(self)@ == old(self)@.insert(k@, v),
    {
        let mut map = match self.by_symbol.remove(k.symbol.as_str()) {
            Some(map) => map,
            None => NameMap::new(),
        };
        map.insert(k.exchange.as_str(), v);
        self.by_symbol.insert(k.symbol.as_str(), map);
        assert(self@ =~= old(self)@.insert(k@, v));
    }

    /// The value of an instrument.
    pub fn get(&self, k: &InstrumentId) -> (r: Option<&V>)
        requires
            self.wf(),
        ensures
            match r {
                Some(v) => self@.dom().contains(k@) && self@[k@] == *v,
                None => !self@.dom().contains(k@),
            },
    {
        match self.by_symbol.get(k.symbol.as_str()) {
            Some(map) => map.get(k.exchange.as_str()),
            None => None,
        }
    }
}

/// A name is found at a key behind it was added there, and no more behind it was dropped; what is
/// found at other keys, and other names, stay as they are.
pub proof fn index_finds_what_was_added<K>(
    index: Map<K, Set<Seq<char>>>,
    k: K,
    name: Seq<char>,
    other: K,
    x: Seq<char>,
)
    ensures
        set_at(added(index, k, name), other).contains(x) <==> set_at(index, other).contains(x) || (
        other == k && x == name),
        set_at(dropped(index, k, name), other).contains(x) <==> set_at(index, other).contains(x)
            && !(other == k && x == name),
{
}

} // verus!
