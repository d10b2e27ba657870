//! The cache: the state of orders, positions and accounts, with indices.

use crate::database::Database;
use crate::database::DatabaseError;
use crate::database;
use crate::instrument;
use crate::instrument::InstrumentId;
use crate::level_map::LevelMap;
use crate::name_index;
use crate::name_index::InstrumentMap;
use crate::name_index::InstrumentNameIndex;
use crate::name_index::NameIndex;
use crate::name_index::NameSet;
use crate::name_map;
use crate::name_map::Copied;
use crate::name_map::NameMap;
use crate::text;
use crate::trading::Account;
use crate::trading::AccountView;
use crate::trading::Name;
use crate::trading::OmsOrder;
use crate::trading::Order;
use crate::trading::Position;
use vstd::prelude::*;

verus! {

/// Orders, positions and accounts at a point in time.
#[derive(Debug)]
pub struct CacheSnapshot {
    pub orders: NameMap<Order>,
    pub positions: NameMap<Position>,
    pub accounts: NameMap<Account>,
    pub timestamp_ns: u64,
}

/// What a snapshot says.
#[verifier::ext_equal]
pub struct SnapshotView {
    pub orders: Map<Seq<char>, Order>,
    pub positions: Map<Seq<char>, Position>,
    pub accounts: Map<Seq<char>, AccountView>,
    pub timestamp_ns: u64,
}

impl View for CacheSnapshot {
    type V = SnapshotView;

    open spec fn view(&self) -> SnapshotView {
        SnapshotView {
            orders: self.orders@,
            positions: self.positions@,
            accounts: name_map::views(self.accounts@),
            timestamp_ns: self.timestamp_ns,
        }
    }
}

impl Copied for CacheSnapshot {
    open spec fn valid(&self) -> bool {
        &&& self.orders.wf()
        &&& self.positions.wf()
        &&& self.accounts.wf()
        &&& name_map::all_valid(self.accounts@)
    }

    fn copied(&self) -> (r: Self) {
        let orders = self.orders.copied();
        let positions = self.positions.copied();
        let accounts = self.accounts.copied();
        proof {
            lemma_same_orders(orders@, self.orders@);
            lemma_same_positions(positions@, self.positions@);
        }
        CacheSnapshot { orders, positions, accounts, timestamp_ns: self.timestamp_ns }
    }
}

proof fn lemma_same_orders(a: Map<Seq<char>, Order>, b: Map<Seq<char>, Order>)
    requires
        name_map::views(a) == name_map::views(b),
    ensures
        a == b,
{
    assert(name_map::views(a) =~= a);
    assert(name_map::views(b) =~= b);
}

proof fn lemma_same_positions(a: Map<Seq<char>, Position>, b: Map<Seq<char>, Position>)
    requires
        name_map::views(a) == name_map::views(b),
    ensures
        a == b,
{
    assert(name_map::views(a) =~= a);
    assert(name_map::views(b) =~= b);
}

// ---------------------------------------------------------------------------
// State
// ---------------------------------------------------------------------------

/// A symbol on an exchange.
pub type InstrumentKey = (Seq<char>, Seq<char>);

/// An index from names to sets of ids.
pub type Index = Map<Seq<char>, Set<Seq<char>>>;

/// An index from instruments to sets of ids.
pub type InstrumentKeyIndex = Map<InstrumentKey, Set<Seq<char>>>;

/// An instrument that the cache knows.
#[derive(Debug)]
pub struct Instrument {
    pub id: InstrumentId,
    pub raw_symbol: String,
}

/// An instrument of the registry.
#[derive(Debug)]
pub struct InstrumentDef {
    pub id: u32,
    pub symbol: String,
    pub venue: String,
}

impl Clone for InstrumentDef {
    fn clone(&self) -> (r: Self)
        ensures
            r == *self,
    {
        InstrumentDef { id: self.id, symbol: self.symbol.clone(), venue: self.venue.clone() }
    }
}

/// The instruments of the system by the hash of their name.
#[derive(Debug)]
pub struct InstrumentRegistry {
    by_id: LevelMap<InstrumentDef>,
}

impl InstrumentRegistry {
    /// The instrument of a hash.
    pub closed spec fn at(&self, id: u32) -> Option<InstrumentDef> {
        if self.by_id@.dom().contains(id as i64) {
            Some(self.by_id@[id as i64])
        } else {
            None
        }
    }

    /// The instruments are in order.
    pub closed spec fn wf(&self) -> bool {
        self.by_id.wf()
    }

    /// A registry without instruments.
    pub fn new() -> (r: Self)
        ensures
            r.wf(),
            forall|id: u32| (#[trigger] r.at(id)) is None,
    {
        InstrumentRegistry { by_id: LevelMap::new() }
    }

    /// Registers an instrument.
    pub fn register(&mut self, def: InstrumentDef)
        requires
            old(self).wf(),
        ensures
            final(self).wf(),
            final(self).at(def.id) == Some(def),
            forall|id: u32| id != def.id ==> #[trigger] final(self).at(id) == old(self).at(id),
    {
        let key: i64 = def.id as i64;
        self.by_id.insert(key, def);
    }

    /// The instrument of a hash.
    pub fn get(&self, id: u32) -> (r: Option<&InstrumentDef>)
        requires
            self.wf(),
        ensures
            match r {
                Some(d) => self.at(id) == Some(*d),
                None => self.at(id) is None,
            },
    {
        self.by_id.get(&(id as i64))
    }
}

/// An instrument that is computed from others.
#[derive(Debug)]
pub struct SyntheticInstrument {
    pub id: InstrumentId,
    pub component_names: Vec<String>,
}

/// The name under which a synthetic instrument is found: its first component.
pub open spec fn underlying_of(components: Seq<Seq<char>>) -> Seq<char> {
    if components.len() == 0 {
        "UNKNOWN"@
    } else {
        components[0]
    }
}

/// What the cache knows.
#[verifier::ext_equal]
pub struct CacheState {
    pub orders: Map<Seq<char>, Order>,
    pub oms_orders: Map<Seq<char>, OmsOrder>,
    pub positions: Map<Seq<char>, Position>,
    pub accounts: Map<Seq<char>, AccountView>,
    pub instruments: Map<InstrumentKey, Instrument>,
    pub synthetics: Map<InstrumentKey, SyntheticInstrument>,
    /// Account of each venue.
    pub venue_account: Map<Seq<char>, Seq<char>>,
    pub venue_orders: Index,
    pub venue_positions: Index,
    /// Strategy of each order.
    pub order_strategy: Map<Seq<char>, Seq<char>>,
    pub strategy_orders: Index,
    pub strategy_positions: Index,
    pub instrument_orders: InstrumentKeyIndex,
    pub instrument_positions: InstrumentKeyIndex,
    pub orders_open: Set<Seq<char>>,
    pub orders_closed: Set<Seq<char>>,
    pub oms_open: Set<Seq<char>>,
    pub oms_closed: Set<Seq<char>>,
    pub oms_strategy: Index,
    pub oms_instrument: InstrumentKeyIndex,
    /// Client order id of each venue order id.
    pub oms_venue: Map<Seq<char>, Seq<char>>,
    pub positions_open: Set<Seq<char>>,
    pub positions_closed: Set<Seq<char>>,
    pub underlyings: Map<Seq<char>, Seq<InstrumentKey>>,
}

/// The instrument that a text names: `SYMBOL.EXCHANGE`, or else the text itself on no exchange.
pub open spec fn instrument_key(s: Seq<char>) -> InstrumentKey {
    let parts = text::split(s, '.');
    if parts.len() == 2 {
        (parts[0], parts[1])
    } else {
        (s, seq![])
    }
}

impl CacheState {
    /// A cache that knows nothing.
    pub open spec fn nothing() -> CacheState {
        CacheState {
            orders: Map::empty(),
            oms_orders: Map::empty(),
            positions: Map::empty(),
            accounts: Map::empty(),
            instruments: Map::empty(),
            synthetics: Map::empty(),
            venue_account: Map::empty(),
            venue_orders: Map::empty(),
            venue_positions: Map::empty(),
            order_strategy: Map::empty(),
            strategy_orders: Map::empty(),
            strategy_positions: Map::empty(),
            instrument_orders: Map::empty(),
            instrument_positions: Map::empty(),
            orders_open: Set::empty(),
            orders_closed: Set::empty(),
            oms_open: Set::empty(),
            oms_closed: Set::empty(),
            oms_strategy: Map::empty(),
            oms_instrument: Map::empty(),
            oms_venue: Map::empty(),
            positions_open: Set::empty(),
            positions_closed: Set::empty(),
            underlyings: Map::empty(),
        }
    }

    /// The order is new or has changed: it is open until it is filled, and found by its strategy
    /// and its instrument.
    pub open spec fn with_order(self, order: Order) -> CacheState {
        let id = order.client_order_id@;
        CacheState {
            orders: self.orders.insert(id, order),
            order_strategy: self.order_strategy.insert(id, order.strategy_id@),
            orders_open: if order.filled {
                self.orders_open.remove(id)
            } else {
                self.orders_open.insert(id)
            },
            orders_closed: if order.filled {
                self.orders_closed.insert(id)
            } else {
                self.orders_closed.remove(id)
            },
            instrument_orders: name_index::added(
                self.instrument_orders,
                order.instrument_id@,
                id,
            ),
            strategy_orders: name_index::added(self.strategy_orders, order.strategy_id@, id),
            ..self
        }
    }

    /// An order from a database: it is found by its venue too.
    pub open spec fn with_loaded_order(self, order: Order) -> CacheState {
        let s = self.with_order(order);
        CacheState {
            venue_orders: name_index::added(
                s.venue_orders,
                order.venue@,
                order.client_order_id@,
            ),
            ..s
        }
    }

    /// The order at the venue is new or has changed: it is open until its state is terminal, and
    /// found by its strategy and its instrument, and while it is open by its number at the venue.
    pub open spec fn with_oms_order(self, order: OmsOrder) -> CacheState {
        let id = order.client_order_id@;
        let ended = order.state.terminal();
        CacheState {
            oms_orders: self.oms_orders.insert(id, order),
            oms_open: if ended {
                self.oms_open.remove(id)
            } else {
                self.oms_open.insert(id)
            },
            oms_closed: if ended {
                self.oms_closed.insert(id)
            } else {
                self.oms_closed.remove(id)
            },
            oms_venue: match order.venue_order_id {
                Some(v) => if ended {
                    self.oms_venue.remove(v@)
                } else {
                    self.oms_venue.insert(v@, id)
                },
                None => self.oms_venue,
            },
            oms_strategy: name_index::added(self.oms_strategy, order.strategy_id@, id),
            oms_instrument: name_index::added(
                self.oms_instrument,
                instrument_key(order.instrument_id@),
                id,
            ),
            ..self
        }
    }

    /// The position is new or has changed: while its quantity is not zero it is open, and found by
    /// its instrument and its strategy; it is always found by its venue.
    pub open spec fn with_position(self, position: Position) -> CacheState {
        let id = position.position_id@;
        let closed = position.quantity == 0;
        CacheState {
            positions: self.positions.insert(id, position),
            positions_open: if closed {
                self.positions_open.remove(id)
            } else {
                self.positions_open.insert(id)
            },
            positions_closed: if closed {
                self.positions_closed.insert(id)
            } else {
                self.positions_closed.remove(id)
            },
            instrument_positions: if closed {
                name_index::dropped(self.instrument_positions, position.instrument_id@, id)
            } else {
                name_index::added(self.instrument_positions, position.instrument_id@, id)
            },
            strategy_positions: if closed {
                name_index::dropped(self.strategy_positions, position.strategy_id@, id)
            } else {
                name_index::added(self.strategy_positions, position.strategy_id@, id)
            },
            venue_positions: name_index::added(self.venue_positions, position.venue@, id),
            ..self
        }
    }

    /// A position from a database: it is found by its instrument and its strategy even if it is
    /// closed.
    pub open spec fn with_loaded_position(self, position: Position) -> CacheState {
        let s = self.with_position(position);
        let id = position.position_id@;
        CacheState {
            instrument_positions: name_index::added(
                self.instrument_positions,
                position.instrument_id@,
                id,
            ),
            strategy_positions: name_index::added(
                self.strategy_positions,
                position.strategy_id@,
                id,
            ),
            ..s
        }
    }

    /// An account, found by the venues that it names.
    pub open spec fn with_account(self, account: AccountView) -> CacheState {
        CacheState {
            accounts: self.accounts.insert(account.id, account),
            venue_account: self.venue_account.union_prefer_right(account.venue_accounts),
            ..self
        }
    }

    /// What is known of orders agrees: they stand under their own id, an order is open until it is
    /// filled and closed from then on, it is found by its strategy and its instrument, and nothing
    /// else is found but orders that are known.
    pub open spec fn orders_agree(self) -> bool {
        &&& forall|k: Seq<char>| #[trigger]
            self.orders.dom().contains(k) ==> {
                &&& self.orders[k].client_order_id@ == k
                &&& self.order_strategy.dom().contains(k)
                &&& self.order_strategy[k] == self.orders[k].strategy_id@
                &&& name_index::set_at(
                    self.strategy_orders,
                    self.orders[k].strategy_id@,
                ).contains(k)
                &&& name_index::set_at(
                    self.instrument_orders,
                    self.orders[k].instrument_id@,
                ).contains(k)
            }
        &&& forall|k: Seq<char>| #[trigger]
            self.orders_open.contains(k) <==> self.orders.dom().contains(k)
                && !self.orders[k].filled
        &&& forall|k: Seq<char>| #[trigger]
            self.orders_closed.contains(k) <==> self.orders.dom().contains(k)
                && self.orders[k].filled
        &&& forall|s: Seq<char>, k: Seq<char>| #[trigger]
            name_index::set_at(self.strategy_orders, s).contains(k) ==> self.orders.dom().contains(
                k,
            )
        &&& forall|i: InstrumentKey, k: Seq<char>| #[trigger]
            name_index::set_at(self.instrument_orders, i).contains(k)
                ==> self.orders.dom().contains(k)
        &&& forall|v: Seq<char>, k: Seq<char>| #[trigger]
            name_index::set_at(self.venue_orders, v).contains(k) ==> self.orders.dom().contains(k)
    }

    /// What is known of orders at the venue agrees.
    pub open spec fn oms_agrees(self) -> bool {
        &&& forall|k: Seq<char>| #[trigger]
            self.oms_orders.dom().contains(k) ==> {
                &&& self.oms_orders[k].client_order_id@ == k
                &&& name_index::set_at(
                    self.oms_strategy,
                    self.oms_orders[k].strategy_id@,
                ).contains(k)
                &&& name_index::set_at(
                    self.oms_instrument,
                    instrument_key(self.oms_orders[k].instrument_id@),
                ).contains(k)
            }
        &&& forall|k: Seq<char>| #[trigger]
            self.oms_open.contains(k) <==> self.oms_orders.dom().contains(k)
                && !self.oms_orders[k].state.terminal()
        &&& forall|k: Seq<char>| #[trigger]
            self.oms_closed.contains(k) <==> self.oms_orders.dom().contains(k)
                && self.oms_orders[k].state.terminal()
        &&& forall|s: Seq<char>, k: Seq<char>| #[trigger]
            name_index::set_at(self.oms_strategy, s).contains(k) ==> self.oms_orders.dom().contains(
                k,
            )
        &&& forall|i: InstrumentKey, k: Seq<char>| #[trigger]
            name_index::set_at(self.oms_instrument, i).contains(k)
                ==> self.oms_orders.dom().contains(k)
    }

    /// What is known of positions agrees: they stand under their own id, a position is open while
    /// its quantity is not zero and closed otherwise, it is found by its venue and, while it is
    /// open, by its instrument and its strategy, and nothing else is found but positions that are
    /// known.
    pub open spec fn positions_agree(self) -> bool {
        &&& forall|k: Seq<char>| #[trigger]
            self.positions.dom().contains(k) ==> {
                &&& self.positions[k].position_id@ == k
                &&& name_index::set_at(self.venue_positions, self.positions[k].venue@).contains(k)
                &&& self.positions[k].quantity != 0 ==> name_index::set_at(
                    self.instrument_positions,
                    self.positions[k].instrument_id@,
                ).contains(k)
                &&& self.positions[k].quantity != 0 ==> name_index::set_at(
                    self.strategy_positions,
                    self.positions[k].strategy_id@,
                ).contains(k)
            }
        &&& forall|k: Seq<char>| #[trigger]
            self.positions_open.contains(k) <==> self.positions.dom().contains(k)
                && self.positions[k].quantity != 0
        &&& forall|k: Seq<char>| #[trigger]
            self.positions_closed.contains(k) <==> self.positions.dom().contains(k)
                && self.positions[k].quantity == 0
        &&& forall|v: Seq<char>, k: Seq<char>| #[trigger]
            name_index::set_at(self.venue_positions, v).contains(k)
                ==> self.positions.dom().contains(k)
        &&& forall|s: Seq<char>, k: Seq<char>| #[trigger]
            name_index::set_at(self.strategy_positions, s).contains(k)
                ==> self.positions.dom().contains(k)
        &&& forall|i: InstrumentKey, k: Seq<char>| #[trigger]
            name_index::set_at(self.instrument_positions, i).contains(k)
                ==> self.positions.dom().contains(k)
    }

    /// All indices agree with what is known.
    pub open spec fn agrees(self) -> bool {
        self.orders_agree() && self.oms_agrees() && self.positions_agree()
            && database::accounts_keyed(self.accounts)
    }
}

// ---------------------------------------------------------------------------
// Laws
// ---------------------------------------------------------------------------

/// A cache that knows nothing agrees.
pub proof fn nothing_agrees()
    ensures
        CacheState::nothing().agrees(),
{
}

/// An update of an order keeps the indices in agreement.
pub proof fn order_keeps_agreement(s: CacheState, order: Order)
    requires
        s.agrees(),
    ensures
        s.with_order(order).agrees(),
        s.with_loaded_order(order).agrees(),
{
    let t = s.with_order(order);
    let id = order.client_order_id@;
    assert forall|x: Seq<char>, k: Seq<char>| #[trigger]
        name_index::set_at(t.strategy_orders, x).contains(k) <==> name_index::set_at(
        s.strategy_orders,
        x,
    ).contains(k) || (x == order.strategy_id@ && k == id) by {}
    assert forall|x: InstrumentKey, k: Seq<char>| #[trigger]
        name_index::set_at(t.instrument_orders, x).contains(k) <==> name_index::set_at(
        s.instrument_orders,
        x,
    ).contains(k) || (x == order.instrument_id@ && k == id) by {}
    let u = s.with_loaded_order(order);
    assert forall|x: Seq<char>, k: Seq<char>| #[trigger]
        name_index::set_at(u.venue_orders, x).contains(k) <==> name_index::set_at(
        s.venue_orders,
        x,
    ).contains(k) || (x == order.venue@ && k == id) by {}
    assert(t.orders_agree());
    assert(u.orders_agree());
}

/// An update of an order at the venue keeps the indices in agreement.
pub proof fn oms_order_keeps_agreement(s: CacheState, order: OmsOrder)
    requires
        s.agrees(),
    ensures
        s.with_oms_order(order).agrees(),
{
    let t = s.with_oms_order(order);
    let id = order.client_order_id@;
    let key = instrument_key(order.instrument_id@);
    assert forall|x: Seq<char>, k: Seq<char>| #[trigger]
        name_index::set_at(t.oms_strategy, x).contains(k) <==> name_index::set_at(
        s.oms_strategy,
        x,
    ).contains(k) || (x == order.strategy_id@ && k == id) by {}
    assert forall|x: InstrumentKey, k: Seq<char>| #[trigger]
        name_index::set_at(t.oms_instrument, x).contains(k) <==> name_index::set_at(
        s.oms_instrument,
        x,
    ).contains(k) || (x == key && k == id) by {}
    assert(t.oms_agrees());
}

/// An update of a position keeps the indices in agreement.
pub proof fn position_keeps_agreement(s: CacheState, position: Position)
    requires
        s.agrees(),
    ensures
        s.with_position(position).agrees(),
        s.with_loaded_position(position).agrees(),
{
    let t = s.with_position(position);
    let u = s.with_loaded_position(position);
    let id = position.position_id@;
    let closed = position.quantity == 0;
    let strategy = position.strategy_id@;
    let instrument = position.instrument_id@;
    assert forall|x: Seq<char>, k: Seq<char>| #[trigger]
        name_index::set_at(t.strategy_positions, x).contains(k) <==> (name_index::set_at(
        s.strategy_positions,
        x,
    ).contains(k) && !(closed && x == strategy && k == id)) || (!closed && x == strategy && k
        == id) by {}
    assert forall|x: InstrumentKey, k: Seq<char>| #[trigger]
        name_index::set_at(t.instrument_positions, x).contains(k) <==> (name_index::set_at(
        s.instrument_positions,
        x,
    ).contains(k) && !(closed && x == instrument && k == id)) || (!closed && x == instrument && k
        == id) by {}
    assert forall|x: Seq<char>, k: Seq<char>| #[trigger]
        name_index::set_at(t.venue_positions, x).contains(k) <==> name_index::set_at(
        s.venue_positions,
        x,
    ).contains(k) || (x == position.venue@ && k == id) by {}
    assert forall|x: Seq<char>, k: Seq<char>| #[trigger]
        name_index::set_at(u.strategy_positions, x).contains(k) <==> name_index::set_at(
        s.strategy_positions,
        x,
    ).contains(k) || (x == strategy && k == id) by {}
    assert forall|x: InstrumentKey, k: Seq<char>| #[trigger]
        name_index::set_at(u.instrument_positions, x).contains(k) <==> name_index::set_at(
        s.instrument_positions,
        x,
    ).contains(k) || (x == instrument && k == id) by {}
    assert(t.positions_agree());
    assert(u.positions_agree());
}

/// No order is both open and closed.
pub proof fn open_is_not_closed(s: CacheState, k: Seq<char>)
    requires
        s.agrees(),
    ensures
        !(s.orders_open.contains(k) && s.orders_closed.contains(k)),
        !(s.oms_open.contains(k) && s.oms_closed.contains(k)),
        !(s.positions_open.contains(k) && s.positions_closed.contains(k)),
{
}

// ---------------------------------------------------------------------------
// Cache
// ---------------------------------------------------------------------------

/// A listing of instruments.
pub open spec fn instrument_keys(s: Seq<InstrumentId>) -> Seq<InstrumentKey> {
    Seq::new(s.len(), |i: int| s[i]@)
}

/// The state of the system. Whatever is updated is found at once by all indices.
#[derive(Debug)]
pub struct Cache {
    instruments: InstrumentMap<Instrument>,
    synthetics: InstrumentMap<SyntheticInstrument>,
    orders: NameMap<Order>,
    oms_orders: NameMap<OmsOrder>,
    positions: NameMap<Position>,
    accounts: NameMap<Account>,
    venue_account: NameMap<Name>,
    venue_orders: NameIndex,
    venue_positions: NameIndex,
    order_strategy: NameMap<Name>,
    strategy_orders: NameIndex,
    strategy_positions: NameIndex,
    instrument_orders: InstrumentNameIndex,
    instrument_positions: InstrumentNameIndex,
    orders_open: NameSet,
    orders_closed: NameSet,
    oms_open: NameSet,
    oms_closed: NameSet,
    oms_strategy: NameIndex,
    oms_instrument: InstrumentNameIndex,
    oms_venue: NameMap<Name>,
    positions_open: NameSet,
    positions_closed: NameSet,
    underlyings: NameMap<Vec<InstrumentId>>,
    registry: Option<InstrumentRegistry>,
    tick_capacity: usize,
    bar_capacity: usize,
}

impl View for Cache {
    type V = CacheState;

    closed spec fn view(&self) -> CacheState {
        CacheState {
            orders: self.orders@,
            oms_orders: self.oms_orders@,
            positions: self.positions@,
            accounts: name_map::views(self.accounts@),
            instruments: self.instruments@,
            synthetics: self.synthetics@,
            venue_account: name_map::views(self.venue_account@),
            venue_orders: self.venue_orders@,
            venue_positions: self.venue_positions@,
            order_strategy: name_map::views(self.order_strategy@),
            strategy_orders: self.strategy_orders@,
            strategy_positions: self.strategy_positions@,
            instrument_orders: self.instrument_orders@,
            instrument_positions: self.instrument_positions@,
            orders_open: self.orders_open@,
            orders_closed: self.orders_closed@,
            oms_open: self.oms_open@,
            oms_closed: self.oms_closed@,
            oms_strategy: self.oms_strategy@,
            oms_instrument: self.oms_instrument@,
            oms_venue: name_map::views(self.oms_venue@),
            positions_open: self.positions_open@,
            positions_closed: self.positions_closed@,
            underlyings: Map::new(
                |k: Seq<char>| self.underlyings@.dom().contains(k),
                |k: Seq<char>| instrument_keys(self.underlyings@[k]@),
            ),
        }
    }
}

impl Cache {
    spec fn parts_wf(&self) -> bool {
        &&& self.instruments.wf()
        &&& self.synthetics.wf()
        &&& self.orders.wf()
        &&& self.oms_orders.wf()
        &&& self.positions.wf()
        &&& self.accounts.wf()
        &&& name_map::all_valid(self.accounts@)
        &&& self.venue_account.wf()
        &&& self.venue_orders.wf()
        &&& self.venue_positions.wf()
        &&& self.order_strategy.wf()
        &&& self.strategy_orders.wf()
        &&& self.strategy_positions.wf()
        &&& self.instrument_orders.wf()
        &&& self.instrument_positions.wf()
        &&& self.orders_open.wf()
        &&& self.orders_closed.wf()
        &&& self.oms_open.wf()
        &&& self.oms_closed.wf()
        &&& self.oms_strategy.wf()
        &&& self.oms_instrument.wf()
        &&& self.oms_venue.wf()
        &&& self.positions_open.wf()
        &&& self.positions_closed.wf()
        &&& self.underlyings.wf()
        &&& self.registry matches Some(r) ==> r.wf()
    }

    /// The parts are in order, and the indices agree with what is known.
    pub closed spec fn wf(&self) -> bool {
        self.parts_wf() && self@.agrees()
    }

    /// The registry of instruments.
    pub closed spec fn registered(&self) -> Option<InstrumentRegistry> {
        self.registry
    }

    /// How many ticks and bars are kept.
    pub closed spec fn capacities(&self) -> (usize, usize) {
        (self.tick_capacity, self.bar_capacity)
    }

    /// The same but for the state.
    pub open spec fn same_setting(&self, other: &Cache) -> bool {
        self.registered() == other.registered() && self.capacities() == other.capacities()
    }

    /// A cache that knows nothing.
    pub fn new(tick_capacity: usize, bar_capacity: usize) -> (r: Self)
        ensures
            r.wf(),
            r@ == CacheState::nothing(),
            r.registered() is None,
            r.capacities() == (tick_capacity, bar_capacity),
    {
        let r = Cache {
            instruments: InstrumentMap::new(),
            synthetics: InstrumentMap::new(),
            orders: NameMap::new(),
            oms_orders: NameMap::new(),
            positions: NameMap::new(),
            accounts: NameMap::new(),
            venue_account: NameMap::new(),
            venue_orders: NameIndex::new(),
            venue_positions: NameIndex::new(),
            order_strategy: NameMap::new(),
            strategy_orders: NameIndex::new(),
            strategy_positions: NameIndex::new(),
            instrument_orders: InstrumentNameIndex::new(),
            instrument_positions: InstrumentNameIndex::new(),
            orders_open: NameSet::new(),
            orders_closed: NameSet::new(),
            oms_open: NameSet::new(),
            oms_closed: NameSet::new(),
            oms_strategy: NameIndex::new(),
            oms_instrument: InstrumentNameIndex::new(),
            oms_venue: NameMap::new(),
            positions_open: NameSet::new(),
            positions_closed: NameSet::new(),
            underlyings: NameMap::new(),
            registry: None,
            tick_capacity,
            bar_capacity,
        };
        assert(r@ =~= CacheState::nothing());
        r
    }

    /// Updates an order: it is open until it is filled.
    pub fn update_order(&mut self, order: Order)
        requires
            old(self).wf(),
        ensures
            final(self).wf(),
            final(self)@ == old(self)@.with_order(order),
            final(self).same_setting(old(self)),
    {
        let ghost before = self@;
        let ghost given = order;
        let id: String = order.client_order_id.clone();
        let strategy: String = order.strategy_id.clone();
        let instrument: InstrumentId = order.instrument_id.clone();
        let filled = order.filled;
        self.orders.insert(id.as_str(), order);
        self.order_strategy.insert(id.as_str(), Name { text: strategy.clone() });
        if filled {
            self.orders_open.remove(id.as_str());
            self.orders_closed.insert(id.as_str());
        } else {
            self.orders_open.insert(id.as_str());
            self.orders_closed.remove(id.as_str());
        }
        self.instrument_orders.add_name(&instrument, id.as_str());
        self.strategy_orders.add_name(strategy.as_str(), id.as_str());
        proof {
            assert(self@.order_strategy =~= before.order_strategy.insert(id@, strategy@));
            assert(self@ =~= before.with_order(given));
            order_keeps_agreement(before, given);
        }
    }

    /// Updates an order at the venue: it is open until its state is terminal.
    pub fn update_oms_order(&mut self, order: OmsOrder)
        requires
            old(self).wf(),
        ensures
            final(self).wf(),
            final(self)@ == old(self)@.with_oms_order(order),
            final(self).same_setting(old(self)),
    {
        let ghost before = self@;
        let ghost given = order;
        let id: String = order.client_order_id.clone();
        let strategy: String = order.strategy_id.clone();
        let instrument: InstrumentId = match InstrumentId::parse(order.instrument_id.as_str()) {
            Some(i) => i,
            None => {
                let i = InstrumentId::new(order.instrument_id.as_str(), "");
                proof {
                    reveal_strlit("");
                    assert(""@ =~= Seq::<char>::empty());
                }
                i
            },
        };
        assert(instrument@ == instrument_key(order.instrument_id@));
        let ended = order.state.is_terminal();
        let venue_order_id: Option<String> = order.venue_order_id.clone();
        assert(venue_order_id is Some <==> order.venue_order_id is Some);
        assert(venue_order_id is Some ==> venue_order_id->0@ == order.venue_order_id->0@);
        self.oms_orders.insert(id.as_str(), order);
        if ended {
            self.oms_open.remove(id.as_str());
            self.oms_closed.insert(id.as_str());
        } else {
            self.oms_open.insert(id.as_str());
            self.oms_closed.remove(id.as_str());
        }
        match &venue_order_id {
            Some(v) => {
                if ended {
                    self.oms_venue.remove(v.as_str());
                } else {
                    self.oms_venue.insert(v.as_str(), Name { text: id.clone() });
                }
            },
            None => {},
        }
        self.oms_strategy.add_name(strategy.as_str(), id.as_str());
        self.oms_instrument.add_name(&instrument, id.as_str());
        proof {
            assert(self@.oms_venue =~= before.with_oms_order(given).oms_venue);
            assert(self@ =~= before.with_oms_order(given));
            oms_order_keeps_agreement(before, given);
        }
    }

    /// Updates a position: it is open while its quantity is not zero.
    pub fn update_position(&mut self, position: Position)
        requires
            old(self).wf(),
        ensures
            final(self).wf(),
            final(self)@ == old(self)@.with_position(position),
            final(self).same_setting(old(self)),
    {
        let ghost before = self@;
        let ghost given = position;
        let id: String = position.position_id.clone();
        let strategy: String = position.strategy_id.clone();
        let instrument: InstrumentId = position.instrument_id.clone();
        let venue: String = position.venue.clone();
        let closed = position.quantity == 0;
        self.positions.insert(id.as_str(), position);
        if closed {
            self.positions_open.remove(id.as_str());
            self.positions_closed.insert(id.as_str());
            self.instrument_positions.drop_name(&instrument, id.as_str());
            self.strategy_positions.drop_name(strategy.as_str(), id.as_str());
        } else {
            self.positions_open.insert(id.as_str());
            self.positions_closed.remove(id.as_str());
            self.instrument_positions.add_name(&instrument, id.as_str());
            self.strategy_positions.add_name(strategy.as_str(), id.as_str());
        }
        self.venue_positions.add_name(venue.as_str(), id.as_str());
        proof {
            assert(self@ =~= before.with_position(given));
            position_keeps_agreement(before, given);
        }
    }

    /// Takes over an order from a database.
    fn load_order(&mut self, order: Order)
        requires
            old(self).wf(),
        ensures
            final(self).wf(),
            final(self)@ == old(self)@.with_loaded_order(order),
            final(self).same_setting(old(self)),
    {
        let ghost before = self@;
        let ghost given = order;
        let id: String = order.client_order_id.clone();
        let venue: String = order.venue.clone();
        self.update_order(order);
        self.venue_orders.add_name(venue.as_str(), id.as_str());
        proof {
            assert(self@ =~= before.with_loaded_order(given));
            order_keeps_agreement(before, given);
        }
    }

    /// Takes over a position from a database.
    fn load_position(&mut self, position: Position)
        requires
            old(self).wf(),
        ensures
            final(self).wf(),
            final(self)@ == old(self)@.with_loaded_position(position),
            final(self).same_setting(old(self)),
    {
        let ghost before = self@;
        let ghost given = position;
        let id: String = position.position_id.clone();
        let strategy: String = position.strategy_id.clone();
        let instrument: InstrumentId = position.instrument_id.clone();
        let venue: String = position.venue.clone();
        let closed = position.quantity == 0;
        self.positions.insert(id.as_str(), position);
        if closed {
            self.positions_open.remove(id.as_str());
            self.positions_closed.insert(id.as_str());
        } else {
            self.positions_open.insert(id.as_str());
            self.positions_closed.remove(id.as_str());
        }
        self.instrument_positions.add_name(&instrument, id.as_str());
        self.strategy_positions.add_name(strategy.as_str(), id.as_str());
        self.venue_positions.add_name(venue.as_str(), id.as_str());
        proof {
            assert(self@ =~= before.with_loaded_position(given));
            position_keeps_agreement(before, given);
        }
    }

    /// Adds an account, and makes it the account of the venues that it names.
    pub fn add_account(&mut self, account: Account)
        requires
            old(self).wf(),
            account.valid(),
        ensures
            final(self).wf(),
            final(self)@ == old(self)@.with_account(account@),
            final(self).same_setting(old(self)),
    {
        let ghost before = self@;
        let ghost listing = account.venue_accounts.listing();
        let ghost all = name_map::views(account.venue_accounts@);
        proof {
            name_map::map_of_lists(listing);
            assert(before.venue_account.union_prefer_right(Map::empty())
                =~= before.venue_account);
        }
        let mut i: usize = 0;
        while i < account.venue_accounts.len()
            invariant
                account.valid(),
                listing == account.venue_accounts.listing(),
                all == name_map::views(account.venue_accounts@),
                i <= listing.len(),
                self.parts_wf(),
                self.registry == old(self).registry,
                self.tick_capacity == old(self).tick_capacity,
                self.bar_capacity == old(self).bar_capacity,
                self@ == (CacheState { venue_account: self@.venue_account, ..before }),
                forall|j: int|
                    0 <= j < listing.len() ==> all.dom().contains((#[trigger] listing[j]).0)
                        && all[listing[j].0] == listing[j].1@,
                forall|k: Seq<char>| #[trigger]
                    self@.venue_account.dom().contains(k) <==> before.venue_account.dom().contains(
                        k,
                    ) || name_map::has_name(listing.take(i as int), k),
                forall|k: Seq<char>| #[trigger]
                    self@.venue_account.dom().contains(k) ==> self@.venue_account[k]
                        == if name_map::has_name(listing.take(i as int), k) {
                        all[k]
                    } else {
                        before.venue_account[k]
                    },
            decreases listing.len() - i,
        {
            let ghost mid = self@;
            let venue = account.venue_accounts.name_at(i);
            let name = account.venue_accounts.value_at(i).copied();
            self.venue_account.insert(venue, name);
            proof {
                assert(self@.venue_account =~= mid.venue_account.insert(
                    listing[i as int].0,
                    listing[i as int].1@,
                ));
                assert(self@ =~= (CacheState { venue_account: self@.venue_account, ..before }));
                lemma_one_more_name(listing, i as int);
            }
            i = i + 1;
        }
        proof {
            assert(listing.take(i as int) =~= listing);
            assert(self@.venue_account =~= before.venue_account.union_prefer_right(all));
        }
        let ghost given = account@;
        let id: String = account.id.clone();
        self.accounts.insert(id.as_str(), account);
        proof {
            assert(self@.accounts =~= before.accounts.insert(given.id, given));
            assert(self@ =~= before.with_account(given));
        }
    }

    /// An order, unless it is followed at the venue.
    pub fn get_order(&self, id: &str) -> (r: Option<&Order>)
        requires
            self.wf(),
        ensures
            match r {
                Some(o) => !self@.oms_orders.dom().contains(id@) && self@.orders.dom().contains(id@)
                    && *o == self@.orders[id@],
                None => self@.oms_orders.dom().contains(id@) || !self@.orders.dom().contains(id@),
            },
    {
        match self.oms_orders.get(id) {
            Some(_) => None,
            None => self.orders.get(id),
        }
    }

    fn orders_of(&self, ids: &Vec<String>) -> (r: Vec<&Order>)
        requires
            self.wf(),
            forall|i: int| 0 <= i < ids@.len() ==> self@.orders.dom().contains((#[trigger] ids@[i])@),
        ensures
            r@.len() == ids@.len(),
            forall|i: int| 0 <= i < ids@.len() ==> *(#[trigger] r@[i]) == self@.orders[ids@[i]@],
    {
        let mut r: Vec<&Order> = Vec::new();
        let mut i: usize = 0;
        while i < ids.len()
            invariant
                self.wf(),
                forall|j: int|
                    0 <= j < ids@.len() ==> self@.orders.dom().contains((#[trigger] ids@[j])@),
                i <= ids@.len(),
                r@.len() == i,
                forall|j: int| 0 <= j < i ==> *(#[trigger] r@[j]) == self@.orders[ids@[j]@],
            decreases ids@.len() - i,
        {
            assert(self@.orders.dom().contains(ids@[i as int]@));
            match self.orders.get(ids[i].as_str()) {
                Some(o) => r.push(o),
                None => {},
            }
            i = i + 1;
        }
        r
    }

    fn positions_of(&self, ids: &Vec<String>) -> (r: Vec<&Position>)
        requires
            self.wf(),
            forall|i: int|
                0 <= i < ids@.len() ==> self@.positions.dom().contains((#[trigger] ids@[i])@),
        ensures
            r@.len() == ids@.len(),
            forall|i: int| 0 <= i < ids@.len() ==> *(#[trigger] r@[i]) == self@.positions[ids@[i]@],
    {
        let mut r: Vec<&Position> = Vec::new();
        let mut i: usize = 0;
        while i < ids.len()
            invariant
                self.wf(),
                forall|j: int|
                    0 <= j < ids@.len() ==> self@.positions.dom().contains((#[trigger] ids@[j])@),
                i <= ids@.len(),
                r@.len() == i,
                forall|j: int| 0 <= j < i ==> *(#[trigger] r@[j]) == self@.positions[ids@[j]@],
            decreases ids@.len() - i,
        {
            assert(self@.positions.dom().contains(ids@[i as int]@));
            match self.positions.get(ids[i].as_str()) {
                Some(p) => r.push(p),
                None => {},
            }
            i = i + 1;
        }
        r
    }

    /// The orders of a strategy, in ascending order of their ids.
    pub fn get_orders_for_strategy(&self, strategy_id: &str) -> (r: Vec<&Order>)
        requires
            self.wf(),
        ensures
            lists_orders(
                r@,
                self@.orders,
                name_index::set_at(self@.strategy_orders, strategy_id@),
            ),
    {
        let ids = self.strategy_orders.names_at(strategy_id);
        let ghost set = name_index::set_at(self@.strategy_orders, strategy_id@);
        proof {
            lemma_listed(ids@, set);
        }
        let r = self.orders_of(&ids);
        assert(name_index::lists(text::texts(ids@), set));
        r
    }

    /// The orders for an instrument, in ascending order of their ids.
    pub fn get_orders_for_instrument(&self, instrument_id: &InstrumentId) -> (r: Vec<&Order>)
        requires
            self.wf(),
        ensures
            lists_orders(
                r@,
                self@.orders,
                name_index::set_at(self@.instrument_orders, instrument_id@),
            ),
    {
        let ids = self.instrument_orders.names_at(instrument_id);
        let ghost set = name_index::set_at(self@.instrument_orders, instrument_id@);
        proof {
            lemma_listed(ids@, set);
        }
        let r = self.orders_of(&ids);
        assert(name_index::lists(text::texts(ids@), set));
        r
    }

    /// The account of a venue.
    pub fn account_for_venue(&self, venue: &str) -> (r: Option<&str>)
        requires
            self.wf(),
        ensures
            match r {
                Some(a) => self@.venue_account.dom().contains(venue@) && a@
                    == self@.venue_account[venue@],
                None => !self@.venue_account.dom().contains(venue@),
            },
    {
        match self.venue_account.get(venue) {
            Some(n) => Some(n.text.as_str()),
            None => None,
        }
    }

    /// All positions of a venue, in ascending order of their ids.
    pub fn get_positions_for_venue(&self, venue: &str) -> (r: Vec<&Position>)
        requires
            self.wf(),
        ensures
            lists_positions(
                r@,
                self@.positions,
                name_index::set_at(self@.venue_positions, venue@),
            ),
    {
        let ids = self.venue_positions.names_at(venue);
        let ghost set = name_index::set_at(self@.venue_positions, venue@);
        proof {
            lemma_listed(ids@, set);
        }
        let r = self.positions_of(&ids);
        assert(name_index::lists(text::texts(ids@), set));
        r
    }

    /// A position.
    pub fn get_position(&self, id: &str) -> (r: Option<&Position>)
        requires
            self.wf(),
        ensures
            match r {
                Some(p) => self@.positions.dom().contains(id@) && *p == self@.positions[id@],
                None => !self@.positions.dom().contains(id@),
            },
    {
        self.positions.get(id)
    }

    /// The open position of the smallest id among those that are found by an instrument.
    pub fn get_position_for_instrument(&self, instrument_id: &InstrumentId) -> (r: Option<
        &Position,
    >)
        requires
            self.wf(),
        ensures
            ({
                let set = name_index::set_at(self@.instrument_positions, instrument_id@);
                match r {
                    Some(p) => {
                        &&& set.contains(p.position_id@)
                        &&& self@.positions_open.contains(p.position_id@)
                        &&& *p == self@.positions[p.position_id@]
                        &&& forall|k: Seq<char>| #[trigger]
                            set.contains(k) && self@.positions_open.contains(k) && k
                                != p.position_id@ ==> text::comes_before(p.position_id@, k)
                    },
                    None => forall|k: Seq<char>| #[trigger]
                        set.contains(k) ==> !self@.positions_open.contains(k),
                }
            }),
    {
        let ids = self.instrument_positions.names_at(instrument_id);
        let ghost set = name_index::set_at(self@.instrument_positions, instrument_id@);
        let ghost names = text::texts(ids@);
        proof {
            lemma_listed(ids@, set);
        }
        let mut i: usize = 0;
        while i < ids.len()
            invariant
                self.wf(),
                names == text::texts(ids@),
                set == name_index::set_at(self@.instrument_positions, instrument_id@),
                name_index::lists(names, set),
                i <= ids@.len(),
                forall|j: int| 0 <= j < i ==> !self@.positions_open.contains(#[trigger] names[j]),
            decreases ids@.len() - i,
        {
            assert(names[i as int] == ids@[i as int]@);
            assert(names.contains(names[i as int]));
            assert(set.contains(names[i as int]));
            match self.positions.get(ids[i].as_str()) {
                Some(p) => {
                    if p.quantity != 0 {
                        proof {
                            assert forall|k: Seq<char>| #[trigger]
                                set.contains(k) && self@.positions_open.contains(k) && k
                                    != p.position_id@ implies text::comes_before(
                                p.position_id@,
                                k,
                            ) by {
                                let j = choose|j: int| 0 <= j < names.len() && names[j] == k;
                                assert(j > i);
                                assert(text::comes_before(names[i as int], names[j]));
                            }
                        }
                        return Some(p);
                    }
                },
                None => {},
            }
            i = i + 1;
        }
        proof {
            assert forall|k: Seq<char>| #[trigger] set.contains(k) implies !self@.positions_open.contains(
                k,
            ) by {
                let j = choose|j: int| 0 <= j < names.len() && names[j] == k;
                assert(!self@.positions_open.contains(names[j]));
            }
        }
        None
    }

    /// The open positions, in ascending order of their ids.
    pub fn get_positions_open(&self) -> (r: Vec<&Position>)
        requires
            self.wf(),
        ensures
            lists_positions(r@, self@.positions, self@.positions_open),
    {
        let ids = self.positions_open.names();
        proof {
            lemma_listed(ids@, self@.positions_open);
        }
        let r = self.positions_of(&ids);
        assert(name_index::lists(text::texts(ids@), self@.positions_open));
        r
    }

    /// The equity of the account of a venue; 0 where the venue has none.
    pub fn get_equity_for_venue(&self, venue: &str) -> (r: i64)
        requires
            self.wf(),
        ensures
            r == (if self@.venue_account.dom().contains(venue@) && self@.accounts.dom().contains(
                self@.venue_account[venue@],
            ) {
                self@.accounts[self@.venue_account[venue@]].equity
            } else {
                0
            }),
    {
        match self.venue_account.get(venue) {
            Some(n) => match self.accounts.get(n.text.as_str()) {
                Some(a) => a.equity,
                None => 0,
            },
            None => 0,
        }
    }

    /// The order is open.
    pub fn is_order_open(&self, id: &str) -> (r: bool)
        requires
            self.wf(),
        ensures
            r == self@.orders_open.contains(id@),
    {
        self.orders_open.contains(id)
    }

    /// The order is closed.
    pub fn is_order_closed(&self, id: &str) -> (r: bool)
        requires
            self.wf(),
        ensures
            r == self@.orders_closed.contains(id@),
    {
        self.orders_closed.contains(id)
    }

    /// The position is open.
    pub fn is_position_open(&self, id: &str) -> (r: bool)
        requires
            self.wf(),
        ensures
            r == self@.positions_open.contains(id@),
    {
        self.positions_open.contains(id)
    }

    /// The position is closed.
    pub fn is_position_closed(&self, id: &str) -> (r: bool)
        requires
            self.wf(),
        ensures
            r == self@.positions_closed.contains(id@),
    {
        self.positions_closed.contains(id)
    }

    /// An order at the venue.
    pub fn get_oms_order(&self, id: &str) -> (r: Option<&OmsOrder>)
        requires
            self.wf(),
        ensures
            match r {
                Some(o) => self@.oms_orders.dom().contains(id@) && *o == self@.oms_orders[id@],
                None => !self@.oms_orders.dom().contains(id@),
            },
    {
        self.oms_orders.get(id)
    }

    /// The client order id of a venue order id.
    pub fn get_client_order_id_by_venue(&self, venue_order_id: &str) -> (r: Option<String>)
        requires
            self.wf(),
        ensures
            match r {
                Some(c) => self@.oms_venue.dom().contains(venue_order_id@) && c@
                    == self@.oms_venue[venue_order_id@],
                None => !self@.oms_venue.dom().contains(venue_order_id@),
            },
    {
        match self.oms_venue.get(venue_order_id) {
            Some(n) => Some(n.text.clone()),
            None => None,
        }
    }

    /// An order at the venue, by its venue order id.
    pub fn get_oms_order_by_venue(&self, venue_order_id: &str) -> (r: Option<&OmsOrder>)
        requires
            self.wf(),
        ensures
            ({
                let known = self@.oms_venue.dom().contains(venue_order_id@)
                    && self@.oms_orders.dom().contains(self@.oms_venue[venue_order_id@]);
                match r {
                    Some(o) => known && *o == self@.oms_orders[self@.oms_venue[venue_order_id@]],
                    None => !known,
                }
            }),
    {
        match self.oms_venue.get(venue_order_id) {
            Some(n) => self.oms_orders.get(n.text.as_str()),
            None => None,
        }
    }

    /// Sets the client order id of a venue order id, when the venue has accepted the order.
    pub fn oms_update_venue_index(&mut self, venue_order_id: &str, client_order_id: &str)
        requires
            old(self).wf(),
        ensures
            final(self).wf(),
            final(self)@ == (CacheState {
                oms_venue: old(self)@.oms_venue.insert(venue_order_id@, client_order_id@),
                ..old(self)@
            }),
            final(self).same_setting(old(self)),
    {
        let ghost before = self@;
        self.oms_venue.insert(venue_order_id, Name { text: client_order_id.to_owned() });
        proof {
            assert(self@.oms_venue =~= before.oms_venue.insert(venue_order_id@, client_order_id@));
            assert(self@ =~= (CacheState { oms_venue: self@.oms_venue, ..before }));
        }
    }

    /// The open orders of a strategy at the venue, in ascending order of their ids.
    pub fn oms_get_open_for_strategy(&self, strategy_id: &str) -> (r: Vec<String>)
        requires
            self.wf(),
        ensures
            name_index::lists(
                text::texts(r@),
                name_index::set_at(self@.oms_strategy, strategy_id@).intersect(self@.oms_open),
            ),
    {
        let ids = self.oms_strategy.names_at(strategy_id);
        let ghost set = name_index::set_at(self@.oms_strategy, strategy_id@);
        let ghost names = text::texts(ids@);
        let mut open = NameSet::new();
        let mut i: usize = 0;
        while i < ids.len()
            invariant
                self.wf(),
                names == text::texts(ids@),
                i <= ids@.len(),
                open.wf(),
                forall|k: Seq<char>| #[trigger]
                    open@.contains(k) <==> self@.oms_open.contains(k) && exists|j: int|
                        0 <= j < i && #[trigger] names[j] == k,
            decreases ids@.len() - i,
        {
            let ghost before = open@;
            assert(names[i as int] == ids@[i as int]@);
            if self.oms_open.contains(ids[i].as_str()) {
                open.insert(ids[i].as_str());
            }
            proof {
                assert forall|k: Seq<char>| #[trigger]
                    open@.contains(k) <==> self@.oms_open.contains(k) && exists|j: int|
                        0 <= j < i + 1 && #[trigger] names[j] == k by {
                    if before.contains(k) {
                        let j = choose|j: int| 0 <= j < i && #[trigger] names[j] == k;
                        assert(0 <= j < i + 1 && names[j] == k);
                    }
                    if k == names[i as int] {
                        assert(0 <= i < i + 1 && names[i as int] == k);
                    }
                }
            }
            i = i + 1;
        }
        proof {
            assert(open@ =~= set.intersect(self@.oms_open)) by {
                assert forall|k: Seq<char>| open@.contains(k) <==> set.intersect(
                    self@.oms_open,
                ).contains(k) by {
                    assert(set.contains(k) <==> names.contains(k));
                }
            }
        }
        open.names()
    }

    /// The open orders at the venue, in ascending order of their ids.
    pub fn oms_get_open_order_ids(&self) -> (r: Vec<String>)
        requires
            self.wf(),
        ensures
            name_index::lists(text::texts(r@), self@.oms_open),
    {
        self.oms_open.names()
    }

    /// The order is followed at the venue.
    pub fn oms_contains(&self, id: &str) -> (r: bool)
        requires
            self.wf(),
        ensures
            r == self@.oms_orders.dom().contains(id@),
    {
        match self.oms_orders.get(id) {
            Some(_) => true,
            None => false,
        }
    }

    /// Sets the registry of instruments.
    pub fn set_registry(&mut self, registry: InstrumentRegistry)
        requires
            old(self).wf(),
            registry.wf(),
        ensures
            final(self).wf(),
            final(self)@ == old(self)@,
            final(self).registered() == Some(registry),
            final(self).capacities() == old(self).capacities(),
    {
        let ghost before = self@;
        self.registry = Some(registry);
        assert(self@ =~= before);
    }

    /// The instrument of the registry with the hash of an instrument.
    pub fn get_instrument(&self, instrument_id: &InstrumentId) -> (r: Option<InstrumentDef>)
        requires
            self.wf(),
        ensures
            r == (match self.registered() {
                Some(registry) => registry.at(instrument_id.id),
                None => None,
            }),
    {
        match &self.registry {
            Some(registry) => match registry.get(instrument_id.id) {
                Some(d) => Some(d.clone()),
                None => None,
            },
            None => None,
        }
    }

    /// Adds an instrument.
    pub fn add_instrument(&mut self, instrument: &InstrumentDef)
        requires
            old(self).wf(),
        ensures
            final(self).wf(),
            final(self).same_setting(old(self)),
            exists|i: Instrument|
                {
                    &&& i.id.wf()
                    &&& i.id@ == (instrument.symbol@, instrument.venue@)
                    &&& i.raw_symbol@ == instrument::instrument_text(
                        instrument.symbol@,
                        instrument.venue@,
                    )
                    &&& final(self)@ == #[trigger] with_instrument(old(self)@, i)
                },
    {
        let ghost before = self@;
        let id = InstrumentId::new(instrument.symbol.as_str(), instrument.venue.as_str());
        let raw_symbol = id.to_text();
        let entry = Instrument { id: id.clone(), raw_symbol };
        let ghost given = entry;
        self.instruments.insert(&id, entry);
        assert(self@ =~= with_instrument(before, given));
    }

    /// An instrument.
    pub fn instrument(&self, id: &InstrumentId) -> (r: Option<&Instrument>)
        requires
            self.wf(),
        ensures
            match r {
                Some(i) => self@.instruments.dom().contains(id@) && self@.instruments[id@] == *i,
                None => !self@.instruments.dom().contains(id@),
            },
    {
        self.instruments.get(id)
    }

    /// Adds a synthetic instrument, to be found by its first component.
    pub fn add_synthetic(&mut self, synthetic: SyntheticInstrument)
        requires
            old(self).wf(),
        ensures
            final(self).wf(),
            final(self).same_setting(old(self)),
            final(self)@ == with_synthetic(old(self)@, synthetic),
    {
        let ghost before = self@;
        let ghost given = synthetic;
        let underlying: String = if synthetic.component_names.len() == 0 {
            "UNKNOWN".to_owned()
        } else {
            synthetic.component_names[0].clone()
        };
        assert(underlying@ == underlying_of(text::texts(synthetic.component_names@)));
        let id: InstrumentId = synthetic.id.clone();
        let mut found: Vec<InstrumentId> = match self.underlyings.remove(underlying.as_str()) {
            Some(v) => v,
            None => Vec::new(),
        };
        let ghost earlier = instrument_keys(found@);
        found.push(id.clone());
        assert(instrument_keys(found@) =~= earlier.push(id@));
        self.underlyings.insert(underlying.as_str(), found);
        self.synthetics.insert(&id, synthetic);
        proof {
            let after = with_synthetic(before, given);
            assert(Seq::<InstrumentKey>::empty() =~= instrument_keys(Seq::empty()));
            assert(self@.underlyings =~= after.underlyings);
            assert(self@ =~= after);
        }
    }

    /// The synthetic instruments whose first component is a symbol, in the order in which they
    /// were added.
    pub fn get_synthetics_by_underlying(&self, symbol: &str) -> (r: Vec<InstrumentId>)
        requires
            self.wf(),
        ensures
            instrument_keys(r@) == (if self@.underlyings.dom().contains(symbol@) {
                self@.underlyings[symbol@]
            } else {
                seq![]
            }),
    {
        let mut r: Vec<InstrumentId> = Vec::new();
        match self.underlyings.get(symbol) {
            Some(v) => {
                let mut i: usize = 0;
                while i < v.len()
                    invariant
                        i <= v@.len(),
                        r@.len() == i,
                        forall|j: int| 0 <= j < i ==> (#[trigger] r@[j])@ == v@[j]@,
                    decreases v@.len() - i,
                {
                    r.push(v[i].clone());
                    i = i + 1;
                }
                assert(instrument_keys(r@) =~= instrument_keys(v@));
            },
            None => {
                assert(instrument_keys(r@) =~= seq![]);
            },
        }
        r
    }

    /// Orders, positions and accounts. The caller sets the time of the snapshot.
    pub fn snapshot(&self) -> (r: CacheSnapshot)
        requires
            self.wf(),
        ensures
            r.valid(),
            r@ == snapshot_of(self@),
    {
        let orders = self.orders.copied();
        let positions = self.positions.copied();
        let accounts = self.accounts.copied();
        proof {
            lemma_same_orders(orders@, self.orders@);
            lemma_same_positions(positions@, self.positions@);
        }
        CacheSnapshot { orders, positions, accounts, timestamp_ns: 0 }
    }
}

/// Orders, positions and accounts of a state.
pub open spec fn snapshot_of(s: CacheState) -> SnapshotView {
    SnapshotView {
        orders: s.orders,
        positions: s.positions,
        accounts: s.accounts,
        timestamp_ns: 0,
    }
}

/// A state with one more instrument.
pub open spec fn with_instrument(s: CacheState, i: Instrument) -> CacheState {
    CacheState { instruments: s.instruments.insert(i.id@, i), ..s }
}

/// A state with one more synthetic instrument.
pub open spec fn with_synthetic(s: CacheState, i: SyntheticInstrument) -> CacheState {
    let u = underlying_of(text::texts(i.component_names@));
    let earlier = if s.underlyings.dom().contains(u) {
        s.underlyings[u]
    } else {
        seq![]
    };
    CacheState {
        synthetics: s.synthetics.insert(i.id@, i),
        underlyings: s.underlyings.insert(u, earlier.push(i.id@)),
        ..s
    }
}

/// The orders of a set of ids, in ascending order of the ids.
pub open spec fn lists_orders(
    r: Seq<&Order>,
    orders: Map<Seq<char>, Order>,
    ids: Set<Seq<char>>,
) -> bool {
    exists|names: Seq<Seq<char>>|
        {
            &&& #[trigger] name_index::lists(names, ids)
            &&& r.len() == names.len()
            &&& forall|i: int| 0 <= i < r.len() ==> *(#[trigger] r[i]) == orders[names[i]]
        }
}

/// The positions of a set of ids, in ascending order of the ids.
pub open spec fn lists_positions(
    r: Seq<&Position>,
    positions: Map<Seq<char>, Position>,
    ids: Set<Seq<char>>,
) -> bool {
    exists|names: Seq<Seq<char>>|
        {
            &&& #[trigger] name_index::lists(names, ids)
            &&& r.len() == names.len()
            &&& forall|i: int| 0 <= i < r.len() ==> *(#[trigger] r[i]) == positions[names[i]]
        }
}

proof fn lemma_one_more_name<V>(listing: Seq<(Seq<char>, V)>, i: int)
    requires
        0 <= i < listing.len(),
    ensures
        forall|k: Seq<char>| #[trigger]
            name_map::has_name(listing.take(i + 1), k) <==> name_map::has_name(listing.take(i), k)
                || k == listing[i].0,
{
    let a = listing.take(i);
    let b = listing.take(i + 1);
    assert forall|k: Seq<char>| #[trigger] name_map::has_name(b, k) <==> name_map::has_name(a, k)
        || k == listing[i].0 by {
        if name_map::has_name(a, k) {
            let j = choose|j: int| 0 <= j < a.len() && (#[trigger] a[j]).0 == k;
            assert(b[j].0 == k);
        }
        if k == listing[i].0 {
            assert(b[i].0 == k);
        }
        if name_map::has_name(b, k) {
            let j = choose|j: int| 0 <= j < b.len() && (#[trigger] b[j]).0 == k;
            if j < i {
                assert(a[j].0 == k);
            }
        }
    }
}

proof fn lemma_listed(ids: Seq<String>, set: Set<Seq<char>>)
    requires
        name_index::lists(text::texts(ids), set),
    ensures
        forall|i: int| 0 <= i < ids.len() ==> set.contains((#[trigger] ids[i])@),
{
    assert forall|i: int| 0 <= i < ids.len() implies set.contains((#[trigger] ids[i])@) by {
        assert(text::texts(ids)[i] == ids[i]@);
        assert(text::texts(ids).contains(ids[i]@));
    }
}

// ---------------------------------------------------------------------------
// Persistence
// ---------------------------------------------------------------------------

/// A state with the first `n` orders of a listing taken over.
pub open spec fn orders_loaded(
    s: CacheState,
    listing: Seq<(Seq<char>, Order)>,
    n: int,
) -> CacheState
    decreases n,
{
    if n <= 0 {
        s
    } else {
        orders_loaded(s, listing, n - 1).with_loaded_order(listing[n - 1].1)
    }
}

/// A state with the first `n` positions of a listing taken over.
pub open spec fn positions_loaded(
    s: CacheState,
    listing: Seq<(Seq<char>, Position)>,
    n: int,
) -> CacheState
    decreases n,
{
    if n <= 0 {
        s
    } else {
        positions_loaded(s, listing, n - 1).with_loaded_position(listing[n - 1].1)
    }
}

/// The state that is made from the orders, positions and accounts of a database.
pub open spec fn loaded(
    orders: Seq<(Seq<char>, Order)>,
    positions: Seq<(Seq<char>, Position)>,
    accounts: Map<Seq<char>, AccountView>,
) -> CacheState {
    let start = CacheState { accounts, ..CacheState::nothing() };
    positions_loaded(
        orders_loaded(start, orders, orders.len() as int),
        positions,
        positions.len() as int,
    )
}

/// The state is the one that is made from what a database holds.
pub open spec fn is_loaded(s: CacheState, stored: database::Stored) -> bool {
    exists|orders: Seq<(Seq<char>, Order)>, positions: Seq<(Seq<char>, Position)>|
        {
            &&& name_map::ascending(orders)
            &&& name_map::ascending(positions)
            &&& name_map::map_of(orders) == stored.orders
            &&& name_map::map_of(positions) == stored.positions
            &&& s == #[trigger] loaded(orders, positions, stored.accounts)
        }
}

/// What a database holds behind a snapshot.
pub open spec fn saved(before: database::Stored, s: CacheState) -> database::Stored {
    database::Stored {
        orders: before.orders.union_prefer_right(s.orders),
        positions: before.positions.union_prefer_right(s.positions),
        accounts: before.accounts.union_prefer_right(s.accounts),
        curve: before.curve.push(snapshot_of(s)),
        heartbeat: before.heartbeat,
    }
}

/// A line on something that could not be saved.
pub open spec fn failure_line(line: Seq<char>, what: Seq<char>, e: DatabaseError) -> bool {
    line == "snapshot: failed to persist "@ + what + ": "@ + database::error_text(e)
}

/// The line tells of something of a kind that could not be saved.
pub open spec fn tells_failure(line: Seq<char>, what: Seq<char>) -> bool {
    exists|e: DatabaseError| failure_line(line, what, e)
}

/// Behind the lines that there were stand lines on one kind of thing, and no more than a number of
/// them.
pub open spec fn more_failures(
    before: Seq<String>,
    after: Seq<String>,
    what: Seq<char>,
    most: nat,
) -> bool {
    &&& before.len() <= after.len() <= before.len() + most
    &&& after.take(before.len() as int) == before
    &&& forall|i: int|
        before.len() <= i < after.len() ==> tells_failure((#[trigger] after[i])@, what)
}

/// The lines tell of orders, then of positions, then of accounts and last of the equity curve, and
/// of none more often than there was one to save.
pub open spec fn failure_lines(lines: Seq<String>, s: CacheState) -> bool {
    exists|o: Seq<String>, p: Seq<String>, a: Seq<String>|
        #![trigger more_failures(o, p, "position"@, s.positions.dom().len()),
            more_failures(p, a, "account"@, s.accounts.dom().len())]
        {
            &&& more_failures(Seq::empty(), o, "order"@, s.orders.dom().len())
            &&& more_failures(o, p, "position"@, s.positions.dom().len())
            &&& more_failures(p, a, "account"@, s.accounts.dom().len())
            &&& more_failures(a, lines, "equity curve"@, 1)
        }
}

fn tell_failure(lines: &mut Vec<String>, what: &str, e: &DatabaseError)
    ensures
        final(lines)@.len() == old(lines)@.len() + 1,
        final(lines)@.drop_last() == old(lines)@,
        tells_failure(final(lines)@.last()@, what@),
{
    let mut s = "snapshot: failed to persist ".to_owned();
    s.append(what);
    s.append(": ");
    s.append(e.message().as_str());
    assert(failure_line(s@, what@, *e));
    lines.push(s);
}

/// One more line on a thing of the same kind.
proof fn lemma_one_more_failure(
    before: Seq<String>,
    mid: Seq<String>,
    after: Seq<String>,
    what: Seq<char>,
    most: nat,
)
    requires
        more_failures(before, mid, what, most),
        after.len() == mid.len() + 1,
        after.drop_last() == mid,
        tells_failure(after.last()@, what),
    ensures
        more_failures(before, after, what, most + 1),
{
    assert(after.take(before.len() as int) =~= before) by {
        assert forall|i: int| 0 <= i < before.len() implies after[i] == before[i] by {
            assert(after.drop_last()[i] == mid[i]);
            assert(mid.take(before.len() as int)[i] == mid[i]);
        }
    }
    assert forall|i: int| before.len() <= i < after.len() implies tells_failure(
        (#[trigger] after[i])@,
        what,
    ) by {
        if i < mid.len() {
            assert(after.drop_last()[i] == mid[i]);
        }
    }
}

impl Cache {
    /// The cache of what a database holds: orders and positions with all their indices, and
    /// accounts.
    pub fn load_from_database<D: Database>(db: &D) -> (r: Result<Cache, DatabaseError>)
        requires
            db.ok(),
        ensures
            db.reliable() ==> r is Ok,
            r matches Ok(c) ==> {
                &&& c.wf()
                &&& is_loaded(c@, db.stored())
                &&& c@.orders == db.stored().orders
                &&& c@.positions == db.stored().positions
                &&& c@.accounts == db.stored().accounts
                &&& c.registered() is None
                &&& c.capacities() == (1000usize, 1000usize)
            },
    {
        let orders = match db.load_orders() {
            Ok(m) => m,
            Err(e) => {
                return Err(e);
            },
        };
        let positions = match db.load_positions() {
            Ok(m) => m,
            Err(e) => {
                return Err(e);
            },
        };
        let accounts = match db.load_accounts() {
            Ok(m) => m,
            Err(e) => {
                return Err(e);
            },
        };
        let mut cache = Cache::new(1000, 1000);
        cache.accounts = accounts;
        let ghost start = CacheState { accounts: db.stored().accounts, ..CacheState::nothing() };
        let ghost lo = orders.listing();
        let ghost lp = positions.listing();
        assert(cache@ =~= start);
        let mut i: usize = 0;
        while i < orders.len()
            invariant
                lo == orders.listing(),
                i <= lo.len(),
                cache.wf(),
                cache@ == orders_loaded(start, lo, i as int),
                cache.registered() is None,
                cache.capacities() == (1000usize, 1000usize),
            decreases lo.len() - i,
        {
            cache.load_order(orders.value_at(i).clone());
            i = i + 1;
        }
        let ghost mid = cache@;
        let mut j: usize = 0;
        while j < positions.len()
            invariant
                lp == positions.listing(),
                j <= lp.len(),
                cache.wf(),
                cache@ == positions_loaded(mid, lp, j as int),
                cache.registered() is None,
                cache.capacities() == (1000usize, 1000usize),
            decreases lp.len() - j,
        {
            cache.load_position(positions.value_at(j).clone());
            j = j + 1;
        }
        proof {
            assert(cache@ == loaded(lo, lp, db.stored().accounts));
            loading_keeps_everything(lo, lp, db.stored().accounts);
        }
        Ok(cache)
    }

    /// Takes a snapshot and saves it, and all orders, positions and accounts. What could not be
    /// saved is told in lines.
    pub fn snapshot_to<D: Database>(&self, db: &mut D) -> (r: (CacheSnapshot, Vec<String>))
        requires
            self.wf(),
            old(db).ok(),
        ensures
            final(db).ok(),
            r.0.valid(),
            r.0@ == snapshot_of(self@),
            failure_lines(r.1@, self@),
            r.1@.len() == 0 ==> final(db).stored() == saved(old(db).stored(), self@),
            old(db).reliable() ==> r.1@.len() == 0,
    {
        let snap = self.snapshot();
        let mut lines: Vec<String> = Vec::new();
        self.save_orders(db, &mut lines);
        let ghost o = lines@;
        self.save_positions(db, &mut lines);
        let ghost p = lines@;
        self.save_accounts(db, &mut lines);
        let ghost a = lines@;
        assert(a.take(a.len() as int) =~= a);
        assert(more_failures(a, a, "equity curve"@, 0));
        match db.save_equity_curve(&snap) {
            Ok(_) => {},
            Err(e) => {
                tell_failure(&mut lines, "equity curve", &e);
                proof {
                    lemma_one_more_failure(a, a, lines@, "equity curve"@, 0);
                }
            },
        }
        assert(failure_lines(lines@, self@)) by {
            assert(more_failures(Seq::empty(), o, "order"@, self@.orders.dom().len()));
            assert(more_failures(o, p, "position"@, self@.positions.dom().len()));
            assert(more_failures(p, a, "account"@, self@.accounts.dom().len()));
            assert(more_failures(a, lines@, "equity curve"@, 1));
        }
        (snap, lines)
    }

    fn save_orders<D: Database>(&self, db: &mut D, lines: &mut Vec<String>)
        requires
            self.wf(),
            old(db).ok(),
        ensures
            final(db).ok(),
            final(db).reliable() == old(db).reliable(),
            more_failures(old(lines)@, final(lines)@, "order"@, self@.orders.dom().len()),
            final(lines)@.len() == old(lines)@.len() ==> final(db).stored() == (database::Stored {
                orders: old(db).stored().orders.union_prefer_right(self@.orders),
                ..old(db).stored()
            }),
            old(db).reliable() ==> final(lines)@.len() == old(lines)@.len(),
    {
        let ghost listing = self.orders.listing();
        let ghost before = db.stored();
        let ghost told = lines@.len();
        proof {
            name_map::map_of_lists(listing);
            name_map::map_of_counts(listing);
            assert(lines@.take(lines@.len() as int) =~= lines@);
        }
        let mut i: usize = 0;
        while i < self.orders.len()
            invariant
                self.wf(),
                listing == self.orders.listing(),
                i <= listing.len(),
                db.ok(),
                db.reliable() == old(db).reliable(),
                told == old(lines)@.len(),
                more_failures(old(lines)@, lines@, "order"@, i as nat),
                old(db).reliable() ==> lines@.len() == told,
                forall|j: int|
                    0 <= j < listing.len() ==> self@.orders.dom().contains((#[trigger] listing[j]).0)
                        && self@.orders[listing[j].0] == listing[j].1,
                lines@.len() == told ==> db.stored() == (database::Stored {
                    orders: db.stored().orders,
                    ..before
                }),
                lines@.len() == told ==> forall|k: Seq<char>| #[trigger]
                    db.stored().orders.dom().contains(k) <==> before.orders.dom().contains(k)
                        || name_map::has_name(listing.take(i as int), k),
                lines@.len() == told ==> forall|k: Seq<char>| #[trigger]
                    db.stored().orders.dom().contains(k) ==> db.stored().orders[k]
                        == if name_map::has_name(listing.take(i as int), k) {
                        self@.orders[k]
                    } else {
                        before.orders[k]
                    },
            decreases listing.len() - i,
        {
            let ghost mid = db.stored();
            let ghost lines_before = lines@;
            let order = self.orders.value_at(i);
            assert(self@.orders.dom().contains(listing[i as int].0));
            match db.save_order(order) {
                Ok(_) => {
                    proof {
                        lemma_one_more_name(listing, i as int);
                    }
                },
                Err(e) => {
                    tell_failure(lines, "order", &e);
                    proof {
                        lemma_one_more_failure(
                            old(lines)@,
                            lines_before,
                            lines@,
                            "order"@,
                            i as nat,
                        );
                    }
                },
            }
            i = i + 1;
        }
        proof {
            assert(listing.take(i as int) =~= listing);
            if lines@.len() == told {
                assert(db.stored().orders =~= before.orders.union_prefer_right(self@.orders));
            }
        }
    }

    fn save_positions<D: Database>(&self, db: &mut D, lines: &mut Vec<String>)
        requires
            self.wf(),
            old(db).ok(),
        ensures
            final(db).ok(),
            final(db).reliable() == old(db).reliable(),
            more_failures(old(lines)@, final(lines)@, "position"@, self@.positions.dom().len()),
            final(lines)@.len() == old(lines)@.len() ==> final(db).stored() == (database::Stored {
                positions: old(db).stored().positions.union_prefer_right(self@.positions),
                ..old(db).stored()
            }),
            old(db).reliable() ==> final(lines)@.len() == old(lines)@.len(),
    {
        let ghost listing = self.positions.listing();
        let ghost before = db.stored();
        let ghost told = lines@.len();
        proof {
            name_map::map_of_lists(listing);
            name_map::map_of_counts(listing);
            assert(lines@.take(lines@.len() as int) =~= lines@);
        }
        let mut i: usize = 0;
        while i < self.positions.len()
            invariant
                self.wf(),
                listing == self.positions.listing(),
                i <= listing.len(),
                db.ok(),
                db.reliable() == old(db).reliable(),
                told == old(lines)@.len(),
                more_failures(old(lines)@, lines@, "position"@, i as nat),
                old(db).reliable() ==> lines@.len() == told,
                forall|j: int|
                    0 <= j < listing.len() ==> self@.positions.dom().contains(
                        (#[trigger] listing[j]).0,
                    ) && self@.positions[listing[j].0] == listing[j].1,
                lines@.len() == told ==> db.stored() == (database::Stored {
                    positions: db.stored().positions,
                    ..before
                }),
                lines@.len() == told ==> forall|k: Seq<char>| #[trigger]
                    db.stored().positions.dom().contains(k) <==> before.positions.dom().contains(k)
                        || name_map::has_name(listing.take(i as int), k),
                lines@.len() == told ==> forall|k: Seq<char>| #[trigger]
                    db.stored().positions.dom().contains(k) ==> db.stored().positions[k]
                        == if name_map::has_name(listing.take(i as int), k) {
                        self@.positions[k]
                    } else {
                        before.positions[k]
                    },
            decreases listing.len() - i,
        {
            let ghost mid = db.stored();
            let ghost lines_before = lines@;
            let position = self.positions.value_at(i);
            assert(self@.positions.dom().contains(listing[i as int].0));
            match db.save_position(position) {
                Ok(_) => {
                    proof {
                        lemma_one_more_name(listing, i as int);
                    }
                },
                Err(e) => {
                    tell_failure(lines, "position", &e);
                    proof {
                        lemma_one_more_failure(
                            old(lines)@,
                            lines_before,
                            lines@,
                            "position"@,
                            i as nat,
                        );
                    }
                },
            }
            i = i + 1;
        }
        proof {
            assert(listing.take(i as int) =~= listing);
            if lines@.len() == told {
                assert(db.stored().positions =~= before.positions.union_prefer_right(
                    self@.positions,
                ));
            }
        }
    }

    fn save_accounts<D: Database>(&self, db: &mut D, lines: &mut Vec<String>)
        requires
            self.wf(),
            old(db).ok(),
        ensures
            final(db).ok(),
            final(db).reliable() == old(db).reliable(),
            more_failures(old(lines)@, final(lines)@, "account"@, self@.accounts.dom().len()),
            final(lines)@.len() == old(lines)@.len() ==> final(db).stored() == (database::Stored {
                accounts: old(db).stored().accounts.union_prefer_right(self@.accounts),
                ..old(db).stored()
            }),
            old(db).reliable() ==> final(lines)@.len() == old(lines)@.len(),
    {
        let ghost listing = self.accounts.listing();
        let ghost before = db.stored();
        let ghost told = lines@.len();
        proof {
            name_map::map_of_lists(listing);
            name_map::map_of_counts(listing);
            assert(lines@.take(lines@.len() as int) =~= lines@);
        }
        let mut i: usize = 0;
        while i < self.accounts.len()
            invariant
                self.wf(),
                listing == self.accounts.listing(),
                i <= listing.len(),
                db.ok(),
                db.reliable() == old(db).reliable(),
                told == old(lines)@.len(),
                more_failures(old(lines)@, lines@, "account"@, i as nat),
                old(db).reliable() ==> lines@.len() == told,
                forall|j: int|
                    0 <= j < listing.len() ==> self.accounts@.dom().contains(
                        (#[trigger] listing[j]).0,
                    ) && self.accounts@[listing[j].0] == listing[j].1,
                lines@.len() == told ==> db.stored() == (database::Stored {
                    accounts: db.stored().accounts,
                    ..before
                }),
                lines@.len() == told ==> forall|k: Seq<char>| #[trigger]
                    db.stored().accounts.dom().contains(k) <==> before.accounts.dom().contains(k)
                        || name_map::has_name(listing.take(i as int), k),
                lines@.len() == told ==> forall|k: Seq<char>| #[trigger]
                    db.stored().accounts.dom().contains(k) ==> db.stored().accounts[k]
                        == if name_map::has_name(listing.take(i as int), k) {
                        self@.accounts[k]
                    } else {
                        before.accounts[k]
                    },
            decreases listing.len() - i,
        {
            let ghost mid = db.stored();
            let ghost lines_before = lines@;
            let account = self.accounts.value_at(i);
            assert(self@.accounts.dom().contains(listing[i as int].0));
            assert(account.id@ == listing[i as int].0);
            match db.save_account(account) {
                Ok(_) => {
                    proof {
                        lemma_one_more_name(listing, i as int);
                    }
                },
                Err(e) => {
                    tell_failure(lines, "account", &e);
                    proof {
                        lemma_one_more_failure(
                            old(lines)@,
                            lines_before,
                            lines@,
                            "account"@,
                            i as nat,
                        );
                    }
                },
            }
            i = i + 1;
        }
        proof {
            assert(listing.take(i as int) =~= listing);
            assert(self@.accounts.dom() =~= self.accounts@.dom());
            if lines@.len() == told {
                assert(db.stored().accounts =~= before.accounts.union_prefer_right(self@.accounts));
            }
        }
    }
}

/// A cache that is made from a database knows the orders, positions and accounts of the database.
pub proof fn loading_keeps_everything(
    orders: Seq<(Seq<char>, Order)>,
    positions: Seq<(Seq<char>, Position)>,
    accounts: Map<Seq<char>, AccountView>,
)
    requires
        name_map::ascending(orders),
        name_map::ascending(positions),
        database::orders_keyed(name_map::map_of(orders)),
        database::positions_keyed(name_map::map_of(positions)),
        database::accounts_keyed(accounts),
    ensures
        loaded(orders, positions, accounts).orders == name_map::map_of(orders),
        loaded(orders, positions, accounts).positions == name_map::map_of(positions),
        loaded(orders, positions, accounts).accounts == accounts,
        loaded(orders, positions, accounts).agrees(),
{
    let start = CacheState { accounts, ..CacheState::nothing() };
    let mid = orders_loaded(start, orders, orders.len() as int);
    let end = positions_loaded(mid, positions, positions.len() as int);
    lemma_orders_loaded(start, orders, orders.len() as int);
    lemma_positions_loaded(mid, positions, positions.len() as int);
    assert(orders.take(orders.len() as int) =~= orders);
    assert(positions.take(positions.len() as int) =~= positions);
    name_map::map_of_lists(orders);
    name_map::map_of_lists(positions);
    assert(end.orders =~= name_map::map_of(orders));
    assert(end.positions =~= name_map::map_of(positions));
}

proof fn lemma_orders_loaded(s: CacheState, listing: Seq<(Seq<char>, Order)>, n: int)
    requires
        0 <= n <= listing.len(),
        s.agrees(),
        s.orders == Map::<Seq<char>, Order>::empty(),
        name_map::ascending(listing),
        database::orders_keyed(name_map::map_of(listing)),
    ensures
        orders_loaded(s, listing, n).agrees(),
        orders_loaded(s, listing, n).accounts == s.accounts,
        orders_loaded(s, listing, n).positions == s.positions,
        forall|k: Seq<char>| #[trigger]
            orders_loaded(s, listing, n).orders.dom().contains(k) <==> name_map::has_name(
                listing.take(n),
                k,
            ),
        forall|k: Seq<char>| #[trigger]
            orders_loaded(s, listing, n).orders.dom().contains(k) ==> orders_loaded(
                s,
                listing,
                n,
            ).orders[k] == name_map::map_of(listing)[k],
    decreases n,
{
    name_map::map_of_lists(listing);
    if n > 0 {
        lemma_orders_loaded(s, listing, n - 1);
        lemma_one_more_name(listing, n - 1);
        let before = orders_loaded(s, listing, n - 1);
        let after = orders_loaded(s, listing, n);
        order_keeps_agreement(before, listing[n - 1].1);
        assert(name_map::map_of(listing).dom().contains(listing[n - 1].0));
        assert(listing[n - 1].1.client_order_id@ == listing[n - 1].0);
        assert forall|k: Seq<char>| #[trigger]
            after.orders.dom().contains(k) <==> name_map::has_name(listing.take(n), k) by {
            assert(after.orders.dom().contains(k) <==> before.orders.dom().contains(k) || k
                == listing[n - 1].0);
            assert(name_map::has_name(listing.take(n - 1 + 1), k) <==> name_map::has_name(
                listing.take(n - 1),
                k,
            ) || k == listing[n - 1].0);
        }
    } else {
        assert(listing.take(0).len() == 0);
    }
}

proof fn lemma_positions_loaded(s: CacheState, listing: Seq<(Seq<char>, Position)>, n: int)
    requires
        0 <= n <= listing.len(),
        s.agrees(),
        s.positions == Map::<Seq<char>, Position>::empty(),
        name_map::ascending(listing),
        database::positions_keyed(name_map::map_of(listing)),
    ensures
        positions_loaded(s, listing, n).agrees(),
        positions_loaded(s, listing, n).accounts == s.accounts,
        positions_loaded(s, listing, n).orders == s.orders,
        forall|k: Seq<char>| #[trigger]
            positions_loaded(s, listing, n).positions.dom().contains(k) <==> name_map::has_name(
                listing.take(n),
                k,
            ),
        forall|k: Seq<char>| #[trigger]
            positions_loaded(s, listing, n).positions.dom().contains(k) ==> positions_loaded(
                s,
                listing,
                n,
            ).positions[k] == name_map::map_of(listing)[k],
    decreases n,
{
    name_map::map_of_lists(listing);
    if n > 0 {
        lemma_positions_loaded(s, listing, n - 1);
        lemma_one_more_name(listing, n - 1);
        let before = positions_loaded(s, listing, n - 1);
        let after = positions_loaded(s, listing, n);
        position_keeps_agreement(before, listing[n - 1].1);
        assert(name_map::map_of(listing).dom().contains(listing[n - 1].0));
        assert(listing[n - 1].1.position_id@ == listing[n - 1].0);
        assert forall|k: Seq<char>| #[trigger]
            after.positions.dom().contains(k) <==> name_map::has_name(listing.take(n), k) by {
            assert(after.positions.dom().contains(k) <==> before.positions.dom().contains(k) || k
                == listing[n - 1].0);
            assert(name_map::has_name(listing.take(n - 1 + 1), k) <==> name_map::has_name(
                listing.take(n - 1),
                k,
            ) || k == listing[n - 1].0);
        }
    } else {
        assert(listing.take(0).len() == 0);
    }
}

/// What was saved to an empty database is there again in the cache that is made from it: orders,
/// positions and accounts, and which of them are open and closed.
pub proof fn saved_state_reads_back(
    s: CacheState,
    before: database::Stored,
    orders: Seq<(Seq<char>, Order)>,
    positions: Seq<(Seq<char>, Position)>,
)
    requires
        s.agrees(),
        before.orders == Map::<Seq<char>, Order>::empty(),
        before.positions == Map::<Seq<char>, Position>::empty(),
        before.accounts == Map::<Seq<char>, AccountView>::empty(),
        name_map::ascending(orders),
        name_map::ascending(positions),
        name_map::map_of(orders) == saved(before, s).orders,
        name_map::map_of(positions) == saved(before, s).positions,
    ensures
        ({
            let t = loaded(orders, positions, saved(before, s).accounts);
            &&& t.orders == s.orders
            &&& t.positions == s.positions
            &&& t.accounts == s.accounts
            &&& t.orders_open == s.orders_open
            &&& t.orders_closed == s.orders_closed
            &&& t.positions_open == s.positions_open
            &&& t.positions_closed == s.positions_closed
        }),
{
    assert(saved(before, s).orders =~= s.orders);
    assert(saved(before, s).positions =~= s.positions);
    assert(saved(before, s).accounts =~= s.accounts);
    loading_keeps_everything(orders, positions, s.accounts);
    let t = loaded(orders, positions, s.accounts);
    assert(t.orders_open =~= s.orders_open);
    assert(t.orders_closed =~= s.orders_closed);
    assert(t.positions_open =~= s.positions_open);
    assert(t.positions_closed =~= s.positions_closed);
}

/// An order that was updated is known as it is now; it is open while it is not filled and closed once
/// it is, never both; it is found by its strategy and its instrument. Nothing is changed for other
/// orders, and nothing that is not an order.
pub proof fn updated_order_is_found(
    s: CacheState,
    order: Order,
    k: Seq<char>,
    q: Seq<char>,
    i: InstrumentKey,
)
    ensures
        ({
            let t = s.with_order(order);
            let id = order.client_order_id@;
            &&& t.orders.dom().contains(id) && t.orders[id] == order
            &&& t.orders_open.contains(id) == !order.filled
            &&& t.orders_closed.contains(id) == order.filled
            &&& t.order_strategy.dom().contains(id) && t.order_strategy[id] == order.strategy_id@
            &&& k != id ==> (t.orders.dom().contains(k) == s.orders.dom().contains(k)) && (
            s.orders.dom().contains(k) ==> t.orders[k] == s.orders[k])
                && t.orders_open.contains(k) == s.orders_open.contains(k)
                && t.orders_closed.contains(k) == s.orders_closed.contains(k)
            &&& name_index::set_at(t.strategy_orders, q).contains(k) <==> name_index::set_at(
                s.strategy_orders,
                q,
            ).contains(k) || (q == order.strategy_id@ && k == id)
            &&& name_index::set_at(t.instrument_orders, i).contains(k) <==> name_index::set_at(
                s.instrument_orders,
                i,
            ).contains(k) || (i == order.instrument_id@ && k == id)
            &&& t == (CacheState {
                orders: t.orders,
                orders_open: t.orders_open,
                orders_closed: t.orders_closed,
                order_strategy: t.order_strategy,
                strategy_orders: t.strategy_orders,
                instrument_orders: t.instrument_orders,
                ..s
            })
        }),
{
    name_index::index_finds_what_was_added(
        s.strategy_orders,
        order.strategy_id@,
        order.client_order_id@,
        q,
        k,
    );
    name_index::index_finds_what_was_added(
        s.instrument_orders,
        order.instrument_id@,
        order.client_order_id@,
        i,
        k,
    );
}

/// An order from a database is found as an updated one is, and by its venue too.
pub proof fn loaded_order_is_found(s: CacheState, order: Order, v: Seq<char>, k: Seq<char>)
    ensures
        ({
            let t = s.with_loaded_order(order);
            let u = s.with_order(order);
            &&& t == (CacheState { venue_orders: t.venue_orders, ..u })
            &&& name_index::set_at(t.venue_orders, v).contains(k) <==> name_index::set_at(
                s.venue_orders,
                v,
            ).contains(k) || (v == order.venue@ && k == order.client_order_id@)
        }),
{
    name_index::index_finds_what_was_added(
        s.venue_orders,
        order.venue@,
        order.client_order_id@,
        v,
        k,
    );
}

/// An order at the venue is open until its state is an end, and closed from then on; while it is open
/// it is found by the number that the venue gave it. It is always found by its strategy and its
/// instrument.
pub proof fn order_at_the_venue_is_found(
    s: CacheState,
    order: OmsOrder,
    k: Seq<char>,
    q: Seq<char>,
    i: InstrumentKey,
)
    ensures
        ({
            let t = s.with_oms_order(order);
            let id = order.client_order_id@;
            let over = order.state is Filled || order.state is Cancelled || order.state is Rejected;
            &&& t.oms_orders.dom().contains(id) && t.oms_orders[id] == order
            &&& t.oms_open.contains(id) == !over
            &&& t.oms_closed.contains(id) == over
            &&& k != id ==> t.oms_orders.dom().contains(k) == s.oms_orders.dom().contains(k)
                && t.oms_open.contains(k) == s.oms_open.contains(k) && t.oms_closed.contains(k)
                == s.oms_closed.contains(k)
            &&& order.venue_order_id matches Some(v) ==> t.oms_venue.dom().contains(v@) == !over && (
            !over ==> t.oms_venue[v@] == id)
            &&& order.venue_order_id is None ==> t.oms_venue == s.oms_venue
            &&& name_index::set_at(t.oms_strategy, q).contains(k) <==> name_index::set_at(
                s.oms_strategy,
                q,
            ).contains(k) || (q == order.strategy_id@ && k == id)
            &&& name_index::set_at(t.oms_instrument, i).contains(k) <==> name_index::set_at(
                s.oms_instrument,
                i,
            ).contains(k) || (i == instrument_key(order.instrument_id@) && k == id)
            &&& t.orders == s.orders && t.positions == s.positions && t.accounts == s.accounts
        }),
{
    name_index::index_finds_what_was_added(
        s.oms_strategy,
        order.strategy_id@,
        order.client_order_id@,
        q,
        k,
    );
    name_index::index_finds_what_was_added(
        s.oms_instrument,
        instrument_key(order.instrument_id@),
        order.client_order_id@,
        i,
        k,
    );
}

/// A position is open while its quantity is not 0, long or short, and closed otherwise; while it is
/// open it is found by its instrument and its strategy, and it is always found by its venue.
pub proof fn updated_position_is_found(
    s: CacheState,
    position: Position,
    k: Seq<char>,
    q: Seq<char>,
    i: InstrumentKey,
)
    ensures
        ({
            let t = s.with_position(position);
            let id = position.position_id@;
            let open = position.quantity > 0 || position.quantity < 0;
            &&& t.positions.dom().contains(id) && t.positions[id] == position
            &&& t.positions_open.contains(id) == open
            &&& t.positions_closed.contains(id) == !open
            &&& k != id ==> t.positions.dom().contains(k) == s.positions.dom().contains(k) && (
            s.positions.dom().contains(k) ==> t.positions[k] == s.positions[k])
                && t.positions_open.contains(k) == s.positions_open.contains(k)
                && t.positions_closed.contains(k) == s.positions_closed.contains(k)
            &&& name_index::set_at(t.instrument_positions, i).contains(k) <==> if i
                == position.instrument_id@ && k == id {
                open
            } else {
                name_index::set_at(s.instrument_positions, i).contains(k)
            }
            &&& name_index::set_at(t.strategy_positions, q).contains(k) <==> if q
                == position.strategy_id@ && k == id {
                open
            } else {
                name_index::set_at(s.strategy_positions, q).contains(k)
            }
            &&& name_index::set_at(t.venue_positions, q).contains(k) <==> name_index::set_at(
                s.venue_positions,
                q,
            ).contains(k) || (q == position.venue@ && k == id)
            &&& t.orders == s.orders && t.oms_orders == s.oms_orders && t.accounts == s.accounts
        }),
{
    let id = position.position_id@;
    name_index::index_finds_what_was_added(
        s.instrument_positions,
        position.instrument_id@,
        id,
        i,
        k,
    );
    name_index::index_finds_what_was_added(s.strategy_positions, position.strategy_id@, id, q, k);
    name_index::index_finds_what_was_added(s.venue_positions, position.venue@, id, q, k);
}

/// A position from a database is found by its instrument and its strategy even where it is closed.
pub proof fn loaded_position_is_found(
    s: CacheState,
    position: Position,
    k: Seq<char>,
    q: Seq<char>,
    i: InstrumentKey,
)
    ensures
        ({
            let t = s.with_loaded_position(position);
            let u = s.with_position(position);
            let id = position.position_id@;
            &&& t == (CacheState {
                instrument_positions: t.instrument_positions,
                strategy_positions: t.strategy_positions,
                ..u
            })
            &&& name_index::set_at(t.instrument_positions, i).contains(k) <==> name_index::set_at(
                s.instrument_positions,
                i,
            ).contains(k) || (i == position.instrument_id@ && k == id)
            &&& name_index::set_at(t.strategy_positions, q).contains(k) <==> name_index::set_at(
                s.strategy_positions,
                q,
            ).contains(k) || (q == position.strategy_id@ && k == id)
        }),
{
    let id = position.position_id@;
    name_index::index_finds_what_was_added(
        s.instrument_positions,
        position.instrument_id@,
        id,
        i,
        k,
    );
    name_index::index_finds_what_was_added(s.strategy_positions, position.strategy_id@, id, q, k);
}

/// An account is known under its id, and is the account of every venue that it names; other venues
/// keep theirs.
pub proof fn account_is_found_by_its_venues(s: CacheState, account: AccountView, v: Seq<char>)
    ensures
        ({
            let t = s.with_account(account);
            &&& t.accounts.dom().contains(account.id) && t.accounts[account.id] == account
            &&& account.venue_accounts.dom().contains(v) ==> t.venue_account.dom().contains(v)
                && t.venue_account[v] == account.venue_accounts[v]
            &&& !account.venue_accounts.dom().contains(v) ==> t.venue_account.dom().contains(v)
                == s.venue_account.dom().contains(v) && (s.venue_account.dom().contains(v)
                ==> t.venue_account[v] == s.venue_account[v])
            &&& t == (CacheState {
                accounts: s.accounts.insert(account.id, account),
                venue_account: t.venue_account,
                ..s
            })
        }),
{
}

/// A text with one dot names a symbol and an exchange; one without names a symbol on no exchange.
pub proof fn text_names_an_instrument(symbol: Seq<char>, exchange: Seq<char>)
    requires
        text::lacks(symbol, '.'),
        text::lacks(exchange, '.'),
    ensures
        instrument_key(symbol + seq!['.'] + exchange) == (symbol, exchange),
        instrument_key(symbol) == (symbol, Seq::<char>::empty()),
{
    text::split_takes_piece_off(symbol, '.', exchange);
    text::split_of_one_piece(exchange, '.');
    text::split_of_one_piece(symbol, '.');
}

/// A listing of orders is complete and holds nothing else: each order of the ids is listed once, in
/// ascending order of the ids.
pub proof fn listing_is_complete(
    r: Seq<&Order>,
    orders: Map<Seq<char>, Order>,
    ids: Set<Seq<char>>,
)
    requires
        lists_orders(r, orders, ids),
        forall|k: Seq<char>| #[trigger] ids.contains(k) ==> orders[k].client_order_id@ == k,
    ensures
        forall|k: Seq<char>| #[trigger]
            ids.contains(k) ==> exists|i: int|
                0 <= i < r.len() && (#[trigger] r[i]).client_order_id@ == k,
        forall|i: int|
            0 <= i < r.len() ==> ids.contains((#[trigger] r[i]).client_order_id@) && *r[i]
                == orders[r[i].client_order_id@],
        forall|i: int, j: int|
            0 <= i < j < r.len() ==> text::comes_before(
                (#[trigger] r[i]).client_order_id@,
                (#[trigger] r[j]).client_order_id@,
            ),
{
    let names = choose|names: Seq<Seq<char>>|
        {
            &&& #[trigger] name_index::lists(names, ids)
            &&& r.len() == names.len()
            &&& forall|i: int| 0 <= i < r.len() ==> *(#[trigger] r[i]) == orders[names[i]]
        };
    assert forall|i: int| 0 <= i < r.len() implies ids.contains(names[i]) && (
    #[trigger] r[i]).client_order_id@ == names[i] by {
        assert(names.contains(names[i]));
        assert(ids.contains(names[i]));
    }
    assert forall|k: Seq<char>| #[trigger] ids.contains(k) implies exists|i: int|
        0 <= i < r.len() && (#[trigger] r[i]).client_order_id@ == k by {
        assert(names.contains(k));
        let i = choose|i: int| 0 <= i < names.len() && names[i] == k;
        assert(r[i].client_order_id@ == k);
    }
}

/// A listing of positions is complete and holds nothing else, in ascending order of the ids.
pub proof fn listing_of_positions_is_complete(
    r: Seq<&Position>,
    positions: Map<Seq<char>, Position>,
    ids: Set<Seq<char>>,
)
    requires
        lists_positions(r, positions, ids),
        forall|k: Seq<char>| #[trigger] ids.contains(k) ==> positions[k].position_id@ == k,
    ensures
        forall|k: Seq<char>| #[trigger]
            ids.contains(k) ==> exists|i: int|
                0 <= i < r.len() && (#[trigger] r[i]).position_id@ == k,
        forall|i: int|
            0 <= i < r.len() ==> ids.contains((#[trigger] r[i]).position_id@) && *r[i]
                == positions[r[i].position_id@],
        forall|i: int, j: int|
            0 <= i < j < r.len() ==> text::comes_before(
                (#[trigger] r[i]).position_id@,
                (#[trigger] r[j]).position_id@,
            ),
{
    let names = choose|names: Seq<Seq<char>>|
        {
            &&& #[trigger] name_index::lists(names, ids)
            &&& r.len() == names.len()
            &&& forall|i: int| 0 <= i < r.len() ==> *(#[trigger] r[i]) == positions[names[i]]
        };
    assert forall|i: int| 0 <= i < r.len() implies ids.contains(names[i]) && (
    #[trigger] r[i]).position_id@ == names[i] by {
        assert(names.contains(names[i]));
        assert(ids.contains(names[i]));
    }
    assert forall|k: Seq<char>| #[trigger] ids.contains(k) implies exists|i: int|
        0 <= i < r.len() && (#[trigger] r[i]).position_id@ == k by {
        assert(names.contains(k));
        let i = choose|i: int| 0 <= i < names.len() && names[i] == k;
        assert(r[i].position_id@ == k);
    }
}

/// A synthetic instrument is found by its first component, behind those that were found by it
/// before.
pub proof fn synthetic_is_found_by_its_first_component(s: CacheState, i: SyntheticInstrument)
    requires
        i.component_names@.len() > 0,
    ensures
        ({
            let t = with_synthetic(s, i);
            let u = i.component_names@[0]@;
            &&& t.synthetics.dom().contains(i.id@) && t.synthetics[i.id@] == i
            &&& t.underlyings.dom().contains(u)
            &&& t.underlyings[u].last() == i.id@
            &&& s.underlyings.dom().contains(u) ==> t.underlyings[u].drop_last() == s.underlyings[u]
            &&& !s.underlyings.dom().contains(u) ==> t.underlyings[u].len() == 1
            &&& t.instruments == s.instruments && t.orders == s.orders
        }),
{
    let t = with_synthetic(s, i);
    let u = i.component_names@[0]@;
    if s.underlyings.dom().contains(u) {
        assert(t.underlyings[u].drop_last() =~= s.underlyings[u]);
    }
}

/// A snapshot that was saved leaves all that the cache knows in the database, over what stood there
/// under the same ids, and adds itself to the equity curve.
pub proof fn snapshot_is_saved_over_the_old(
    before: database::Stored,
    s: CacheState,
    k: Seq<char>,
)
    ensures
        ({
            let after = saved(before, s);
            &&& s.orders.dom().contains(k) ==> after.orders.dom().contains(k) && after.orders[k]
                == s.orders[k]
            &&& !s.orders.dom().contains(k) && before.orders.dom().contains(k)
                ==> after.orders.dom().contains(k) && after.orders[k] == before.orders[k]
            &&& s.positions.dom().contains(k) ==> after.positions.dom().contains(k)
                && after.positions[k] == s.positions[k]
            &&& s.accounts.dom().contains(k) ==> after.accounts.dom().contains(k)
                && after.accounts[k] == s.accounts[k]
            &&& after.curve.len() == before.curve.len() + 1
            &&& after.curve.last().orders == s.orders && after.curve.last().positions == s.positions
                && after.curve.last().accounts == s.accounts
            &&& after.curve.drop_last() == before.curve
            &&& after.heartbeat == before.heartbeat
        }),
{
    assert(saved(before, s).curve.drop_last() =~= before.curve);
}

} // verus!
