//! Where orders, positions, accounts and equity curves are kept.

use crate::cache::CacheSnapshot;
use crate::cache::SnapshotView;
use crate::name_map;
use crate::name_map::Copied;
use crate::name_map::NameMap;
use crate::trading::Account;
use crate::trading::AccountView;
use crate::trading::Order;
use crate::trading::Position;
use vstd::prelude::*;

verus! {

/// What can go wrong with a database.
#[derive(Debug)]
pub enum DatabaseError {
    Sqlite(String),
    Serialization(String),
    NotOpen,
    Io(String),
}

/// What an error says.
pub open spec fn error_text(e: DatabaseError) -> Seq<char> {
    match e {
        DatabaseError::Sqlite(s) => "SQLite error: "@ + s@,
        DatabaseError::Serialization(s) => "Serialization error: "@ + s@,
        DatabaseError::NotOpen => "Database not open"@,
        DatabaseError::Io(s) => "IO error: "@ + s@,
    }
}

impl DatabaseError {
    /// What the error says.
    pub fn message(&self) -> (r: String)
        ensures
            r@ == error_text(*self),
    {
        match self {
            DatabaseError::Sqlite(s) => {
                let mut r = "SQLite error: ".to_owned();
                r.append(s.as_str());
                r
            },
            DatabaseError::Serialization(s) => {
                let mut r = "Serialization error: ".to_owned();
                r.append(s.as_str());
                r
            },
            DatabaseError::NotOpen => "Database not open".to_owned(),
            DatabaseError::Io(s) => {
                let mut r = "IO error: ".to_owned();
                r.append(s.as_str());
                r
            },
        }
    }
}

/// What a database holds.
#[verifier::ext_equal]
pub struct Stored {
    pub orders: Map<Seq<char>, Order>,
    pub positions: Map<Seq<char>, Position>,
    pub accounts: Map<Seq<char>, AccountView>,
    pub curve: Seq<SnapshotView>,
    pub heartbeat: Option<u64>,
}

/// Orders stand under their client order id.
pub open spec fn orders_keyed(m: Map<Seq<char>, Order>) -> bool {
    forall|k: Seq<char>| #[trigger] m.dom().contains(k) ==> m[k].client_order_id@ == k
}

/// Positions stand under their position id.
pub open spec fn positions_keyed(m: Map<Seq<char>, Position>) -> bool {
    forall|k: Seq<char>| #[trigger] m.dom().contains(k) ==> m[k].position_id@ == k
}

/// Accounts stand under their id.
pub open spec fn accounts_keyed(m: Map<Seq<char>, AccountView>) -> bool {
    forall|k: Seq<char>| #[trigger] m.dom().contains(k) ==> m[k].id == k
}

/// A database. What is saved under a name replaces what was there.
pub trait Database: Sized {
    /// What the database holds.
    spec fn stored(&self) -> Stored;

    /// The database can be used.
    spec fn ok(&self) -> bool;

    /// Saving and loading cannot fail.
    spec fn reliable(&self) -> bool;

    /// Saves an order under its client order id.
    fn save_order(&mut self, order: &Order) -> (r: Result<(), DatabaseError>)
        requires
            old(self).ok(),
        ensures
            final(self).ok(),
            final(self).reliable() == old(self).reliable(),
            old(self).reliable() ==> r is Ok,
            r is Ok ==> final(self).stored() == (Stored {
                orders: old(self).stored().orders.insert(order.client_order_id@, *order),
                ..old(self).stored()
            }),
    ;

    /// All orders.
    fn load_orders(&self) -> (r: Result<NameMap<Order>, DatabaseError>)
        requires
            self.ok(),
        ensures
            self.reliable() ==> r is Ok,
            r matches Ok(m) ==> m.wf() && m@ == self.stored().orders && orders_keyed(m@),
    ;

    /// Saves a position under its position id.
    fn save_position(&mut self, position: &Position) -> (r: Result<(), DatabaseError>)
        requires
            old(self).ok(),
        ensures
            final(self).ok(),
            final(self).reliable() == old(self).reliable(),
            old(self).reliable() ==> r is Ok,
            r is Ok ==> final(self).stored() == (Stored {
                positions: old(self).stored().positions.insert(position.position_id@, *position),
                ..old(self).stored()
            }),
    ;

    /// All positions.
    fn load_positions(&self) -> (r: Result<NameMap<Position>, DatabaseError>)
        requires
            self.ok(),
        ensures
            self.reliable() ==> r is Ok,
            r matches Ok(m) ==> m.wf() && m@ == self.stored().positions && positions_keyed(m@),
    ;

    /// Saves an account under its id.
    fn save_account(&mut self, account: &Account) -> (r: Result<(), DatabaseError>)
        requires
            old(self).ok(),
            account.valid(),
        ensures
            final(self).ok(),
            final(self).reliable() == old(self).reliable(),
            old(self).reliable() ==> r is Ok,
            r is Ok ==> final(self).stored() == (Stored {
                accounts: old(self).stored().accounts.insert(account.id@, account@),
                ..old(self).stored()
            }),
    ;

    /// All accounts.
    fn load_accounts(&self) -> (r: Result<NameMap<Account>, DatabaseError>)
        requires
            self.ok(),
        ensures
            self.reliable() ==> r is Ok,
            r matches Ok(m) ==> m.wf() && name_map::all_valid(m@) && name_map::views(m@)
                == self.stored().accounts && accounts_keyed(self.stored().accounts),
    ;

    /// Adds a snapshot to the equity curve.
    fn save_equity_curve(&mut self, snapshot: &CacheSnapshot) -> (r: Result<(), DatabaseError>)
        requires
            old(self).ok(),
            snapshot.valid(),
        ensures
            final(self).ok(),
            final(self).reliable() == old(self).reliable(),
            old(self).reliable() ==> r is Ok,
            r is Ok ==> final(self).stored() == (Stored {
                curve: old(self).stored().curve.push(snapshot@),
                ..old(self).stored()
            }),
    ;

    /// The snapshots of the equity curve, in the order in which they were saved.
    fn load_equity_curve(&self) -> (r: Result<Vec<CacheSnapshot>, DatabaseError>)
        requires
            self.ok(),
        ensures
            self.reliable() ==> r is Ok,
            r matches Ok(v) ==> Seq::new(v@.len(), |i: int| v@[i]@) == self.stored().curve
                && forall|i: int| 0 <= i < v@.len() ==> (#[trigger] v@[i]).valid(),
    ;

    /// Saves the time of the last heartbeat.
    fn save_heartbeat(&mut self, ts_ns: u64) -> (r: Result<(), DatabaseError>)
        requires
            old(self).ok(),
        ensures
            final(self).ok(),
            final(self).reliable() == old(self).reliable(),
            old(self).reliable() ==> r is Ok,
            r is Ok ==> final(self).stored() == (Stored {
                heartbeat: Some(ts_ns),
                ..old(self).stored()
            }),
    ;

    /// The time of the last heartbeat.
    fn load_heartbeat(&self) -> (r: Result<Option<u64>, DatabaseError>)
        requires
            self.ok(),
        ensures
            self.reliable() ==> r is Ok,
            r matches Ok(h) ==> h == self.stored().heartbeat,
    ;

    /// Instruments are not kept.
    fn save_instrument(&mut self, instrument_id: &str, data: &[u8]) -> (r: Result<
        (),
        DatabaseError,
    >)
        default_ensures
            *final(self) == *old(self),
            r is Ok,
    {
        Ok(())
    }

    /// Instruments are not kept.
    fn load_instrument(&self, instrument_id: &str) -> (r: Result<Option<Vec<u8>>, DatabaseError>)
        default_ensures
            r == Ok::<Option<Vec<u8>>, DatabaseError>(None),
    {
        Ok(None)
    }

    /// States of strategies are not kept.
    fn save_strategy_state(&mut self, strategy_id: &str, state: &[u8]) -> (r: Result<
        (),
        DatabaseError,
    >)
        default_ensures
            *final(self) == *old(self),
            r is Ok,
    {
        Ok(())
    }

    /// States of strategies are not kept.
    fn load_strategy_state(&self, strategy_id: &str) -> (r: Result<Option<Vec<u8>>, DatabaseError>)
        default_ensures
            r == Ok::<Option<Vec<u8>>, DatabaseError>(None),
    {
        Ok(None)
    }

    /// Writes out what is buffered.
    fn flush(&mut self) -> (r: Result<(), DatabaseError>)
        requires
            old(self).ok(),
        ensures
            final(self).ok(),
            final(self).reliable() == old(self).reliable(),
            old(self).reliable() ==> r is Ok,
            final(self).stored() == old(self).stored(),
    ;

    /// Closes the database.
    fn close(&mut self) -> (r: Result<(), DatabaseError>)
        requires
            old(self).ok(),
        ensures
            final(self).stored() == old(self).stored(),
            old(self).reliable() ==> r is Ok,
    ;
}

/// A database in memory.
#[derive(Debug)]
pub struct MemoryDatabase {
    orders: NameMap<Order>,
    positions: NameMap<Position>,
    accounts: NameMap<Account>,
    equity_curves: Vec<CacheSnapshot>,
    heartbeat: Option<u64>,
}

impl MemoryDatabase {
    /// What the database holds.
    pub closed spec fn contents(&self) -> Stored {
        Stored {
            orders: self.orders@,
            positions: self.positions@,
            accounts: name_map::views(self.accounts@),
            curve: Seq::new(self.equity_curves@.len(), |i: int| self.equity_curves@[i]@),
            heartbeat: self.heartbeat,
        }
    }

    /// The parts are in order.
    pub closed spec fn wf(&self) -> bool {
        &&& self.orders.wf()
        &&& orders_keyed(self.orders@)
        &&& self.positions.wf()
        &&& positions_keyed(self.positions@)
        &&& self.accounts.wf()
        &&& name_map::all_valid(self.accounts@)
        &&& accounts_keyed(name_map::views(self.accounts@))
        &&& forall|i: int|
            0 <= i < self.equity_curves@.len() ==> (#[trigger] self.equity_curves@[i]).valid()
    }

    /// An empty database.
    pub fn new() -> (r: Self)
        ensures
            r.wf(),
            r.contents() == (Stored {
                orders: Map::empty(),
                positions: Map::empty(),
                accounts: Map::empty(),
                curve: seq![],
                heartbeat: None,
            }),
    {
        let r = MemoryDatabase {
            orders: NameMap::new(),
            positions: NameMap::new(),
            accounts: NameMap::new(),
            equity_curves: Vec::new(),
            heartbeat: None,
        };
        assert(r.contents().accounts =~= Map::empty());
        assert(r.contents().curve =~= seq![]);
        r
    }
}

impl Default for MemoryDatabase {
    fn default() -> (r: Self)
        ensures
            r.wf(),
            r.contents().orders == Map::<Seq<char>, Order>::empty(),
            r.contents().positions == Map::<Seq<char>, Position>::empty(),
            r.contents().accounts == Map::<Seq<char>, AccountView>::empty(),
            r.contents().curve == Seq::<SnapshotView>::empty(),
            r.contents().heartbeat is None,
    {
        MemoryDatabase::new()
    }
}

impl Database for MemoryDatabase {
    open spec fn stored(&self) -> Stored {
        self.contents()
    }

    open spec fn ok(&self) -> bool {
        self.wf()
    }

    open spec fn reliable(&self) -> bool {
        true
    }

    fn save_order(&mut self, order: &Order) -> (r: Result<(), DatabaseError>) {
        self.orders.insert(order.client_order_id.as_str(), order.clone());
        Ok(())
    }

    fn load_orders(&self) -> (r: Result<NameMap<Order>, DatabaseError>) {
        let m = self.orders.copied();
        assert(m@ =~= self.orders@) by {
            assert(name_map::views(m@) =~= m@);
            assert(name_map::views(self.orders@) =~= self.orders@);
        }
        Ok(m)
    }

    fn save_position(&mut self, position: &Position) -> (r: Result<(), DatabaseError>) {
        self.positions.insert(position.position_id.as_str(), position.clone());
        Ok(())
    }

    fn load_positions(&self) -> (r: Result<NameMap<Position>, DatabaseError>) {
        let m = self.positions.copied();
        assert(m@ =~= self.positions@) by {
            assert(name_map::views(m@) =~= m@);
            assert(name_map::views(self.positions@) =~= self.positions@);
        }
        Ok(m)
    }

    fn save_account(&mut self, account: &Account) -> (r: Result<(), DatabaseError>) {
        self.accounts.insert(account.id.as_str(), account.copied());
        assert(self.contents().accounts =~= old(self).contents().accounts.insert(
            account.id@,
            account@,
        ));
        Ok(())
    }

    fn load_accounts(&self) -> (r: Result<NameMap<Account>, DatabaseError>) {
        Ok(self.accounts.copied())
    }

    fn save_equity_curve(&mut self, snapshot: &CacheSnapshot) -> (r: Result<(), DatabaseError>) {
        self.equity_curves.push(snapshot.copied());
        assert(self.contents().curve =~= old(self).contents().curve.push(snapshot@));
        Ok(())
    }

    fn load_equity_curve(&self) -> (r: Result<Vec<CacheSnapshot>, DatabaseError>) {
        let mut v: Vec<CacheSnapshot> = Vec::new();
        let mut i: usize = 0;
        while i < self.equity_curves.len()
            invariant
                self.wf(),
                i <= self.equity_curves@.len(),
                v@.len() == i,
                forall|j: int| 0 <= j < i ==> (#[trigger] v@[j])@ == self.equity_curves@[j]@,
                forall|j: int| 0 <= j < i ==> (#[trigger] v@[j]).valid(),
            decreases self.equity_curves@.len() - i,
        {
            v.push(self.equity_curves[i].copied());
            i = i + 1;
        }
        assert(Seq::new(v@.len(), |i: int| v@[i]@) =~= self.stored().curve);
        Ok(v)
    }

    fn save_heartbeat(&mut self, ts_ns: u64) -> (r: Result<(), DatabaseError>) {
        self.heartbeat = Some(ts_ns);
        Ok(())
    }

    fn load_heartbeat(&self) -> (r: Result<Option<u64>, DatabaseError>) {
        Ok(self.heartbeat)
    }

    fn flush(&mut self) -> (r: Result<(), DatabaseError>) {
        Ok(())
    }

    fn close(&mut self) -> (r: Result<(), DatabaseError>) {
        Ok(())
    }
}

} // verus!
