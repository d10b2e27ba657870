//! Orders, positions and accounts.

use crate::instrument::InstrumentId;
use crate::name_map;
use crate::name_map::Copied;
use crate::name_map::NameMap;
use vstd::prelude::*;

verus! {

/// Side of an order.
#[derive(Debug, Clone, Copy, PartialEq, Eq, Structural)]
pub enum OrderSide {
    Buy,
    Sell,
}

/// Kind of an order.
#[derive(Debug, Clone, Copy, PartialEq, Eq, Structural)]
pub enum OrderType {
    Market,
    Limit,
}

/// An order. Prices and sizes are in nanounits.
#[derive(Debug)]
pub struct Order {
    pub id: u64,
    pub client_order_id: String,
    pub strategy_id: String,
    pub instrument_id: InstrumentId,
    pub venue: String,
    pub side: OrderSide,
    pub order_type: OrderType,
    pub price: i64,
    pub size: i64,
    pub sl: Option<i64>,
    pub tp: Option<i64>,
    pub filled: bool,
}

impl Order {
    /// An order that is not filled.
    pub fn new(
        id: u64,
        client_order_id: String,
        strategy_id: String,
        instrument_id: InstrumentId,
        venue: String,
        side: OrderSide,
        order_type: OrderType,
        price: i64,
        size: i64,
        sl: Option<i64>,
        tp: Option<i64>,
    ) -> (r: Self)
        ensures
            r == (Order {
                id,
                client_order_id,
                strategy_id,
                instrument_id,
                venue,
                side,
                order_type,
                price,
                size,
                sl,
                tp,
                filled: false,
            }),
    {
        Order {
            id,
            client_order_id,
            strategy_id,
            instrument_id,
            venue,
            side,
            order_type,
            price,
            size,
            sl,
            tp,
            filled: false,
        }
    }
}

impl View for Order {
    type V = Order;

    open spec fn view(&self) -> Order {
        *self
    }
}

impl Clone for Order {
    fn clone(&self) -> (r: Self)
        ensures
            r == *self,
    {
        Order {
            id: self.id,
            client_order_id: self.client_order_id.clone(),
            strategy_id: self.strategy_id.clone(),
            instrument_id: self.instrument_id.clone(),
            venue: self.venue.clone(),
            side: self.side,
            order_type: self.order_type,
            price: self.price,
            size: self.size,
            sl: self.sl,
            tp: self.tp,
            filled: self.filled,
        }
    }
}

impl Copied for Order {
    open spec fn valid(&self) -> bool {
        true
    }

    fn copied(&self) -> (r: Self) {
        self.clone()
    }
}

/// State of an order at the venue.
#[derive(Debug, Clone, Copy, PartialEq, Eq, Structural)]
pub enum OrderState {
    Pending,
    Accepted,
    PartiallyFilled,
    Filled,
    Cancelled,
    Rejected,
}

impl OrderState {
    /// Nothing more happens to the order.
    pub open spec fn terminal(self) -> bool {
        self is Filled || self is Cancelled || self is Rejected
    }

    /// Nothing more happens to the order.
    pub fn is_terminal(&self) -> (r: bool)
        ensures
            r == self.terminal(),
    {
        match self {
            OrderState::Pending | OrderState::Accepted | OrderState::PartiallyFilled => false,
            OrderState::Filled | OrderState::Cancelled | OrderState::Rejected => true,
        }
    }
}

/// An order that is followed at the venue.
#[derive(Debug)]
pub struct OmsOrder {
    pub client_order_id: String,
    pub strategy_id: String,
    /// Instrument as `SYMBOL.EXCHANGE`.
    pub instrument_id: String,
    /// Number that the venue gave the order.
    pub venue_order_id: Option<String>,
    pub state: OrderState,
}

/// A position. Quantity and price are in nanounits.
#[derive(Debug)]
pub struct Position {
    pub position_id: String,
    pub instrument_id: InstrumentId,
    pub strategy_id: String,
    pub venue: String,
    pub side: OrderSide,
    pub quantity: i64,
    pub entry_price: i64,
    pub opened_ns: u64,
}

impl Position {
    /// A position.
    pub fn new(
        position_id: String,
        instrument_id: InstrumentId,
        strategy_id: String,
        venue: String,
        side: OrderSide,
        quantity: i64,
        entry_price: i64,
        opened_ns: u64,
    ) -> (r: Self)
        ensures
            r == (Position {
                position_id,
                instrument_id,
                strategy_id,
                venue,
                side,
                quantity,
                entry_price,
                opened_ns,
            }),
    {
        Position {
            position_id,
            instrument_id,
            strategy_id,
            venue,
            side,
            quantity,
            entry_price,
            opened_ns,
        }
    }
}

impl View for Position {
    type V = Position;

    open spec fn view(&self) -> Position {
        *self
    }
}

impl Clone for Position {
    fn clone(&self) -> (r: Self)
        ensures
            r == *self,
    {
        Position {
            position_id: self.position_id.clone(),
            instrument_id: self.instrument_id.clone(),
            strategy_id: self.strategy_id.clone(),
            venue: self.venue.clone(),
            side: self.side,
            quantity: self.quantity,
            entry_price: self.entry_price,
            opened_ns: self.opened_ns,
        }
    }
}

impl Copied for Position {
    open spec fn valid(&self) -> bool {
        true
    }

    fn copied(&self) -> (r: Self) {
        self.clone()
    }
}

/// A name as a value.
#[derive(Debug)]
pub struct Name {
    pub text: String,
}

impl View for Name {
    type V = Seq<char>;

    open spec fn view(&self) -> Seq<char> {
        self.text@
    }
}

impl Copied for Name {
    open spec fn valid(&self) -> bool {
        true
    }

    fn copied(&self) -> (r: Self) {
        Name { text: self.text.clone() }
    }
}

/// An account. The equity is in nanounits.
#[derive(Debug)]
pub struct Account {
    pub id: String,
    pub equity: i64,
    /// Accounts by venue.
    pub venue_accounts: NameMap<Name>,
}

/// What an account says.
pub struct AccountView {
    pub id: Seq<char>,
    pub equity: i64,
    pub venue_accounts: Map<Seq<char>, Seq<char>>,
}

impl View for Account {
    type V = AccountView;

    open spec fn view(&self) -> AccountView {
        AccountView {
            id: self.id@,
            equity: self.equity,
            venue_accounts: name_map::views(self.venue_accounts@),
        }
    }
}

impl Account {
    /// An account without venues.
    pub fn new(id: &str, equity: i64) -> (r: Self)
        ensures
            r.valid(),
            r@ == (AccountView { id: id@, equity, venue_accounts: Map::empty() }),
    {
        let r = Account { id: id.to_owned(), equity, venue_accounts: NameMap::new() };
        assert(r@.venue_accounts =~= Map::empty());
        r
    }

    /// Names the account at a venue.
    pub fn add_venue_account(&mut self, venue: &str, account_id: &str)
        requires
            old(self).valid(),
        ensures
            final(self).valid(),
            final(self)@ == (AccountView {
                venue_accounts: old(self)@.venue_accounts.insert(venue@, account_id@),
                ..old(self)@
            }),
    {
        self.venue_accounts.insert(venue, Name { text: account_id.to_owned() });
        assert(self@.venue_accounts =~= old(self)@.venue_accounts.insert(venue@, account_id@));
    }
}

impl Copied for Account {
    open spec fn valid(&self) -> bool {
        self.venue_accounts.wf()
    }

    fn copied(&self) -> (r: Self) {
        let venue_accounts = self.venue_accounts.copied();
        Account { id: self.id.clone(), equity: self.equity, venue_accounts }
    }
}

/// An order is at its end when it was filled as a whole, cancelled or rejected, and never before.
pub proof fn only_ends_are_terminal(s: OrderState)
    ensures
        s is Filled || s is Cancelled || s is Rejected ==> s.terminal(),
        s is Pending || s is Accepted || s is PartiallyFilled ==> !s.terminal(),
{
}

} // verus!
