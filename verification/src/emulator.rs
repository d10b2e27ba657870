//! Simulator of limit order queues: orders wait at their price in the order of submission.

use crate::book;
use crate::book::{LevelFill, OrderBook, OrderId, Side};
use crate::level_map;
use crate::level_map::LevelMap;
use vstd::prelude::*;

verus! {

/// The last queue position that is filled at average volume: the probability of a fill,
/// `1 / (1 + position / 10)`, is at least one half up to here.
pub const LAST_FILLED_POSITION: u64 = 10;

/// A limit order that waits.
#[derive(Debug, Clone, Copy, PartialEq, Eq, Structural)]
pub struct QueuedOrder {
    pub order_id: OrderId,
    pub side: Side,
    pub price_int: i64,
    pub size: i64,
    pub remaining_size: i64,
    pub submitted_ns: u64,
    /// Orders that stood at the price when this one was submitted.
    pub queue_position: u64,
}

/// A fill, at the price before any impact of the order.
#[derive(Debug, Clone, Copy, PartialEq, Eq, Structural)]
pub struct FillEvent {
    pub order_id: OrderId,
    pub side: Side,
    pub fill_price: i64,
    pub fill_size: i64,
    pub remaining_size: i64,
    pub queue_position: u64,
    pub timestamp_ns: u64,
    pub is_maker: bool,
}

/// The orders at one price.
#[derive(Debug)]
pub struct QueueLevel {
    /// Orders in the order of submission.
    pub orders: Vec<OrderId>,
    /// Time of the first order since the level was last empty.
    pub timestamp_ns: u64,
    /// Orders that were ever submitted here.
    pub order_count: u64,
}

impl QueueLevel {
    fn new() -> (r: Self)
        ensures
            r.orders@ == Seq::<u64>::empty(),
            r.timestamp_ns == u64::MAX,
            r.order_count == 0,
    {
        QueueLevel { orders: Vec::new(), timestamp_ns: u64::MAX, order_count: 0 }
    }

    fn push(&mut self, order_id: OrderId, timestamp_ns: u64)
        requires
            old(self).order_count < u64::MAX,
        ensures
            final(self).orders@ == old(self).orders@.push(order_id),
            final(self).timestamp_ns == (if old(self).orders@.len() == 0 {
                timestamp_ns
            } else {
                old(self).timestamp_ns
            }),
            final(self).order_count == old(self).order_count + 1,
    {
        if self.orders.len() == 0 {
            self.timestamp_ns = timestamp_ns;
        }
        self.orders.push(order_id);
        self.order_count = self.order_count + 1;
    }
}

/// The ids of `s` that are not among `gone`.
pub open spec fn without(s: Seq<u64>, gone: Seq<u64>) -> Seq<u64> {
    s.filter(|id: u64| !gone.contains(id))
}

fn holds(ids: &Vec<u64>, id: u64) -> (r: bool)
    ensures
        r == ids@.contains(id),
{
    let mut i: usize = 0;
    while i < ids.len()
        invariant
            i <= ids@.len(),
            forall|j: int| 0 <= j < i ==> ids@[j] != id,
        decreases ids@.len() - i,
    {
        if ids[i] == id {
            assert(ids@[i as int] == id);
            return true;
        }
        i = i + 1;
    }
    false
}

fn drop_ids(v: &Vec<u64>, gone: &Vec<u64>) -> (r: Vec<u64>)
    ensures
        r@ == without(v@, gone@),
{
    let mut r: Vec<u64> = Vec::new();
    let mut i: usize = 0;
    let ghost keep = |id: u64| !gone@.contains(id);
    assert(v@.take(0) =~= Seq::<u64>::empty());
    assert(v@.take(0).filter(keep) =~= Seq::<u64>::empty()) by {
        reveal(Seq::filter);
    }
    while i < v.len()
        invariant
            i <= v@.len(),
            keep == (|id: u64| !gone@.contains(id)),
            r@ == v@.take(i as int).filter(keep),
        decreases v@.len() - i,
    {
        assert(v@.take(i + 1) =~= v@.take(i as int).push(v@[i as int]));
        proof {
            v@.take(i as int).lemma_filter_push(v@[i as int], keep);
        }
        if !holds(gone, v[i]) {
            r.push(v[i]);
        }
        i = i + 1;
    }
    assert(v@.take(v@.len() as int) =~= v@);
    r
}

/// The orders that wait at a price.
pub open spec fn ids_at(m: Map<i64, QueueLevel>, price: i64) -> Seq<u64> {
    if m.dom().contains(price) {
        m[price].orders@
    } else {
        seq![]
    }
}

/// Levels with the ids of `gone` dropped everywhere.
fn drop_everywhere(m: &LevelMap<QueueLevel>, gone: &Vec<u64>) -> (r: LevelMap<QueueLevel>)
    requires
        m.wf(),
    ensures
        r.wf(),
        r@.dom() == m@.dom(),
        forall|p: i64| #[trigger]
            r@.dom().contains(p) ==> r@[p].orders@ == without(m@[p].orders@, gone@)
                && r@[p].timestamp_ns == m@[p].timestamp_ns && r@[p].order_count
                == m@[p].order_count,
{
    let mut r: LevelMap<QueueLevel> = LevelMap::new();
    let mut i: usize = 0;
    let ghost s = m.listing();
    proof {
        level_map::map_of_lists(s);
    }
    while i < m.len()
        invariant
            i <= s.len(),
            s == m.listing(),
            m.wf(),
            r.wf(),
            forall|j: int|
                0 <= j < s.len() ==> m@.dom().contains((#[trigger] s[j]).0) && m@[s[j].0]
                    == s[j].1,
            forall|p: i64| #[trigger]
                r@.dom().contains(p) ==> exists|j: int| 0 <= j < i && (#[trigger] s[j]).0 == p,
            forall|j: int| 0 <= j < i ==> r@.dom().contains((#[trigger] s[j]).0),
            forall|p: i64| #[trigger]
                r@.dom().contains(p) ==> r@[p].orders@ == without(m@[p].orders@, gone@)
                    && r@[p].timestamp_ns == m@[p].timestamp_ns && r@[p].order_count
                    == m@[p].order_count,
        decreases s.len() - i,
    {
        let price: i64 = m.key_at(i);
        let level = m.value_at(i);
        assert(s[i as int].0 == price);
        let kept = QueueLevel {
            orders: drop_ids(&level.orders, gone),
            timestamp_ns: level.timestamp_ns,
            order_count: level.order_count,
        };
        let ghost before = r@;
        r.insert(price, kept);
        assert forall|p: i64| #[trigger] r@.dom().contains(p) implies exists|j: int|
            0 <= j < i + 1 && (#[trigger] s[j]).0 == p by {
            if p == price {
                assert(s[i as int].0 == p);
            } else {
                assert(before.dom().contains(p));
            }
        }
        i = i + 1;
    }
    assert(r@.dom() =~= m@.dom());
    r
}

/// The market is at or better than the limit of an order: at or below it for a buy, at or above
/// it for a sell.
pub open spec fn crossed(o: QueuedOrder, price: i64) -> bool {
    match o.side {
        Side::Buy => price <= o.price_int,
        Side::Sell => price >= o.price_int,
    }
}

/// The order is filled at a market price.
pub open spec fn fills_at(o: QueuedOrder, price: i64) -> bool {
    crossed(o, price) && o.queue_position <= LAST_FILLED_POSITION
}

/// The fill of a waiting order: all that is left of it, as a maker.
pub open spec fn maker_fill(o: QueuedOrder, price: i64, timestamp_ns: u64) -> FillEvent {
    FillEvent {
        order_id: o.order_id,
        side: o.side,
        fill_price: price,
        fill_size: o.remaining_size,
        remaining_size: 0,
        queue_position: o.queue_position,
        timestamp_ns,
        is_maker: true,
    }
}

/// The fill of a level by a market order, as a taker.
pub open spec fn taker_fill(
    f: LevelFill,
    order_id: int,
    side: Side,
    timestamp_ns: u64,
) -> FillEvent {
    FillEvent {
        order_id: order_id as u64,
        side,
        fill_price: f.price_int,
        fill_size: f.size_filled,
        remaining_size: f.remaining_at_level,
        queue_position: 0,
        timestamp_ns,
        is_maker: false,
    }
}

/// The fill of a market order at the market price: all of it, as a taker.
pub open spec fn market_fill(o: QueuedOrder, price: i64, timestamp_ns: u64) -> FillEvent {
    FillEvent {
        order_id: o.order_id,
        side: o.side,
        fill_price: price,
        fill_size: o.remaining_size,
        remaining_size: 0,
        queue_position: 0,
        timestamp_ns,
        is_maker: false,
    }
}

/// The fills of market orders.
pub open spec fn market_fills(
    orders: Seq<QueuedOrder>,
    price: i64,
    timestamp_ns: u64,
) -> Seq<FillEvent> {
    Seq::new(orders.len(), |i: int| market_fill(orders[i], price, timestamp_ns))
}

/// The orders that are filled at a price.
pub open spec fn filled_orders(pending: Seq<QueuedOrder>, price: i64) -> Seq<QueuedOrder> {
    pending.filter(|o: QueuedOrder| fills_at(o, price))
}

/// The orders that go on waiting at a price.
pub open spec fn kept_orders(pending: Seq<QueuedOrder>, price: i64) -> Seq<QueuedOrder> {
    pending.filter(|o: QueuedOrder| !fills_at(o, price))
}

/// The fills of orders.
pub open spec fn maker_fills(
    orders: Seq<QueuedOrder>,
    price: i64,
    timestamp_ns: u64,
) -> Seq<FillEvent> {
    Seq::new(orders.len(), |i: int| maker_fill(orders[i], price, timestamp_ns))
}

/// The numbers of orders.
pub open spec fn order_ids(orders: Seq<QueuedOrder>) -> Seq<u64> {
    Seq::new(orders.len(), |i: int| orders[i].order_id)
}

/// The fills of a market order, numbered from `first` on.
pub open spec fn taker_fills(
    levels: Seq<LevelFill>,
    first: int,
    side: Side,
    timestamp_ns: u64,
) -> Seq<FillEvent> {
    Seq::new(levels.len(), |i: int| taker_fill(levels[i], first + i, side, timestamp_ns))
}

/// Limit orders that wait in queues, and a log of fills.
#[derive(Debug)]
pub struct OrderEmulator {
    pub bid_queues: LevelMap<QueueLevel>,
    pub ask_queues: LevelMap<QueueLevel>,
    pub pending: Vec<QueuedOrder>,
    /// Market orders: they do not wait, and are filled at the next market price.
    pub market: Vec<QueuedOrder>,
    pub filled_log: Vec<FillEvent>,
    pub next_order_id: OrderId,
}

/// The order with a number waits.
pub open spec fn waits(pending: Seq<QueuedOrder>, id: u64) -> bool {
    exists|i: int| 0 <= i < pending.len() && (#[trigger] pending[i]).order_id == id
}

/// A waiting order of this number, side and price.
pub open spec fn waits_at(pending: Seq<QueuedOrder>, id: u64, side: Side, price: i64) -> bool {
    exists|i: int|
        0 <= i < pending.len() && (#[trigger] pending[i]).order_id == id && pending[i].side == side
            && pending[i].price_int == price
}

impl OrderEmulator {
    /// The queues of a side.
    pub open spec fn queues(self, side: Side) -> LevelMap<QueueLevel> {
        match side {
            Side::Buy => self.bid_queues,
            Side::Sell => self.ask_queues,
        }
    }

    /// The orders in the queue of a side and price.
    pub open spec fn queue(self, side: Side, price: i64) -> Seq<u64> {
        ids_at(self.queues(side)@, price)
    }

    /// The limit order that joins a queue next: behind all that wait there.
    pub open spec fn joining(
        self,
        price_int: i64,
        size: i64,
        side: Side,
        timestamp_ns: u64,
    ) -> QueuedOrder {
        QueuedOrder {
            order_id: self.next_order_id,
            side,
            price_int,
            size,
            remaining_size: size,
            submitted_ns: timestamp_ns,
            queue_position: self.queue(side, price_int).len() as u64,
        }
    }

    /// Each number is given once; each order in a queue waits at the queue's side and price.
    pub open spec fn wf(self) -> bool {
        &&& self.bid_queues.wf()
        &&& self.ask_queues.wf()
        &&& self.next_order_id > 0
        &&& forall|i: int|
            0 <= i < self.pending@.len() ==> (#[trigger] self.pending@[i]).order_id
                < self.next_order_id
        &&& forall|i: int, j: int|
            0 <= i < j < self.pending@.len() ==> (#[trigger] self.pending@[i]).order_id < (
            #[trigger] self.pending@[j]).order_id
        &&& forall|s: Side, p: i64, k: int|
            0 <= k < self.queue(s, p).len() ==> #[trigger] waits_at(
                self.pending@,
                self.queue(s, p)[k],
                s,
                p,
            )
        &&& forall|s: Side, p: i64| #[trigger]
            self.queues(s)@.dom().contains(p) ==> self.queues(s)@[p].order_count
                < self.next_order_id
    }

    /// No orders and no fills; the first order is number 1.
    pub fn new() -> (r: Self)
        ensures
            r.wf(),
            r.pending@ == Seq::<QueuedOrder>::empty(),
            r.market@ == Seq::<QueuedOrder>::empty(),
            r.filled_log@ == Seq::<FillEvent>::empty(),
            r.next_order_id == 1,
            forall|s: Side, p: i64| #[trigger] r.queue(s, p) == Seq::<u64>::empty(),
    {
        OrderEmulator {
            bid_queues: LevelMap::new(),
            ask_queues: LevelMap::new(),
            pending: Vec::new(),
            market: Vec::new(),
            filled_log: Vec::new(),
            next_order_id: 1,
        }
    }

    fn enqueue(queues: &mut LevelMap<QueueLevel>, price: i64, order_id: u64, timestamp_ns: u64) -> (r:
        u64)
        requires
            old(queues).wf(),
            old(queues)@.dom().contains(price) ==> old(queues)@[price].order_count < u64::MAX,
        ensures
            final(queues).wf(),
            r == ids_at(old(queues)@, price).len(),
            forall|p: i64| #[trigger]
                ids_at(final(queues)@, p) == if p == price {
                    ids_at(old(queues)@, p).push(order_id)
                } else {
                    ids_at(old(queues)@, p)
                },
            final(queues)@.dom() == old(queues)@.dom().insert(price),
            forall|p: i64|
                p != price && #[trigger] final(queues)@.dom().contains(p) ==> final(queues)@[p]
                    == old(queues)@[p],
            final(queues)@[price].order_count == (if old(queues)@.dom().contains(price) {
                old(queues)@[price].order_count + 1
            } else {
                1
            }),
    {
        let mut level = match queues.remove(price) {
            Some(l) => l,
            None => QueueLevel::new(),
        };
        let pos: u64 = level.orders.len() as u64;
        level.push(order_id, timestamp_ns);
        queues.insert(price, level);
        assert(queues@.dom() =~= old(queues)@.dom().insert(price));
        pos
    }

    /// Puts a limit order behind the others at its price; gives its number.
    pub fn submit_limit(&mut self, price_int: i64, size: i64, side: Side, timestamp_ns: u64) -> (r:
        OrderId)
        requires
            old(self).wf(),
            old(self).next_order_id < u64::MAX,
        ensures
            final(self).wf(),
            r == old(self).next_order_id,
            final(self).next_order_id == old(self).next_order_id + 1,
            final(self).filled_log == old(self).filled_log,
            final(self).market == old(self).market,
            final(self).pending@ == old(self).pending@.push(
                old(self).joining(price_int, size, side, timestamp_ns),
            ),
            forall|s: Side, p: i64| #[trigger]
                final(self).queue(s, p) == if s == side && p == price_int {
                    old(self).queue(s, p).push(r)
                } else {
                    old(self).queue(s, p)
                },
    {
        let order_id: u64 = self.next_order_id;
        assert(self.queues(side)@.dom().contains(price_int) ==> self.queues(
            side,
        )@[price_int].order_count < self.next_order_id);
        let queue_position: u64 = match side {
            Side::Buy => OrderEmulator::enqueue(
                &mut self.bid_queues,
                price_int,
                order_id,
                timestamp_ns,
            ),
            Side::Sell => OrderEmulator::enqueue(
                &mut self.ask_queues,
                price_int,
                order_id,
                timestamp_ns,
            ),
        };
        self.next_order_id = self.next_order_id + 1;
        self.pending.push(
            QueuedOrder {
                order_id,
                side,
                price_int,
                size,
                remaining_size: size,
                submitted_ns: timestamp_ns,
                queue_position,
            },
        );
        proof {
            let n = old(self).pending@.len() as int;
            assert(self.pending@[n].order_id == order_id);
            assert forall|s: Side, p: i64| #[trigger] self.queue(s, p) == if s == side && p
                == price_int {
                old(self).queue(s, p).push(order_id)
            } else {
                old(self).queue(s, p)
            } by {
                if s == side {
                    assert(ids_at(self.queues(s)@, p) == if p == price_int {
                        ids_at(old(self).queues(s)@, p).push(order_id)
                    } else {
                        ids_at(old(self).queues(s)@, p)
                    });
                }
            }
            assert forall|s: Side, p: i64, k: int|
                0 <= k < self.queue(s, p).len() implies #[trigger] waits_at(
                self.pending@,
                self.queue(s, p)[k],
                s,
                p,
            ) by {
                let id = self.queue(s, p)[k];
                if k < old(self).queue(s, p).len() {
                    assert(waits_at(old(self).pending@, old(self).queue(s, p)[k], s, p));
                    let i = choose|i: int|
                        0 <= i < old(self).pending@.len() && (
                        #[trigger] old(self).pending@[i]).order_id == id && old(
                            self,
                        ).pending@[i].side == s && old(self).pending@[i].price_int == p;
                    assert(self.pending@[i] == old(self).pending@[i]);
                } else {
                    assert(self.pending@[n].side == s && self.pending@[n].price_int == p);
                }
            }
            assert forall|i: int, j: int| 0 <= i < j < self.pending@.len() implies (
            #[trigger] self.pending@[i]).order_id < (#[trigger] self.pending@[j]).order_id by {
                assert(self.pending@[i] == old(self).pending@[i]);
                if j < n {
                    assert(self.pending@[j] == old(self).pending@[j]);
                }
            }
            assert forall|s: Side, p: i64| #[trigger]
                self.queues(s)@.dom().contains(p) implies self.queues(s)@[p].order_count
                < self.next_order_id by {
                if s == side && p == price_int {
                } else {
                    assert(old(self).queues(s)@.dom().contains(p));
                }
            }
        }
        order_id
    }

    /// Takes a market order; gives its number, or 0 for an order without size. It does not wait and
    /// joins no queue: it is filled at once, at the next market price, whatever that is.
    pub fn submit_market(&mut self, size: i64, side: Side, timestamp_ns: u64) -> (r: OrderId)
        requires
            old(self).wf(),
            old(self).next_order_id < u64::MAX,
        ensures
            final(self).wf(),
            final(self).filled_log == old(self).filled_log,
            final(self).pending == old(self).pending,
            forall|s: Side, p: i64| #[trigger] final(self).queue(s, p) == old(self).queue(s, p),
            size <= 0 ==> r == 0 && *final(self) == *old(self),
            size > 0 ==> {
                &&& r == old(self).next_order_id
                &&& final(self).next_order_id == old(self).next_order_id + 1
                &&& final(self).market@ == old(self).market@.push(
                    QueuedOrder {
                        order_id: r,
                        side,
                        price_int: 0,
                        size,
                        remaining_size: size,
                        submitted_ns: timestamp_ns,
                        queue_position: 0,
                    },
                )
            },
    {
        if size <= 0 {
            return 0;
        }
        let order_id: u64 = self.next_order_id;
        self.next_order_id = self.next_order_id + 1;
        self.market.push(
            QueuedOrder {
                order_id,
                side,
                price_int: 0,
                size,
                remaining_size: size,
                submitted_ns: timestamp_ns,
                queue_position: 0,
            },
        );
        proof {
            assert forall|s: Side, p: i64, k: int|
                0 <= k < self.queue(s, p).len() implies #[trigger] waits_at(
                self.pending@,
                self.queue(s, p)[k],
                s,
                p,
            ) by {
                assert(waits_at(old(self).pending@, old(self).queue(s, p)[k], s, p));
            }
            assert forall|s: Side, p: i64| #[trigger]
                self.queues(s)@.dom().contains(p) implies self.queues(s)@[p].order_count
                < self.next_order_id by {
                assert(old(self).queues(s)@.dom().contains(p));
            }
        }
        order_id
    }

    /// The queue position of a waiting order.
    pub fn queue_position(&self, order_id: OrderId) -> (r: Option<u64>)
        requires
            self.wf(),
        ensures
            match r {
                Some(q) => exists|i: int|
                    0 <= i < self.pending@.len() && (#[trigger] self.pending@[i]).order_id
                        == order_id && self.pending@[i].queue_position == q,
                None => !waits(self.pending@, order_id),
            },
    {
        let mut i: usize = 0;
        while i < self.pending.len()
            invariant
                i <= self.pending@.len(),
                forall|j: int| 0 <= j < i ==> (#[trigger] self.pending@[j]).order_id != order_id,
            decreases self.pending@.len() - i,
        {
            if self.pending[i].order_id == order_id {
                assert(self.pending@[i as int].order_id == order_id);
                return Some(self.pending[i].queue_position);
            }
            i = i + 1;
        }
        None
    }

    /// The number of waiting orders.
    pub fn num_pending(&self) -> (r: usize)
        ensures
            r == self.pending@.len(),
    {
        self.pending.len()
    }

    /// The number of fills.
    pub fn num_filled(&self) -> (r: usize)
        ensures
            r == self.filled_log@.len(),
    {
        self.filled_log.len()
    }

    /// All fills.
    pub fn filled_log(&self) -> (r: &[FillEvent])
        ensures
            r@ == self.filled_log@,
    {
        self.filled_log.as_slice()
    }

    /// Fills a market order against a book, one fill for each price; the fills are numbered like
    /// orders. If the order is larger than the book, the rest of it is left in the last fill.
    pub fn process_market_order(
        &mut self,
        size: i64,
        side: Side,
        order_book: &OrderBook,
        timestamp_ns: u64,
    ) -> (r: Vec<FillEvent>)
        requires
            old(self).wf(),
            order_book.wf(),
            book::walk_fits(order_book.facing(side), size as int),
            old(self).next_order_id + order_book.facing(side).len() <= u64::MAX,
        ensures
            final(self).wf(),
            final(self).pending == old(self).pending,
            final(self).market == old(self).market,
            final(self).bid_queues == old(self).bid_queues,
            final(self).ask_queues == old(self).ask_queues,
            r@ == taker_fills(
                book::level_fills(
                    order_book.facing(side),
                    order_book.facing_depths(side),
                    size as int,
                ),
                old(self).next_order_id as int,
                side,
                timestamp_ns,
            ),
            final(self).next_order_id == old(self).next_order_id + r@.len(),
            final(self).filled_log@ == old(self).filled_log@ + r@,
    {
        let levels = order_book.walk_book(size, side);
        proof {
            book::order_takes_best_first(
                order_book.facing(side),
                order_book.facing_depths(side),
                size as int,
            );
        }
        let ghost all = taker_fills(
            levels@,
            self.next_order_id as int,
            side,
            timestamp_ns,
        );
        let mut fills: Vec<FillEvent> = Vec::new();
        let mut i: usize = 0;
        while i < levels.len()
            invariant
                i <= levels@.len(),
                old(self).next_order_id + levels@.len() <= u64::MAX,
                self.next_order_id == old(self).next_order_id + i,
                self.pending == old(self).pending,
                self.market == old(self).market,
                self.bid_queues == old(self).bid_queues,
                self.ask_queues == old(self).ask_queues,
                all == taker_fills(levels@, old(self).next_order_id as int, side, timestamp_ns),
                fills@ == all.take(i as int),
                self.filled_log@ == old(self).filled_log@ + fills@,
            decreases levels@.len() - i,
        {
            let level = &levels[i];
            let order_id: u64 = self.next_order_id;
            self.next_order_id = self.next_order_id + 1;
            let event = FillEvent {
                order_id,
                side,
                fill_price: level.price(),
                fill_size: level.size_filled,
                remaining_size: level.remaining_at_level,
                queue_position: 0,
                timestamp_ns,
                is_maker: false,
            };
            let ghost before = fills@;
            self.filled_log.push(event);
            fills.push(event);
            i = i + 1;
            assert(fills@ =~= all.take(i as int));
            assert(self.filled_log@ =~= old(self).filled_log@ + fills@);
        }
        assert(fills@ =~= all);
        proof {
            assert forall|s: Side, p: i64, k: int|
                0 <= k < self.queue(s, p).len() implies #[trigger] waits_at(
                self.pending@,
                self.queue(s, p)[k],
                s,
                p,
            ) by {
                assert(waits_at(old(self).pending@, old(self).queue(s, p)[k], s, p));
            }
            assert forall|s: Side, p: i64| #[trigger]
                self.queues(s)@.dom().contains(p) implies self.queues(s)@[p].order_count
                < self.next_order_id by {
                assert(old(self).queues(s)@.dom().contains(p));
            }
        }
        fills
    }
}

impl OrderEmulator {
    /// Parts the waiting orders into those filled at a price and the others.
    fn part(&self, price: i64, timestamp_ns: u64) -> (r: (
        Vec<QueuedOrder>,
        Vec<FillEvent>,
        Vec<u64>,
    ))
        requires
            self.wf(),
        ensures
            r.0@ == kept_orders(self.pending@, price),
            r.1@ == maker_fills(filled_orders(self.pending@, price), price, timestamp_ns),
            r.2@ == order_ids(filled_orders(self.pending@, price)),
            forall|i: int, j: int|
                0 <= i < j < r.0@.len() ==> (#[trigger] r.0@[i]).order_id < (
                #[trigger] r.0@[j]).order_id,
            forall|i: int|
                0 <= i < r.0@.len() ==> (#[trigger] r.0@[i]).order_id < self.next_order_id,
            forall|i: int|
                0 <= i < self.pending@.len() ==> r.0@.contains(#[trigger] self.pending@[i])
                    || r.2@.contains(self.pending@[i].order_id),
    {
        let ghost fills = |o: QueuedOrder| fills_at(o, price);
        let ghost keeps = |o: QueuedOrder| !fills_at(o, price);
        let ghost all = self.pending@;
        let mut kept: Vec<QueuedOrder> = Vec::new();
        let mut events: Vec<FillEvent> = Vec::new();
        let mut gone: Vec<u64> = Vec::new();
        let mut i: usize = 0;
        assert(all.take(0) =~= Seq::<QueuedOrder>::empty());
        assert(all.take(0).filter(fills) =~= Seq::<QueuedOrder>::empty()) by {
            reveal(Seq::filter);
        }
        assert(all.take(0).filter(keeps) =~= Seq::<QueuedOrder>::empty()) by {
            reveal(Seq::filter);
        }
        while i < self.pending.len()
            invariant
                i <= all.len(),
                all == self.pending@,
                self.wf(),
                fills == (|o: QueuedOrder| fills_at(o, price)),
                keeps == (|o: QueuedOrder| !fills_at(o, price)),
                kept@ == all.take(i as int).filter(keeps),
                events@ == maker_fills(all.take(i as int).filter(fills), price, timestamp_ns),
                gone@ == order_ids(all.take(i as int).filter(fills)),
                forall|a: int|
                    0 <= a < kept@.len() ==> exists|b: int|
                        0 <= b < i && all[b] == #[trigger] kept@[a],
                forall|a: int, b: int|
                    0 <= a < b < kept@.len() ==> (#[trigger] kept@[a]).order_id < (
                    #[trigger] kept@[b]).order_id,
                forall|a: int|
                    0 <= a < i ==> kept@.contains(#[trigger] all[a]) || gone@.contains(
                        all[a].order_id,
                    ),
            decreases all.len() - i,
        {
            let o: QueuedOrder = self.pending[i];
            let ghost front = all.take(i as int);
            assert(all.take(i + 1) =~= front.push(o));
            proof {
                front.lemma_filter_push(o, fills);
                front.lemma_filter_push(o, keeps);
            }
            let over = match o.side {
                Side::Buy => price <= o.price_int,
                Side::Sell => price >= o.price_int,
            };
            let ghost kept0 = kept@;
            let ghost gone0 = gone@;
            if over && o.queue_position <= LAST_FILLED_POSITION {
                events.push(
                    FillEvent {
                        order_id: o.order_id,
                        side: o.side,
                        fill_price: price,
                        fill_size: o.remaining_size,
                        remaining_size: 0,
                        queue_position: o.queue_position,
                        timestamp_ns,
                        is_maker: true,
                    },
                );
                gone.push(o.order_id);
                assert(events@ =~= maker_fills(
                    all.take(i + 1).filter(fills),
                    price,
                    timestamp_ns,
                ));
                assert(gone@ =~= order_ids(all.take(i + 1).filter(fills)));
                assert(gone@[gone0.len() as int] == o.order_id);
            } else {
                kept.push(o);
                assert(kept@[kept0.len() as int] == o);
                assert forall|a: int, b: int| 0 <= a < b < kept@.len() implies (
                #[trigger] kept@[a]).order_id < (#[trigger] kept@[b]).order_id by {
                    assert(kept@[a] == kept0[a]);
                    if b < kept0.len() {
                        assert(kept@[b] == kept0[b]);
                    } else {
                        let c = choose|c: int| 0 <= c < i && all[c] == kept0[a];
                        assert(all[c].order_id < all[i as int].order_id);
                    }
                }
            }
            assert forall|a: int| 0 <= a < kept@.len() implies exists|b: int|
                0 <= b < i + 1 && all[b] == #[trigger] kept@[a] by {
                if a < kept0.len() {
                    assert(kept@[a] == kept0[a]);
                    let c = choose|c: int| 0 <= c < i && all[c] == kept0[a];
                    assert(all[c] == kept@[a]);
                } else {
                    assert(all[i as int] == kept@[a]);
                }
            }
            assert forall|a: int| 0 <= a < i + 1 implies kept@.contains(#[trigger] all[a])
                || gone@.contains(all[a].order_id) by {
                if a < i {
                    if kept0.contains(all[a]) {
                        let k = choose|k: int| 0 <= k < kept0.len() && kept0[k] == all[a];
                        assert(kept@[k] == all[a]);
                    } else {
                        let k = choose|k: int|
                            0 <= k < gone0.len() && gone0[k] == all[a].order_id;
                        assert(gone@[k] == all[a].order_id);
                    }
                }
            }
            i = i + 1;
        }
        assert(all.take(all.len() as int) =~= all);
        (kept, events, gone)
    }

    /// The fills of the market orders at a price.
    fn market_events(&self, price: i64, timestamp_ns: u64) -> (r: Vec<FillEvent>)
        ensures
            r@ == market_fills(self.market@, price, timestamp_ns),
    {
        let mut r: Vec<FillEvent> = Vec::new();
        let mut i: usize = 0;
        while i < self.market.len()
            invariant
                i <= self.market@.len(),
                r@ == market_fills(self.market@, price, timestamp_ns).take(i as int),
            decreases self.market@.len() - i,
        {
            let o: QueuedOrder = self.market[i];
            r.push(
                FillEvent {
                    order_id: o.order_id,
                    side: o.side,
                    fill_price: price,
                    fill_size: o.remaining_size,
                    remaining_size: 0,
                    queue_position: 0,
                    timestamp_ns,
                    is_maker: false,
                },
            );
            i = i + 1;
            assert(r@ =~= market_fills(self.market@, price, timestamp_ns).take(i as int));
        }
        assert(r@ =~= market_fills(self.market@, price, timestamp_ns));
        r
    }

    /// Fills the market orders at the market price, and behind them the waiting orders that the
    /// price has reached and that stand near enough to the front of their queue; gives the fills,
    /// each kind in the order of submission.
    pub fn process_fills(&mut self, current_price: i64, timestamp_ns: u64) -> (r: Vec<FillEvent>)
        requires
            old(self).wf(),
        ensures
            final(self).wf(),
            final(self).next_order_id == old(self).next_order_id,
            r@ == market_fills(old(self).market@, current_price, timestamp_ns) + maker_fills(
                filled_orders(old(self).pending@, current_price),
                current_price,
                timestamp_ns,
            ),
            final(self).market@.len() == 0,
            final(self).pending@ == kept_orders(old(self).pending@, current_price),
            final(self).filled_log@ == old(self).filled_log@ + r@,
            forall|s: Side, p: i64| #[trigger]
                final(self).queue(s, p) == without(
                    old(self).queue(s, p),
                    order_ids(filled_orders(old(self).pending@, current_price)),
                ),
    {
        let (kept, makers, gone) = self.part(current_price, timestamp_ns);
        let mut events: Vec<FillEvent> = self.market_events(current_price, timestamp_ns);
        let ghost takers = events@;
        let mut k: usize = 0;
        assert(takers + makers@.take(0) =~= takers);
        while k < makers.len()
            invariant
                k <= makers@.len(),
                events@ == takers + makers@.take(k as int),
            decreases makers@.len() - k,
        {
            events.push(makers[k]);
            k = k + 1;
            assert(events@ =~= takers + makers@.take(k as int));
        }
        assert(makers@.take(makers@.len() as int) =~= makers@);
        self.market = Vec::new();
        self.bid_queues = drop_everywhere(&self.bid_queues, &gone);
        self.ask_queues = drop_everywhere(&self.ask_queues, &gone);
        self.pending = kept;
        let mut i: usize = 0;
        assert(events@.take(0) =~= Seq::<FillEvent>::empty());
        assert(self.filled_log@ =~= old(self).filled_log@ + events@.take(0));
        while i < events.len()
            invariant
                i <= events@.len(),
                self.filled_log@ == old(self).filled_log@ + events@.take(i as int),
                self.pending == kept,
                self.market@.len() == 0,
                self.next_order_id == old(self).next_order_id,
                self.bid_queues.wf(),
                self.ask_queues.wf(),
                self.bid_queues@.dom() == old(self).bid_queues@.dom(),
                self.ask_queues@.dom() == old(self).ask_queues@.dom(),
                forall|p: i64| #[trigger]
                    self.bid_queues@.dom().contains(p) ==> self.bid_queues@[p].orders@ == without(
                        old(self).bid_queues@[p].orders@,
                        gone@,
                    ) && self.bid_queues@[p].order_count == old(self).bid_queues@[p].order_count,
                forall|p: i64| #[trigger]
                    self.ask_queues@.dom().contains(p) ==> self.ask_queues@[p].orders@ == without(
                        old(self).ask_queues@[p].orders@,
                        gone@,
                    ) && self.ask_queues@[p].order_count == old(self).ask_queues@[p].order_count,
            decreases events@.len() - i,
        {
            self.filled_log.push(events[i]);
            i = i + 1;
            assert(events@.take(i as int) =~= events@.take(i - 1).push(events@[i - 1]));
            assert(self.filled_log@ =~= old(self).filled_log@ + events@.take(i as int));
        }
        assert(events@.take(events@.len() as int) =~= events@);
        proof {
            let keep = |id: u64| !gone@.contains(id);
            assert forall|s: Side, p: i64| #[trigger] self.queue(s, p) == without(
                old(self).queue(s, p),
                gone@,
            ) by {
                if !self.queues(s)@.dom().contains(p) {
                    assert(without(Seq::<u64>::empty(), gone@) =~= Seq::<u64>::empty()) by {
                        reveal(Seq::filter);
                    }
                    assert(old(self).queue(s, p) =~= Seq::<u64>::empty());
                }
            }
            assert forall|s: Side, p: i64, k: int|
                0 <= k < self.queue(s, p).len() implies #[trigger] waits_at(
                self.pending@,
                self.queue(s, p)[k],
                s,
                p,
            ) by {
                let id = self.queue(s, p)[k];
                let before = old(self).queue(s, p);
                assert(self.queue(s, p) == before.filter(keep));
                before.lemma_filter_pred(keep, k);
                assert(before.filter(keep).contains(id));
                before.lemma_filter_contains_rev(keep, id);
                let q = choose|q: int| 0 <= q < before.len() && before[q] == id;
                assert(waits_at(old(self).pending@, before[q], s, p));
                let i = choose|i: int|
                    0 <= i < old(self).pending@.len() && (
                    #[trigger] old(self).pending@[i]).order_id == id && old(self).pending@[i].side
                        == s && old(self).pending@[i].price_int == p;
                assert(kept@.contains(old(self).pending@[i]));
                let a = choose|a: int| 0 <= a < kept@.len() && kept@[a] == old(self).pending@[i];
                assert(self.pending@[a].order_id == id);
            }
            assert forall|s: Side, p: i64| #[trigger]
                self.queues(s)@.dom().contains(p) implies self.queues(s)@[p].order_count
                < self.next_order_id by {
                assert(old(self).queues(s)@.dom().contains(p));
            }
        }
        events
    }

    /// Takes a waiting order off the list and off its queue; tells whether there was one.
    pub fn cancel_order(&mut self, order_id: OrderId) -> (r: bool)
        requires
            old(self).wf(),
        ensures
            final(self).wf(),
            r == waits(old(self).pending@, order_id),
            final(self).next_order_id == old(self).next_order_id,
            final(self).filled_log == old(self).filled_log,
            final(self).market == old(self).market,
            !r ==> *final(self) == *old(self),
            r ==> exists|i: int|
                0 <= i < old(self).pending@.len() && (#[trigger] old(self).pending@[i]).order_id
                    == order_id && final(self).pending@ == old(self).pending@.remove(i),
            forall|s: Side, p: i64| #[trigger]
                final(self).queue(s, p) == without(old(self).queue(s, p), seq![order_id]),
    {
        let mut pos: usize = 0;
        while pos < self.pending.len() && self.pending[pos].order_id != order_id
            invariant
                pos <= self.pending@.len(),
                forall|j: int| 0 <= j < pos ==> (#[trigger] self.pending@[j]).order_id != order_id,
            decreases self.pending@.len() - pos,
        {
            pos = pos + 1;
        }
        let ghost keep = |id: u64| !seq![order_id].contains(id);
        if pos == self.pending.len() {
            proof {
                assert(!waits(self.pending@, order_id));
                assert forall|s: Side, p: i64| #[trigger] self.queue(s, p) == without(
                    self.queue(s, p),
                    seq![order_id],
                ) by {
                    let q = self.queue(s, p);
                    assert forall|k: int| 0 <= k < q.len() implies q[k] != order_id by {
                        assert(waits_at(self.pending@, q[k], s, p));
                    }
                    lemma_nothing_dropped(q, order_id);
                }
            }
            return false;
        }
        assert(self.pending@[pos as int].order_id == order_id);
        let qo = self.pending.remove(pos);
        let mut gone: Vec<u64> = Vec::new();
        gone.push(order_id);
        assert(gone@ =~= seq![order_id]);
        match qo.side {
            Side::Buy => OrderEmulator::drop_at(&mut self.bid_queues, qo.price_int, &gone),
            Side::Sell => OrderEmulator::drop_at(&mut self.ask_queues, qo.price_int, &gone),
        }
        proof {
            let before = old(self).pending@;
            assert(self.pending@ == before.remove(pos as int));
            assert forall|s: Side, p: i64| #[trigger] self.queue(s, p) == without(
                old(self).queue(s, p),
                seq![order_id],
            ) by {
                if s == qo.side && p == qo.price_int {
                    assert(ids_at(self.queues(s)@, p) == without(
                        ids_at(old(self).queues(s)@, p),
                        gone@,
                    ));
                } else {
                    let q = old(self).queue(s, p);
                    assert(self.queue(s, p) == q);
                    assert forall|k: int| 0 <= k < q.len() implies q[k] != order_id by {
                        assert(waits_at(before, q[k], s, p));
                        if q[k] == order_id {
                            let i = choose|i: int|
                                0 <= i < before.len() && (#[trigger] before[i]).order_id
                                    == order_id && before[i].side == s && before[i].price_int == p;
                            if i < pos {
                                assert(before[i].order_id < before[pos as int].order_id);
                            } else if i > pos {
                                assert(before[pos as int].order_id < before[i].order_id);
                            }
                        }
                    }
                    lemma_nothing_dropped(q, order_id);
                }
            }
            assert forall|s: Side, p: i64, k: int|
                0 <= k < self.queue(s, p).len() implies #[trigger] waits_at(
                self.pending@,
                self.queue(s, p)[k],
                s,
                p,
            ) by {
                let id = self.queue(s, p)[k];
                let q0 = old(self).queue(s, p);
                assert(self.queue(s, p) == q0.filter(keep));
                q0.lemma_filter_pred(keep, k);
                assert(seq![order_id][0] == order_id);
                assert(q0.filter(keep).contains(id));
                q0.lemma_filter_contains_rev(keep, id);
                let q = choose|q: int| 0 <= q < q0.len() && q0[q] == id;
                assert(waits_at(before, q0[q], s, p));
                let i = choose|i: int|
                    0 <= i < before.len() && (#[trigger] before[i]).order_id == id
                        && before[i].side == s && before[i].price_int == p;
                if i < pos {
                    assert(self.pending@[i] == before[i]);
                } else {
                    assert(self.pending@[i - 1] == before[i]);
                }
            }
            assert forall|i: int, j: int| 0 <= i < j < self.pending@.len() implies (
            #[trigger] self.pending@[i]).order_id < (#[trigger] self.pending@[j]).order_id by {
                let a = if i < pos {
                    i
                } else {
                    i + 1
                };
                let b = if j < pos {
                    j
                } else {
                    j + 1
                };
                assert(self.pending@[i] == before[a] && self.pending@[j] == before[b]);
            }
            assert forall|i: int| 0 <= i < self.pending@.len() implies (
            #[trigger] self.pending@[i]).order_id < self.next_order_id by {
                let a = if i < pos {
                    i
                } else {
                    i + 1
                };
                assert(self.pending@[i] == before[a]);
            }
            assert forall|s: Side, p: i64| #[trigger]
                self.queues(s)@.dom().contains(p) implies self.queues(s)@[p].order_count
                < self.next_order_id by {
                assert(old(self).queues(s)@.dom().contains(p));
            }
        }
        true
    }

    fn drop_at(queues: &mut LevelMap<QueueLevel>, price: i64, gone: &Vec<u64>)
        requires
            old(queues).wf(),
        ensures
            final(queues).wf(),
            final(queues)@.dom() == old(queues)@.dom(),
            forall|p: i64| #[trigger]
                ids_at(final(queues)@, p) == if p == price {
                    without(ids_at(old(queues)@, p), gone@)
                } else {
                    ids_at(old(queues)@, p)
                },
            forall|p: i64| #[trigger]
                final(queues)@.dom().contains(p) ==> final(queues)@[p].order_count == old(
                    queues,
                )@[p].order_count,
    {
        match queues.remove(price) {
            Some(level) => {
                let kept = QueueLevel {
                    orders: drop_ids(&level.orders, gone),
                    timestamp_ns: level.timestamp_ns,
                    order_count: level.order_count,
                };
                queues.insert(price, kept);
                assert(queues@.dom() =~= old(queues)@.dom());
            },
            None => {
                assert(queues@ =~= old(queues)@);
                assert(without(Seq::<u64>::empty(), gone@) =~= Seq::<u64>::empty()) by {
                    reveal(Seq::filter);
                }
            },
        }
    }
}

proof fn lemma_nothing_dropped(q: Seq<u64>, id: u64)
    requires
        forall|k: int| 0 <= k < q.len() ==> q[k] != id,
    ensures
        without(q, seq![id]) == q,
    decreases q.len(),
{
    let keep = |x: u64| !seq![id].contains(x);
    reveal(Seq::filter);
    if q.len() > 0 {
        lemma_nothing_dropped(q.drop_last(), id);
        assert(q.last() != id);
        assert(keep(q.last()));
        assert(q.filter(keep) =~= q.drop_last().filter(keep).push(q.last()));
        assert(q.drop_last().push(q.last()) =~= q);
    } else {
        assert(q.filter(keep) =~= q);
    }
}

/// A waiting order near the front of its queue is filled at its own limit and at every better
/// price, which for a buy is any lower one and for a sell any higher one, and never at a worse one.
/// One that is not filled goes on waiting.
pub proof fn limit_is_kept(pending: Seq<QueuedOrder>, i: int, price: i64)
    requires
        0 <= i < pending.len(),
    ensures
        ({
            let o = pending[i];
            let filled = filled_orders(pending, price).contains(o);
            let worse = match o.side {
                Side::Buy => price > o.price_int,
                Side::Sell => price < o.price_int,
            };
            &&& worse ==> !filled
            &&& !worse && o.queue_position <= 10 ==> filled
            &&& o.queue_position > 10 ==> !filled
            &&& kept_orders(pending, price).contains(o) <==> !filled
        }),
{
    let o = pending[i];
    let fills = |o: QueuedOrder| fills_at(o, price);
    let keeps = |o: QueuedOrder| !fills_at(o, price);
    assert(pending.contains(o));
    if fills(o) {
        pending.lemma_filter_contains(fills, i);
    } else {
        pending.lemma_filter_contains(keeps, i);
    }
    if pending.filter(fills).contains(o) {
        let k = choose|k: int| 0 <= k < pending.filter(fills).len() && pending.filter(fills)[k] == o;
        pending.lemma_filter_pred(fills, k);
    }
    if pending.filter(keeps).contains(o) {
        let k = choose|k: int| 0 <= k < pending.filter(keeps).len() && pending.filter(keeps)[k] == o;
        pending.lemma_filter_pred(keeps, k);
    }
}

/// The fills of waiting orders and the orders that go on waiting are all the orders there were: each
/// fill is all that was left of one order, at the market price and as a maker, and fills come in the
/// order in which the orders were submitted.
pub proof fn fills_and_rest_are_all_orders(
    pending: Seq<QueuedOrder>,
    price: i64,
    timestamp_ns: u64,
)
    requires
        forall|i: int, j: int|
            0 <= i < j < pending.len() ==> (#[trigger] pending[i]).order_id < (
            #[trigger] pending[j]).order_id,
    ensures
        ({
            let fills = maker_fills(filled_orders(pending, price), price, timestamp_ns);
            let kept = kept_orders(pending, price);
            &&& fills.len() + kept.len() == pending.len()
            &&& forall|k: int| #![trigger fills[k]]
                0 <= k < fills.len() ==> exists|i: int|
                    {
                        &&& 0 <= i < pending.len()
                        &&& fills[k].order_id == (#[trigger] pending[i]).order_id
                        &&& fills[k].side == pending[i].side
                        &&& fills[k].fill_size == pending[i].remaining_size
                        &&& fills[k].queue_position == pending[i].queue_position
                    }
            &&& forall|k: int| #![trigger fills[k]]
                0 <= k < fills.len() ==> fills[k].fill_price == price && fills[k].remaining_size == 0
                    && fills[k].timestamp_ns == timestamp_ns && fills[k].is_maker
            &&& forall|j: int, k: int| #![trigger fills[j], fills[k]]
                0 <= j < k < fills.len() ==> fills[j].order_id < fills[k].order_id
            &&& forall|j: int, k: int| #![trigger kept[j], kept[k]]
                0 <= j < k < kept.len() ==> kept[j].order_id < kept[k].order_id
        }),
    decreases pending.len(),
{
    let fills = |o: QueuedOrder| fills_at(o, price);
    let keeps = |o: QueuedOrder| !fills_at(o, price);
    reveal(Seq::filter);
    if pending.len() > 0 {
        let front = pending.drop_last();
        let o = pending.last();
        fills_and_rest_are_all_orders(front, price, timestamp_ns);
        let events = maker_fills(filled_orders(pending, price), price, timestamp_ns);
        let before = maker_fills(filled_orders(front, price), price, timestamp_ns);
        let kept = kept_orders(pending, price);
        let kept_before = kept_orders(front, price);
        assert forall|k: int| 0 <= k < before.len() implies before[k].order_id < o.order_id by {
            let i = choose|i: int|
                0 <= i < front.len() && before[k].order_id == (#[trigger] front[i]).order_id;
            assert(pending[i] == front[i]);
            assert(pending[i].order_id < pending[pending.len() - 1].order_id);
        }
        assert forall|k: int| 0 <= k < kept_before.len() implies kept_before[k].order_id
            < o.order_id by {
            front.lemma_filter_pred(keeps, k);
            assert(front.filter(keeps).contains(kept_before[k]));
            front.lemma_filter_contains_rev(keeps, kept_before[k]);
            let i = choose|i: int| 0 <= i < front.len() && front[i] == kept_before[k];
            assert(pending[i] == front[i]);
            assert(pending[i].order_id < pending[pending.len() - 1].order_id);
        }
        if fills_at(o, price) {
            assert(filled_orders(pending, price) =~= filled_orders(front, price).push(o));
            assert(kept =~= kept_before);
            assert(events =~= before.push(maker_fill(o, price, timestamp_ns)));
        } else {
            assert(filled_orders(pending, price) =~= filled_orders(front, price));
            assert(kept =~= kept_before.push(o));
            assert(events =~= before);
        }
        assert forall|k: int| #![trigger events[k]] 0 <= k < events.len() implies exists|i: int|
            {
                &&& 0 <= i < pending.len()
                &&& events[k].order_id == (#[trigger] pending[i]).order_id
                &&& events[k].side == pending[i].side
                &&& events[k].fill_size == pending[i].remaining_size
                &&& events[k].queue_position == pending[i].queue_position
            } by {
            if k < before.len() {
                assert(events[k] == before[k]);
                let i = choose|i: int|
                    {
                        &&& 0 <= i < front.len()
                        &&& before[k].order_id == (#[trigger] front[i]).order_id
                        &&& before[k].side == front[i].side
                        &&& before[k].fill_size == front[i].remaining_size
                        &&& before[k].queue_position == front[i].queue_position
                    };
                assert(pending[i] == front[i]);
            } else {
                assert(pending[pending.len() - 1] == o);
            }
        }
        assert forall|j: int, k: int| #![trigger events[j], events[k]]
            0 <= j < k < events.len() implies events[j].order_id < events[k].order_id by {
            assert(events[j] == before[j]);
            if k < before.len() {
                assert(events[k] == before[k]);
            }
        }
        assert forall|j: int, k: int| #![trigger kept[j], kept[k]]
            0 <= j < k < kept.len() implies kept[j].order_id < kept[k].order_id by {
            assert(kept[j] == kept_before[j]);
            if k < kept_before.len() {
                assert(kept[k] == kept_before[k]);
            }
        }
    }
}

/// A market order against a book is filled as a taker, level by level: numbers go on by one, and
/// each fill has the price, the size and the rest of its level.
pub proof fn taker_fills_follow_the_levels(
    levels: Seq<LevelFill>,
    first: u64,
    side: Side,
    timestamp_ns: u64,
    i: int,
)
    requires
        0 <= i < levels.len(),
        first + levels.len() <= u64::MAX,
    ensures
        ({
            let fills = taker_fills(levels, first as int, side, timestamp_ns);
            &&& fills.len() == levels.len()
            &&& fills[i].order_id == first + i
            &&& fills[i].side == side
            &&& fills[i].fill_price == levels[i].price_int
            &&& fills[i].fill_size == levels[i].size_filled
            &&& fills[i].remaining_size == levels[i].remaining_at_level
            &&& fills[i].timestamp_ns == timestamp_ns
            &&& !fills[i].is_maker
        }),
{
}

/// An order that is dropped from a queue is in it no more, and the others keep their order.
pub proof fn dropping_keeps_the_others(queue: Seq<u64>, gone: Seq<u64>)
    ensures
        forall|id: u64| #[trigger]
            without(queue, gone).contains(id) <==> queue.contains(id) && !gone.contains(id),
        without(queue, seq![]) == queue,
        forall|id: u64| #[trigger]
            without(queue.push(id), gone) == if gone.contains(id) {
                without(queue, gone)
            } else {
                without(queue, gone).push(id)
            },
{
    let keep = |id: u64| !gone.contains(id);
    assert forall|id: u64| #[trigger] without(queue, gone).contains(id) <==> queue.contains(id)
        && !gone.contains(id) by {
        if queue.contains(id) && keep(id) {
            let i = choose|i: int| 0 <= i < queue.len() && queue[i] == id;
            queue.lemma_filter_contains(keep, i);
        }
        if queue.filter(keep).contains(id) {
            let k = choose|k: int| 0 <= k < queue.filter(keep).len() && queue.filter(keep)[k] == id;
            queue.lemma_filter_pred(keep, k);
            queue.lemma_filter_contains_rev(keep, id);
        }
    }
    lemma_nothing_dropped_by_none(queue);
    assert forall|id: u64| #[trigger]
        without(queue.push(id), gone) == if gone.contains(id) {
            without(queue, gone)
        } else {
            without(queue, gone).push(id)
        } by {
        queue.lemma_filter_push(id, keep);
    }
}

proof fn lemma_nothing_dropped_by_none(queue: Seq<u64>)
    ensures
        without(queue, seq![]) == queue,
    decreases queue.len(),
{
    reveal(Seq::filter);
    if queue.len() > 0 {
        lemma_nothing_dropped_by_none(queue.drop_last());
        assert(!Seq::<u64>::empty().contains(queue.last()));
        assert(without(queue, seq![]) =~= without(queue.drop_last(), seq![]).push(queue.last()));
        assert(queue.drop_last().push(queue.last()) =~= queue);
    } else {
        assert(without(queue, seq![]) =~= queue);
    }
}

/// An order that is filled at a price is filled at every better one as well.
pub proof fn better_price_fills_too(o: QueuedOrder, price: i64, better: i64)
    requires
        fills_at(o, price),
        o.side is Buy ==> better <= price,
        o.side is Sell ==> better >= price,
    ensures
        fills_at(o, better),
        fills_at(o, o.price_int),
{
}

/// An order is filled at its limit exactly where the probability of a fill, ten over ten and its
/// position in the queue, is at least one half.
pub proof fn likely_orders_are_filled(o: QueuedOrder)
    ensures
        fills_at(o, o.price_int) <==> 2 * 10 >= 10 + o.queue_position,
{
}

/// Every market order is filled at the next market price, at that price and in full.
pub proof fn market_order_is_filled_at_once(
    market: Seq<QueuedOrder>,
    i: int,
    price: i64,
    timestamp_ns: u64,
)
    requires
        0 <= i < market.len(),
    ensures
        market_fills(market, price, timestamp_ns).len() == market.len(),
        ({
            let f = market_fills(market, price, timestamp_ns)[i];
            f.order_id == market[i].order_id && f.fill_price == price && f.fill_size
                == market[i].remaining_size && f.remaining_size == 0 && !f.is_maker
        }),
{
}

/// A cancelled order waits no more.
pub proof fn cancelled_order_is_gone(pending: Seq<QueuedOrder>, i: int)
    requires
        0 <= i < pending.len(),
        forall|a: int, b: int|
            0 <= a < b < pending.len() ==> (#[trigger] pending[a]).order_id < (
            #[trigger] pending[b]).order_id,
    ensures
        !waits(pending.remove(i), pending[i].order_id),
{
    let rest = pending.remove(i);
    assert forall|j: int| 0 <= j < rest.len() implies (#[trigger] rest[j]).order_id
        != pending[i].order_id by {
        if j < i {
            assert(rest[j] == pending[j]);
        } else {
            assert(rest[j] == pending[j + 1]);
        }
    }
}

/// Orders at one price are filled first come, first served: where two orders of one side and
/// price differ in their place in the queue, the one behind is not filled without the one ahead.
pub proof fn queue_is_served_in_order(a: QueuedOrder, b: QueuedOrder, price: i64)
    requires
        a.side == b.side,
        a.price_int == b.price_int,
        a.queue_position <= b.queue_position,
        fills_at(b, price),
    ensures
        fills_at(a, price),
{
}

/// A new order joins the queue of its own side and price with all of its size, behind as many as wait
/// there, and is filled at its limit where there are no more than ten.
pub proof fn order_joins_at_the_end(
    e: OrderEmulator,
    price_int: i64,
    size: i64,
    side: Side,
    timestamp_ns: u64,
)
    requires
        e.queue(side, price_int).len() <= u64::MAX,
    ensures
        ({
            let o = e.joining(price_int, size, side, timestamp_ns);
            let ahead = match side {
                Side::Buy => ids_at(e.bid_queues@, price_int),
                Side::Sell => ids_at(e.ask_queues@, price_int),
            };
            &&& o.queue_position == ahead.len()
            &&& o.remaining_size == size && o.size == size
            &&& o.side == side && o.price_int == price_int
            &&& o.submitted_ns == timestamp_ns
            &&& o.order_id == e.next_order_id
            &&& fills_at(o, price_int) <==> ahead.len() <= 10
        }),
{
}

} // verus!
