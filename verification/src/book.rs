//! Order book from a trade stream, and a simulator of limit order queues.
//!
//! Prices and sizes are integers in nanounits.

use crate::buffer::tick_buffer::{TradeFlowStats, Vpin};
use crate::level_map;
use crate::level_map::LevelMap;
use vstd::prelude::*;

verus! {

/// Number of an order.
pub type OrderId = u64;

/// Side of an order or trade.
#[derive(Debug, Clone, Copy, PartialEq, Eq, Structural)]
pub enum Side {
    Buy,
    Sell,
}

impl Side {
    /// The number of the side: 1 for a buy, 2 for a sell.
    pub open spec fn code(self) -> u8 {
        match self {
            Side::Buy => 1,
            Side::Sell => 2,
        }
    }

    /// The side with a number.
    pub fn from_u8(v: u8) -> (r: Option<Self>)
        ensures
            match r {
                Some(s) => s.code() == v,
                None => v != 1 && v != 2,
            },
    {
        if v == 1 {
            Some(Side::Buy)
        } else if v == 2 {
            Some(Side::Sell)
        } else {
            None
        }
    }

    /// The number of the side.
    pub fn as_u8(&self) -> (r: u8)
        ensures
            r == self.code(),
    {
        match self {
            Side::Buy => 1,
            Side::Sell => 2,
        }
    }

    /// The other side.
    pub open spec fn other(self) -> Side {
        match self {
            Side::Buy => Side::Sell,
            Side::Sell => Side::Buy,
        }
    }

    /// The other side.
    pub fn opposite(&self) -> (r: Self)
        ensures
            r == self.other(),
    {
        match self {
            Side::Buy => Side::Sell,
            Side::Sell => Side::Buy,
        }
    }
}

/// The other side of the other side is the side itself.
pub proof fn opposite_twice(s: Side)
    ensures
        s.other().other() == s,
        s.other() != s,
{
}

/// A buy is number 1 and a sell number 2.
pub proof fn sides_have_their_numbers(s: Side)
    ensures
        s is Buy ==> s.code() == 1 && s.other() is Sell,
        s is Sell ==> s.code() == 2 && s.other() is Buy,
{
}

/// A price and the size that stands there.
#[derive(Debug, Clone, Copy, PartialEq, Eq, Structural)]
pub struct PriceLevel {
    pub price: i64,
    pub size: i64,
}

impl PriceLevel {
    /// A level of a price and a size.
    pub fn new(price: i64, size: i64) -> (r: Self)
        ensures
            r == (PriceLevel { price, size }),
    {
        PriceLevel { price, size }
    }
}

/// What a market order takes at one price.
#[derive(Debug, Clone, Copy, PartialEq, Eq, Structural)]
pub struct LevelFill {
    pub price_int: i64,
    /// Size taken.
    pub size_filled: i64,
    /// Size that stays at the level. At the last level of the book, if the order is larger than
    /// the book: the size of the order that is left.
    pub remaining_at_level: i64,
    /// Orders at the level.
    pub queue_depth: u64,
}

impl LevelFill {
    /// The price.
    pub fn price(&self) -> (r: i64)
        ensures
            r == self.price_int,
    {
        self.price_int
    }
}

/// One side of a book: sizes and numbers of orders by price.
pub struct BookSide {
    pub sizes: Map<i64, i64>,
    pub depths: Map<i64, u64>,
}

impl BookSide {
    /// The size at a price; 0 where there is no level.
    pub open spec fn size_at(self, price: i64) -> int {
        if self.sizes.dom().contains(price) {
            self.sizes[price] as int
        } else {
            0
        }
    }

    /// The orders at a price.
    pub open spec fn depth_at(self, price: i64) -> int {
        if self.depths.dom().contains(price) {
            self.depths[price] as int
        } else {
            0
        }
    }

    /// The side behind one more order.
    pub open spec fn added(self, price: i64, size: i64) -> BookSide {
        BookSide {
            sizes: self.sizes.insert(price, (self.size_at(price) + size) as i64),
            depths: self.depths.insert(price, (self.depth_at(price) + 1) as u64),
        }
    }

    /// The side behind the removal of a size: a level that has none left goes, and so does one
    /// order of the level.
    pub open spec fn removed(self, price: i64, size: i64) -> BookSide {
        BookSide {
            sizes: if self.size_at(price) - size > 0 && self.sizes.dom().contains(price) {
                self.sizes.insert(price, (self.size_at(price) - size) as i64)
            } else {
                self.sizes.remove(price)
            },
            depths: if self.depth_at(price) > 1 {
                self.depths.insert(price, (self.depth_at(price) - 1) as u64)
            } else {
                self.depths.remove(price)
            },
        }
    }
}

/// Sizes by price on both sides.
#[derive(Debug)]
pub struct OrderBook {
    pub bids: LevelMap<i64>,
    pub asks: LevelMap<i64>,
    pub bid_queue_depths: LevelMap<u64>,
    pub ask_queue_depths: LevelMap<u64>,
    pub last_price: i64,
    pub last_size: i64,
    pub last_side: u8,
    pub vpin: Vpin,
}

/// The contents of a book.
pub struct BookView {
    pub bids: BookSide,
    pub asks: BookSide,
    pub last_price: i64,
    pub last_size: i64,
    pub last_side: u8,
    pub vpin: Vpin,
}

impl View for OrderBook {
    type V = BookView;

    open spec fn view(&self) -> BookView {
        BookView {
            bids: BookSide { sizes: self.bids@, depths: self.bid_queue_depths@ },
            asks: BookSide { sizes: self.asks@, depths: self.ask_queue_depths@ },
            last_price: self.last_price,
            last_size: self.last_size,
            last_side: self.last_side,
            vpin: self.vpin,
        }
    }
}

impl BookView {
    /// The side of a number: 1 is the bid side, anything else the ask side.
    pub open spec fn side(self, side: u8) -> BookSide {
        if side == 1 {
            self.bids
        } else {
            self.asks
        }
    }

    /// The book with another side in place.
    pub open spec fn with_side(self, side: u8, s: BookSide) -> BookView {
        if side == 1 {
            BookView { bids: s, ..self }
        } else {
            BookView { asks: s, ..self }
        }
    }

    /// The book behind a trade: its size is taken off its side, and it is the last one.
    pub open spec fn traded(self, tick: TradeFlowStats) -> BookView {
        let seen = BookView {
            last_price: tick.price_int,
            last_size: tick.size_int,
            last_side: tick.side,
            vpin: tick.vpin,
            ..self
        };
        seen.with_side(tick.side, seen.side(tick.side).removed(tick.price_int, tick.size_int))
    }
}

/// Every level that counts orders counts at least one.
pub open spec fn depths_ok(m: Map<i64, u64>) -> bool {
    forall|k: i64| #[trigger] m.dom().contains(k) ==> m[k] > 0
}

/// The smaller of two sizes.
pub open spec fn least(a: int, b: int) -> int {
    if a <= b {
        a
    } else {
        b
    }
}

/// What an order of a size takes, level by level; the levels are listed from the best price on.
pub open spec fn level_fills(levels: Seq<(i64, i64)>, depths: Map<i64, u64>, size: int) -> Seq<
    LevelFill,
>
    decreases levels.len(),
{
    if levels.len() == 0 || size <= 0 {
        seq![]
    } else {
        let price = levels[0].0;
        let available = levels[0].1 as int;
        let taken = least(available, size);
        let rest = size - taken;
        let fill = LevelFill {
            price_int: price,
            size_filled: taken as i64,
            remaining_at_level: (if levels.len() == 1 && rest > 0 {
                rest
            } else {
                available - taken
            }) as i64,
            queue_depth: if depths.dom().contains(price) {
                depths[price]
            } else {
                1
            },
        };
        seq![fill] + level_fills(levels.skip(1), depths, rest)
    }
}

/// The sizes of levels added up.
pub open spec fn liquidity(levels: Seq<(i64, i64)>) -> int
    decreases levels.len(),
{
    if levels.len() == 0 {
        0
    } else {
        levels[0].1 + liquidity(levels.skip(1))
    }
}

/// The sizes taken added up.
pub open spec fn total_filled(fills: Seq<LevelFill>) -> int
    decreases fills.len(),
{
    if fills.len() == 0 {
        0
    } else {
        fills[0].size_filled + total_filled(fills.skip(1))
    }
}

/// No size is negative.
pub open spec fn levels_ok(levels: Seq<(i64, i64)>) -> bool {
    forall|i: int| 0 <= i < levels.len() ==> (#[trigger] levels[i]).1 >= 0
}

/// A market order takes its size or all that the book has, whichever is less.
pub proof fn order_takes_what_there_is(
    levels: Seq<(i64, i64)>,
    depths: Map<i64, u64>,
    size: int,
)
    requires
        levels_ok(levels),
        0 <= size <= i64::MAX,
    ensures
        total_filled(level_fills(levels, depths, size)) == (if size <= liquidity(levels) {
            size
        } else {
            liquidity(levels)
        }),
        liquidity(levels) >= 0,
    decreases levels.len(),
{
    if levels.len() > 0 {
        let taken = least(levels[0].1 as int, size);
        let rest = levels.skip(1);
        assert(levels_ok(rest)) by {
            assert forall|i: int| 0 <= i < rest.len() implies (#[trigger] rest[i]).1 >= 0 by {
                assert(rest[i] == levels[i + 1]);
            }
        }
        order_takes_what_there_is(rest, depths, size - taken);
        if size > 0 {
            let all = level_fills(levels, depths, size);
            assert(all.skip(1) =~= level_fills(rest, depths, size - taken));
        }
    }
}

/// The levels taken are the first ones, in their order: a market order goes from the best price
/// to the worse ones and leaves none out.
pub proof fn order_takes_best_first(levels: Seq<(i64, i64)>, depths: Map<i64, u64>, size: int)
    ensures
        level_fills(levels, depths, size).len() <= levels.len(),
        forall|i: int|
            0 <= i < level_fills(levels, depths, size).len() ==> (#[trigger] level_fills(
                levels,
                depths,
                size,
            )[i]).price_int == levels[i].0,
    decreases levels.len(),
{
    if levels.len() > 0 && size > 0 {
        let rest = size - least(levels[0].1 as int, size);
        order_takes_best_first(levels.skip(1), depths, rest);
        let all = level_fills(levels, depths, size);
        let tail = level_fills(levels.skip(1), depths, rest);
        assert forall|i: int| 0 <= i < all.len() implies (#[trigger] all[i]).price_int
            == levels[i].0 by {
            if i > 0 {
                assert(all[i] == tail[i - 1]);
            }
        }
    }
}

/// Each level but the last one met is taken as a whole; of the last one met the order takes what it
/// still wants, and the rest of the level stays.
pub proof fn levels_are_used_up_in_turn(
    levels: Seq<(i64, i64)>,
    depths: Map<i64, u64>,
    size: int,
    i: int,
)
    requires
        levels_ok(levels),
        0 < size <= i64::MAX,
        0 <= i < level_fills(levels, depths, size).len(),
    ensures
        ({
            let fills = level_fills(levels, depths, size);
            let f = fills[i];
            &&& f.price_int == levels[i].0
            &&& 0 <= f.size_filled <= levels[i].1
            &&& f.queue_depth == if depths.dom().contains(levels[i].0) {
                depths[levels[i].0]
            } else {
                1
            }
            &&& i + 1 < fills.len() ==> f.size_filled == levels[i].1 && f.remaining_at_level == 0
            &&& i + 1 == fills.len() && size <= liquidity(levels) ==> f.size_filled
                + f.remaining_at_level == levels[i].1 && liquidity(levels.take(i)) + f.size_filled
                == size
            &&& size > liquidity(levels) ==> f.size_filled == levels[i].1
        }),
    decreases levels.len(),
{
    order_takes_best_first(levels, depths, size);
    let all = level_fills(levels, depths, size);
    let rest = levels.skip(1);
    let left = size - least(levels[0].1 as int, size);
    let tail = level_fills(rest, depths, left);
    assert(levels_ok(rest)) by {
        assert forall|j: int| 0 <= j < rest.len() implies (#[trigger] rest[j]).1 >= 0 by {
            assert(rest[j] == levels[j + 1]);
        }
    }
    lemma_liquidity_not_negative(rest);
    assert(levels[0].1 >= 0);
    assert(liquidity(levels.take(0)) == 0);
    if i > 0 {
        assert(all[i] == tail[i - 1]);
        assert(left > 0);
        levels_are_used_up_in_turn(rest, depths, left, i - 1);
        assert(levels.take(i).skip(1) =~= rest.take(i - 1));
        assert(rest[i - 1] == levels[i]);
    } else {
        if left > 0 && rest.len() > 0 {
            assert(tail.len() > 0);
        }
        if all.len() == 1 && rest.len() == 0 {
            assert(liquidity(rest) == 0);
        }
    }
}

/// A buy meets the asks from the lowest one upwards, a sell the bids from the highest one downwards;
/// all levels of the side are met, each once and with its size.
pub proof fn best_price_is_met_first(book: &OrderBook, side: Side)
    requires
        book.wf(),
    ensures
        ({
            let levels = book.facing(side);
            let sizes = match side {
                Side::Buy => book@.asks.sizes,
                Side::Sell => book@.bids.sizes,
            };
            &&& forall|i: int, j: int|
                side is Buy && 0 <= i < j < levels.len() ==> (#[trigger] levels[i]).0 < (
                #[trigger] levels[j]).0
            &&& forall|i: int, j: int|
                side is Sell && 0 <= i < j < levels.len() ==> (#[trigger] levels[i]).0 > (
                #[trigger] levels[j]).0
            &&& forall|i: int|
                0 <= i < levels.len() ==> sizes.dom().contains((#[trigger] levels[i]).0)
                    && sizes[levels[i].0] == levels[i].1
            &&& side is Buy ==> forall|p: i64| #[trigger]
                book@.asks.sizes.dom().contains(p) ==> exists|i: int|
                    0 <= i < levels.len() && (#[trigger] levels[i]).0 == p
            &&& side is Sell ==> forall|p: i64| #[trigger]
                book@.bids.sizes.dom().contains(p) ==> exists|i: int|
                    0 <= i < levels.len() && (#[trigger] levels[i]).0 == p
            &&& book.facing_depths(side) == match side {
                Side::Buy => book@.asks.depths,
                Side::Sell => book@.bids.depths,
            }
        }),
{
    let levels = book.facing(side);
    let listing = match side {
        Side::Buy => book.asks.listing(),
        Side::Sell => book.bids.listing(),
    };
    level_map::map_of_lists(listing);
    let n = listing.len() as int;
    assert forall|i: int, j: int| 0 <= i < j < levels.len() implies match side {
        Side::Buy => (#[trigger] levels[i]).0 < (#[trigger] levels[j]).0,
        Side::Sell => levels[i].0 > levels[j].0,
    } by {
        if side is Sell {
            assert(levels[i] == listing[n - 1 - i] && levels[j] == listing[n - 1 - j]);
        }
    }
    assert forall|i: int| 0 <= i < levels.len() implies level_map::map_of(listing).dom().contains(
        (#[trigger] levels[i]).0,
    ) && level_map::map_of(listing)[levels[i].0] == levels[i].1 by {
        if side is Sell {
            assert(levels[i] == listing[n - 1 - i]);
        }
    }
    assert forall|p: i64| #[trigger]
        level_map::map_of(listing).dom().contains(p) implies exists|i: int|
        0 <= i < levels.len() && (#[trigger] levels[i]).0 == p by {
        let k = choose|k: int| 0 <= k < n && (#[trigger] listing[k]).0 == p;
        if side is Sell {
            assert(levels[n - 1 - k] == listing[k]);
        } else {
            assert(levels[k] == listing[k]);
        }
    }
}

/// An order larger than the book leaves the rest of it in the last fill.
pub proof fn last_fill_holds_the_rest(levels: Seq<(i64, i64)>, depths: Map<i64, u64>, size: int)
    requires
        levels_ok(levels),
        levels.len() > 0,
        liquidity(levels) < size <= i64::MAX,
    ensures
        level_fills(levels, depths, size).len() == levels.len(),
        level_fills(levels, depths, size).last().remaining_at_level == size - liquidity(levels),
    decreases levels.len(),
{
    let rest = levels.skip(1);
    assert(levels_ok(rest)) by {
        assert forall|i: int| 0 <= i < rest.len() implies (#[trigger] rest[i]).1 >= 0 by {
            assert(rest[i] == levels[i + 1]);
        }
    }
    lemma_liquidity_not_negative(rest);
    if levels.len() > 1 {
        last_fill_holds_the_rest(rest, depths, size - levels[0].1);
    } else {
        assert(level_fills(rest, depths, size - levels[0].1) =~= seq![]);
    }
}

proof fn lemma_liquidity_not_negative(levels: Seq<(i64, i64)>)
    requires
        levels_ok(levels),
    ensures
        liquidity(levels) >= 0,
    decreases levels.len(),
{
    if levels.len() > 0 {
        let rest = levels.skip(1);
        assert forall|i: int| 0 <= i < rest.len() implies (#[trigger] rest[i]).1 >= 0 by {
            assert(rest[i] == levels[i + 1]);
        }
        lemma_liquidity_not_negative(rest);
    }
}

/// A price midway between two prices: a whole number of units, or half a unit more.
#[derive(Debug, Clone, Copy, PartialEq, Eq, Structural)]
pub struct MidPrice {
    pub units: i64,
    pub half: bool,
}

impl MidPrice {
    /// Two times the price.
    pub open spec fn twice(self) -> int {
        2 * self.units + if self.half {
            1int
        } else {
            0
        }
    }

    /// The price midway between two.
    pub fn between(a: i64, b: i64) -> (r: Self)
        ensures
            r.twice() == a + b,
    {
        // Counted from below the smallest sum, so that nothing is negative.
        let sum: u128 = (a as i128 + b as i128 + 0x1_0000_0000_0000_0000) as u128;
        let units: i128 = (sum / 2) as i128 - 0x8000_0000_0000_0000;
        MidPrice { units: units as i64, half: sum % 2 == 1 }
    }
}

/// What is left of an order fits at every level that it meets.
pub open spec fn walk_fits(levels: Seq<(i64, i64)>, size: int) -> bool
    decreases levels.len(),
{
    if levels.len() == 0 || size <= 0 {
        true
    } else {
        let rest = size - least(levels[0].1 as int, size);
        rest <= i64::MAX && walk_fits(levels.skip(1), rest)
    }
}

/// Of levels whose sizes are not negative, what is left of an order always fits.
pub proof fn order_fits_plain_levels(levels: Seq<(i64, i64)>, size: int)
    requires
        levels_ok(levels),
        size <= i64::MAX,
    ensures
        walk_fits(levels, size),
    decreases levels.len(),
{
    if levels.len() > 0 && size > 0 {
        let rest = levels.skip(1);
        assert forall|i: int| 0 <= i < rest.len() implies (#[trigger] rest[i]).1 >= 0 by {
            assert(rest[i] == levels[i + 1]);
        }
        order_fits_plain_levels(rest, size - least(levels[0].1 as int, size));
    }
}

impl OrderBook {
    /// The levels are in order, and no count is zero.
    pub open spec fn wf(&self) -> bool {
        &&& self.bids.wf()
        &&& self.asks.wf()
        &&& self.bid_queue_depths.wf()
        &&& self.ask_queue_depths.wf()
        &&& depths_ok(self.bid_queue_depths@)
        &&& depths_ok(self.ask_queue_depths@)
    }

    /// An empty book.
    pub fn new() -> (r: Self)
        ensures
            r.wf(),
            r@.bids == (BookSide { sizes: Map::empty(), depths: Map::empty() }),
            r@.asks == (BookSide { sizes: Map::empty(), depths: Map::empty() }),
            r.last_price == 0,
            r.last_size == 0,
            r.last_side == 0,
            r.vpin == (Vpin { num: 0, den: 1 }),
    {
        OrderBook {
            bids: LevelMap::new(),
            asks: LevelMap::new(),
            bid_queue_depths: LevelMap::new(),
            ask_queue_depths: LevelMap::new(),
            last_price: 0,
            last_size: 0,
            last_side: 0,
            vpin: Vpin { num: 0, den: 1 },
        }
    }

    fn add_to(sizes: &mut LevelMap<i64>, depths: &mut LevelMap<u64>, price: i64, size: i64)
        requires
            old(sizes).wf(),
            old(depths).wf(),
            depths_ok(old(depths)@),
            i64::MIN <= (BookSide { sizes: old(sizes)@, depths: old(depths)@ }).size_at(price)
                + size <= i64::MAX,
            (BookSide { sizes: old(sizes)@, depths: old(depths)@ }).depth_at(price) < u64::MAX,
        ensures
            final(sizes).wf(),
            final(depths).wf(),
            depths_ok(final(depths)@),
            (BookSide { sizes: final(sizes)@, depths: final(depths)@ }) == (BookSide {
                sizes: old(sizes)@,
                depths: old(depths)@,
            }).added(price, size),
    {
        let current: i64 = match sizes.get(&price) {
            Some(s) => *s,
            None => 0,
        };
        sizes.insert(price, current + size);
        let depth: u64 = match depths.get(&price) {
            Some(d) => *d,
            None => 0,
        };
        depths.insert(price, depth + 1);
    }

    fn remove_from(sizes: &mut LevelMap<i64>, depths: &mut LevelMap<u64>, price: i64, size: i64)
        requires
            old(sizes).wf(),
            old(depths).wf(),
            depths_ok(old(depths)@),
            (BookSide { sizes: old(sizes)@, depths: old(depths)@ }).size_at(price) - size
                <= i64::MAX,
        ensures
            final(sizes).wf(),
            final(depths).wf(),
            depths_ok(final(depths)@),
            (BookSide { sizes: final(sizes)@, depths: final(depths)@ }) == (BookSide {
                sizes: old(sizes)@,
                depths: old(depths)@,
            }).removed(price, size),
    {
        let ghost s0 = sizes@;
        let ghost d0 = depths@;
        let current: Option<i64> = match sizes.get(&price) {
            Some(s) => Some(*s),
            None => None,
        };
        match current {
            Some(s) => {
                if s > size {
                    sizes.insert(price, s - size);
                } else {
                    sizes.remove(price);
                }
            },
            None => {
                assert(s0.remove(price) =~= s0);
            },
        }
        let depth: Option<u64> = match depths.get(&price) {
            Some(d) => Some(*d),
            None => None,
        };
        match depth {
            Some(d) => {
                if d > 1 {
                    depths.insert(price, d - 1);
                } else {
                    depths.remove(price);
                }
            },
            None => {
                assert(d0.remove(price) =~= d0);
            },
        }
    }

    /// Puts an order into the book; side 1 is the bid side.
    pub fn add_limit_order(&mut self, price_int: i64, size: i64, side: u8)
        requires
            old(self).wf(),
            i64::MIN <= old(self)@.side(side).size_at(price_int) + size <= i64::MAX,
            old(self)@.side(side).depth_at(price_int) < u64::MAX,
        ensures
            final(self).wf(),
            final(self)@ == old(self)@.with_side(
                side,
                old(self)@.side(side).added(price_int, size),
            ),
    {
        if side == 1 {
            OrderBook::add_to(&mut self.bids, &mut self.bid_queue_depths, price_int, size);
        } else {
            OrderBook::add_to(&mut self.asks, &mut self.ask_queue_depths, price_int, size);
        }
    }

    /// Takes a size and one order off a level; side 1 is the bid side.
    pub fn remove_size(&mut self, price_int: i64, size: i64, side: u8)
        requires
            old(self).wf(),
            old(self)@.side(side).size_at(price_int) - size <= i64::MAX,
        ensures
            final(self).wf(),
            final(self)@ == old(self)@.with_side(
                side,
                old(self)@.side(side).removed(price_int, size),
            ),
    {
        if side == 1 {
            OrderBook::remove_from(&mut self.bids, &mut self.bid_queue_depths, price_int, size);
        } else {
            OrderBook::remove_from(&mut self.asks, &mut self.ask_queue_depths, price_int, size);
        }
    }

    /// Follows a trade: side 1 takes its size off the bid side, any other side off the ask side.
    pub fn update_from_trade(&mut self, tick: &TradeFlowStats)
        requires
            old(self).wf(),
            old(self)@.side(tick.side).size_at(tick.price_int) - tick.size_int <= i64::MAX,
        ensures
            final(self).wf(),
            final(self)@ == old(self)@.traded(*tick),
    {
        self.last_price = tick.price_int;
        self.last_size = tick.size_int;
        self.last_side = tick.side;
        self.vpin = tick.vpin;
        if tick.side == 1 {
            self.remove_size(tick.price_int, tick.size_int, 1);
        } else {
            self.remove_size(tick.price_int, tick.size_int, 2);
        }
    }

    /// The highest bid.
    pub fn best_bid(&self) -> (r: Option<i64>)
        requires
            self.wf(),
        ensures
            match r {
                Some(p) => self.bids@.dom().contains(p) && forall|k: i64| #[trigger]
                    self.bids@.dom().contains(k) ==> k <= p,
                None => self.bids@.dom() == Set::<i64>::empty(),
            },
    {
        let n: usize = self.bids.len();
        proof {
            level_map::map_of_lists(self.bids.listing());
        }
        if n == 0 {
            assert(self.bids@.dom() =~= Set::<i64>::empty());
            None
        } else {
            let ghost s = self.bids.listing();
            let p: i64 = self.bids.key_at(n - 1);
            assert forall|k: i64| #[trigger] self.bids@.dom().contains(k) implies k <= p by {
                let i = choose|i: int| 0 <= i < s.len() && (#[trigger] s[i]).0 == k;
                if i < n - 1 {
                    assert(s[i].0 < s[n - 1].0);
                }
            }
            assert(self.bids@.dom().contains(s[n - 1].0));
            Some(p)
        }
    }

    /// The lowest ask.
    pub fn best_ask(&self) -> (r: Option<i64>)
        requires
            self.wf(),
        ensures
            match r {
                Some(p) => self.asks@.dom().contains(p) && forall|k: i64| #[trigger]
                    self.asks@.dom().contains(k) ==> p <= k,
                None => self.asks@.dom() == Set::<i64>::empty(),
            },
    {
        let n: usize = self.asks.len();
        proof {
            level_map::map_of_lists(self.asks.listing());
        }
        if n == 0 {
            assert(self.asks@.dom() =~= Set::<i64>::empty());
            None
        } else {
            let ghost s = self.asks.listing();
            let p: i64 = self.asks.key_at(0);
            assert forall|k: i64| #[trigger] self.asks@.dom().contains(k) implies p <= k by {
                let i = choose|i: int| 0 <= i < s.len() && (#[trigger] s[i]).0 == k;
                if i > 0 {
                    assert(s[0].0 < s[i].0);
                }
            }
            assert(self.asks@.dom().contains(s[0].0));
            Some(p)
        }
    }

    /// The price midway between the best bid and the best ask.
    pub fn mid_price(&self) -> (r: Option<MidPrice>)
        requires
            self.wf(),
        ensures
            match r {
                Some(m) => is_mid(self@, m),
                None => self.bids@.dom() == Set::<i64>::empty() || self.asks@.dom() == Set::<
                    i64,
                >::empty(),
            },
    {
        match (self.best_bid(), self.best_ask()) {
            (Some(b), Some(a)) => {
                assert(is_best(self@, b, a));
                Some(MidPrice::between(b, a))
            },
            _ => None,
        }
    }

    /// The distance from the best bid to the best ask, where the bid is above zero.
    pub fn spread(&self) -> (r: Option<i128>)
        requires
            self.wf(),
        ensures
            match r {
                Some(d) => is_spread(self@, d as int),
                None => self.bids@.dom() == Set::<i64>::empty() || self.asks@.dom() == Set::<
                    i64,
                >::empty() || exists|b: i64, a: i64| #[trigger]
                    is_best(self@, b, a) && b <= 0,
            },
    {
        match (self.best_bid(), self.best_ask()) {
            (Some(b), Some(a)) => {
                assert(is_best(self@, b, a));
                if b > 0 {
                    Some(a as i128 - b as i128)
                } else {
                    None
                }
            },
            _ => None,
        }
    }

    /// Whether a price is a whole number of ticks above a smallest price.
    pub fn validate_price_increment(price: i64, tick_size: i64, min_price: i64) -> (r: bool)
        ensures
            r == on_grid(price as int, tick_size as int, min_price as int),
    {
        if tick_size <= 0 || price < min_price {
            return false;
        }
        let offset: u128 = (price as i128 - min_price as i128) as u128;
        offset % tick_size as u128 == 0
    }

    /// Whether a price is a whole number of ticks.
    pub fn validate_price(&self, price: i64, tick_size: i64) -> (r: bool)
        ensures
            r == on_grid(price as int, tick_size as int, 0),
    {
        OrderBook::validate_price_increment(price, tick_size, 0)
    }

    /// The levels that an order of a side meets, from the best price on: asks upwards for a buy,
    /// bids downwards for a sell.
    pub open spec fn facing(&self, side: Side) -> Seq<(i64, i64)> {
        match side {
            Side::Buy => self.asks.listing(),
            Side::Sell => self.bids.listing().reverse(),
        }
    }

    /// The numbers of orders at those levels.
    pub open spec fn facing_depths(&self, side: Side) -> Map<i64, u64> {
        match side {
            Side::Buy => self.ask_queue_depths@,
            Side::Sell => self.bid_queue_depths@,
        }
    }

    fn level(&self, side: Side, i: usize) -> (r: (i64, i64))
        requires
            self.wf(),
            i < self.facing(side).len(),
        ensures
            r == self.facing(side)[i as int],
    {
        match side {
            Side::Buy => {
                proof {
                    level_map::map_of_lists(self.asks.listing());
                    assert(self.asks@.dom().contains(self.asks.listing()[i as int].0));
                }
                (self.asks.key_at(i), *self.asks.value_at(i))
            },
            Side::Sell => {
                let n: usize = self.bids.len();
                proof {
                    level_map::map_of_lists(self.bids.listing());
                    assert(self.bids@.dom().contains(self.bids.listing()[n - 1 - i].0));
                }
                (self.bids.key_at(n - 1 - i), *self.bids.value_at(n - 1 - i))
            },
        }
    }

    /// Whether what is left of an order fits at every level that it meets.
    pub fn can_walk(&self, size: i64, side: Side) -> (r: bool)
        requires
            self.wf(),
        ensures
            r == walk_fits(self.facing(side), size as int),
    {
        let n: usize = match side {
            Side::Buy => self.asks.len(),
            Side::Sell => self.bids.len(),
        };
        let ghost levels = self.facing(side);
        let mut remaining: i64 = size;
        let mut i: usize = 0;
        assert(levels.skip(0) =~= levels);
        while i < n && remaining > 0
            invariant
                self.wf(),
                levels == self.facing(side),
                n == levels.len(),
                i <= n,
                walk_fits(levels.skip(i as int), remaining as int) == walk_fits(
                    levels,
                    size as int,
                ),
            decreases n - i,
        {
            let (_, available) = self.level(side, i);
            assert(levels.skip(i as int)[0] == levels[i as int]);
            assert(levels.skip(i as int).skip(1) =~= levels.skip(i + 1));
            let taken: i64 = if available <= remaining {
                available
            } else {
                remaining
            };
            match remaining.checked_sub(taken) {
                Some(rest) => {
                    remaining = rest;
                },
                None => {
                    return false;
                },
            }
            i = i + 1;
        }
        true
    }

    /// What a market order takes, one fill for each price, from the best price to the worst.
    ///
    /// Where the order is larger than the book, the rest of it stands in the last fill.
    pub fn walk_book(&self, size: i64, side: Side) -> (r: Vec<LevelFill>)
        requires
            self.wf(),
            walk_fits(self.facing(side), size as int),
        ensures
            r@ == level_fills(self.facing(side), self.facing_depths(side), size as int),
    {
        let n: usize = match side {
            Side::Buy => self.asks.len(),
            Side::Sell => self.bids.len(),
        };
        let ghost levels = self.facing(side);
        let ghost depths = self.facing_depths(side);
        let mut fills: Vec<LevelFill> = Vec::new();
        let mut remaining: i64 = size;
        let mut i: usize = 0;
        assert(levels.skip(0) =~= levels);
        assert(fills@ + level_fills(levels, depths, size as int) =~= level_fills(
            levels,
            depths,
            size as int,
        ));
        while i < n && remaining > 0
            invariant
                self.wf(),
                levels == self.facing(side),
                depths == self.facing_depths(side),
                n == levels.len(),
                i <= n,
                walk_fits(levels.skip(i as int), remaining as int),
                fills@ + level_fills(levels.skip(i as int), depths, remaining as int)
                    == level_fills(levels, depths, size as int),
            decreases n - i,
        {
            let (price_int, available) = self.level(side, i);
            assert(levels.skip(i as int)[0] == levels[i as int]);
            assert(levels.skip(i as int).skip(1) =~= levels.skip(i + 1));
            let size_at_level: i64 = if available <= remaining {
                available
            } else {
                remaining
            };
            let rest: i64 = remaining - size_at_level;
            let depth: Option<&u64> = match side {
                Side::Buy => self.ask_queue_depths.get(&price_int),
                Side::Sell => self.bid_queue_depths.get(&price_int),
            };
            let queue_depth: u64 = match depth {
                Some(d) => *d,
                None => 1,
            };
            let fill = LevelFill {
                price_int,
                size_filled: size_at_level,
                remaining_at_level: if i + 1 == n && rest > 0 {
                    rest
                } else {
                    available - size_at_level
                },
                queue_depth,
            };
            proof {
                let here = levels.skip(i as int);
                assert(here[0] == levels[i as int]);
                assert(here.skip(1) =~= levels.skip(i + 1));
                assert(level_fills(here, depths, remaining as int) =~= seq![fill] + level_fills(
                    levels.skip(i + 1),
                    depths,
                    rest as int,
                ));
                assert(fills@ + (seq![fill] + level_fills(levels.skip(i + 1), depths, rest as int))
                    =~= fills@.push(fill) + level_fills(levels.skip(i + 1), depths, rest as int));
            }
            fills.push(fill);
            remaining = rest;
            i = i + 1;
        }
        assert(level_fills(levels.skip(i as int), depths, remaining as int) =~= seq![]);
        assert(fills@ + Seq::<LevelFill>::empty() =~= fills@);
        fills
    }
}

/// The price is a whole number of ticks above a smallest price.
pub open spec fn on_grid(price: int, tick_size: int, min_price: int) -> bool {
    tick_size > 0 && price >= min_price && (price - min_price) % tick_size == 0
}

/// The smallest price is on the grid, every tick leads from one price of the grid to the next, and
/// nothing between them, nor below the smallest price, is on it.
pub proof fn grid_is_made_of_ticks(price: int, tick_size: int, min_price: int, part: int)
    requires
        tick_size > 0,
        0 < part < tick_size,
    ensures
        on_grid(min_price, tick_size, min_price),
        on_grid(price, tick_size, min_price) ==> on_grid(price + tick_size, tick_size, min_price)
            && !on_grid(price + part, tick_size, min_price),
        price < min_price ==> !on_grid(price, tick_size, min_price),
        !on_grid(price, 0, min_price),
        !on_grid(price, -tick_size, min_price),
{
    vstd::arithmetic::div_mod::lemma_small_mod(0, tick_size as nat);
    if on_grid(price, tick_size, min_price) {
        let d = price - min_price;
        vstd::arithmetic::div_mod::lemma_fundamental_div_mod(d, tick_size);
        let q = d / tick_size;
        assert(d + tick_size == (q + 1) * tick_size + 0) by (nonlinear_arith)
            requires
                d == tick_size * q,
        ;
        vstd::arithmetic::div_mod::lemma_fundamental_div_mod_converse(
            d + tick_size,
            tick_size,
            q + 1,
            0,
        );
        assert(d + part == q * tick_size + part) by (nonlinear_arith)
            requires
                d == tick_size * q,
        ;
        vstd::arithmetic::div_mod::lemma_fundamental_div_mod_converse(d + part, tick_size, q, part);
    }
}

/// The best bid and the best ask.
pub open spec fn is_best(v: BookView, bid: i64, ask: i64) -> bool {
    &&& v.bids.sizes.dom().contains(bid)
    &&& forall|k: i64| #[trigger] v.bids.sizes.dom().contains(k) ==> k <= bid
    &&& v.asks.sizes.dom().contains(ask)
    &&& forall|k: i64| #[trigger] v.asks.sizes.dom().contains(k) ==> ask <= k
}

/// The price lies midway between the best bid and the best ask.
pub open spec fn is_mid(v: BookView, m: MidPrice) -> bool {
    exists|b: i64, a: i64| #[trigger] is_best(v, b, a) && m.twice() == b + a
}

/// The distance from the best bid, which is above zero, to the best ask.
pub open spec fn is_spread(v: BookView, d: int) -> bool {
    exists|b: i64, a: i64| #[trigger] is_best(v, b, a) && b > 0 && d == a - b
}

/// The mid price is as far above the best bid as it is below the best ask.
pub proof fn mid_is_as_far_from_both(v: BookView, m: MidPrice, bid: i64, ask: i64)
    requires
        is_mid(v, m),
        is_best(v, bid, ask),
    ensures
        m.twice() - 2 * bid == 2 * ask - m.twice(),
        bid <= ask ==> bid <= m.units <= ask,
        bid == ask ==> m.units == bid && !m.half,
{
    let (b, a) = choose|b: i64, a: i64| #[trigger] is_best(v, b, a) && m.twice() == b + a;
    best_prices_are_unique(v, b, a, bid, ask);
}

/// The spread leads from the best bid to the best ask.
pub proof fn spread_leads_to_the_ask(v: BookView, d: int, bid: i64, ask: i64)
    requires
        is_spread(v, d),
        is_best(v, bid, ask),
    ensures
        bid + d == ask,
        bid > 0,
{
    let (b, a) = choose|b: i64, a: i64| #[trigger] is_best(v, b, a) && b > 0 && d == a - b;
    best_prices_are_unique(v, b, a, bid, ask);
}

/// The best bid is the highest one and the best ask the lowest one: there is one of each.
pub proof fn best_prices_are_unique(v: BookView, bid: i64, ask: i64, b: i64, a: i64)
    requires
        is_best(v, bid, ask),
        is_best(v, b, a),
    ensures
        bid == b,
        ask == a,
        v.bids.sizes.dom().contains(bid),
        v.asks.sizes.dom().contains(ask),
        forall|k: i64| #[trigger] v.bids.sizes.dom().contains(k) ==> k <= bid,
        forall|k: i64| #[trigger] v.asks.sizes.dom().contains(k) ==> ask <= k,
{
    assert(v.bids.sizes.dom().contains(b) && v.asks.sizes.dom().contains(a));
}

/// A price lies as far above its units as the half says, and nowhere else.
pub proof fn half_is_half_a_unit(m: MidPrice)
    ensures
        !m.half ==> m.twice() == m.units + m.units,
        m.half ==> m.twice() == m.units + m.units + 1,
{
}

/// An order that joins a side makes its level larger by its size and longer by one order, and leaves
/// all other levels as they are; side 1 is the bid side, and the other side stays.
pub proof fn order_joins_its_level(v: BookView, side: u8, price: i64, size: i64)
    requires
        i64::MIN <= v.side(side).size_at(price) + size <= i64::MAX,
        v.side(side).depth_at(price) < u64::MAX,
    ensures
        ({
            let after = v.with_side(side, v.side(side).added(price, size));
            let (old, new) = if side == 1 {
                (v.bids, after.bids)
            } else {
                (v.asks, after.asks)
            };
            &&& side == 1 ==> after.asks == v.asks
            &&& side != 1 ==> after.bids == v.bids
            &&& new.sizes.dom() == old.sizes.dom().insert(price)
            &&& new.sizes[price] == size + if old.sizes.dom().contains(price) {
                old.sizes[price] as int
            } else {
                0
            }
            &&& new.depths[price] == 1 + if old.depths.dom().contains(price) {
                old.depths[price] as int
            } else {
                0
            }
            &&& forall|k: i64|
                k != price ==> (#[trigger] after.bids.sizes.dom().contains(k)
                    <==> v.bids.sizes.dom().contains(k))
            &&& forall|k: i64|
                k != price && v.bids.sizes.dom().contains(k) ==> #[trigger] after.bids.sizes[k]
                    == v.bids.sizes[k]
            &&& forall|k: i64|
                k != price ==> (#[trigger] after.asks.sizes.dom().contains(k)
                    <==> v.asks.sizes.dom().contains(k))
            &&& forall|k: i64|
                k != price && v.asks.sizes.dom().contains(k) ==> #[trigger] after.asks.sizes[k]
                    == v.asks.sizes[k]
            &&& (after.last_price, after.last_size, after.last_side, after.vpin) == (
                v.last_price,
                v.last_size,
                v.last_side,
                v.vpin,
            )
        }),
{
}

/// A size that leaves a side makes its level smaller by that size and shorter by one order; a level
/// with nothing left goes. All other levels stay, and so does the other side.
pub proof fn size_leaves_its_level(v: BookView, side: u8, price: i64, size: i64)
    requires
        v.side(side).size_at(price) - size <= i64::MAX,
    ensures
        ({
            let after = v.with_side(side, v.side(side).removed(price, size));
            let (old, new) = if side == 1 {
                (v.bids, after.bids)
            } else {
                (v.asks, after.asks)
            };
            let there = old.sizes.dom().contains(price);
            &&& side == 1 ==> after.asks == v.asks
            &&& side != 1 ==> after.bids == v.bids
            &&& new.sizes.dom().contains(price) <==> there && old.sizes[price] > size
            &&& new.sizes.dom().contains(price) ==> new.sizes[price] + size == old.sizes[price]
            &&& old.depths.dom().contains(price) && old.depths[price] > 1 ==> new.depths[price] + 1
                == old.depths[price]
            &&& !old.depths.dom().contains(price) || old.depths[price] <= 1
                ==> !new.depths.dom().contains(price)
            &&& forall|k: i64|
                k != price ==> (#[trigger] after.bids.sizes.dom().contains(k)
                    <==> v.bids.sizes.dom().contains(k))
            &&& forall|k: i64|
                k != price && v.bids.sizes.dom().contains(k) ==> #[trigger] after.bids.sizes[k]
                    == v.bids.sizes[k]
            &&& forall|k: i64|
                k != price ==> (#[trigger] after.asks.sizes.dom().contains(k)
                    <==> v.asks.sizes.dom().contains(k))
            &&& forall|k: i64|
                k != price && v.asks.sizes.dom().contains(k) ==> #[trigger] after.asks.sizes[k]
                    == v.asks.sizes[k]
            &&& (after.last_price, after.last_size, after.last_side, after.vpin) == (
                v.last_price,
                v.last_size,
                v.last_side,
                v.vpin,
            )
        }),
{
}

/// A trade is remembered as the last one and takes its size off the level of its price, on the bid
/// side where it is of side 1 and on the ask side otherwise.
pub proof fn trade_takes_its_size(v: BookView, tick: TradeFlowStats)
    requires
        v.side(tick.side).size_at(tick.price_int) - tick.size_int <= i64::MAX,
    ensures
        ({
            let after = v.traded(tick);
            let p = tick.price_int;
            &&& (after.last_price, after.last_size, after.last_side, after.vpin) == (
                tick.price_int,
                tick.size_int,
                tick.side,
                tick.vpin,
            )
            &&& tick.side == 1 ==> after.asks == v.asks
            &&& tick.side != 1 ==> after.bids == v.bids
            &&& tick.side == 1 ==> (after.bids.sizes.dom().contains(p)
                <==> v.bids.sizes.dom().contains(p) && v.bids.sizes[p] > tick.size_int)
            &&& tick.side == 1 && after.bids.sizes.dom().contains(p) ==> after.bids.sizes[p]
                + tick.size_int == v.bids.sizes[p]
            &&& tick.side != 1 ==> (after.asks.sizes.dom().contains(p)
                <==> v.asks.sizes.dom().contains(p) && v.asks.sizes[p] > tick.size_int)
            &&& tick.side != 1 && after.asks.sizes.dom().contains(p) ==> after.asks.sizes[p]
                + tick.size_int == v.asks.sizes[p]
            &&& forall|k: i64|
                k != p ==> #[trigger] after.bids.size_at(k) == v.bids.size_at(k)
            &&& forall|k: i64|
                k != p ==> #[trigger] after.asks.size_at(k) == v.asks.size_at(k)
        }),
{
}

/// Adding an order and removing its size again leaves the size of a level as it was, where that was
/// not below zero.
pub proof fn removing_undoes_adding(s: BookSide, price: i64, size: i64)
    requires
        depths_ok(s.depths),
        s.size_at(price) >= 0,
        i64::MIN <= s.size_at(price) + size <= i64::MAX,
        s.depth_at(price) < u64::MAX,
    ensures
        s.added(price, size).removed(price, size).size_at(price) == s.size_at(price),
        s.added(price, size).removed(price, size).depth_at(price) == s.depth_at(price),
        forall|k: i64|
            k != price ==> s.added(price, size).removed(price, size).size_at(k) == s.size_at(k),
{
}

// ---------------------------------------------------------------------------
// Deltas
// ---------------------------------------------------------------------------

/// A change of one level: a positive size is added, any other removed.
#[derive(Debug, Clone, Copy, PartialEq, Eq, Structural)]
pub struct OrderBookDelta {
    pub price_int: i64,
    pub size_delta: i64,
    pub side: Side,
}

impl OrderBookDelta {
    /// The change with these parts.
    pub fn new(price_int: i64, size_delta: i64, side: Side) -> (r: Self)
        ensures
            r == (OrderBookDelta { price_int, size_delta, side }),
    {
        OrderBookDelta { price_int, size_delta, side }
    }

    /// The price.
    pub fn price(&self) -> (r: i64)
        ensures
            r == self.price_int,
    {
        self.price_int
    }

    /// The book behind the change.
    pub open spec fn applied(self, v: BookView) -> BookView {
        let side = v.side(self.side.code());
        v.with_side(
            self.side.code(),
            if self.size_delta > 0 {
                side.added(self.price_int, self.size_delta)
            } else {
                side.removed(self.price_int, (-self.size_delta) as i64)
            },
        )
    }

    /// The change keeps the book in range.
    pub open spec fn fits(self, v: BookView) -> bool {
        let side = v.side(self.side.code());
        &&& self.size_delta > i64::MIN
        &&& self.size_delta > 0 ==> {
            &&& side.size_at(self.price_int) + self.size_delta <= i64::MAX
            &&& side.depth_at(self.price_int) < u64::MAX
        }
    }

    /// Whether the change keeps the book in range.
    pub fn can_apply(&self, book: &OrderBook) -> (r: bool)
        requires
            book.wf(),
        ensures
            r == self.fits(book@),
    {
        if self.size_delta == i64::MIN {
            return false;
        }
        if self.size_delta <= 0 {
            return true;
        }
        let (size, depth) = match self.side {
            Side::Buy => (
                book.bids.get(&self.price_int),
                book.bid_queue_depths.get(&self.price_int),
            ),
            Side::Sell => (
                book.asks.get(&self.price_int),
                book.ask_queue_depths.get(&self.price_int),
            ),
        };
        let size_ok = match size {
            Some(s) => s.checked_add(self.size_delta).is_some(),
            None => true,
        };
        let depth_ok = match depth {
            Some(d) => *d < 0xffff_ffff_ffff_ffff,
            None => true,
        };
        size_ok && depth_ok
    }

    /// Changes a book.
    pub fn apply(&self, book: &mut OrderBook)
        requires
            old(book).wf(),
            self.fits(old(book)@),
        ensures
            final(book).wf(),
            final(book)@ == self.applied(old(book)@),
    {
        if self.size_delta > 0 {
            book.add_limit_order(self.price_int, self.size_delta, self.side.as_u8());
        } else {
            book.remove_size(self.price_int, -self.size_delta, self.side.as_u8());
        }
    }
}

/// A delta changes the level of its own side and price and nothing else: the size there becomes the
/// size before and the signed delta, and where a removal leaves nothing the level goes. The other side
/// of the book stays as it is.
pub proof fn delta_changes_its_own_level(d: OrderBookDelta, v: BookView)
    requires
        d.fits(v),
    ensures
        ({
            let after = d.applied(v);
            let (old, new) = match d.side {
                Side::Buy => (v.bids, after.bids),
                Side::Sell => (v.asks, after.asks),
            };
            let p = d.price_int;
            let before = if old.sizes.dom().contains(p) {
                old.sizes[p] as int
            } else {
                0
            };
            &&& d.side is Buy ==> after.asks == v.asks
            &&& d.side is Sell ==> after.bids == v.bids
            &&& d.size_delta > 0 ==> new.sizes.dom().contains(p) && new.sizes[p] == before
                + d.size_delta
            &&& d.size_delta <= 0 ==> (new.sizes.dom().contains(p) <==> before + d.size_delta > 0
                && old.sizes.dom().contains(p))
            &&& d.size_delta <= 0 && new.sizes.dom().contains(p) ==> new.sizes[p] == before
                + d.size_delta
            &&& forall|k: i64|
                k != d.price_int ==> (#[trigger] after.bids.sizes.dom().contains(k)
                    <==> v.bids.sizes.dom().contains(k))
            &&& forall|k: i64|
                k != d.price_int && v.bids.sizes.dom().contains(k) ==> #[trigger] after.bids.sizes[k]
                    == v.bids.sizes[k]
            &&& forall|k: i64|
                k != d.price_int ==> (#[trigger] after.asks.sizes.dom().contains(k)
                    <==> v.asks.sizes.dom().contains(k))
            &&& forall|k: i64|
                k != d.price_int && v.asks.sizes.dom().contains(k) ==> #[trigger] after.asks.sizes[k]
                    == v.asks.sizes[k]
            &&& (after.last_price, after.last_size, after.last_side, after.vpin) == (
                v.last_price,
                v.last_size,
                v.last_side,
                v.vpin,
            )
        }),
{
}

/// A delta and the opposite one behind it leave the size of the level as it was, where that was not
/// below zero.
pub proof fn opposite_delta_undoes(d: OrderBookDelta, v: BookView, k: i64)
    requires
        d.fits(v),
        d.size_delta > 0,
        v.bids.size_at(d.price_int) >= 0,
        v.asks.size_at(d.price_int) >= 0,
    ensures
        ({
            let back = OrderBookDelta { size_delta: (-d.size_delta) as i64, ..d };
            let after = back.applied(d.applied(v));
            after.bids.size_at(k) == v.bids.size_at(k) && after.asks.size_at(k) == v.asks.size_at(k)
        }),
{
}

/// Changes that are applied together, in order.
#[derive(Debug)]
pub struct OrderBookDeltas {
    pub deltas: Vec<OrderBookDelta>,
    pub timestamp_ns: u64,
}

/// The book behind the first `n` changes.
pub open spec fn after_deltas(v: BookView, deltas: Seq<OrderBookDelta>, n: int) -> BookView
    decreases n,
{
    if n <= 0 {
        v
    } else {
        deltas[n - 1].applied(after_deltas(v, deltas, n - 1))
    }
}

/// Changes are applied one behind the other: those of a first list, and then those of a second one.
pub proof fn deltas_are_applied_in_order(
    v: BookView,
    first: Seq<OrderBookDelta>,
    second: Seq<OrderBookDelta>,
    n: int,
)
    requires
        0 <= n <= second.len(),
    ensures
        after_deltas(v, first + second, first.len() + n) == after_deltas(
            after_deltas(v, first, first.len() as int),
            second,
            n,
        ),
        after_deltas(v, first, 0) == v,
        first.len() > 0 ==> after_deltas(v, first, 1) == first[0].applied(v),
    decreases n,
{
    if n > 0 {
        deltas_are_applied_in_order(v, first, second, n - 1);
        assert((first + second)[first.len() + n - 1] == second[n - 1]);
    } else {
        lemma_deltas_prefix(v, first, second, first.len() as int);
    }
    reveal_with_fuel(after_deltas, 2);
}

proof fn lemma_deltas_prefix(
    v: BookView,
    first: Seq<OrderBookDelta>,
    second: Seq<OrderBookDelta>,
    n: int,
)
    requires
        0 <= n <= first.len(),
    ensures
        after_deltas(v, first + second, n) == after_deltas(v, first, n),
    decreases n,
{
    if n > 0 {
        lemma_deltas_prefix(v, first, second, n - 1);
        assert((first + second)[n - 1] == first[n - 1]);
    }
}

impl OrderBookDeltas {
    /// No changes yet.
    pub fn new(timestamp_ns: u64) -> (r: Self)
        ensures
            r.deltas@ == Seq::<OrderBookDelta>::empty(),
            r.timestamp_ns == timestamp_ns,
    {
        OrderBookDeltas { deltas: Vec::new(), timestamp_ns }
    }

    /// Appends a change of the bid side.
    pub fn add_bid(&mut self, price_int: i64, size_delta: i64)
        ensures
            final(self).deltas@ == old(self).deltas@.push(
                OrderBookDelta { price_int, size_delta, side: Side::Buy },
            ),
            final(self).timestamp_ns == old(self).timestamp_ns,
    {
        self.deltas.push(OrderBookDelta::new(price_int, size_delta, Side::Buy));
    }

    /// Appends a change of the ask side.
    pub fn add_ask(&mut self, price_int: i64, size_delta: i64)
        ensures
            final(self).deltas@ == old(self).deltas@.push(
                OrderBookDelta { price_int, size_delta, side: Side::Sell },
            ),
            final(self).timestamp_ns == old(self).timestamp_ns,
    {
        self.deltas.push(OrderBookDelta::new(price_int, size_delta, Side::Sell));
    }

    /// Changes a book, one change after the other.
    pub fn apply_to(&self, book: &mut OrderBook)
        requires
            old(book).wf(),
            forall|i: int|
                0 <= i < self.deltas@.len() ==> (#[trigger] self.deltas@[i]).fits(
                    after_deltas(old(book)@, self.deltas@, i),
                ),
        ensures
            final(book).wf(),
            final(book)@ == after_deltas(
                old(book)@,
                self.deltas@,
                self.deltas@.len() as int,
            ),
    {
        let mut i: usize = 0;
        while i < self.deltas.len()
            invariant
                i <= self.deltas@.len(),
                book.wf(),
                book@ == after_deltas(old(book)@, self.deltas@, i as int),
                forall|i: int|
                    0 <= i < self.deltas@.len() ==> (#[trigger] self.deltas@[i]).fits(
                        after_deltas(old(book)@, self.deltas@, i),
                    ),
            decreases self.deltas@.len() - i,
        {
            let d: OrderBookDelta = self.deltas[i];
            assert(self.deltas@[i as int].fits(after_deltas(old(book)@, self.deltas@, i as int)));
            d.apply(book);
            i = i + 1;
        }
    }
}

} // verus!
