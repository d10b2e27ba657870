//! Bars and the builder that all aggregators share.

use crate::instrument::InstrumentId;
use vstd::prelude::*;

verus! {

/// Open, high, low, close and volume of a span of trades.
#[derive(Debug, PartialEq, Eq)]
pub struct Bar {
    /// Start of the bar's period in nanoseconds.
    pub ts_event: u64,
    /// Time at which the bar was begun or closed.
    pub ts_init: u64,
    /// Same as `ts_event`.
    pub timestamp_ns: u64,
    pub open: i64,
    pub high: i64,
    pub low: i64,
    pub close: i64,
    pub volume: i64,
    pub buy_volume: i64,
    pub sell_volume: i64,
    pub tick_count: u32,
    pub instrument_id: InstrumentId,
}

impl Clone for Bar {
    fn clone(&self) -> (r: Self)
        ensures
            r == *self,
    {
        Bar {
            ts_event: self.ts_event,
            ts_init: self.ts_init,
            timestamp_ns: self.timestamp_ns,
            open: self.open,
            high: self.high,
            low: self.low,
            close: self.close,
            volume: self.volume,
            buy_volume: self.buy_volume,
            sell_volume: self.sell_volume,
            tick_count: self.tick_count,
            instrument_id: self.instrument_id.clone(),
        }
    }
}

/// The number is within `i64`.
pub open spec fn fits(n: int) -> bool {
    i64::MIN <= n <= i64::MAX
}

/// The greater of two prices.
pub open spec fn greater(a: i64, b: i64) -> i64 {
    if a >= b {
        a
    } else {
        b
    }
}

/// The smaller of two prices.
pub open spec fn smaller(a: i64, b: i64) -> i64 {
    if a <= b {
        a
    } else {
        b
    }
}

/// A price, or the fallback where there is none.
pub open spec fn price_or(p: Option<i64>, fallback: Option<i64>) -> i64 {
    match p {
        Some(x) => x,
        None => match fallback {
            Some(x) => x,
            None => 0,
        },
    }
}

/// Collects trades, or smaller bars, into one bar.
#[derive(Debug)]
pub struct BarBuilder {
    pub instrument_id: InstrumentId,
    pub initialized: bool,
    pub ts_last: u64,
    pub count: u32,
    pub last_close: Option<i64>,
    pub open: Option<i64>,
    pub high: Option<i64>,
    pub low: Option<i64>,
    pub close: Option<i64>,
    pub volume: i64,
    pub buy_volume: i64,
    pub sell_volume: i64,
}

impl BarBuilder {
    /// A builder that has seen nothing.
    pub open spec fn fresh(instrument_id: InstrumentId) -> BarBuilder {
        BarBuilder {
            instrument_id,
            initialized: false,
            ts_last: 0,
            count: 0,
            last_close: None,
            open: None,
            high: None,
            low: None,
            close: None,
            volume: 0,
            buy_volume: 0,
            sell_volume: 0,
        }
    }

    /// One more trade of this size keeps count and volume in range.
    pub open spec fn takes(self, size: int) -> bool {
        self.count < u32::MAX && fits(self.volume + size)
    }

    /// The builder behind one more trade.
    pub open spec fn updated(self, price: i64, size: int, ts_init: u64) -> BarBuilder {
        let (open, high, low) = if self.initialized {
            (self.open, self.high, self.low)
        } else {
            (Some(price), Some(price), Some(price))
        };
        BarBuilder {
            instrument_id: self.instrument_id,
            initialized: true,
            ts_last: ts_init,
            count: (self.count + 1) as u32,
            last_close: self.last_close,
            open,
            high: match high {
                Some(h) => Some(greater(h, price)),
                None => None,
            },
            low: match low {
                Some(l) => Some(smaller(l, price)),
                None => None,
            },
            close: Some(price),
            volume: (self.volume + size) as i64,
            buy_volume: self.buy_volume,
            sell_volume: self.sell_volume,
        }
    }

    /// The bar keeps count and volumes in range.
    pub open spec fn takes_bar(self, bar: Bar) -> bool {
        &&& self.count + bar.tick_count <= u32::MAX
        &&& fits(self.volume + bar.volume)
        &&& fits(self.buy_volume + bar.buy_volume)
        &&& fits(self.sell_volume + bar.sell_volume)
    }

    /// The builder behind a bar.
    pub open spec fn merged(self, bar: Bar) -> BarBuilder {
        BarBuilder {
            instrument_id: self.instrument_id,
            initialized: true,
            ts_last: bar.ts_init,
            count: (self.count + bar.tick_count) as u32,
            last_close: self.last_close,
            open: if self.initialized {
                self.open
            } else {
                Some(bar.open)
            },
            high: if self.initialized {
                match self.high {
                    Some(h) => Some(greater(h, bar.high)),
                    None => None,
                }
            } else {
                Some(bar.high)
            },
            low: if self.initialized {
                match self.low {
                    Some(l) => Some(smaller(l, bar.low)),
                    None => None,
                }
            } else {
                Some(bar.low)
            },
            close: Some(bar.close),
            volume: (self.volume + bar.volume) as i64,
            buy_volume: (self.buy_volume + bar.buy_volume) as i64,
            sell_volume: (self.sell_volume + bar.sell_volume) as i64,
        }
    }

    /// The builder without its trades; the close is kept as the last one.
    pub open spec fn emptied(self) -> BarBuilder {
        BarBuilder { last_close: self.close, ..BarBuilder::fresh(self.instrument_id) }
    }

    /// The bar of the trades seen. Where there were none, the prices are the last close, or 0.
    pub open spec fn bar(self, ts_event: u64, ts_init: u64) -> Bar {
        Bar {
            ts_event,
            ts_init,
            timestamp_ns: ts_event,
            open: price_or(self.open, self.last_close),
            high: price_or(self.high, self.last_close),
            low: price_or(self.low, self.last_close),
            close: price_or(self.close, self.last_close),
            volume: self.volume,
            buy_volume: self.buy_volume,
            sell_volume: self.sell_volume,
            tick_count: self.count,
            instrument_id: self.instrument_id,
        }
    }

    /// The bar of the trades seen, at the time of the last one.
    pub open spec fn bar_now(self) -> Bar {
        self.bar(self.ts_last, self.ts_last)
    }

    /// A builder for an instrument.
    pub fn new(instrument_id: InstrumentId) -> (r: Self)
        ensures
            r == BarBuilder::fresh(instrument_id),
    {
        BarBuilder {
            instrument_id,
            initialized: false,
            ts_last: 0,
            count: 0,
            last_close: None,
            open: None,
            high: None,
            low: None,
            close: None,
            volume: 0,
            buy_volume: 0,
            sell_volume: 0,
        }
    }

    /// Whether one more trade keeps count and volume in range.
    pub fn can_update(&self, size: i64) -> (r: bool)
        ensures
            r == self.takes(size as int),
    {
        self.count < 0xffff_ffff && self.volume.checked_add(size).is_some()
    }

    /// Takes a trade.
    pub fn update(&mut self, price: i64, size: i64, ts_init: u64)
        requires
            old(self).takes(size as int),
        ensures
            *final(self) == old(self).updated(price, size as int, ts_init),
    {
        self.ts_last = ts_init;
        self.count = self.count + 1;
        if !self.initialized {
            self.open = Some(price);
            self.high = Some(price);
            self.low = Some(price);
            self.initialized = true;
        }
        self.close = Some(price);
        if let Some(h) = self.high {
            if price > h {
                self.high = Some(price);
            }
        }
        if let Some(l) = self.low {
            if price < l {
                self.low = Some(price);
            }
        }
        self.volume = self.volume + size;
    }

    /// Takes a bar of a shorter span.
    pub fn update_bar(&mut self, bar: &Bar)
        requires
            old(self).takes_bar(*bar),
        ensures
            *final(self) == old(self).merged(*bar),
    {
        self.ts_last = bar.ts_init;
        self.count = self.count + bar.tick_count;
        if !self.initialized {
            self.open = Some(bar.open);
            self.high = Some(bar.high);
            self.low = Some(bar.low);
            self.initialized = true;
        } else {
            if let Some(h) = self.high {
                if bar.high > h {
                    self.high = Some(bar.high);
                }
            }
            if let Some(l) = self.low {
                if bar.low < l {
                    self.low = Some(bar.low);
                }
            }
        }
        self.close = Some(bar.close);
        self.volume = self.volume + bar.volume;
        self.buy_volume = self.buy_volume + bar.buy_volume;
        self.sell_volume = self.sell_volume + bar.sell_volume;
    }

    /// Drops the trades seen and keeps the close as the last one.
    pub fn reset(&mut self)
        ensures
            *final(self) == old(self).emptied(),
    {
        self.initialized = false;
        self.ts_last = 0;
        self.count = 0;
        self.last_close = self.close;
        self.open = None;
        self.high = None;
        self.low = None;
        self.close = None;
        self.volume = 0;
        self.buy_volume = 0;
        self.sell_volume = 0;
    }

    /// Closes the bar with these times and starts anew.
    pub fn build(&mut self, ts_event: u64, ts_init: u64) -> (r: Bar)
        ensures
            r == old(self).bar(ts_event, ts_init),
            *final(self) == old(self).emptied(),
    {
        let last: i64 = match self.last_close {
            Some(x) => x,
            None => 0,
        };
        let bar = Bar {
            ts_event,
            ts_init,
            timestamp_ns: ts_event,
            open: self.open.unwrap_or(last),
            high: self.high.unwrap_or(last),
            low: self.low.unwrap_or(last),
            close: self.close.unwrap_or(last),
            volume: self.volume,
            buy_volume: self.buy_volume,
            sell_volume: self.sell_volume,
            tick_count: self.count,
            instrument_id: self.instrument_id.clone(),
        };
        self.reset();
        bar
    }

    /// Closes the bar at the time of the last trade and starts anew.
    pub fn build_now(&mut self) -> (r: Bar)
        ensures
            r == old(self).bar_now(),
            *final(self) == old(self).emptied(),
    {
        let ts: u64 = self.ts_last;
        self.build(ts, ts)
    }
}

// ---------------------------------------------------------------------------
// What a builder holds
// ---------------------------------------------------------------------------

/// A trade as a builder sees it.
pub struct TradeIn {
    pub price: i64,
    pub size: i64,
    pub ts: u64,
}

/// The sizes of trades added up.
pub open spec fn total_size(trades: Seq<TradeIn>) -> int
    decreases trades.len(),
{
    if trades.len() == 0 {
        0
    } else {
        total_size(trades.drop_last()) + trades.last().size
    }
}

/// The price is the highest of the trades.
pub open spec fn is_highest(trades: Seq<TradeIn>, price: i64) -> bool {
    &&& forall|i: int| 0 <= i < trades.len() ==> (#[trigger] trades[i]).price <= price
    &&& exists|i: int| 0 <= i < trades.len() && (#[trigger] trades[i]).price == price
}

/// The price is the lowest of the trades.
pub open spec fn is_lowest(trades: Seq<TradeIn>, price: i64) -> bool {
    &&& forall|i: int| 0 <= i < trades.len() ==> (#[trigger] trades[i]).price >= price
    &&& exists|i: int| 0 <= i < trades.len() && (#[trigger] trades[i]).price == price
}

/// The builder has seen exactly these trades since it was empty.
pub open spec fn holds_trades(b: BarBuilder, trades: Seq<TradeIn>) -> bool {
    &&& b.count == trades.len()
    &&& b.volume == total_size(trades)
    &&& b.initialized == (trades.len() > 0)
    &&& trades.len() > 0 ==> {
        &&& b.open == Some(trades[0].price)
        &&& b.close == Some(trades.last().price)
        &&& b.ts_last == trades.last().ts
        &&& b.high matches Some(h) && is_highest(trades, h)
        &&& b.low matches Some(l) && is_lowest(trades, l)
    }
    &&& trades.len() == 0 ==> b.open is None && b.high is None && b.low is None && b.close is None
}

/// A new or emptied builder holds no trades.
pub proof fn empty_holds_nothing(b: BarBuilder, id: InstrumentId)
    ensures
        holds_trades(BarBuilder::fresh(id), seq![]),
        holds_trades(b.emptied(), seq![]),
{
}

/// A builder holds the trades that it was given: open is the first price, close the last, high
/// and low the extremes, and the volume is the sum of the sizes.
pub proof fn update_adds_the_trade(b: BarBuilder, trades: Seq<TradeIn>, t: TradeIn)
    requires
        holds_trades(b, trades),
        b.takes(t.size as int),
    ensures
        holds_trades(b.updated(t.price, t.size as int, t.ts), trades.push(t)),
{
    let more = trades.push(t);
    let c = b.updated(t.price, t.size as int, t.ts);
    assert(more.drop_last() =~= trades);
    assert(more.last() == t);
    let h = c.high->0;
    let l = c.low->0;
    assert(more[trades.len() as int] == t);
    if trades.len() > 0 {
        let bh = b.high->0;
        let bl = b.low->0;
        let i = choose|i: int| 0 <= i < trades.len() && (#[trigger] trades[i]).price == bh;
        assert(more[i] == trades[i]);
        let j = choose|j: int| 0 <= j < trades.len() && (#[trigger] trades[j]).price == bl;
        assert(more[j] == trades[j]);
        assert forall|k: int| 0 <= k < more.len() implies (#[trigger] more[k]).price <= h
            && more[k].price >= l by {
            if k < trades.len() {
                assert(more[k] == trades[k]);
            }
        }
        assert(more[0] == trades[0]);
    }
    assert(is_highest(more, h));
    assert(is_lowest(more, l));
}

/// The bar of a builder tells of the trades that the builder was given, and of nothing else: the
/// first and the last price, the greatest and the least, how many there were and their sizes added up.
pub proof fn bar_tells_of_its_trades(
    b: BarBuilder,
    trades: Seq<TradeIn>,
    ts_event: u64,
    ts_init: u64,
)
    requires
        holds_trades(b, trades),
        trades.len() > 0,
    ensures
        ({
            let bar = b.bar(ts_event, ts_init);
            &&& bar.open == trades[0].price
            &&& bar.close == trades[trades.len() - 1].price
            &&& forall|i: int|
                0 <= i < trades.len() ==> bar.low <= (#[trigger] trades[i]).price <= bar.high
            &&& exists|i: int| 0 <= i < trades.len() && (#[trigger] trades[i]).price == bar.high
            &&& exists|i: int| 0 <= i < trades.len() && (#[trigger] trades[i]).price == bar.low
            &&& bar.tick_count == trades.len()
            &&& bar.volume == total_size(trades)
            &&& bar.ts_event == ts_event && bar.timestamp_ns == ts_event && bar.ts_init == ts_init
            &&& bar.instrument_id == b.instrument_id
            &&& b.bar_now() == b.bar(trades[trades.len() - 1].ts, trades[trades.len() - 1].ts)
        }),
{
    assert(trades[trades.len() - 1] == trades.last());
}

/// The bar of a builder without trades stands still at the close before, or at 0 where there was
/// none: nothing was traded in it.
pub proof fn bar_without_trades_stands_still(
    b: BarBuilder,
    ts_event: u64,
    ts_init: u64,
)
    requires
        holds_trades(b, seq![]),
    ensures
        ({
            let bar = b.bar(ts_event, ts_init);
            let last = match b.last_close {
                Some(p) => p,
                None => 0,
            };
            &&& (bar.open, bar.high, bar.low, bar.close) == (last, last, last, last)
            &&& bar.volume == 0 && bar.tick_count == 0
        }),
{
}

/// An emptied builder remembers the last price as the close before.
pub proof fn emptied_builder_keeps_the_close(b: BarBuilder, trades: Seq<TradeIn>)
    requires
        holds_trades(b, trades),
        trades.len() > 0,
    ensures
        b.emptied().last_close == Some(trades[trades.len() - 1].price),
        b.emptied().volume == 0 && b.emptied().buy_volume == 0 && b.emptied().sell_volume == 0,
        b.emptied().instrument_id == b.instrument_id,
{
    assert(trades[trades.len() - 1] == trades.last());
}

/// A builder that is given a bar of a shorter span behind its trades covers both: it opens where it
/// opened, closes where the bar closed, reaches as high and as low as either of them, and has the
/// trades and the volumes of both.
pub proof fn merging_covers_both(b: BarBuilder, bar: Bar, ts_event: u64, ts_init: u64)
    requires
        b.takes_bar(bar),
        b.initialized ==> b.open is Some && b.high is Some && b.low is Some,
    ensures
        ({
            let before = b.bar(ts_event, ts_init);
            let after = b.merged(bar).bar(ts_event, ts_init);
            &&& after.close == bar.close
            &&& after.tick_count == before.tick_count + bar.tick_count
            &&& after.volume == before.volume + bar.volume
            &&& after.buy_volume == before.buy_volume + bar.buy_volume
            &&& after.sell_volume == before.sell_volume + bar.sell_volume
            &&& b.initialized ==> {
                &&& after.open == before.open
                &&& after.high >= before.high && after.high >= bar.high
                &&& after.high == before.high || after.high == bar.high
                &&& after.low <= before.low && after.low <= bar.low
                &&& after.low == before.low || after.low == bar.low
            }
            &&& !b.initialized ==> (after.open, after.high, after.low) == (
                bar.open,
                bar.high,
                bar.low,
            )
            &&& b.merged(bar).ts_last == bar.ts_init
            &&& b.merged(bar).last_close == b.last_close
            &&& b.merged(bar).instrument_id == b.instrument_id
            &&& b.merged(bar).initialized
        }),
{
}

/// A bar of at least one trade has its open and close between its low and high.
pub proof fn bar_prices_are_ordered(
    b: BarBuilder,
    trades: Seq<TradeIn>,
    ts_event: u64,
    ts_init: u64,
)
    requires
        holds_trades(b, trades),
        trades.len() > 0,
    ensures
        ({
            let bar = b.bar(ts_event, ts_init);
            bar.low <= bar.open <= bar.high && bar.low <= bar.close <= bar.high
        }),
{
    assert(trades[0].price == trades[0].price);
    assert(trades[trades.len() - 1] == trades.last());
}

} // verus!
