//! Aggregators: close bars by time, count, volume, value, imbalance or runs.

use crate::buffer::bar_builder;
use crate::buffer::bar_builder::{Bar, BarBuilder};
use crate::buffer::bar_spec::{BarAggregation, BarType};
use crate::buffer::tick_buffer::{TickBuffer, TradeFlowStats, Vpin};
use crate::instrument::InstrumentId;
use vstd::prelude::*;

verus! {

/// Common lengths of a time bar.
#[derive(Debug, Clone, Copy, PartialEq, Eq, PartialOrd, Ord, Structural)]
pub enum BarPeriod {
    OneSecond,
    OneMinute,
    FiveMinutes,
    FifteenMinutes,
    OneHour,
    OneDay,
}

impl BarPeriod {
    /// The length in nanoseconds.
    pub open spec fn ns(self) -> u64 {
        match self {
            BarPeriod::OneSecond => 1_000_000_000,
            BarPeriod::OneMinute => 60_000_000_000,
            BarPeriod::FiveMinutes => 300_000_000_000,
            BarPeriod::FifteenMinutes => 900_000_000_000,
            BarPeriod::OneHour => 3_600_000_000_000,
            BarPeriod::OneDay => 86_400_000_000_000,
        }
    }

    /// The short name.
    pub open spec fn spec_name(self) -> Seq<char> {
        match self {
            BarPeriod::OneSecond => "1s"@,
            BarPeriod::OneMinute => "1m"@,
            BarPeriod::FiveMinutes => "5m"@,
            BarPeriod::FifteenMinutes => "15m"@,
            BarPeriod::OneHour => "1h"@,
            BarPeriod::OneDay => "1d"@,
        }
    }

    /// The length in nanoseconds.
    pub fn as_ns(&self) -> (r: u64)
        ensures
            r == self.ns(),
            r > 0,
    {
        match self {
            BarPeriod::OneSecond => 1_000_000_000,
            BarPeriod::OneMinute => 60_000_000_000,
            BarPeriod::FiveMinutes => 300_000_000_000,
            BarPeriod::FifteenMinutes => 900_000_000_000,
            BarPeriod::OneHour => 3_600_000_000_000,
            BarPeriod::OneDay => 86_400_000_000_000,
        }
    }

    /// The short name.
    pub fn name(&self) -> (r: &'static str)
        ensures
            r@ == self.spec_name(),
    {
        match self {
            BarPeriod::OneSecond => "1s",
            BarPeriod::OneMinute => "1m",
            BarPeriod::FiveMinutes => "5m",
            BarPeriod::FifteenMinutes => "15m",
            BarPeriod::OneHour => "1h",
            BarPeriod::OneDay => "1d",
        }
    }
}

/// The lengths are those of the clock: sixty seconds to the minute, sixty minutes to the hour, and
/// twenty-four hours to the day.
pub proof fn lengths_are_those_of_the_clock()
    ensures
        BarPeriod::OneSecond.ns() == 1_000_000_000,
        BarPeriod::OneMinute.ns() == 60 * BarPeriod::OneSecond.ns(),
        BarPeriod::FiveMinutes.ns() == 5 * BarPeriod::OneMinute.ns(),
        BarPeriod::FifteenMinutes.ns() == 3 * BarPeriod::FiveMinutes.ns(),
        BarPeriod::OneHour.ns() == 4 * BarPeriod::FifteenMinutes.ns(),
        BarPeriod::OneDay.ns() == 24 * BarPeriod::OneHour.ns(),
{
}

/// A way of closing bars: a state that each trade moves on, giving a bar at times.
pub trait Aggregator: Sized {
    /// The trade keeps the state in range.
    spec fn accepts(self, price: i64, size: i64, side: u8, timestamp_ns: u64) -> bool;

    /// The state behind a trade, and the bar that it closes.
    spec fn step(self, price: i64, size: i64, side: u8, timestamp_ns: u64) -> (Self, Option<Bar>);

    /// The state can follow the clock.
    spec fn clocked(self) -> bool;

    /// The state behind a clock advance, and the bar that it closes.
    spec fn at_time(self, timestamp_ns: u64) -> (Self, Option<Bar>);

    /// The state behind the end of the trades, and the bar that it closes.
    spec fn flushed(self) -> (Self, Option<Bar>);

    /// The bar type, where there is one.
    spec fn kind(self) -> Option<BarType>;

    /// Whether a trade keeps the state in range.
    fn can_update(&self, price: i64, size: i64, side: u8, timestamp_ns: u64) -> (r: bool)
        ensures
            r == self.accepts(price, size, side, timestamp_ns),
    ;

    /// Takes a trade.
    fn update(&mut self, price: i64, size: i64, side: u8, timestamp_ns: u64) -> (r: Option<Bar>)
        requires
            old(self).accepts(price, size, side, timestamp_ns),
        ensures
            (*final(self), r) == old(self).step(price, size, side, timestamp_ns),
    ;

    /// Follows the clock.
    fn advance_time(&mut self, timestamp_ns: u64) -> (r: Option<Bar>)
        requires
            old(self).clocked(),
        ensures
            (*final(self), r) == old(self).at_time(timestamp_ns),
    ;

    /// Closes the open bar.
    fn flush(&mut self) -> (r: Option<Bar>)
        ensures
            (*final(self), r) == old(self).flushed(),
    ;

    /// The bar type, where there is one.
    fn bar_type(&self) -> (r: Option<&BarType>)
        ensures
            match r {
                Some(t) => self.kind() == Some(*t),
                None => self.kind() is None,
            },
    ;
}

// ---------------------------------------------------------------------------
// TimeBarAggregator
// ---------------------------------------------------------------------------

/// Closes a bar when a trade or the clock enters another period.
#[derive(Debug)]
pub struct TimeBarAggregator {
    pub instrument_id: InstrumentId,
    pub period_ns: u64,
    pub current_bar: Option<Bar>,
}

/// Time-based aggregation under its short name.
pub type BarAggregator = TimeBarAggregator;

/// The start of the period in which a time lies.
pub open spec fn period_start(timestamp_ns: u64, period_ns: u64) -> u64 {
    (timestamp_ns - timestamp_ns % period_ns) as u64
}

/// The period's start is a multiple of its length, at most one period before the time.
pub proof fn period_holds_its_time(timestamp_ns: u64, period_ns: u64)
    requires
        period_ns > 0,
    ensures
        period_start(timestamp_ns, period_ns) % period_ns == 0,
        period_start(timestamp_ns, period_ns) <= timestamp_ns,
        timestamp_ns - period_start(timestamp_ns, period_ns) < period_ns,
        period_start(timestamp_ns, period_ns) == (timestamp_ns as int / period_ns as int)
            * period_ns,
{
    let t = timestamp_ns as int;
    let p = period_ns as int;
    vstd::arithmetic::div_mod::lemma_fundamental_div_mod(t, p);
    vstd::arithmetic::div_mod::lemma_mod_multiples_basic(t / p, p);
    assert(p * (t / p) == (t / p) * p) by (nonlinear_arith);
}

/// The bar that a trade begins.
pub open spec fn opened_bar(
    id: InstrumentId,
    start: u64,
    price: i64,
    size: i64,
    side: u8,
    timestamp_ns: u64,
) -> Bar {
    Bar {
        ts_event: start,
        ts_init: timestamp_ns,
        timestamp_ns: start,
        open: price,
        high: price,
        low: price,
        close: price,
        volume: size,
        buy_volume: if side == 0 {
            size
        } else {
            0
        },
        sell_volume: if side == 0 {
            0
        } else {
            size
        },
        tick_count: 1,
        instrument_id: id,
    }
}

/// The bar behind one more trade.
pub open spec fn extended_bar(bar: Bar, price: i64, size: i64, side: u8) -> Bar {
    Bar {
        high: bar_builder::greater(bar.high, price),
        low: bar_builder::smaller(bar.low, price),
        close: price,
        volume: (bar.volume + size) as i64,
        buy_volume: if side == 0 {
            (bar.buy_volume + size) as i64
        } else {
            bar.buy_volume
        },
        sell_volume: if side == 0 {
            bar.sell_volume
        } else {
            (bar.sell_volume + size) as i64
        },
        tick_count: (bar.tick_count + 1) as u32,
        ..bar
    }
}

/// A trade of a side.
pub struct SidedTrade {
    pub price: i64,
    pub size: i64,
    pub side: u8,
    pub ts: u64,
}

/// The sizes of the trades that were bought, or of the others, added up.
pub open spec fn sided_size(trades: Seq<SidedTrade>, bought: bool) -> int
    decreases trades.len(),
{
    if trades.len() == 0 {
        0
    } else {
        sided_size(trades.drop_last(), bought) + if (trades.last().side == 0) == bought {
            trades.last().size as int
        } else {
            0
        }
    }
}

/// The bar tells of the trades: open is the first price and close the last, high is the greatest
/// price and low the least, and the volumes are the sums of what was bought, of what was sold, and of
/// both.
pub open spec fn tells_of(bar: Bar, trades: Seq<SidedTrade>) -> bool {
    &&& trades.len() > 0
    &&& bar.open == trades[0].price
    &&& bar.close == trades[trades.len() - 1].price
    &&& forall|i: int| 0 <= i < trades.len() ==> bar.low <= (#[trigger] trades[i]).price <= bar.high
    &&& exists|i: int| 0 <= i < trades.len() && (#[trigger] trades[i]).price == bar.high
    &&& exists|i: int| 0 <= i < trades.len() && (#[trigger] trades[i]).price == bar.low
    &&& bar.buy_volume == sided_size(trades, true)
    &&& bar.sell_volume == sided_size(trades, false)
    &&& bar.volume == bar.buy_volume + bar.sell_volume
    &&& bar.tick_count == trades.len()
    &&& bar.ts_init == trades[0].ts
}

/// The low of a bar is not above its open and its close, and its high not below them.
pub proof fn told_prices_are_ordered(bar: Bar, trades: Seq<SidedTrade>)
    requires
        tells_of(bar, trades),
    ensures
        bar.low <= bar.open <= bar.high,
        bar.low <= bar.close <= bar.high,
{
    assert(bar.low <= trades[0].price <= bar.high);
    assert(bar.low <= trades[trades.len() - 1].price <= bar.high);
}

proof fn lemma_one_trade_is_told(bar: Bar, t: SidedTrade)
    requires
        (bar.open, bar.high, bar.low, bar.close) == (t.price, t.price, t.price, t.price),
        bar.volume == t.size,
        bar.buy_volume == (if t.side == 0 {
            t.size as int
        } else {
            0
        }),
        bar.sell_volume == t.size - bar.buy_volume,
        bar.tick_count == 1,
        bar.ts_init == t.ts,
    ensures
        tells_of(bar, seq![t]),
{
    let trades = seq![t];
    assert(trades[0] == t);
    assert(trades.drop_last() =~= seq![]);
    reveal_with_fuel(sided_size, 2);
}

/// One more trade keeps the bar in range.
pub open spec fn bar_takes(bar: Bar, size: i64, side: u8) -> bool {
    &&& bar_builder::fits(bar.volume + size)
    &&& side == 0 ==> bar_builder::fits(bar.buy_volume + size)
    &&& side != 0 ==> bar_builder::fits(bar.sell_volume + size)
    &&& bar.tick_count < u32::MAX
}

impl TimeBarAggregator {
    /// The trade keeps the open bar in range.
    pub open spec fn time_accepts(self, size: i64, side: u8, timestamp_ns: u64) -> bool {
        &&& self.period_ns > 0
        &&& self.current_bar matches Some(bar) ==> bar.ts_event == period_start(
            timestamp_ns,
            self.period_ns,
        ) ==> bar_takes(bar, size, side)
    }

    /// The state behind a trade, and the bar of the period that it leaves.
    pub open spec fn time_step(self, price: i64, size: i64, side: u8, timestamp_ns: u64) -> (
        Self,
        Option<Bar>,
    ) {
        let start = period_start(timestamp_ns, self.period_ns);
        let opened = opened_bar(self.instrument_id, start, price, size, side, timestamp_ns);
        match self.current_bar {
            Some(bar) => if bar.ts_event == start {
                (
                    TimeBarAggregator {
                        current_bar: Some(extended_bar(bar, price, size, side)),
                        ..self
                    },
                    None,
                )
            } else {
                (TimeBarAggregator { current_bar: Some(opened), ..self }, Some(bar))
            },
            None => (TimeBarAggregator { current_bar: Some(opened), ..self }, None),
        }
    }

    /// Bars of a common length.
    pub fn new(period: BarPeriod, instrument_id: InstrumentId) -> (r: Self)
        ensures
            r == (TimeBarAggregator { instrument_id, period_ns: period.ns(), current_bar: None }),
    {
        TimeBarAggregator { instrument_id, period_ns: period.as_ns(), current_bar: None }
    }

    /// Bars of any length.
    pub fn with_period_ns(period_ns: u64, instrument_id: InstrumentId) -> (r: Self)
        ensures
            r == (TimeBarAggregator { instrument_id, period_ns, current_bar: None }),
    {
        TimeBarAggregator { instrument_id, period_ns, current_bar: None }
    }

    fn bar_start(&self, timestamp_ns: u64) -> (r: u64)
        requires
            self.period_ns > 0,
        ensures
            r == period_start(timestamp_ns, self.period_ns),
    {
        proof {
            vstd::arithmetic::div_mod::lemma_mod_decreases(
                timestamp_ns as nat,
                self.period_ns as nat,
            );
        }
        timestamp_ns - timestamp_ns % self.period_ns
    }

    /// Whether a trade keeps the open bar in range.
    pub fn can_take(&self, size: i64, side: u8, timestamp_ns: u64) -> (r: bool)
        ensures
            r == self.time_accepts(size, side, timestamp_ns),
    {
        if self.period_ns == 0 {
            return false;
        }
        match &self.current_bar {
            Some(bar) => {
                bar.ts_event != self.bar_start(timestamp_ns) || (bar.volume.checked_add(
                    size,
                ).is_some() && bar.tick_count < 0xffff_ffff && (if side == 0 {
                    bar.buy_volume.checked_add(size).is_some()
                } else {
                    bar.sell_volume.checked_add(size).is_some()
                }))
            },
            None => true,
        }
    }

    /// Takes a trade; gives the bar of the period that it leaves.
    pub fn update(&mut self, tick: &TradeFlowStats) -> (r: Option<Bar>)
        requires
            old(self).time_accepts(tick.size_int, tick.side, tick.timestamp_ns),
        ensures
            (*final(self), r) == old(self).time_step(
                tick.price_int,
                tick.size_int,
                tick.side,
                tick.timestamp_ns,
            ),
    {
        let start: u64 = self.bar_start(tick.timestamp_ns);
        match self.current_bar.take() {
            Some(bar) => {
                if bar.ts_event == start {
                    self.current_bar = Some(TimeBarAggregator::extend(bar, tick));
                    None
                } else {
                    self.start_new_bar(tick, start);
                    Some(bar)
                }
            },
            None => {
                self.start_new_bar(tick, start);
                None
            },
        }
    }

    fn start_new_bar(&mut self, tick: &TradeFlowStats, bar_start: u64)
        ensures
            *final(self) == (TimeBarAggregator {
                current_bar: Some(
                    opened_bar(
                        old(self).instrument_id,
                        bar_start,
                        tick.price_int,
                        tick.size_int,
                        tick.side,
                        tick.timestamp_ns,
                    ),
                ),
                ..*old(self)
            }),
    {
        let (buy_volume, sell_volume): (i64, i64) = if tick.side == 0 {
            (tick.size_int, 0)
        } else {
            (0, tick.size_int)
        };
        self.current_bar = Some(
            Bar {
                ts_event: bar_start,
                ts_init: tick.timestamp_ns,
                timestamp_ns: bar_start,
                open: tick.price_int,
                high: tick.price_int,
                low: tick.price_int,
                close: tick.price_int,
                volume: tick.size_int,
                buy_volume,
                sell_volume,
                tick_count: 1,
                instrument_id: self.instrument_id.clone(),
            },
        );
    }

    fn extend(bar: Bar, tick: &TradeFlowStats) -> (r: Bar)
        requires
            bar_takes(bar, tick.size_int, tick.side),
        ensures
            r == extended_bar(bar, tick.price_int, tick.size_int, tick.side),
    {
        let mut bar = bar;
        if tick.price_int > bar.high {
            bar.high = tick.price_int;
        }
        if tick.price_int < bar.low {
            bar.low = tick.price_int;
        }
        bar.close = tick.price_int;
        bar.volume = bar.volume + tick.size_int;
        if tick.side == 0 {
            bar.buy_volume = bar.buy_volume + tick.size_int;
        } else {
            bar.sell_volume = bar.sell_volume + tick.size_int;
        }
        bar.tick_count = bar.tick_count + 1;
        bar
    }

    /// Takes a trade given by its parts.
    pub fn update_raw(&mut self, price: i64, size: i64, side: u8, timestamp_ns: u64) -> (r: Option<
        Bar,
    >)
        requires
            old(self).time_accepts(size, side, timestamp_ns),
        ensures
            (*final(self), r) == old(self).time_step(price, size, side, timestamp_ns),
    {
        let tick = TradeFlowStats {
            timestamp_ns,
            price_int: price,
            size_int: size,
            side,
            cum_buy_volume: 0,
            cum_sell_volume: 0,
            vpin: Vpin { num: 0, den: 1 },
            bucket_index: 0,
        };
        self.update(&tick)
    }

    /// Gives the open bar.
    pub fn flush(&mut self) -> (r: Option<Bar>)
        ensures
            r == old(self).current_bar,
            *final(self) == (TimeBarAggregator { current_bar: None, ..*old(self) }),
    {
        self.current_bar.take()
    }

    /// The state behind a clock advance: a bar whose period is over is closed.
    pub open spec fn time_at(self, timestamp_ns: u64) -> (Self, Option<Bar>) {
        match self.current_bar {
            Some(bar) => if bar.ts_event < period_start(timestamp_ns, self.period_ns) {
                (TimeBarAggregator { current_bar: None, ..self }, Some(bar))
            } else {
                (self, None)
            },
            None => (self, None),
        }
    }

    /// Closes the open bar if the clock has left its period.
    pub fn advance_time(&mut self, timestamp_ns: u64) -> (r: Option<Bar>)
        requires
            old(self).period_ns > 0,
        ensures
            (*final(self), r) == old(self).time_at(timestamp_ns),
    {
        let start: u64 = self.bar_start(timestamp_ns);
        let over = match &self.current_bar {
            Some(bar) => bar.ts_event < start,
            None => false,
        };
        if over {
            self.current_bar.take()
        } else {
            None
        }
    }

    /// Whether no bar is open.
    pub fn is_empty(&self) -> (r: bool)
        ensures
            r == self.current_bar is None,
    {
        self.current_bar.is_none()
    }
}

/// The open bar of a time aggregator tells of the trades of its period. A trade of the period joins
/// the bar; any other closes the bar as it stands and begins one of its own period.
pub proof fn time_bar_tells_of_its_period(
    a: TimeBarAggregator,
    trades: Seq<SidedTrade>,
    t: SidedTrade,
)
    requires
        a.time_accepts(t.size, t.side, t.ts),
        a.current_bar matches Some(bar) ==> tells_of(bar, trades) && bar.ts_event % a.period_ns == 0
            && bar.timestamp_ns == bar.ts_event && bar.instrument_id == a.instrument_id,
    ensures
        ({
            let (next, closed) = a.time_step(t.price, t.size, t.side, t.ts);
            let joins = a.current_bar matches Some(bar) && bar.ts_event <= t.ts < bar.ts_event
                + a.period_ns;
            &&& next.period_ns == a.period_ns && next.instrument_id == a.instrument_id
            &&& next.current_bar matches Some(bar) && {
                &&& tells_of(
                    bar,
                    if joins {
                        trades.push(t)
                    } else {
                        seq![t]
                    },
                )
                &&& bar.low <= bar.open <= bar.high && bar.low <= bar.close <= bar.high
                &&& bar.ts_event <= t.ts < bar.ts_event + a.period_ns
                &&& bar.ts_event % a.period_ns == 0
                &&& bar.timestamp_ns == bar.ts_event
                &&& bar.instrument_id == a.instrument_id
            }
            &&& joins ==> closed is None
            &&& !joins ==> closed == a.current_bar
        }),
{
    let (next, closed) = a.time_step(t.price, t.size, t.side, t.ts);
    let start = period_start(t.ts, a.period_ns);
    period_holds_its_time(t.ts, a.period_ns);
    let bar = next.current_bar->0;
    if a.current_bar is Some {
        let old = a.current_bar->0;
        let p = a.period_ns as int;
        if old.ts_event <= t.ts < old.ts_event + p {
            let k = old.ts_event as int / p;
            vstd::arithmetic::div_mod::lemma_fundamental_div_mod(old.ts_event as int, p);
            assert(t.ts == k * p + (t.ts - old.ts_event)) by (nonlinear_arith)
                requires
                    old.ts_event == p * k,
            ;
            vstd::arithmetic::div_mod::lemma_fundamental_div_mod_converse(
                t.ts as int,
                p,
                k,
                t.ts - old.ts_event,
            );
        }
        if old.ts_event == start {
            let more = trades.push(t);
            assert(more.drop_last() =~= trades);
            assert(more[0] == trades[0]);
            assert(more[trades.len() as int] == t);
            let h = choose|i: int| 0 <= i < trades.len() && (#[trigger] trades[i]).price == old.high;
            assert(more[h] == trades[h]);
            let l = choose|i: int| 0 <= i < trades.len() && (#[trigger] trades[i]).price == old.low;
            assert(more[l] == trades[l]);
            assert forall|i: int| 0 <= i < more.len() implies bar.low <= (#[trigger] more[i]).price
                <= bar.high by {
                if i < trades.len() {
                    assert(more[i] == trades[i]);
                }
            }
            assert(tells_of(bar, more));
            told_prices_are_ordered(bar, more);
        } else {
            lemma_one_trade_is_told(bar, t);
        }
    } else {
        lemma_one_trade_is_told(bar, t);
    }
}

/// The clock closes the open bar exactly when the bar's period is over, and leaves it otherwise; the
/// end of the trades closes it in any case.
pub proof fn time_bar_ends_with_its_period(a: TimeBarAggregator, now: u64)
    requires
        a.period_ns > 0,
        a.current_bar matches Some(bar) ==> bar.ts_event % a.period_ns == 0,
    ensures
        ({
            let (next, closed) = a.time_at(now);
            let over = a.current_bar matches Some(bar) && now >= bar.ts_event + a.period_ns;
            &&& over ==> closed == a.current_bar && next.current_bar is None
            &&& !over ==> closed is None && next.current_bar == a.current_bar
            &&& next.period_ns == a.period_ns && next.instrument_id == a.instrument_id
        }),
        a.flushed().1 == a.current_bar,
        a.flushed().0.current_bar is None,
        a.flushed().0.period_ns == a.period_ns,
{
    period_holds_its_time(now, a.period_ns);
    if a.current_bar is Some {
        let e = a.current_bar->0.ts_event as int;
        let p = a.period_ns as int;
        let start = period_start(now, a.period_ns) as int;
        vstd::arithmetic::div_mod::lemma_fundamental_div_mod(e, p);
        let k = e / p;
        let m = now as int / p;
        assert(e == p * k && start == m * p);
        if e < start {
            assert(start >= e + p) by (nonlinear_arith)
                requires
                    e == p * k,
                    start == m * p,
                    e < start,
                    p > 0,
            ;
        }
    }
}

impl Aggregator for TimeBarAggregator {
    open spec fn accepts(self, price: i64, size: i64, side: u8, timestamp_ns: u64) -> bool {
        self.time_accepts(size, side, timestamp_ns)
    }

    open spec fn step(self, price: i64, size: i64, side: u8, timestamp_ns: u64) -> (
        Self,
        Option<Bar>,
    ) {
        self.time_step(price, size, side, timestamp_ns)
    }

    open spec fn clocked(self) -> bool {
        self.period_ns > 0
    }

    open spec fn at_time(self, timestamp_ns: u64) -> (Self, Option<Bar>) {
        self.time_at(timestamp_ns)
    }

    open spec fn flushed(self) -> (Self, Option<Bar>) {
        (TimeBarAggregator { current_bar: None, ..self }, self.current_bar)
    }

    open spec fn kind(self) -> Option<BarType> {
        None
    }

    fn can_update(&self, price: i64, size: i64, side: u8, timestamp_ns: u64) -> (r: bool) {
        self.can_take(size, side, timestamp_ns)
    }

    fn update(&mut self, price: i64, size: i64, side: u8, timestamp_ns: u64) -> (r: Option<Bar>) {
        self.update_raw(price, size, side, timestamp_ns)
    }

    fn advance_time(&mut self, timestamp_ns: u64) -> (r: Option<Bar>) {
        TimeBarAggregator::advance_time(self, timestamp_ns)
    }

    fn flush(&mut self) -> (r: Option<Bar>) {
        TimeBarAggregator::flush(self)
    }

    fn bar_type(&self) -> (r: Option<&BarType>) {
        None
    }
}

// ---------------------------------------------------------------------------
// TickBarAggregator
// ---------------------------------------------------------------------------

/// Closes a bar when it holds `step` trades.
#[derive(Debug)]
pub struct TickBarAggregator {
    pub bar_type: BarType,
    pub builder: BarBuilder,
    pub step: u32,
}

impl TickBarAggregator {
    /// The trade keeps the state in range.
    pub open spec fn in_range(self, price: i64, size: i64, side: u8) -> bool {
        self.builder.takes(size as int)
    }

    /// The state behind a trade, and the bar if it is the `step`th.
    pub open spec fn moved(self, price: i64, size: i64, side: u8, timestamp_ns: u64) -> (
        Self,
        Option<Bar>,
    ) {
        let b = self.builder.updated(price, size as int, timestamp_ns);
        if b.count == self.step {
            (TickBarAggregator { builder: b.emptied(), ..self }, Some(b.bar_now()))
        } else {
            (TickBarAggregator { builder: b, ..self }, None)
        }
    }

    /// An aggregator with the step and instrument of a bar type.
    pub fn new(bar_type: BarType) -> (r: Self)
        ensures
            r.bar_type == bar_type,
            r.step == bar_type.spec.step,
            r.builder == BarBuilder::fresh(r.builder.instrument_id),
            r.builder.instrument_id.wf(),
            r.builder.instrument_id@ == (bar_type.symbol@, bar_type.venue@),
    {
        let step: u32 = bar_type.spec.step;
        let instrument_id = bar_type.instrument_id();
        TickBarAggregator {
            bar_type,
            builder: BarBuilder::new(instrument_id),
            step,
        }
    }

    /// Whether a trade keeps the state in range.
    pub fn can_take(&self, price: i64, size: i64, side: u8) -> (r: bool)
        ensures
            r == self.in_range(price, size, side),
    {
        self.builder.can_update(size)
    }

    /// Takes a trade; gives the bar if it is the `step`th.
    pub fn update(&mut self, price: i64, size: i64, side: u8, timestamp_ns: u64) -> (r: Option<Bar>)
        requires
            old(self).in_range(price, size, side),
        ensures
            (*final(self), r) == old(self).moved(price, size, side, timestamp_ns),
    {
        self.builder.update(price, size, timestamp_ns);
        if self.builder.count == self.step {
            return Some(self.builder.build_now());
        }
        None
    }

    /// The clock closes no bar.
    pub fn advance_time(&mut self, _timestamp_ns: u64) -> (r: Option<Bar>)
        ensures
            r is None,
            *final(self) == *old(self),
    {
        None
    }

    /// The state behind the end of the trades: trades that are held make a bar.
    pub open spec fn ended(self) -> (Self, Option<Bar>) {
        if self.builder.count > 0 {
            (
                TickBarAggregator { builder: self.builder.emptied(), ..self },
                Some(self.builder.bar_now()),
            )
        } else {
            (self, None)
        }
    }

    /// Closes the bar of the trades held.
    pub fn flush(&mut self) -> (r: Option<Bar>)
        ensures
            (*final(self), r) == old(self).ended(),
    {
        if self.builder.count > 0 {
            Some(self.builder.build_now())
        } else {
            None
        }
    }

    /// The bar type.
    pub fn bar_type(&self) -> (r: &BarType)
        ensures
            *r == self.bar_type,
    {
        &self.bar_type
    }
}

impl Aggregator for TickBarAggregator {
    open spec fn accepts(self, price: i64, size: i64, side: u8, timestamp_ns: u64) -> bool {
        self.in_range(price, size, side)
    }

    open spec fn step(self, price: i64, size: i64, side: u8, timestamp_ns: u64) -> (
        Self,
        Option<Bar>,
    ) {
        self.moved(price, size, side, timestamp_ns)
    }

    open spec fn clocked(self) -> bool {
        true
    }

    open spec fn at_time(self, timestamp_ns: u64) -> (Self, Option<Bar>) {
        (self, None)
    }

    open spec fn flushed(self) -> (Self, Option<Bar>) {
        self.ended()
    }

    open spec fn kind(self) -> Option<BarType> {
        Some(self.bar_type)
    }

    fn can_update(&self, price: i64, size: i64, side: u8, timestamp_ns: u64) -> (r: bool) {
        self.can_take(price, size, side)
    }

    fn update(&mut self, price: i64, size: i64, side: u8, timestamp_ns: u64) -> (r: Option<Bar>) {
        TickBarAggregator::update(self, price, size, side, timestamp_ns)
    }

    fn advance_time(&mut self, timestamp_ns: u64) -> (r: Option<Bar>) {
        TickBarAggregator::advance_time(self, timestamp_ns)
    }

    fn flush(&mut self) -> (r: Option<Bar>) {
        TickBarAggregator::flush(self)
    }

    fn bar_type(&self) -> (r: Option<&BarType>) {
        Some(&self.bar_type)
    }
}

/// Bars by count: each trade goes into the bar that is being built, and the bar is closed when it
/// has as many trades as the step says; behind it the next one is empty.
pub proof fn tick_bars_have_their_count(
    a: TickBarAggregator,
    trades: Seq<bar_builder::TradeIn>,
    t: bar_builder::TradeIn,
    side: u8,
)
    requires
        bar_builder::holds_trades(a.builder, trades),
        a.in_range(t.price, t.size, side),
    ensures
        ({
            let (next, closed) = a.moved(t.price, t.size, side, t.ts);
            let full = trades.len() + 1 == a.step;
            &&& closed is Some <==> full
            &&& closed matches Some(bar) ==> bar.tick_count == a.step && trade_bar(
                bar,
                trades.push(t),
            )
            &&& bar_builder::holds_trades(
                next.builder,
                if full {
                    seq![]
                } else {
                    trades.push(t)
                },
            )
            &&& next.step == a.step && next.bar_type == a.bar_type
        }),
{
    lemma_trade_joins(a.builder, trades, t);
}

/// A closed bar tells of these trades, and of the time of the last one.
pub open spec fn trade_bar(bar: Bar, trades: Seq<bar_builder::TradeIn>) -> bool {
    &&& trades.len() > 0
    &&& bar.open == trades[0].price
    &&& bar.close == trades[trades.len() - 1].price
    &&& forall|i: int| 0 <= i < trades.len() ==> bar.low <= (#[trigger] trades[i]).price <= bar.high
    &&& exists|i: int| 0 <= i < trades.len() && (#[trigger] trades[i]).price == bar.high
    &&& exists|i: int| 0 <= i < trades.len() && (#[trigger] trades[i]).price == bar.low
    &&& bar.volume == bar_builder::total_size(trades)
    &&& bar.tick_count == trades.len()
    &&& bar.ts_event == trades[trades.len() - 1].ts
    &&& bar.ts_init == trades[trades.len() - 1].ts
}

proof fn lemma_trade_joins(
    b: BarBuilder,
    trades: Seq<bar_builder::TradeIn>,
    t: bar_builder::TradeIn,
)
    requires
        bar_builder::holds_trades(b, trades),
        b.takes(t.size as int),
    ensures
        bar_builder::holds_trades(b.updated(t.price, t.size as int, t.ts), trades.push(t)),
        trade_bar(b.updated(t.price, t.size as int, t.ts).bar_now(), trades.push(t)),
        bar_builder::holds_trades(b.updated(t.price, t.size as int, t.ts).emptied(), seq![]),
{
    let c = b.updated(t.price, t.size as int, t.ts);
    bar_builder::update_adds_the_trade(b, trades, t);
    bar_builder::bar_tells_of_its_trades(c, trades.push(t), t.ts, t.ts);
    bar_builder::empty_holds_nothing(c, c.instrument_id);
}

/// The end of the trades closes the bar of those that are held; where none are held there is none.
pub proof fn end_closes_what_is_held(a: TickBarAggregator, trades: Seq<bar_builder::TradeIn>)
    requires
        bar_builder::holds_trades(a.builder, trades),
    ensures
        a.ended().1 is Some <==> trades.len() > 0,
        a.ended().1 matches Some(bar) ==> trade_bar(bar, trades),
        bar_builder::holds_trades(a.ended().0.builder, seq![]),
{
    if trades.len() > 0 {
        let last = trades[trades.len() - 1];
        bar_builder::bar_tells_of_its_trades(a.builder, trades, last.ts, last.ts);
        assert(trades.last() == last);
    } else {
        assert(trades =~= seq![]);
    }
    bar_builder::empty_holds_nothing(a.builder, a.builder.instrument_id);
}

// ---------------------------------------------------------------------------
// VolumeBarAggregator
// ---------------------------------------------------------------------------

/// Closes a bar when its volume would pass `step`. What does not fit is kept for the next call,
/// so that one large trade can make several bars.
#[derive(Debug)]
pub struct VolumeBarAggregator {
    pub bar_type: BarType,
    pub builder: BarBuilder,
    pub step: u32,
    /// Volume that did not fit into the last bar.
    pub leftover_volume: i64,
}

impl VolumeBarAggregator {
    /// The trade keeps the state in range.
    pub open spec fn in_range(self, price: i64, size: i64, side: u8) -> bool {
        let total = self.leftover_volume + size;
        let capacity = self.step - self.builder.volume;
        &&& bar_builder::fits(total)
        &&& bar_builder::fits(capacity)
        &&& if total <= capacity {
            self.builder.takes(total)
        } else {
            self.builder.takes(capacity) && bar_builder::fits(total - capacity)
        }
    }

    /// The state behind a trade, and the bar if the volume does not fit any more.
    pub open spec fn moved(self, price: i64, size: i64, side: u8, timestamp_ns: u64) -> (
        Self,
        Option<Bar>,
    ) {
        let total = self.leftover_volume + size;
        let capacity = self.step - self.builder.volume;
        if total <= capacity {
            (
                VolumeBarAggregator {
                    builder: self.builder.updated(price, total, timestamp_ns),
                    leftover_volume: 0,
                    ..self
                },
                None,
            )
        } else {
            let b = self.builder.updated(price, capacity, timestamp_ns);
            (
                VolumeBarAggregator {
                    builder: b.emptied().emptied(),
                    leftover_volume: (total - capacity) as i64,
                    ..self
                },
                Some(b.bar_now()),
            )
        }
    }

    /// An aggregator with the step and instrument of a bar type.
    pub fn new(bar_type: BarType) -> (r: Self)
        ensures
            r.bar_type == bar_type,
            r.step == bar_type.spec.step,
            r.builder == BarBuilder::fresh(r.builder.instrument_id),
            r.builder.instrument_id.wf(),
            r.builder.instrument_id@ == (bar_type.symbol@, bar_type.venue@),
            r.leftover_volume == 0,
    {
        let step: u32 = bar_type.spec.step;
        let instrument_id = bar_type.instrument_id();
        VolumeBarAggregator {
            bar_type,
            builder: BarBuilder::new(instrument_id),
            step,
            leftover_volume: 0,
        }
    }

    /// Whether a trade keeps the state in range.
    pub fn can_take(&self, price: i64, size: i64, side: u8) -> (r: bool)
        ensures
            r == self.in_range(price, size, side),
    {
        match self.leftover_volume.checked_add(size) {
            Some(total) => match (self.step as i64).checked_sub(self.builder.volume) {
                Some(capacity) => if total <= capacity {
                    self.builder.can_update(total)
                } else {
                    self.builder.can_update(capacity) && total.checked_sub(capacity).is_some()
                },
                None => false,
            },
            None => false,
        }
    }

    /// Takes a trade; gives the bar if the volume does not fit any more.
    pub fn update(&mut self, price: i64, size: i64, side: u8, timestamp_ns: u64) -> (r: Option<Bar>)
        requires
            old(self).in_range(price, size, side),
        ensures
            (*final(self), r) == old(self).moved(price, size, side, timestamp_ns),
    {
        let total: i64 = self.leftover_volume + size;
        let capacity: i64 = self.step as i64 - self.builder.volume;
        if total <= capacity {
            self.builder.update(price, total, timestamp_ns);
            self.leftover_volume = 0;
            return None;
        }
        self.builder.update(price, capacity, timestamp_ns);
        let bar = self.builder.build_now();
        self.builder.reset();
        self.leftover_volume = total - capacity;
        Some(bar)
    }

    /// The clock closes no bar.
    pub fn advance_time(&mut self, _timestamp_ns: u64) -> (r: Option<Bar>)
        ensures
            r is None,
            *final(self) == *old(self),
    {
        None
    }

    /// The state behind the end of the trades: trades that are held make a bar.
    pub open spec fn ended(self) -> (Self, Option<Bar>) {
        if self.builder.count > 0 {
            (
                VolumeBarAggregator { builder: self.builder.emptied(), ..self },
                Some(self.builder.bar_now()),
            )
        } else {
            (self, None)
        }
    }

    /// Closes the bar of the trades held. Volume that did not fit into the bar before is in no bar
    /// where no trade has come since.
    pub fn flush(&mut self) -> (r: Option<Bar>)
        ensures
            (*final(self), r) == old(self).ended(),
    {
        if self.builder.count > 0 {
            Some(self.builder.build_now())
        } else {
            None
        }
    }

    /// The bar type.
    pub fn bar_type(&self) -> (r: &BarType)
        ensures
            *r == self.bar_type,
    {
        &self.bar_type
    }
}

impl Aggregator for VolumeBarAggregator {
    open spec fn accepts(self, price: i64, size: i64, side: u8, timestamp_ns: u64) -> bool {
        self.in_range(price, size, side)
    }

    open spec fn step(self, price: i64, size: i64, side: u8, timestamp_ns: u64) -> (
        Self,
        Option<Bar>,
    ) {
        self.moved(price, size, side, timestamp_ns)
    }

    open spec fn clocked(self) -> bool {
        true
    }

    open spec fn at_time(self, timestamp_ns: u64) -> (Self, Option<Bar>) {
        (self, None)
    }

    open spec fn flushed(self) -> (Self, Option<Bar>) {
        self.ended()
    }

    open spec fn kind(self) -> Option<BarType> {
        Some(self.bar_type)
    }

    fn can_update(&self, price: i64, size: i64, side: u8, timestamp_ns: u64) -> (r: bool) {
        self.can_take(price, size, side)
    }

    fn update(&mut self, price: i64, size: i64, side: u8, timestamp_ns: u64) -> (r: Option<Bar>) {
        VolumeBarAggregator::update(self, price, size, side, timestamp_ns)
    }

    fn advance_time(&mut self, timestamp_ns: u64) -> (r: Option<Bar>) {
        VolumeBarAggregator::advance_time(self, timestamp_ns)
    }

    fn flush(&mut self) -> (r: Option<Bar>) {
        VolumeBarAggregator::flush(self)
    }

    fn bar_type(&self) -> (r: Option<&BarType>) {
        Some(&self.bar_type)
    }
}

impl VolumeBarAggregator {
    /// The volume that is held: that of the bar that is being built, and what did not fit into the
    /// last one.
    pub open spec fn held_volume(self) -> int {
        self.builder.volume + self.leftover_volume
    }
}

/// No volume is lost by a trade: what was held and the trade's size are what is held behind the
/// trade and the volume of the bar that it closes.
pub proof fn volume_is_held_or_closed(
    a: VolumeBarAggregator,
    price: i64,
    size: i64,
    side: u8,
    timestamp_ns: u64,
)
    requires
        a.in_range(price, size, side),
    ensures
        ({
            let (next, bar) = a.moved(price, size, side, timestamp_ns);
            a.held_volume() + size == next.held_volume() + match bar {
                Some(b) => b.volume as int,
                None => 0,
            }
        }),
{
}

/// Bars by volume: a bar is closed when what is held and the trade come to more than the step, and it
/// has exactly the volume of the step; the rest is held for the next one. Its last price is that of
/// the trade.
pub proof fn volume_bars_have_their_volume(
    a: VolumeBarAggregator,
    price: i64,
    size: i64,
    side: u8,
    timestamp_ns: u64,
)
    requires
        a.in_range(price, size, side),
    ensures
        ({
            let (next, closed) = a.moved(price, size, side, timestamp_ns);
            let held = a.builder.volume + a.leftover_volume + size;
            &&& closed is Some <==> held > a.step
            &&& closed matches Some(bar) ==> bar.volume == a.step && bar.close == price
                && bar.tick_count == a.builder.count + 1 && bar.ts_event == timestamp_ns
            &&& closed is Some ==> next.builder.volume == 0 && next.builder.count == 0
                && next.leftover_volume == held - a.step
            &&& closed is None ==> next.builder.volume == held && next.leftover_volume == 0
                && next.builder.count == a.builder.count + 1 && next.builder.close == Some(price)
            &&& next.step == a.step && next.bar_type == a.bar_type
        }),
{
}

/// The end of the trades closes the bar that is being built. What did not fit into the bar before
/// it, where no trade has come since, is in no bar: it stays in `leftover_volume`.
pub proof fn leftover_is_in_no_bar(a: VolumeBarAggregator)
    ensures
        a.ended().0.leftover_volume == a.leftover_volume,
        a.ended().1 matches Some(b) ==> b.volume == a.builder.volume,
{
}

/// A part of a trade that is missing from a bar is not larger than the trade.
pub proof fn first_part_is_a_part(a: ValueBarAggregator, price: i64, size: i64)
    requires
        price > 0,
        size > 0,
        0 < a.step - a.cum_value <= price * size,
    ensures
        0 <= a.first_part(price, size) <= size,
        a.step - a.cum_value == price * size ==> a.first_part(price, size) == size,
{
    let missing = a.step - a.cum_value;
    let value = price * size;
    let share = size * missing;
    assert(0 <= share <= size * value) by (nonlinear_arith)
        requires
            share == size * missing,
            0 < missing <= value,
            size > 0,
    ;
    vstd::arithmetic::div_mod::lemma_div_pos_is_pos(share, value);
    vstd::arithmetic::div_mod::lemma_div_is_ordered(share, size * value, value);
    vstd::arithmetic::div_mod::lemma_div_by_multiple(size as int, value);
}

/// Division that rounds towards zero.
pub open spec fn trunc_div(a: int, b: int) -> int {
    let q = (if a >= 0 {
        a
    } else {
        -a
    }) / (if b >= 0 {
        b
    } else {
        -b
    });
    if (a >= 0) == (b >= 0) {
        q
    } else {
        -q
    }
}

/// Such a quotient, times the divisor, does not go beyond the dividend and comes nearer to it than one
/// divisor; changing one sign changes the sign of the quotient.
pub proof fn quotient_is_rounded_towards_zero(a: int, b: int)
    requires
        b > 0,
    ensures
        a >= 0 ==> 0 <= trunc_div(a, b) * b <= a < trunc_div(a, b) * b + b,
        trunc_div(-a, b) == -trunc_div(a, b),
        trunc_div(a, -b) == -trunc_div(a, b),
{
    let n = if a >= 0 {
        a
    } else {
        -a
    };
    vstd::arithmetic::div_mod::lemma_fundamental_div_mod(n, b);
    vstd::arithmetic::div_mod::lemma_mod_bound(n, b);
    assert(n / b >= 0) by (nonlinear_arith)
        requires
            n >= 0,
            b > 0,
    ;
    assert((n / b) * b == b * (n / b)) by (nonlinear_arith);
    assert((n / b) * b >= 0) by (nonlinear_arith)
        requires
            n / b >= 0,
            b > 0,
    ;
    if a == 0 {
        assert(0int / b == 0) by (nonlinear_arith)
            requires
                b > 0,
        ;
    }
}

/// The number is within `i128`.
pub open spec fn fits_wide(n: int) -> bool {
    i128::MIN <= n <= i128::MAX
}

/// Price times size.
fn notional(price: i64, size: i64) -> (r: i128)
    ensures
        r == price * size,
{
    proof {
        lemma_notional(price, size);
    }
    price as i128 * size as i128
}

proof fn lemma_notional(price: i64, size: i64)
    ensures
        -0x4000_0000_0000_0000_0000_0000_0000_0000 <= price * size
            <= 0x4000_0000_0000_0000_0000_0000_0000_0000,
{
    assert(-0x4000_0000_0000_0000_0000_0000_0000_0000 <= price * size
        <= 0x4000_0000_0000_0000_0000_0000_0000_0000) by (nonlinear_arith)
        requires
            -0x8000_0000_0000_0000 <= price <= 0x7fff_ffff_ffff_ffff,
            -0x8000_0000_0000_0000 <= size <= 0x7fff_ffff_ffff_ffff,
    ;
}

/// Divides, rounding towards zero.
fn divide(a: i128, b: i128) -> (r: i128)
    requires
        b != 0,
        i128::MIN < a,
        i128::MIN < b,
    ensures
        r == trunc_div(a as int, b as int),
        i128::MIN < r,
{
    let x: u128 = if a >= 0 {
        a as u128
    } else {
        (-a) as u128
    };
    let y: u128 = if b >= 0 {
        b as u128
    } else {
        (-b) as u128
    };
    let q: u128 = x / y;
    proof {
        vstd::arithmetic::div_mod::lemma_div_is_ordered_by_denominator(x as int, 1, y as int);
        vstd::arithmetic::div_mod::lemma_div_basics(x as int);
    }
    if (a >= 0) == (b >= 0) {
        q as i128
    } else {
        -(q as i128)
    }
}

// ---------------------------------------------------------------------------
// ValueBarAggregator
// ---------------------------------------------------------------------------

/// Closes a bar when the notional value, price times size, reaches `step`.
#[derive(Debug)]
pub struct ValueBarAggregator {
    pub bar_type: BarType,
    pub builder: BarBuilder,
    pub step: u64,
    /// Value that counts towards the next bar.
    pub cum_value: i128,
}

impl ValueBarAggregator {
    /// The trade keeps the state in range.
    pub open spec fn in_range(self, price: i64, size: i64, side: u8) -> bool {
        let value = price * size;
        &&& fits_wide(self.cum_value + value)
        &&& if self.cum_value + value < self.step {
            self.builder.takes(size as int)
        } else if self.cum_value == 0 {
            self.step > 0 && self.builder.takes(size as int)
        } else {
            let part = self.first_part(price, size);
            &&& value != 0
            &&& fits_wide(self.step - self.cum_value)
            &&& i128::MIN < size * (self.step - self.cum_value) <= i128::MAX
            &&& fits_wide(size - part)
            &&& fits_wide(value - (self.step - self.cum_value))
            &&& self.builder.takes(part as i64 as int)
        }
    }

    /// The part of a trade's size that completes the bar: the share of the size that the missing
    /// value is of the trade's value.
    pub open spec fn first_part(self, price: i64, size: i64) -> int {
        trunc_div(size * (self.step - self.cum_value), price * size)
    }

    /// The state behind a trade, and the bar if the value reaches the step.
    pub open spec fn moved(self, price: i64, size: i64, side: u8, timestamp_ns: u64) -> (
        Self,
        Option<Bar>,
    ) {
        let value = price * size;
        if self.cum_value + value < self.step {
            (
                ValueBarAggregator {
                    builder: self.builder.updated(price, size as int, timestamp_ns),
                    cum_value: (self.cum_value + value) as i128,
                    ..self
                },
                None,
            )
        } else if self.cum_value == 0 {
            let b = self.builder.updated(price, size as int, timestamp_ns);
            (
                ValueBarAggregator {
                    builder: b.emptied(),
                    cum_value: (value % self.step as int) as i128,
                    ..self
                },
                Some(b.bar_now()),
            )
        } else {
            let part = self.first_part(price, size);
            let b = self.builder.updated(price, part as i64 as int, timestamp_ns);
            (
                ValueBarAggregator {
                    builder: b.emptied().updated(price, (size - part) as i64 as int, timestamp_ns),
                    cum_value: (value - (self.step - self.cum_value)) as i128,
                    ..self
                },
                Some(b.bar_now()),
            )
        }
    }

    /// An aggregator with the step and instrument of a bar type.
    pub fn new(bar_type: BarType) -> (r: Self)
        ensures
            r.bar_type == bar_type,
            r.step == bar_type.spec.step,
            r.builder == BarBuilder::fresh(r.builder.instrument_id),
            r.builder.instrument_id.wf(),
            r.builder.instrument_id@ == (bar_type.symbol@, bar_type.venue@),
            r.cum_value == 0,
    {
        let step: u64 = bar_type.spec.step as u64;
        let instrument_id = bar_type.instrument_id();
        ValueBarAggregator {
            bar_type,
            builder: BarBuilder::new(instrument_id),
            step,
            cum_value: 0,
        }
    }

    /// Whether a trade keeps the state in range.
    pub fn can_take(&self, price: i64, size: i64, side: u8) -> (r: bool)
        ensures
            r == self.in_range(price, size, side),
    {
        let value: i128 = notional(price, size);
        proof {
            lemma_notional(price, size);
        }
        let step: i128 = self.step as i128;
        match self.cum_value.checked_add(value) {
            Some(sum) => {
                if sum < step {
                    self.builder.can_update(size)
                } else if self.cum_value == 0 {
                    step > 0 && self.builder.can_update(size)
                } else if value == 0 {
                    false
                } else {
                    match step.checked_sub(self.cum_value) {
                        Some(missing) => match (size as i128).checked_mul(missing) {
                            Some(share) => {
                                if share == i128::MIN {
                                    return false;
                                }
                                let part: i128 = divide(share, value);
                                (size as i128).checked_sub(part).is_some() && value.checked_sub(
                                    missing,
                                ).is_some() && self.builder.can_update(part as i64)
                            },
                            None => false,
                        },
                        None => false,
                    }
                }
            },
            None => false,
        }
    }

    /// Takes a trade; gives the bar if the value reaches the step.
    pub fn update(&mut self, price: i64, size: i64, side: u8, timestamp_ns: u64) -> (r: Option<Bar>)
        requires
            old(self).in_range(price, size, side),
        ensures
            (*final(self), r) == old(self).moved(price, size, side, timestamp_ns),
    {
        let value: i128 = notional(price, size);
        proof {
            lemma_notional(price, size);
        }
        let step: i128 = self.step as i128;
        if self.cum_value + value < step {
            self.cum_value = self.cum_value + value;
            self.builder.update(price, size, timestamp_ns);
            None
        } else if self.cum_value == 0 {
            self.builder.update(price, size, timestamp_ns);
            let bar = self.builder.build_now();
            self.cum_value = value % step;
            Some(bar)
        } else {
            let missing: i128 = step - self.cum_value;
            let part: i128 = divide(size as i128 * missing, value);
            self.builder.update(price, part as i64, timestamp_ns);
            let bar = self.builder.build_now();
            self.cum_value = value - missing;
            self.builder.update(price, (size as i128 - part) as i64, timestamp_ns);
            Some(bar)
        }
    }

    /// The clock closes no bar.
    pub fn advance_time(&mut self, _timestamp_ns: u64) -> (r: Option<Bar>)
        ensures
            r is None,
            *final(self) == *old(self),
    {
        None
    }

    /// The state behind the end of the trades: trades that are held make a bar.
    pub open spec fn ended(self) -> (Self, Option<Bar>) {
        if self.builder.count > 0 {
            (
                ValueBarAggregator { builder: self.builder.emptied(), ..self },
                Some(self.builder.bar_now()),
            )
        } else {
            (self, None)
        }
    }

    /// Closes the bar of the trades held.
    pub fn flush(&mut self) -> (r: Option<Bar>)
        ensures
            (*final(self), r) == old(self).ended(),
    {
        if self.builder.count > 0 {
            Some(self.builder.build_now())
        } else {
            None
        }
    }

    /// The bar type.
    pub fn bar_type(&self) -> (r: &BarType)
        ensures
            *r == self.bar_type,
    {
        &self.bar_type
    }
}

impl Aggregator for ValueBarAggregator {
    open spec fn accepts(self, price: i64, size: i64, side: u8, timestamp_ns: u64) -> bool {
        self.in_range(price, size, side)
    }

    open spec fn step(self, price: i64, size: i64, side: u8, timestamp_ns: u64) -> (
        Self,
        Option<Bar>,
    ) {
        self.moved(price, size, side, timestamp_ns)
    }

    open spec fn clocked(self) -> bool {
        true
    }

    open spec fn at_time(self, timestamp_ns: u64) -> (Self, Option<Bar>) {
        (self, None)
    }

    open spec fn flushed(self) -> (Self, Option<Bar>) {
        self.ended()
    }

    open spec fn kind(self) -> Option<BarType> {
        Some(self.bar_type)
    }

    fn can_update(&self, price: i64, size: i64, side: u8, timestamp_ns: u64) -> (r: bool) {
        self.can_take(price, size, side)
    }

    fn update(&mut self, price: i64, size: i64, side: u8, timestamp_ns: u64) -> (r: Option<Bar>) {
        ValueBarAggregator::update(self, price, size, side, timestamp_ns)
    }

    fn advance_time(&mut self, timestamp_ns: u64) -> (r: Option<Bar>) {
        ValueBarAggregator::advance_time(self, timestamp_ns)
    }

    fn flush(&mut self) -> (r: Option<Bar>) {
        ValueBarAggregator::flush(self)
    }

    fn bar_type(&self) -> (r: Option<&BarType>) {
        Some(&self.bar_type)
    }
}

/// Bars by value: a bar is closed when the value that counts and that of the trade reach the step.
/// What goes beyond the step counts towards the next bar. A trade that completes a bar is parted
/// between it and the next one, and no part of its size is lost; the first part is the share that the
/// bar was missing.
pub proof fn value_bars_have_their_value(
    a: ValueBarAggregator,
    price: i64,
    size: i64,
    side: u8,
    timestamp_ns: u64,
)
    requires
        a.in_range(price, size, side),
        price > 0,
        size > 0,
        0 <= a.cum_value < a.step,
        bar_builder::fits(a.builder.volume + size),
    ensures
        ({
            let (next, closed) = a.moved(price, size, side, timestamp_ns);
            let value = a.cum_value + price * size;
            &&& closed is Some <==> value >= a.step
            &&& closed is None ==> next.cum_value == value && next.builder.volume
                == a.builder.volume + size
            &&& closed is Some && a.cum_value > 0 ==> next.cum_value == value - a.step
            &&& closed is Some && a.cum_value == 0 ==> 0 <= next.cum_value < a.step && (value
                - next.cum_value) % (a.step as int) == 0
            &&& closed matches Some(bar) ==> {
                let part = bar.volume - a.builder.volume;
                &&& bar.volume + next.builder.volume == a.builder.volume + size
                &&& bar.close == price
                &&& a.cum_value == 0 ==> part == size
                &&& a.cum_value > 0 ==> part * price <= a.step - a.cum_value < (part + 1) * price
            }
            &&& next.step == a.step && next.bar_type == a.bar_type
        }),
{
    let value = price * size;
    assert(value > 0) by (nonlinear_arith)
        requires
            value == price * size,
            price > 0,
            size > 0,
    ;
    let (next, closed) = a.moved(price, size, side, timestamp_ns);
    lemma_notional(price, size);
    if a.cum_value + value >= a.step {
        if a.cum_value == 0 {
            let step = a.step as int;
            vstd::arithmetic::div_mod::lemma_fundamental_div_mod(value, step);
            vstd::arithmetic::div_mod::lemma_mod_bound(value, step);
            assert(value - value % step == (value / step) * step) by (nonlinear_arith)
                requires
                    value == step * (value / step) + value % step,
            ;
            vstd::arithmetic::div_mod::lemma_mod_multiples_basic(value / step, step);
        } else {
            let missing = a.step - a.cum_value;
            let part = a.first_part(price, size);
            first_part_is_a_part(a, price, size);
            quotient_is_rounded_towards_zero(size * missing, value);
            assert(size * missing >= 0) by (nonlinear_arith)
                requires
                    size > 0,
                    missing > 0,
            ;
            assert(part * price <= missing < (part + 1) * price) by (nonlinear_arith)
                requires
                    part * value <= size * missing < part * value + value,
                    value == price * size,
                    size > 0,
            ;
        }
    }
}

/// A buy counts up, a sell counts down, an unknown side not at all.
pub open spec fn side_sign(side: u8) -> int {
    if side == 0 {
        1
    } else if side == 1 {
        -1
    } else {
        0
    }
}

// ---------------------------------------------------------------------------
// TickImbalanceBarAggregator
// ---------------------------------------------------------------------------

/// Closes a bar when buys and sells differ by at least `step` trades.
#[derive(Debug)]
pub struct TickImbalanceBarAggregator {
    pub bar_type: BarType,
    pub builder: BarBuilder,
    pub step: u32,
    /// Buys minus sells of the open bar.
    pub imbalance: i32,
}

impl TickImbalanceBarAggregator {
    /// The trade keeps the state in range.
    pub open spec fn in_range(self, price: i64, size: i64, side: u8) -> bool {
        &&& self.builder.takes(size as int)
        &&& i32::MIN < self.imbalance + side_sign(side) <= i32::MAX
    }

    /// The state behind a trade, and the bar if the imbalance reaches the step.
    pub open spec fn moved(self, price: i64, size: i64, side: u8, timestamp_ns: u64) -> (
        Self,
        Option<Bar>,
    ) {
        let b = self.builder.updated(price, size as int, timestamp_ns);
        let imbalance = self.imbalance + side_sign(side);
        if imbalance >= self.step || -imbalance >= self.step {
            (
                TickImbalanceBarAggregator { builder: b.emptied(), imbalance: 0, ..self },
                Some(b.bar_now()),
            )
        } else {
            (TickImbalanceBarAggregator { builder: b, imbalance: imbalance as i32, ..self }, None)
        }
    }

    /// An aggregator with the step and instrument of a bar type.
    pub fn new(bar_type: BarType) -> (r: Self)
        ensures
            r.bar_type == bar_type,
            r.step == bar_type.spec.step,
            r.builder == BarBuilder::fresh(r.builder.instrument_id),
            r.builder.instrument_id.wf(),
            r.builder.instrument_id@ == (bar_type.symbol@, bar_type.venue@),
            r.imbalance == 0,
    {
        let step: u32 = bar_type.spec.step;
        let instrument_id = bar_type.instrument_id();
        TickImbalanceBarAggregator {
            bar_type,
            builder: BarBuilder::new(instrument_id),
            step,
            imbalance: 0,
        }
    }

    /// Whether a trade keeps the state in range.
    pub fn can_take(&self, price: i64, size: i64, side: u8) -> (r: bool)
        ensures
            r == self.in_range(price, size, side),
    {
        let next: i64 = self.imbalance as i64 + if side == 0 {
            1
        } else if side == 1 {
            -1
        } else {
            0
        };
        self.builder.can_update(size) && -0x8000_0000 < next && next <= 0x7fff_ffff
    }

    /// Takes a trade; gives the bar if the imbalance reaches the step.
    pub fn update(&mut self, price: i64, size: i64, side: u8, timestamp_ns: u64) -> (r: Option<Bar>)
        requires
            old(self).in_range(price, size, side),
        ensures
            (*final(self), r) == old(self).moved(price, size, side, timestamp_ns),
    {
        self.builder.update(price, size, timestamp_ns);
        if side == 0 {
            self.imbalance = self.imbalance + 1;
        } else if side == 1 {
            self.imbalance = self.imbalance - 1;
        }
        let distance: i64 = if self.imbalance >= 0 {
            self.imbalance as i64
        } else {
            -(self.imbalance as i64)
        };
        if distance >= self.step as i64 {
            let bar = self.builder.build_now();
            self.imbalance = 0;
            return Some(bar);
        }
        None
    }

    /// The clock closes no bar.
    pub fn advance_time(&mut self, _timestamp_ns: u64) -> (r: Option<Bar>)
        ensures
            r is None,
            *final(self) == *old(self),
    {
        None
    }

    /// The state behind the end of the trades: trades that are held make a bar.
    pub open spec fn ended(self) -> (Self, Option<Bar>) {
        if self.builder.count > 0 {
            (
                TickImbalanceBarAggregator { builder: self.builder.emptied(), ..self },
                Some(self.builder.bar_now()),
            )
        } else {
            (self, None)
        }
    }

    /// Closes the bar of the trades held.
    pub fn flush(&mut self) -> (r: Option<Bar>)
        ensures
            (*final(self), r) == old(self).ended(),
    {
        if self.builder.count > 0 {
            Some(self.builder.build_now())
        } else {
            None
        }
    }

    /// The bar type.
    pub fn bar_type(&self) -> (r: &BarType)
        ensures
            *r == self.bar_type,
    {
        &self.bar_type
    }
}

impl Aggregator for TickImbalanceBarAggregator {
    open spec fn accepts(self, price: i64, size: i64, side: u8, timestamp_ns: u64) -> bool {
        self.in_range(price, size, side)
    }

    open spec fn step(self, price: i64, size: i64, side: u8, timestamp_ns: u64) -> (
        Self,
        Option<Bar>,
    ) {
        self.moved(price, size, side, timestamp_ns)
    }

    open spec fn clocked(self) -> bool {
        true
    }

    open spec fn at_time(self, timestamp_ns: u64) -> (Self, Option<Bar>) {
        (self, None)
    }

    open spec fn flushed(self) -> (Self, Option<Bar>) {
        self.ended()
    }

    open spec fn kind(self) -> Option<BarType> {
        Some(self.bar_type)
    }

    fn can_update(&self, price: i64, size: i64, side: u8, timestamp_ns: u64) -> (r: bool) {
        self.can_take(price, size, side)
    }

    fn update(&mut self, price: i64, size: i64, side: u8, timestamp_ns: u64) -> (r: Option<Bar>) {
        TickImbalanceBarAggregator::update(self, price, size, side, timestamp_ns)
    }

    fn advance_time(&mut self, timestamp_ns: u64) -> (r: Option<Bar>) {
        TickImbalanceBarAggregator::advance_time(self, timestamp_ns)
    }

    fn flush(&mut self) -> (r: Option<Bar>) {
        TickImbalanceBarAggregator::flush(self)
    }

    fn bar_type(&self) -> (r: Option<&BarType>) {
        Some(&self.bar_type)
    }
}

/// Bars by imbalance of trades: a buy, of side 0, counts one up, a sell, of side 1, one down, and the
/// bar is closed when the count is as far from 0 as the step says, on either side. It holds all trades
/// since the bar before.
pub proof fn imbalance_bars_close_on_imbalance(
    a: TickImbalanceBarAggregator,
    trades: Seq<bar_builder::TradeIn>,
    t: bar_builder::TradeIn,
    side: u8,
)
    requires
        bar_builder::holds_trades(a.builder, trades),
        a.in_range(t.price, t.size, side),
    ensures
        ({
            let (next, closed) = a.moved(t.price, t.size, side, t.ts);
            let count = if side == 0 {
                a.imbalance + 1
            } else if side == 1 {
                a.imbalance - 1
            } else {
                a.imbalance as int
            };
            &&& closed is Some <==> count >= a.step || count <= -a.step
            &&& closed matches Some(bar) ==> trade_bar(bar, trades.push(t))
            &&& closed is Some ==> next.imbalance == 0 && bar_builder::holds_trades(
                next.builder,
                seq![],
            )
            &&& closed is None ==> next.imbalance == count && bar_builder::holds_trades(
                next.builder,
                trades.push(t),
            )
            &&& next.step == a.step && next.bar_type == a.bar_type
        }),
{
    lemma_trade_joins(a.builder, trades, t);
}

// ---------------------------------------------------------------------------
// TickRunsBarAggregator
// ---------------------------------------------------------------------------

/// Closes a bar when `step` trades in a row are on one side. Trades of unknown side do not count.
#[derive(Debug)]
pub struct TickRunsBarAggregator {
    pub bar_type: BarType,
    pub builder: BarBuilder,
    pub step: u32,
    /// Side of the run, if one has begun.
    pub current_run_side: Option<u8>,
    /// Trades in the run.
    pub run_count: u32,
}

impl TickRunsBarAggregator {
    /// The trade keeps the state in range.
    pub open spec fn in_range(self, price: i64, size: i64, side: u8) -> bool {
        &&& self.builder.takes(size as int)
        &&& side < 2 && self.current_run_side == Some(side) ==> self.run_count < u32::MAX
    }

    /// The state behind a trade, and the bar if the run is long enough.
    pub open spec fn moved(self, price: i64, size: i64, side: u8, timestamp_ns: u64) -> (
        Self,
        Option<Bar>,
    ) {
        let b = self.builder.updated(price, size as int, timestamp_ns);
        if side >= 2 {
            (TickRunsBarAggregator { builder: b, ..self }, None)
        } else {
            let run = if self.current_run_side == Some(side) {
                self.run_count + 1
            } else {
                1
            };
            if run >= self.step {
                (
                    TickRunsBarAggregator {
                        builder: b.emptied(),
                        current_run_side: None,
                        run_count: 0,
                        ..self
                    },
                    Some(b.bar_now()),
                )
            } else {
                (
                    TickRunsBarAggregator {
                        builder: b,
                        current_run_side: Some(side),
                        run_count: run as u32,
                        ..self
                    },
                    None,
                )
            }
        }
    }

    /// An aggregator with the step and instrument of a bar type.
    pub fn new(bar_type: BarType) -> (r: Self)
        ensures
            r.bar_type == bar_type,
            r.step == bar_type.spec.step,
            r.builder == BarBuilder::fresh(r.builder.instrument_id),
            r.builder.instrument_id.wf(),
            r.builder.instrument_id@ == (bar_type.symbol@, bar_type.venue@),
            r.current_run_side == None::<u8>,
            r.run_count == 0,
    {
        let step: u32 = bar_type.spec.step;
        let instrument_id = bar_type.instrument_id();
        TickRunsBarAggregator {
            bar_type,
            builder: BarBuilder::new(instrument_id),
            step,
            current_run_side: None,
            run_count: 0,
        }
    }

    /// Whether a trade keeps the state in range.
    pub fn can_take(&self, price: i64, size: i64, side: u8) -> (r: bool)
        ensures
            r == self.in_range(price, size, side),
    {
        let same = match self.current_run_side {
            Some(current) => current == side,
            None => false,
        };
        self.builder.can_update(size) && (side >= 2 || !same || self.run_count < 0xffff_ffff)
    }

    /// Takes a trade; gives the bar if the run is long enough.
    pub fn update(&mut self, price: i64, size: i64, side: u8, timestamp_ns: u64) -> (r: Option<Bar>)
        requires
            old(self).in_range(price, size, side),
        ensures
            (*final(self), r) == old(self).moved(price, size, side, timestamp_ns),
    {
        self.builder.update(price, size, timestamp_ns);
        if side >= 2 {
            return None;
        }
        let same = match self.current_run_side {
            Some(current) => current == side,
            None => false,
        };
        if same {
            self.run_count = self.run_count + 1;
        } else {
            self.current_run_side = Some(side);
            self.run_count = 1;
        }
        if self.run_count >= self.step {
            let bar = self.builder.build_now();
            self.current_run_side = None;
            self.run_count = 0;
            return Some(bar);
        }
        None
    }

    /// The clock closes no bar.
    pub fn advance_time(&mut self, _timestamp_ns: u64) -> (r: Option<Bar>)
        ensures
            r is None,
            *final(self) == *old(self),
    {
        None
    }

    /// The state behind the end of the trades: trades that are held make a bar.
    pub open spec fn ended(self) -> (Self, Option<Bar>) {
        if self.builder.count > 0 {
            (
                TickRunsBarAggregator { builder: self.builder.emptied(), ..self },
                Some(self.builder.bar_now()),
            )
        } else {
            (self, None)
        }
    }

    /// Closes the bar of the trades held.
    pub fn flush(&mut self) -> (r: Option<Bar>)
        ensures
            (*final(self), r) == old(self).ended(),
    {
        if self.builder.count > 0 {
            Some(self.builder.build_now())
        } else {
            None
        }
    }

    /// The bar type.
    pub fn bar_type(&self) -> (r: &BarType)
        ensures
            *r == self.bar_type,
    {
        &self.bar_type
    }
}

impl Aggregator for TickRunsBarAggregator {
    open spec fn accepts(self, price: i64, size: i64, side: u8, timestamp_ns: u64) -> bool {
        self.in_range(price, size, side)
    }

    open spec fn step(self, price: i64, size: i64, side: u8, timestamp_ns: u64) -> (
        Self,
        Option<Bar>,
    ) {
        self.moved(price, size, side, timestamp_ns)
    }

    open spec fn clocked(self) -> bool {
        true
    }

    open spec fn at_time(self, timestamp_ns: u64) -> (Self, Option<Bar>) {
        (self, None)
    }

    open spec fn flushed(self) -> (Self, Option<Bar>) {
        self.ended()
    }

    open spec fn kind(self) -> Option<BarType> {
        Some(self.bar_type)
    }

    fn can_update(&self, price: i64, size: i64, side: u8, timestamp_ns: u64) -> (r: bool) {
        self.can_take(price, size, side)
    }

    fn update(&mut self, price: i64, size: i64, side: u8, timestamp_ns: u64) -> (r: Option<Bar>) {
        TickRunsBarAggregator::update(self, price, size, side, timestamp_ns)
    }

    fn advance_time(&mut self, timestamp_ns: u64) -> (r: Option<Bar>) {
        TickRunsBarAggregator::advance_time(self, timestamp_ns)
    }

    fn flush(&mut self) -> (r: Option<Bar>) {
        TickRunsBarAggregator::flush(self)
    }

    fn bar_type(&self) -> (r: Option<&BarType>) {
        Some(&self.bar_type)
    }
}

/// Bars by runs of trades: a trade of the side of the run makes it longer by one, one of the other
/// side begins a run of one, and one of an unknown side changes nothing. The bar is closed when the
/// run is as long as the step says, and holds all trades since the bar before.
pub proof fn runs_bars_close_on_a_run(
    a: TickRunsBarAggregator,
    trades: Seq<bar_builder::TradeIn>,
    t: bar_builder::TradeIn,
    side: u8,
)
    requires
        bar_builder::holds_trades(a.builder, trades),
        a.in_range(t.price, t.size, side),
    ensures
        ({
            let (next, closed) = a.moved(t.price, t.size, side, t.ts);
            let known = side == 0 || side == 1;
            let run = if a.current_run_side == Some(side) {
                a.run_count + 1
            } else {
                1
            };
            &&& closed is Some <==> known && run >= a.step
            &&& closed matches Some(bar) ==> trade_bar(bar, trades.push(t))
            &&& closed is Some ==> next.run_count == 0 && next.current_run_side is None
                && bar_builder::holds_trades(next.builder, seq![])
            &&& closed is None ==> bar_builder::holds_trades(next.builder, trades.push(t))
            &&& closed is None && known ==> next.run_count == run && next.current_run_side == Some(
                side,
            )
            &&& !known ==> next.run_count == a.run_count && next.current_run_side
                == a.current_run_side
            &&& next.step == a.step && next.bar_type == a.bar_type
        }),
{
    lemma_trade_joins(a.builder, trades, t);
}

// ---------------------------------------------------------------------------
// VolumeImbalanceBarAggregator
// ---------------------------------------------------------------------------

/// Closes a bar when bought and sold volume differ by at least `step`.
#[derive(Debug)]
pub struct VolumeImbalanceBarAggregator {
    pub bar_type: BarType,
    pub builder: BarBuilder,
    pub step: u32,
    /// Bought volume of the open bar.
    pub buy_volume: i64,
    /// Sold volume of the open bar.
    pub sell_volume: i64,
}

impl VolumeImbalanceBarAggregator {
    /// The trade keeps the state in range.
    pub open spec fn in_range(self, price: i64, size: i64, side: u8) -> bool {
        let (buy, sell) = self.volumes(size, side);
        &&& self.builder.takes(size as int)
        &&& bar_builder::fits(buy)
        &&& bar_builder::fits(sell)
        &&& bar_builder::fits(buy - sell)
    }

    /// Bought and sold volume behind a trade.
    pub open spec fn volumes(self, size: i64, side: u8) -> (int, int) {
        if side == 0 {
            (self.buy_volume + size, self.sell_volume as int)
        } else if side == 1 {
            (self.buy_volume as int, self.sell_volume + size)
        } else {
            (self.buy_volume as int, self.sell_volume as int)
        }
    }

    /// The state behind a trade, and the bar if the imbalance reaches the step.
    pub open spec fn moved(self, price: i64, size: i64, side: u8, timestamp_ns: u64) -> (
        Self,
        Option<Bar>,
    ) {
        let b = self.builder.updated(price, size as int, timestamp_ns);
        let (buy, sell) = self.volumes(size, side);
        if buy - sell >= self.step || sell - buy >= self.step {
            (
                VolumeImbalanceBarAggregator {
                    builder: b.emptied(),
                    buy_volume: 0,
                    sell_volume: 0,
                    ..self
                },
                Some(b.bar_now()),
            )
        } else {
            (
                VolumeImbalanceBarAggregator {
                    builder: b,
                    buy_volume: buy as i64,
                    sell_volume: sell as i64,
                    ..self
                },
                None,
            )
        }
    }

    /// An aggregator with the step and instrument of a bar type.
    pub fn new(bar_type: BarType) -> (r: Self)
        ensures
            r.bar_type == bar_type,
            r.step == bar_type.spec.step,
            r.builder == BarBuilder::fresh(r.builder.instrument_id),
            r.builder.instrument_id.wf(),
            r.builder.instrument_id@ == (bar_type.symbol@, bar_type.venue@),
            r.buy_volume == 0,
            r.sell_volume == 0,
    {
        let step: u32 = bar_type.spec.step;
        let instrument_id = bar_type.instrument_id();
        VolumeImbalanceBarAggregator {
            bar_type,
            builder: BarBuilder::new(instrument_id),
            step,
            buy_volume: 0,
            sell_volume: 0,
        }
    }

    /// Whether a trade keeps the state in range.
    pub fn can_take(&self, price: i64, size: i64, side: u8) -> (r: bool)
        ensures
            r == self.in_range(price, size, side),
    {
        let buy: Option<i64> = if side == 0 {
            self.buy_volume.checked_add(size)
        } else {
            Some(self.buy_volume)
        };
        let sell: Option<i64> = if side == 1 {
            self.sell_volume.checked_add(size)
        } else {
            Some(self.sell_volume)
        };
        match (buy, sell) {
            (Some(b), Some(s)) => self.builder.can_update(size) && b.checked_sub(s).is_some(),
            _ => false,
        }
    }

    /// Takes a trade; gives the bar if the imbalance reaches the step.
    pub fn update(&mut self, price: i64, size: i64, side: u8, timestamp_ns: u64) -> (r: Option<Bar>)
        requires
            old(self).in_range(price, size, side),
        ensures
            (*final(self), r) == old(self).moved(price, size, side, timestamp_ns),
    {
        self.builder.update(price, size, timestamp_ns);
        if side == 0 {
            self.buy_volume = self.buy_volume + size;
        } else if side == 1 {
            self.sell_volume = self.sell_volume + size;
        }
        let diff: i128 = self.buy_volume as i128 - self.sell_volume as i128;
        let step: i128 = self.step as i128;
        if diff >= step || -diff >= step {
            let bar = self.builder.build_now();
            self.buy_volume = 0;
            self.sell_volume = 0;
            return Some(bar);
        }
        None
    }

    /// The clock closes no bar.
    pub fn advance_time(&mut self, _timestamp_ns: u64) -> (r: Option<Bar>)
        ensures
            r is None,
            *final(self) == *old(self),
    {
        None
    }

    /// The state behind the end of the trades: trades that are held make a bar.
    pub open spec fn ended(self) -> (Self, Option<Bar>) {
        if self.builder.count > 0 {
            (
                VolumeImbalanceBarAggregator { builder: self.builder.emptied(), ..self },
                Some(self.builder.bar_now()),
            )
        } else {
            (self, None)
        }
    }

    /// Closes the bar of the trades held.
    pub fn flush(&mut self) -> (r: Option<Bar>)
        ensures
            (*final(self), r) == old(self).ended(),
    {
        if self.builder.count > 0 {
            Some(self.builder.build_now())
        } else {
            None
        }
    }

    /// The bar type.
    pub fn bar_type(&self) -> (r: &BarType)
        ensures
            *r == self.bar_type,
    {
        &self.bar_type
    }
}

impl Aggregator for VolumeImbalanceBarAggregator {
    open spec fn accepts(self, price: i64, size: i64, side: u8, timestamp_ns: u64) -> bool {
        self.in_range(price, size, side)
    }

    open spec fn step(self, price: i64, size: i64, side: u8, timestamp_ns: u64) -> (
        Self,
        Option<Bar>,
    ) {
        self.moved(price, size, side, timestamp_ns)
    }

    open spec fn clocked(self) -> bool {
        true
    }

    open spec fn at_time(self, timestamp_ns: u64) -> (Self, Option<Bar>) {
        (self, None)
    }

    open spec fn flushed(self) -> (Self, Option<Bar>) {
        self.ended()
    }

    open spec fn kind(self) -> Option<BarType> {
        Some(self.bar_type)
    }

    fn can_update(&self, price: i64, size: i64, side: u8, timestamp_ns: u64) -> (r: bool) {
        self.can_take(price, size, side)
    }

    fn update(&mut self, price: i64, size: i64, side: u8, timestamp_ns: u64) -> (r: Option<Bar>) {
        VolumeImbalanceBarAggregator::update(self, price, size, side, timestamp_ns)
    }

    fn advance_time(&mut self, timestamp_ns: u64) -> (r: Option<Bar>) {
        VolumeImbalanceBarAggregator::advance_time(self, timestamp_ns)
    }

    fn flush(&mut self) -> (r: Option<Bar>) {
        VolumeImbalanceBarAggregator::flush(self)
    }

    fn bar_type(&self) -> (r: Option<&BarType>) {
        Some(&self.bar_type)
    }
}

/// Bars by imbalance of volume: what was bought and what was sold is added up, and the bar is closed
/// when one is larger than the other by at least the step. It holds all trades since the bar before.
pub proof fn volume_imbalance_bars_close_on_imbalance(
    a: VolumeImbalanceBarAggregator,
    trades: Seq<bar_builder::TradeIn>,
    t: bar_builder::TradeIn,
    side: u8,
)
    requires
        bar_builder::holds_trades(a.builder, trades),
        a.in_range(t.price, t.size, side),
    ensures
        ({
            let (next, closed) = a.moved(t.price, t.size, side, t.ts);
            let bought = a.buy_volume + if side == 0 {
                t.size as int
            } else {
                0
            };
            let sold = a.sell_volume + if side == 1 {
                t.size as int
            } else {
                0
            };
            &&& closed is Some <==> bought >= sold + a.step || sold >= bought + a.step
            &&& closed matches Some(bar) ==> trade_bar(bar, trades.push(t))
            &&& closed is Some ==> next.buy_volume == 0 && next.sell_volume == 0
                && bar_builder::holds_trades(next.builder, seq![])
            &&& closed is None ==> next.buy_volume == bought && next.sell_volume == sold
                && bar_builder::holds_trades(next.builder, trades.push(t))
            &&& next.step == a.step && next.bar_type == a.bar_type
        }),
{
    lemma_trade_joins(a.builder, trades, t);
}

// ---------------------------------------------------------------------------
// ValueRunsBarAggregator
// ---------------------------------------------------------------------------

/// Closes a bar when trades in a row on one side have a notional value of `step`. Trades of
/// unknown side do not count.
#[derive(Debug)]
pub struct ValueRunsBarAggregator {
    pub bar_type: BarType,
    pub builder: BarBuilder,
    pub step: u64,
    /// Side of the run, if one has begun.
    pub current_run_side: Option<u8>,
    /// Value of the run.
    pub run_value: i128,
}

impl ValueRunsBarAggregator {
    /// The trade keeps the state in range.
    pub open spec fn in_range(self, price: i64, size: i64, side: u8) -> bool {
        &&& self.builder.takes(size as int)
        &&& side < 2 && self.current_run_side == Some(side) ==> fits_wide(
            self.run_value + price * size,
        )
    }

    /// The state behind a trade, and the bar if the run is worth enough.
    pub open spec fn moved(self, price: i64, size: i64, side: u8, timestamp_ns: u64) -> (
        Self,
        Option<Bar>,
    ) {
        let b = self.builder.updated(price, size as int, timestamp_ns);
        if side >= 2 {
            (ValueRunsBarAggregator { builder: b, ..self }, None)
        } else {
            let run = if self.current_run_side == Some(side) {
                self.run_value + price * size
            } else {
                price * size
            };
            if run >= self.step {
                (
                    ValueRunsBarAggregator {
                        builder: b.emptied(),
                        current_run_side: None,
                        run_value: 0,
                        ..self
                    },
                    Some(b.bar_now()),
                )
            } else {
                (
                    ValueRunsBarAggregator {
                        builder: b,
                        current_run_side: Some(side),
                        run_value: run as i128,
                        ..self
                    },
                    None,
                )
            }
        }
    }

    /// An aggregator with the step and instrument of a bar type.
    pub fn new(bar_type: BarType) -> (r: Self)
        ensures
            r.bar_type == bar_type,
            r.step == bar_type.spec.step,
            r.builder == BarBuilder::fresh(r.builder.instrument_id),
            r.builder.instrument_id.wf(),
            r.builder.instrument_id@ == (bar_type.symbol@, bar_type.venue@),
            r.current_run_side == None::<u8>,
            r.run_value == 0,
    {
        let step: u64 = bar_type.spec.step as u64;
        let instrument_id = bar_type.instrument_id();
        ValueRunsBarAggregator {
            bar_type,
            builder: BarBuilder::new(instrument_id),
            step,
            current_run_side: None,
            run_value: 0,
        }
    }

    /// Whether a trade keeps the state in range.
    pub fn can_take(&self, price: i64, size: i64, side: u8) -> (r: bool)
        ensures
            r == self.in_range(price, size, side),
    {
        let same = match self.current_run_side {
            Some(current) => current == side,
            None => false,
        };
        let value: i128 = notional(price, size);
        self.builder.can_update(size) && (side >= 2 || !same || self.run_value.checked_add(
            value,
        ).is_some())
    }

    /// Takes a trade; gives the bar if the run is worth enough.
    pub fn update(&mut self, price: i64, size: i64, side: u8, timestamp_ns: u64) -> (r: Option<Bar>)
        requires
            old(self).in_range(price, size, side),
        ensures
            (*final(self), r) == old(self).moved(price, size, side, timestamp_ns),
    {
        self.builder.update(price, size, timestamp_ns);
        if side >= 2 {
            return None;
        }
        let value: i128 = notional(price, size);
        let same = match self.current_run_side {
            Some(current) => current == side,
            None => false,
        };
        if same {
            self.run_value = self.run_value + value;
        } else {
            self.current_run_side = Some(side);
            self.run_value = value;
        }
        if self.run_value >= self.step as i128 {
            let bar = self.builder.build_now();
            self.current_run_side = None;
            self.run_value = 0;
            return Some(bar);
        }
        None
    }

    /// The clock closes no bar.
    pub fn advance_time(&mut self, _timestamp_ns: u64) -> (r: Option<Bar>)
        ensures
            r is None,
            *final(self) == *old(self),
    {
        None
    }

    /// The state behind the end of the trades: trades that are held make a bar.
    pub open spec fn ended(self) -> (Self, Option<Bar>) {
        if self.builder.count > 0 {
            (
                ValueRunsBarAggregator { builder: self.builder.emptied(), ..self },
                Some(self.builder.bar_now()),
            )
        } else {
            (self, None)
        }
    }

    /// Closes the bar of the trades held.
    pub fn flush(&mut self) -> (r: Option<Bar>)
        ensures
            (*final(self), r) == old(self).ended(),
    {
        if self.builder.count > 0 {
            Some(self.builder.build_now())
        } else {
            None
        }
    }

    /// The bar type.
    pub fn bar_type(&self) -> (r: &BarType)
        ensures
            *r == self.bar_type,
    {
        &self.bar_type
    }
}

impl Aggregator for ValueRunsBarAggregator {
    open spec fn accepts(self, price: i64, size: i64, side: u8, timestamp_ns: u64) -> bool {
        self.in_range(price, size, side)
    }

    open spec fn step(self, price: i64, size: i64, side: u8, timestamp_ns: u64) -> (
        Self,
        Option<Bar>,
    ) {
        self.moved(price, size, side, timestamp_ns)
    }

    open spec fn clocked(self) -> bool {
        true
    }

    open spec fn at_time(self, timestamp_ns: u64) -> (Self, Option<Bar>) {
        (self, None)
    }

    open spec fn flushed(self) -> (Self, Option<Bar>) {
        self.ended()
    }

    open spec fn kind(self) -> Option<BarType> {
        Some(self.bar_type)
    }

    fn can_update(&self, price: i64, size: i64, side: u8, timestamp_ns: u64) -> (r: bool) {
        self.can_take(price, size, side)
    }

    fn update(&mut self, price: i64, size: i64, side: u8, timestamp_ns: u64) -> (r: Option<Bar>) {
        ValueRunsBarAggregator::update(self, price, size, side, timestamp_ns)
    }

    fn advance_time(&mut self, timestamp_ns: u64) -> (r: Option<Bar>) {
        ValueRunsBarAggregator::advance_time(self, timestamp_ns)
    }

    fn flush(&mut self) -> (r: Option<Bar>) {
        ValueRunsBarAggregator::flush(self)
    }

    fn bar_type(&self) -> (r: Option<&BarType>) {
        Some(&self.bar_type)
    }
}

/// Bars by runs of value: a trade of the side of the run adds its price times its size, one of the
/// other side begins a run of its own value, and one of an unknown side changes nothing. The bar is
/// closed when the run is worth the step, and holds all trades since the bar before.
pub proof fn value_runs_bars_close_on_a_run(
    a: ValueRunsBarAggregator,
    trades: Seq<bar_builder::TradeIn>,
    t: bar_builder::TradeIn,
    side: u8,
)
    requires
        bar_builder::holds_trades(a.builder, trades),
        a.in_range(t.price, t.size, side),
    ensures
        ({
            let (next, closed) = a.moved(t.price, t.size, side, t.ts);
            let known = side == 0 || side == 1;
            let run = t.price * t.size + if a.current_run_side == Some(side) {
                a.run_value as int
            } else {
                0
            };
            &&& closed is Some <==> known && run >= a.step
            &&& closed matches Some(bar) ==> trade_bar(bar, trades.push(t))
            &&& closed is Some ==> next.run_value == 0 && next.current_run_side is None
                && bar_builder::holds_trades(next.builder, seq![])
            &&& closed is None ==> bar_builder::holds_trades(next.builder, trades.push(t))
            &&& closed is None && known ==> next.run_value == run && next.current_run_side == Some(
                side,
            )
            &&& !known ==> next.run_value == a.run_value && next.current_run_side
                == a.current_run_side
            &&& next.step == a.step && next.bar_type == a.bar_type
        }),
{
    lemma_trade_joins(a.builder, trades, t);
    lemma_notional(t.price, t.size);
}

/// Each way of closing bars closes, at the end of the trades, the bar of the trades that it holds,
/// and holds none behind it; without trades there is no bar.
pub proof fn every_end_closes_what_is_held(
    v: VolumeBarAggregator,
    w: ValueBarAggregator,
    i: TickImbalanceBarAggregator,
    r: TickRunsBarAggregator,
    x: VolumeImbalanceBarAggregator,
    y: ValueRunsBarAggregator,
)
    ensures
        ended_well(v.builder, v.ended().0.builder, v.ended().1),
        ended_well(w.builder, w.ended().0.builder, w.ended().1),
        ended_well(i.builder, i.ended().0.builder, i.ended().1),
        ended_well(r.builder, r.ended().0.builder, r.ended().1),
        ended_well(x.builder, x.ended().0.builder, x.ended().1),
        ended_well(y.builder, y.ended().0.builder, y.ended().1),
{
}

/// What a builder held was closed into a bar, if it held anything, and the builder is empty.
pub open spec fn ended_well(before: BarBuilder, after: BarBuilder, bar: Option<Bar>) -> bool {
    &&& bar is Some <==> before.count > 0
    &&& bar matches Some(b) ==> b.volume == before.volume && b.tick_count == before.count
        && b.ts_event == before.ts_last
    &&& bar is Some ==> after.volume == 0 && after.last_close == before.close
    &&& bar is None ==> after == before
    &&& after.count == 0
}

} // verus!
