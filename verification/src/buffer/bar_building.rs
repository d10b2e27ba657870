//! Bars of a whole tick buffer, and the aggregator that a bar type asks for.

use crate::buffer::bar_aggregation;
use crate::buffer::bar_aggregation::{
    Aggregator, BarPeriod, SidedTrade, TickBarAggregator, TickImbalanceBarAggregator,
    TickRunsBarAggregator, TimeBarAggregator, ValueBarAggregator, VolumeBarAggregator,
    VolumeImbalanceBarAggregator,
};
use crate::buffer::bar_builder::{Bar, BarBuilder};
use crate::buffer::bar_spec::{BarAggregation, BarType};
use crate::buffer::tick_buffer::{TickBuffer, TradeFlowStats};
use crate::instrument::InstrumentId;
use vstd::prelude::*;

verus! {

/// The bar, if there is one.
pub open spec fn opt_bar(b: Option<Bar>) -> Seq<Bar> {
    match b {
        Some(x) => seq![x],
        None => seq![],
    }
}

/// The state behind the first `n` ticks, and the bars closed so far.
pub open spec fn run<A: Aggregator>(a: A, ticks: Seq<TradeFlowStats>, n: int) -> (A, Seq<Bar>)
    decreases n,
{
    if n <= 0 {
        (a, seq![])
    } else {
        let (b, bars) = run(a, ticks, n - 1);
        let t = ticks[n - 1];
        let (c, closed) = b.step(t.price_int, t.size_int, t.side, t.timestamp_ns);
        (c, bars + opt_bar(closed))
    }
}

/// Each of the ticks keeps the state in range.
pub open spec fn runs<A: Aggregator>(a: A, ticks: Seq<TradeFlowStats>) -> bool {
    forall|k: int| 0 <= k < ticks.len() ==> #[trigger] runs_at(a, ticks, k)
}

/// Tick `k` keeps the state in range.
pub open spec fn runs_at<A: Aggregator>(a: A, ticks: Seq<TradeFlowStats>, k: int) -> bool {
    run(a, ticks, k).0.accepts(
        ticks[k].price_int,
        ticks[k].size_int,
        ticks[k].side,
        ticks[k].timestamp_ns,
    )
}

/// All bars of the ticks, the one left open at the end included.
pub open spec fn bars_of<A: Aggregator>(a: A, ticks: Seq<TradeFlowStats>) -> Seq<Bar> {
    let (b, bars) = run(a, ticks, ticks.len() as int);
    bars + opt_bar(b.flushed().1)
}

/// Feeds all ticks to an aggregator; `None` where one does not keep the state in range.
fn drive<A: Aggregator>(a: A, tick_buffer: &TickBuffer) -> (r: Option<Vec<Bar>>)
    ensures
        match r {
            Some(bars) => runs(a, tick_buffer@.stats) && bars@ == bars_of(a, tick_buffer@.stats),
            None => !runs(a, tick_buffer@.stats),
        },
{
    let ghost first = a;
    let ghost ticks = tick_buffer@.stats;
    let mut agg = a;
    let mut bars: Vec<Bar> = Vec::new();
    let mut it = tick_buffer.iter();
    loop
        invariant
            it.source() == tick_buffer@,
            ticks == tick_buffer@.stats,
            0 <= it@ <= ticks.len(),
            (agg, bars@) == run(first, ticks, it@),
            forall|k: int| 0 <= k < it@ ==> #[trigger] runs_at(first, ticks, k),
            first == a,
        decreases ticks.len() - it@,
    {
        let ghost n = it@;
        match it.next() {
            Some(tick) => {
                assert(ticks[n] == *tick);
                if !agg.can_update(tick.price_int, tick.size_int, tick.side, tick.timestamp_ns) {
                    assert(!runs_at(first, ticks, n));
                    return None;
                }
                assert(runs_at(first, ticks, n));
                let ghost before = bars@;
                match agg.update(tick.price_int, tick.size_int, tick.side, tick.timestamp_ns) {
                    Some(bar) => {
                        bars.push(bar);
                        assert(bars@ =~= before + opt_bar(Some(bar)));
                    },
                    None => {
                        assert(bars@ =~= before + opt_bar(None));
                    },
                }
            },
            None => {
                let ghost before = bars@;
                match agg.flush() {
                    Some(bar) => {
                        bars.push(bar);
                        assert(bars@ =~= before + opt_bar(Some(bar)));
                    },
                    None => {
                        assert(bars@ =~= before + opt_bar(None));
                    },
                }
                return Some(bars);
            },
        }
    }
}

/// A time aggregator in front of the first tick.
pub open spec fn time_start(instrument_id: InstrumentId, period_ns: u64) -> TimeBarAggregator {
    TimeBarAggregator { instrument_id, period_ns, current_bar: None }
}

/// Whether the time bars of a tick buffer are in range.
pub fn can_build_bars(tick_buffer: &TickBuffer, period: BarPeriod) -> (r: bool)
    ensures
        r == runs(time_start(tick_buffer@.id, period.ns()), tick_buffer@.stats),
{
    drive(TimeBarAggregator::new(period, tick_buffer.instrument_id()), tick_buffer).is_some()
}

/// The time bars of a tick buffer.
pub fn build_bars(tick_buffer: &TickBuffer, period: BarPeriod) -> (r: Vec<Bar>)
    requires
        runs(time_start(tick_buffer@.id, period.ns()), tick_buffer@.stats),
    ensures
        r@ == bars_of(time_start(tick_buffer@.id, period.ns()), tick_buffer@.stats),
{
    match drive(TimeBarAggregator::new(period, tick_buffer.instrument_id()), tick_buffer) {
        Some(bars) => bars,
        None => vstd::pervasive::unreached(),
    }
}

// ---------------------------------------------------------------------------
// By bar type
// ---------------------------------------------------------------------------

/// An aggregator of any kind.
#[derive(Debug)]
pub enum AnyAggregator {
    Time(TimeBarAggregator),
    Tick(TickBarAggregator),
    Volume(VolumeBarAggregator),
    Value(ValueBarAggregator),
    TickImbalance(TickImbalanceBarAggregator),
    TickRuns(TickRunsBarAggregator),
    VolumeImbalance(VolumeImbalanceBarAggregator),
}

impl Aggregator for AnyAggregator {
    open spec fn accepts(self, price: i64, size: i64, side: u8, timestamp_ns: u64) -> bool {
        match self {
            AnyAggregator::Time(a) => a.accepts(price, size, side, timestamp_ns),
            AnyAggregator::Tick(a) => a.accepts(price, size, side, timestamp_ns),
            AnyAggregator::Volume(a) => a.accepts(price, size, side, timestamp_ns),
            AnyAggregator::Value(a) => a.accepts(price, size, side, timestamp_ns),
            AnyAggregator::TickImbalance(a) => a.accepts(price, size, side, timestamp_ns),
            AnyAggregator::TickRuns(a) => a.accepts(price, size, side, timestamp_ns),
            AnyAggregator::VolumeImbalance(a) => a.accepts(price, size, side, timestamp_ns),
        }
    }

    open spec fn step(self, price: i64, size: i64, side: u8, timestamp_ns: u64) -> (
        Self,
        Option<Bar>,
    ) {
        match self {
            AnyAggregator::Time(a) => {
                let (b, r) = a.step(price, size, side, timestamp_ns);
                (AnyAggregator::Time(b), r)
            },
            AnyAggregator::Tick(a) => {
                let (b, r) = Aggregator::step(a, price, size, side, timestamp_ns);
                (AnyAggregator::Tick(b), r)
            },
            AnyAggregator::Volume(a) => {
                let (b, r) = Aggregator::step(a, price, size, side, timestamp_ns);
                (AnyAggregator::Volume(b), r)
            },
            AnyAggregator::Value(a) => {
                let (b, r) = Aggregator::step(a, price, size, side, timestamp_ns);
                (AnyAggregator::Value(b), r)
            },
            AnyAggregator::TickImbalance(a) => {
                let (b, r) = Aggregator::step(a, price, size, side, timestamp_ns);
                (AnyAggregator::TickImbalance(b), r)
            },
            AnyAggregator::TickRuns(a) => {
                let (b, r) = Aggregator::step(a, price, size, side, timestamp_ns);
                (AnyAggregator::TickRuns(b), r)
            },
            AnyAggregator::VolumeImbalance(a) => {
                let (b, r) = Aggregator::step(a, price, size, side, timestamp_ns);
                (AnyAggregator::VolumeImbalance(b), r)
            },
        }
    }

    open spec fn clocked(self) -> bool {
        match self {
            AnyAggregator::Time(a) => a.clocked(),
            _ => true,
        }
    }

    open spec fn at_time(self, timestamp_ns: u64) -> (Self, Option<Bar>) {
        match self {
            AnyAggregator::Time(a) => {
                let (b, r) = a.at_time(timestamp_ns);
                (AnyAggregator::Time(b), r)
            },
            _ => (self, None),
        }
    }

    open spec fn flushed(self) -> (Self, Option<Bar>) {
        match self {
            AnyAggregator::Time(a) => {
                let (b, r) = a.flushed();
                (AnyAggregator::Time(b), r)
            },
            AnyAggregator::Tick(a) => {
                let (b, r) = a.flushed();
                (AnyAggregator::Tick(b), r)
            },
            AnyAggregator::Volume(a) => {
                let (b, r) = a.flushed();
                (AnyAggregator::Volume(b), r)
            },
            AnyAggregator::Value(a) => {
                let (b, r) = a.flushed();
                (AnyAggregator::Value(b), r)
            },
            AnyAggregator::TickImbalance(a) => {
                let (b, r) = a.flushed();
                (AnyAggregator::TickImbalance(b), r)
            },
            AnyAggregator::TickRuns(a) => {
                let (b, r) = a.flushed();
                (AnyAggregator::TickRuns(b), r)
            },
            AnyAggregator::VolumeImbalance(a) => {
                let (b, r) = a.flushed();
                (AnyAggregator::VolumeImbalance(b), r)
            },
        }
    }

    open spec fn kind(self) -> Option<BarType> {
        match self {
            AnyAggregator::Time(a) => a.kind(),
            AnyAggregator::Tick(a) => a.kind(),
            AnyAggregator::Volume(a) => a.kind(),
            AnyAggregator::Value(a) => a.kind(),
            AnyAggregator::TickImbalance(a) => a.kind(),
            AnyAggregator::TickRuns(a) => a.kind(),
            AnyAggregator::VolumeImbalance(a) => a.kind(),
        }
    }

    fn can_update(&self, price: i64, size: i64, side: u8, timestamp_ns: u64) -> (r: bool) {
        match self {
            AnyAggregator::Time(a) => a.can_update(price, size, side, timestamp_ns),
            AnyAggregator::Tick(a) => a.can_update(price, size, side, timestamp_ns),
            AnyAggregator::Volume(a) => a.can_update(price, size, side, timestamp_ns),
            AnyAggregator::Value(a) => a.can_update(price, size, side, timestamp_ns),
            AnyAggregator::TickImbalance(a) => a.can_update(price, size, side, timestamp_ns),
            AnyAggregator::TickRuns(a) => a.can_update(price, size, side, timestamp_ns),
            AnyAggregator::VolumeImbalance(a) => a.can_update(price, size, side, timestamp_ns),
        }
    }

    fn update(&mut self, price: i64, size: i64, side: u8, timestamp_ns: u64) -> (r: Option<Bar>) {
        match self {
            AnyAggregator::Time(a) => a.update_raw(price, size, side, timestamp_ns),
            AnyAggregator::Tick(a) => a.update(price, size, side, timestamp_ns),
            AnyAggregator::Volume(a) => a.update(price, size, side, timestamp_ns),
            AnyAggregator::Value(a) => a.update(price, size, side, timestamp_ns),
            AnyAggregator::TickImbalance(a) => a.update(price, size, side, timestamp_ns),
            AnyAggregator::TickRuns(a) => a.update(price, size, side, timestamp_ns),
            AnyAggregator::VolumeImbalance(a) => a.update(price, size, side, timestamp_ns),
        }
    }

    fn advance_time(&mut self, timestamp_ns: u64) -> (r: Option<Bar>) {
        match self {
            AnyAggregator::Time(a) => a.advance_time(timestamp_ns),
            AnyAggregator::Tick(a) => a.advance_time(timestamp_ns),
            AnyAggregator::Volume(a) => a.advance_time(timestamp_ns),
            AnyAggregator::Value(a) => a.advance_time(timestamp_ns),
            AnyAggregator::TickImbalance(a) => a.advance_time(timestamp_ns),
            AnyAggregator::TickRuns(a) => a.advance_time(timestamp_ns),
            AnyAggregator::VolumeImbalance(a) => a.advance_time(timestamp_ns),
        }
    }

    fn flush(&mut self) -> (r: Option<Bar>) {
        match self {
            AnyAggregator::Time(a) => a.flush(),
            AnyAggregator::Tick(a) => a.flush(),
            AnyAggregator::Volume(a) => a.flush(),
            AnyAggregator::Value(a) => a.flush(),
            AnyAggregator::TickImbalance(a) => a.flush(),
            AnyAggregator::TickRuns(a) => a.flush(),
            AnyAggregator::VolumeImbalance(a) => a.flush(),
        }
    }

    fn bar_type(&self) -> (r: Option<&BarType>) {
        match self {
            AnyAggregator::Time(_) => None,
            AnyAggregator::Tick(a) => Some(a.bar_type()),
            AnyAggregator::Volume(a) => Some(a.bar_type()),
            AnyAggregator::Value(a) => Some(a.bar_type()),
            AnyAggregator::TickImbalance(a) => Some(a.bar_type()),
            AnyAggregator::TickRuns(a) => Some(a.bar_type()),
            AnyAggregator::VolumeImbalance(a) => Some(a.bar_type()),
        }
    }
}

/// An instrument of this name.
pub open spec fn names(id: InstrumentId, bar_type: BarType) -> bool {
    id.wf() && id@ == (bar_type.symbol@, bar_type.venue@)
}

/// An aggregator of a bar type that has seen nothing: the kind that the bar type asks for, and
/// one-minute bars for kinds that have no aggregator.
pub open spec fn fresh_for(bar_type: BarType, a: AnyAggregator) -> bool {
    match (bar_type.spec.aggregation, a) {
        (BarAggregation::Tick, AnyAggregator::Tick(x)) => {
            &&& x.bar_type == bar_type
            &&& x.step == bar_type.spec.step
            &&& names(x.builder.instrument_id, bar_type)
            &&& x.builder == BarBuilder::fresh(x.builder.instrument_id)
        },
        (BarAggregation::Volume, AnyAggregator::Volume(x)) => {
            &&& x.bar_type == bar_type
            &&& x.step == bar_type.spec.step
            &&& x.leftover_volume == 0
            &&& names(x.builder.instrument_id, bar_type)
            &&& x.builder == BarBuilder::fresh(x.builder.instrument_id)
        },
        (BarAggregation::Value, AnyAggregator::Value(x)) => {
            &&& x.bar_type == bar_type
            &&& x.step == bar_type.spec.step
            &&& x.cum_value == 0
            &&& names(x.builder.instrument_id, bar_type)
            &&& x.builder == BarBuilder::fresh(x.builder.instrument_id)
        },
        (BarAggregation::TickImbalance, AnyAggregator::TickImbalance(x)) => {
            &&& x.bar_type == bar_type
            &&& x.step == bar_type.spec.step
            &&& x.imbalance == 0
            &&& names(x.builder.instrument_id, bar_type)
            &&& x.builder == BarBuilder::fresh(x.builder.instrument_id)
        },
        (BarAggregation::TickRuns, AnyAggregator::TickRuns(x)) => {
            &&& x.bar_type == bar_type
            &&& x.step == bar_type.spec.step
            &&& x.current_run_side is None
            &&& x.run_count == 0
            &&& names(x.builder.instrument_id, bar_type)
            &&& x.builder == BarBuilder::fresh(x.builder.instrument_id)
        },
        (BarAggregation::VolumeImbalance, AnyAggregator::VolumeImbalance(x)) => {
            &&& x.bar_type == bar_type
            &&& x.step == bar_type.spec.step
            &&& x.buy_volume == 0
            &&& x.sell_volume == 0
            &&& names(x.builder.instrument_id, bar_type)
            &&& x.builder == BarBuilder::fresh(x.builder.instrument_id)
        },
        (k, AnyAggregator::Time(x)) => {
            &&& !has_threshold_aggregator(k)
            &&& x.current_bar is None
            &&& names(x.instrument_id, bar_type)
            &&& x.period_ns == match bar_type.spec.interval_ns() {
                Some(ns) => ns,
                None => BarPeriod::OneMinute.ns(),
            }
        },
        _ => false,
    }
}

/// The kinds of thresholds that have an aggregator.
pub open spec fn has_threshold_aggregator(k: BarAggregation) -> bool {
    match k {
        BarAggregation::Tick
        | BarAggregation::Volume
        | BarAggregation::Value
        | BarAggregation::TickImbalance
        | BarAggregation::TickRuns
        | BarAggregation::VolumeImbalance => true,
        _ => false,
    }
}

/// Makes aggregators for bar types.
pub struct AggregatorFactory;

impl AggregatorFactory {
    /// The aggregator that a bar type asks for.
    pub fn create(bar_type: BarType) -> (r: AnyAggregator)
        requires
            bar_type.spec.interval_fits(),
        ensures
            fresh_for(bar_type, r),
    {
        match bar_type.spec.aggregation {
            BarAggregation::Tick => AnyAggregator::Tick(TickBarAggregator::new(bar_type)),
            BarAggregation::Volume => AnyAggregator::Volume(VolumeBarAggregator::new(bar_type)),
            BarAggregation::Value => AnyAggregator::Value(ValueBarAggregator::new(bar_type)),
            BarAggregation::TickImbalance => AnyAggregator::TickImbalance(
                TickImbalanceBarAggregator::new(bar_type),
            ),
            BarAggregation::TickRuns => AnyAggregator::TickRuns(
                TickRunsBarAggregator::new(bar_type),
            ),
            BarAggregation::VolumeImbalance => AnyAggregator::VolumeImbalance(
                VolumeImbalanceBarAggregator::new(bar_type),
            ),
            _ => {
                match bar_type.spec.get_interval_ns() {
                    Some(ns) => AnyAggregator::Time(
                        TimeBarAggregator::with_period_ns(ns, bar_type.instrument_id()),
                    ),
                    None => AnyAggregator::Time(
                        TimeBarAggregator::new(BarPeriod::OneMinute, bar_type.instrument_id()),
                    ),
                }
            },
        }
    }
}

/// The kinds for which bars can be built from a tick buffer.
pub open spec fn buildable(bar_type: BarType) -> bool {
    bar_type.spec.aggregation.unit_ns() is Some || has_threshold_aggregator(
        bar_type.spec.aggregation,
    )
}

/// Builds the bars that a bar type asks for; `None` where the bar's length or a tick is not in
/// range. A kind that has no aggregator gives no bars.
pub fn try_build_bars_with_type(tick_buffer: &TickBuffer, bar_type: &BarType) -> (r: Option<
    Vec<Bar>,
>)
    ensures
        match r {
            Some(bars) => {
                &&& bar_type.spec.interval_fits()
                &&& !buildable(*bar_type) ==> bars@ == Seq::<Bar>::empty()
                &&& buildable(*bar_type) ==> exists|a: AnyAggregator| #[trigger]
                    fresh_for(*bar_type, a) && runs(a, tick_buffer@.stats) && bars@ == bars_of(
                        a,
                        tick_buffer@.stats,
                    )
            },
            None => !bar_type.spec.interval_fits() || (buildable(*bar_type) && exists|
                a: AnyAggregator,
            | #[trigger]
                fresh_for(*bar_type, a) && !runs(a, tick_buffer@.stats)),
        },
{
    if !bar_type.spec.interval_in_range() {
        return None;
    }
    let known = bar_type.spec.is_time_aggregated() || match bar_type.spec.aggregation {
        BarAggregation::Tick
        | BarAggregation::Volume
        | BarAggregation::Value
        | BarAggregation::TickImbalance
        | BarAggregation::TickRuns
        | BarAggregation::VolumeImbalance => true,
        _ => false,
    };
    if !known {
        return Some(Vec::new());
    }
    let a = AggregatorFactory::create(bar_type.clone());
    let ghost first = a;
    assert(fresh_for(*bar_type, first));
    drive(a, tick_buffer)
}

/// Every aggregator that fits a bar type keeps in range on these ticks.
pub open spec fn builds(tick_buffer: TickBuffer, bar_type: BarType) -> bool {
    &&& bar_type.spec.interval_fits()
    &&& buildable(bar_type) ==> forall|a: AnyAggregator| #[trigger]
        fresh_for(bar_type, a) ==> runs(a, tick_buffer@.stats)
}

/// The bars of a tick buffer that a bar type asks for.
pub fn build_bars_with_type(tick_buffer: &TickBuffer, bar_type: &BarType) -> (r: Vec<Bar>)
    requires
        builds(*tick_buffer, *bar_type),
    ensures
        !buildable(*bar_type) ==> r@ == Seq::<Bar>::empty(),
        buildable(*bar_type) ==> exists|a: AnyAggregator| #[trigger]
            fresh_for(*bar_type, a) && r@ == bars_of(a, tick_buffer@.stats),
{
    match try_build_bars_with_type(tick_buffer, bar_type) {
        Some(bars) => bars,
        None => vstd::pervasive::unreached(),
    }
}

// ---------------------------------------------------------------------------
// Bars of a whole buffer
// ---------------------------------------------------------------------------

/// Bars of one length.
#[derive(Debug)]
pub struct BarBuffer {
    bars: Vec<Bar>,
    period: BarPeriod,
    instrument_id: InstrumentId,
}

impl View for BarBuffer {
    type V = (Seq<Bar>, BarPeriod, InstrumentId);

    closed spec fn view(&self) -> (Seq<Bar>, BarPeriod, InstrumentId) {
        (self.bars@, self.period, self.instrument_id)
    }
}

impl BarBuffer {
    /// The time bars of a tick buffer.
    pub fn from_tick_buffer(tick_buffer: &TickBuffer, period: BarPeriod) -> (r: Self)
        requires
            runs(time_start(tick_buffer@.id, period.ns()), tick_buffer@.stats),
        ensures
            r@ == (
                bars_of(time_start(tick_buffer@.id, period.ns()), tick_buffer@.stats),
                period,
                tick_buffer@.id,
            ),
    {
        let bars = build_bars(tick_buffer, period);
        BarBuffer { bars, period, instrument_id: tick_buffer.instrument_id() }
    }

    /// A buffer of given bars.
    pub fn from_bars(bars: Vec<Bar>, period: BarPeriod, instrument_id: InstrumentId) -> (r: Self)
        ensures
            r@ == (bars@, period, instrument_id),
    {
        BarBuffer { bars, period, instrument_id }
    }

    /// The number of bars.
    pub fn num_bars(&self) -> (r: usize)
        ensures
            r == self@.0.len(),
    {
        self.bars.len()
    }

    /// The length of the bars.
    pub fn period(&self) -> (r: BarPeriod)
        ensures
            r == self@.1,
    {
        self.period
    }

    /// The instrument.
    pub fn instrument_id(&self) -> (r: InstrumentId)
        ensures
            r == self@.2,
    {
        self.instrument_id.clone()
    }

    /// The bar at a position.
    pub fn get(&self, index: usize) -> (r: Option<&Bar>)
        ensures
            r == (if index < self@.0.len() {
                Some(&self@.0[index as int])
            } else {
                None
            }),
    {
        if index < self.bars.len() {
            Some(&self.bars[index])
        } else {
            None
        }
    }

    /// Walks over the bars.
    pub fn iter(&self) -> (r: BarIter<'_>)
        ensures
            r.source() == self@.0,
            r@ == 0,
    {
        BarIter { buffer: self, index: 0 }
    }

    /// Whether there are no bars.
    pub fn is_empty(&self) -> (r: bool)
        ensures
            r == (self@.0.len() == 0),
    {
        self.bars.len() == 0
    }
}

/// Walk over the bars of a `BarBuffer`.
#[derive(Debug)]
pub struct BarIter<'a> {
    buffer: &'a BarBuffer,
    index: usize,
}

impl<'a> View for BarIter<'a> {
    type V = int;

    closed spec fn view(&self) -> int {
        self.index as int
    }
}

impl<'a> BarIter<'a> {
    /// The bars that are walked.
    pub closed spec fn source(self) -> Seq<Bar> {
        self.buffer@.0
    }

    /// The next bar.
    pub fn next(&mut self) -> (r: Option<&'a Bar>)
        ensures
            final(self).source() == old(self).source(),
            if 0 <= old(self)@ < old(self).source().len() {
                r == Some(&old(self).source()[old(self)@]) && final(self)@ == old(self)@ + 1
            } else {
                r is None && final(self)@ == old(self)@
            },
    {
        if self.index < self.buffer.bars.len() {
            let item = &self.buffer.bars[self.index];
            self.index = self.index + 1;
            Some(item)
        } else {
            None
        }
    }

    /// The number of bars to come.
    pub fn size_hint(&self) -> (r: (usize, Option<usize>))
        requires
            self@ <= self.source().len(),
        ensures
            r.0 == self.source().len() - self@,
            r.1 == Some(r.0),
    {
        let remaining: usize = self.buffer.bars.len() - self.index;
        (remaining, Some(remaining))
    }
}

// ---------------------------------------------------------------------------
// Laws
// ---------------------------------------------------------------------------

/// The trades counted in bars.
pub open spec fn counted(bars: Seq<Bar>) -> int
    decreases bars.len(),
{
    if bars.len() == 0 {
        0
    } else {
        counted(bars.drop_last()) + bars.last().tick_count
    }
}

/// The volume of bars.
pub open spec fn bar_volume(bars: Seq<Bar>) -> int
    decreases bars.len(),
{
    if bars.len() == 0 {
        0
    } else {
        bar_volume(bars.drop_last()) + bars.last().volume
    }
}

/// The sizes of the first `n` ticks added up.
pub open spec fn tick_volume(ticks: Seq<TradeFlowStats>, n: int) -> int
    decreases n,
{
    if n <= 0 {
        0
    } else {
        tick_volume(ticks, n - 1) + ticks[n - 1].size_int
    }
}

proof fn lemma_append_bar(bars: Seq<Bar>, b: Option<Bar>)
    ensures
        counted(bars + opt_bar(b)) == counted(bars) + match b {
            Some(x) => x.tick_count as int,
            None => 0,
        },
        bar_volume(bars + opt_bar(b)) == bar_volume(bars) + match b {
            Some(x) => x.volume as int,
            None => 0,
        },
{
    let all = bars + opt_bar(b);
    match b {
        Some(x) => {
            assert(all.drop_last() =~= bars);
            assert(all.last() == x);
        },
        None => {
            assert(all =~= bars);
        },
    }
}

/// What the open bar of a time aggregator holds.
pub open spec fn open_count(a: TimeBarAggregator) -> int {
    match a.current_bar {
        Some(b) => b.tick_count as int,
        None => 0,
    }
}

/// What the open bar of a time aggregator holds.
pub open spec fn open_volume(a: TimeBarAggregator) -> int {
    match a.current_bar {
        Some(b) => b.volume as int,
        None => 0,
    }
}

proof fn lemma_time_run(a: TimeBarAggregator, ticks: Seq<TradeFlowStats>, n: int)
    requires
        a.current_bar is None,
        runs(a, ticks),
        0 <= n <= ticks.len(),
    ensures
        ({
            let (b, bars) = run(a, ticks, n);
            &&& counted(bars) + open_count(b) == n
            &&& bar_volume(bars) + open_volume(b) == tick_volume(ticks, n)
        }),
    decreases n,
{
    if n > 0 {
        lemma_time_run(a, ticks, n - 1);
        let (b, bars) = run(a, ticks, n - 1);
        let t = ticks[n - 1];
        assert(runs_at(a, ticks, n - 1));
        let (c, closed) = b.step(t.price_int, t.size_int, t.side, t.timestamp_ns);
        lemma_append_bar(bars, closed);
    } else {
        assert(counted(Seq::<Bar>::empty()) == 0);
        assert(bar_volume(Seq::<Bar>::empty()) == 0);
    }
}

/// Time bars keep every trade: their tick counts add up to the number of ticks, their volumes to
/// the sizes of the ticks.
pub proof fn time_bars_keep_every_trade(
    instrument_id: InstrumentId,
    period_ns: u64,
    ticks: Seq<TradeFlowStats>,
)
    requires
        runs(time_start(instrument_id, period_ns), ticks),
    ensures
        counted(bars_of(time_start(instrument_id, period_ns), ticks)) == ticks.len(),
        bar_volume(bars_of(time_start(instrument_id, period_ns), ticks)) == tick_volume(
            ticks,
            ticks.len() as int,
        ),
{
    let a = time_start(instrument_id, period_ns);
    lemma_time_run(a, ticks, ticks.len() as int);
    let (b, bars) = run(a, ticks, ticks.len() as int);
    lemma_append_bar(bars, b.flushed().1);
}

proof fn lemma_time_order(a: TimeBarAggregator, ticks: Seq<TradeFlowStats>, n: int)
    requires
        a.current_bar is None,
        a.period_ns > 0,
        runs(a, ticks),
        0 <= n <= ticks.len(),
        forall|i: int, j: int|
            0 <= i <= j < ticks.len() ==> ticks[i].timestamp_ns <= ticks[j].timestamp_ns,
    ensures
        ({
            let (b, bars) = run(a, ticks, n);
            &&& b.period_ns == a.period_ns
            &&& forall|i: int, j: int|
                0 <= i < j < bars.len() ==> bars[i].ts_event < bars[j].ts_event
            &&& n == 0 ==> b.current_bar is None
            &&& n > 0 ==> {
                &&& b.current_bar is Some
                &&& b.current_bar->0.ts_event == bar_aggregation::period_start(
                    ticks[n - 1].timestamp_ns,
                    a.period_ns,
                )
                &&& forall|i: int|
                    0 <= i < bars.len() ==> (#[trigger] bars[i]).ts_event
                        < b.current_bar->0.ts_event
            }
            &&& n == 0 ==> bars.len() == 0
        }),
    decreases n,
{
    if n > 0 {
        lemma_time_order(a, ticks, n - 1);
        let (b, bars) = run(a, ticks, n - 1);
        let t = ticks[n - 1];
        assert(runs_at(a, ticks, n - 1));
        if n > 1 {
            lemma_starts_ascend(ticks[n - 2].timestamp_ns, t.timestamp_ns, a.period_ns);
        }
    }
}

proof fn lemma_starts_ascend(x: u64, y: u64, p: u64)
    requires
        x <= y,
        p > 0,
    ensures
        bar_aggregation::period_start(x, p) <= bar_aggregation::period_start(y, p),
{
    bar_aggregation::period_holds_its_time(x, p);
    bar_aggregation::period_holds_its_time(y, p);
    vstd::arithmetic::div_mod::lemma_div_is_ordered(x as int, y as int, p as int);
    vstd::arithmetic::mul::lemma_mul_inequality(x as int / p as int, y as int / p as int, p as int);
}

/// Of ticks in time order, time bars come in ascending order of their periods, one bar for each
/// period.
pub proof fn time_bars_ascend(
    instrument_id: InstrumentId,
    period_ns: u64,
    ticks: Seq<TradeFlowStats>,
)
    requires
        period_ns > 0,
        runs(time_start(instrument_id, period_ns), ticks),
        forall|i: int, j: int|
            0 <= i <= j < ticks.len() ==> ticks[i].timestamp_ns <= ticks[j].timestamp_ns,
    ensures
        ({
            let bars = bars_of(time_start(instrument_id, period_ns), ticks);
            forall|i: int, j: int| 0 <= i < j < bars.len() ==> bars[i].ts_event < bars[j].ts_event
        }),
{
    lemma_time_order(time_start(instrument_id, period_ns), ticks, ticks.len() as int);
}

/// Ticks as trades of a side.
pub open spec fn sided(ticks: Seq<TradeFlowStats>) -> Seq<SidedTrade> {
    Seq::new(
        ticks.len(),
        |i: int|
            SidedTrade {
                price: ticks[i].price_int,
                size: ticks[i].size_int,
                side: ticks[i].side,
                ts: ticks[i].timestamp_ns,
            },
    )
}

/// Bar `k` tells of the ticks from `cuts[k]` to before `cuts[k + 1]`, of at least one.
pub open spec fn tells_part(
    bars: Seq<Bar>,
    ticks: Seq<TradeFlowStats>,
    cuts: Seq<int>,
    k: int,
) -> bool {
    &&& 0 <= cuts[k] < cuts[k + 1] <= ticks.len()
    &&& bar_aggregation::tells_of(bars[k], sided(ticks).subrange(cuts[k], cuts[k + 1]))
}

/// The bars tell of ticks one behind the other, together of the first `n`.
pub open spec fn tell_in_turn(
    bars: Seq<Bar>,
    ticks: Seq<TradeFlowStats>,
    cuts: Seq<int>,
    n: int,
) -> bool {
    &&& cuts.len() == bars.len() + 1
    &&& cuts[0] == 0
    &&& cuts.last() == n
    &&& forall|k: int| 0 <= k < bars.len() ==> #[trigger] tells_part(bars, ticks, cuts, k)
}

proof fn lemma_time_cuts(a: TimeBarAggregator, ticks: Seq<TradeFlowStats>, n: int) -> (cuts: Seq<int>)
    requires
        a.current_bar is None,
        a.period_ns > 0,
        runs(a, ticks),
        0 <= n <= ticks.len(),
    ensures
        ({
            let (b, bars) = run(a, ticks, n);
            &&& b.period_ns == a.period_ns && b.instrument_id == a.instrument_id
            &&& 0 <= cuts.last() <= n
            &&& tell_in_turn(bars, ticks, cuts, cuts.last())
            &&& b.current_bar is None ==> cuts.last() == n && n == 0
            &&& b.current_bar matches Some(bar) ==> cuts.last() < n && bar_aggregation::tells_of(
                bar,
                sided(ticks).subrange(cuts.last(), n),
            ) && bar.ts_event % a.period_ns == 0 && bar.timestamp_ns == bar.ts_event
                && bar.instrument_id == a.instrument_id
        }),
    decreases n,
{
    if n == 0 {
        assert(tell_in_turn(Seq::<Bar>::empty(), ticks, seq![0int], 0));
        seq![0int]
    } else {
        let cuts = lemma_time_cuts(a, ticks, n - 1);
        let (b, bars) = run(a, ticks, n - 1);
        let all = sided(ticks);
        let t = all[n - 1];
        assert(runs_at(a, ticks, n - 1));
        let held = all.subrange(cuts.last(), n - 1);
        bar_aggregation::time_bar_tells_of_its_period(b, held, t);
        let (c, closed) = b.time_step(t.price, t.size, t.side, t.ts);
        assert(run(a, ticks, n) == (c, bars + opt_bar(closed)));
        assert(all.subrange(n - 1, n) =~= seq![t]);
        assert(held.push(t) =~= all.subrange(cuts.last(), n));
        match closed {
            Some(bar) => {
                let more = cuts.push(n - 1);
                let next = bars + opt_bar(closed);
                assert(next =~= bars.push(bar));
                assert forall|k: int| 0 <= k < next.len() implies #[trigger] tells_part(
                    next,
                    ticks,
                    more,
                    k,
                ) by {
                    if k < bars.len() {
                        assert(tells_part(bars, ticks, cuts, k));
                        assert(next[k] == bars[k]);
                        assert(more[k] == cuts[k] && more[k + 1] == cuts[k + 1]);
                    } else {
                        assert(more[k] == cuts.last());
                    }
                }
                assert(more[0] == cuts[0]);
                assert(more.last() == n - 1);
                assert(tell_in_turn(next, ticks, more, n - 1));
                assert(bar_aggregation::tells_of(c.current_bar->0, all.subrange(n - 1, n)));
                more
            },
            None => {
                assert(bars + opt_bar(closed) =~= bars);
                assert(bar_aggregation::tells_of(
                    c.current_bar->0,
                    all.subrange(cuts.last(), n),
                ));
                cuts
            },
        }
    }
}

/// Time bars tell of all ticks, one stretch behind the other: each bar opens at the first price of its
/// stretch and closes at the last, has its greatest price as the high and its least as the low, and the
/// volumes of what was bought and sold in it.
pub proof fn time_bars_tell_of_all_ticks(
    instrument_id: InstrumentId,
    period_ns: u64,
    ticks: Seq<TradeFlowStats>,
)
    requires
        period_ns > 0,
        runs(time_start(instrument_id, period_ns), ticks),
    ensures
        exists|cuts: Seq<int>|
            tell_in_turn(
                bars_of(time_start(instrument_id, period_ns), ticks),
                ticks,
                cuts,
                ticks.len() as int,
            ),
{
    let a = time_start(instrument_id, period_ns);
    let n = ticks.len() as int;
    let cuts = lemma_time_cuts(a, ticks, n);
    let (b, bars) = run(a, ticks, n);
    let all = bars_of(a, ticks);
    match b.current_bar {
        Some(bar) => {
            let more = cuts.push(n);
            assert(all =~= bars.push(bar));
            assert forall|k: int| 0 <= k < all.len() implies #[trigger] tells_part(
                all,
                ticks,
                more,
                k,
            ) by {
                if k < bars.len() {
                    assert(tells_part(bars, ticks, cuts, k));
                    assert(all[k] == bars[k]);
                    assert(more[k] == cuts[k] && more[k + 1] == cuts[k + 1]);
                } else {
                    assert(more[k] == cuts.last());
                }
            }
            assert(more[0] == cuts[0]);
            assert(more.last() == n);
            assert(tell_in_turn(all, ticks, more, n));
        },
        None => {
            assert(all =~= bars);
            assert(tell_in_turn(all, ticks, cuts, n));
        },
    }
}

proof fn lemma_tick_run(a: TickBarAggregator, ticks: Seq<TradeFlowStats>, n: int)
    requires
        a.builder.count == 0,
        a.builder.volume == 0,
        runs(a, ticks),
        0 <= n <= ticks.len(),
    ensures
        ({
            let (b, bars) = run(a, ticks, n);
            &&& counted(bars) + b.builder.count == n
            &&& bar_volume(bars) + b.builder.volume == tick_volume(ticks, n)
            &&& b.step == a.step
            &&& b.builder.count == 0 ==> b.builder.volume == 0
            &&& forall|k: int| 0 <= k < bars.len() ==> (#[trigger] bars[k]).tick_count == a.step
        }),
    decreases n,
{
    if n > 0 {
        lemma_tick_run(a, ticks, n - 1);
        let (b, bars) = run(a, ticks, n - 1);
        let t = ticks[n - 1];
        assert(runs_at(a, ticks, n - 1));
        let (c, closed) = Aggregator::step(b, t.price_int, t.size_int, t.side, t.timestamp_ns);
        lemma_append_bar(bars, closed);
        let next = bars + opt_bar(closed);
        assert forall|k: int| 0 <= k < next.len() implies (#[trigger] next[k]).tick_count
            == a.step by {
            if k < bars.len() {
                assert(next[k] == bars[k]);
            }
        }
    } else {
        assert(counted(Seq::<Bar>::empty()) == 0);
        assert(bar_volume(Seq::<Bar>::empty()) == 0);
    }
}

/// Bars by count keep every trade, and each of them but the one that is left open at the end has as
/// many trades as the step says.
pub proof fn tick_bars_keep_every_trade(a: TickBarAggregator, ticks: Seq<TradeFlowStats>)
    requires
        a.builder.count == 0,
        a.builder.volume == 0,
        runs(a, ticks),
    ensures
        counted(bars_of(a, ticks)) == ticks.len(),
        bar_volume(bars_of(a, ticks)) == tick_volume(ticks, ticks.len() as int),
        forall|k: int|
            0 <= k < bars_of(a, ticks).len() - 1 ==> (#[trigger] bars_of(a, ticks)[k]).tick_count
                == a.step,
{
    let n = ticks.len() as int;
    lemma_tick_run(a, ticks, n);
    let (b, bars) = run(a, ticks, n);
    lemma_append_bar(bars, Aggregator::flushed(b).1);
    let all = bars_of(a, ticks);
    assert forall|k: int| 0 <= k < all.len() - 1 implies (#[trigger] all[k]).tick_count == a.step by {
        assert(all[k] == bars[k]);
    }
}

/// An aggregator of any kind does what its kind does.
pub proof fn any_aggregator_does_as_its_kind(
    time: TimeBarAggregator,
    tick: TickBarAggregator,
    volume: VolumeBarAggregator,
    value: ValueBarAggregator,
    imbalance: TickImbalanceBarAggregator,
    runs: TickRunsBarAggregator,
    volumes: VolumeImbalanceBarAggregator,
    price: i64,
    size: i64,
    side: u8,
    ts: u64,
)
    ensures
        AnyAggregator::Time(time).step(price, size, side, ts).1 == time.time_step(
            price,
            size,
            side,
            ts,
        ).1,
        AnyAggregator::Tick(tick).step(price, size, side, ts).1 == tick.moved(price, size, side, ts).1,
        AnyAggregator::Volume(volume).step(price, size, side, ts).1 == volume.moved(
            price,
            size,
            side,
            ts,
        ).1,
        AnyAggregator::Value(value).step(price, size, side, ts).1 == value.moved(
            price,
            size,
            side,
            ts,
        ).1,
        AnyAggregator::TickImbalance(imbalance).step(price, size, side, ts).1 == imbalance.moved(
            price,
            size,
            side,
            ts,
        ).1,
        AnyAggregator::TickRuns(runs).step(price, size, side, ts).1 == runs.moved(
            price,
            size,
            side,
            ts,
        ).1,
        AnyAggregator::VolumeImbalance(volumes).step(price, size, side, ts).1 == volumes.moved(
            price,
            size,
            side,
            ts,
        ).1,
        AnyAggregator::Tick(tick).step(price, size, side, ts).0 == AnyAggregator::Tick(
            tick.moved(price, size, side, ts).0,
        ),
        AnyAggregator::Volume(volume).step(price, size, side, ts).0 == AnyAggregator::Volume(
            volume.moved(price, size, side, ts).0,
        ),
        AnyAggregator::Value(value).step(price, size, side, ts).0 == AnyAggregator::Value(
            value.moved(price, size, side, ts).0,
        ),
        AnyAggregator::Time(time).at_time(ts).1 == time.time_at(ts).1,
        AnyAggregator::Tick(tick).at_time(ts) == (AnyAggregator::Tick(tick), None::<Bar>),
        AnyAggregator::Tick(tick).flushed().1 == tick.ended().1,
        AnyAggregator::Volume(volume).flushed().1 == volume.ended().1,
        AnyAggregator::Value(value).flushed().1 == value.ended().1,
        AnyAggregator::TickImbalance(imbalance).flushed().1 == imbalance.ended().1,
        AnyAggregator::TickRuns(runs).flushed().1 == runs.ended().1,
        AnyAggregator::VolumeImbalance(volumes).flushed().1 == volumes.ended().1,
        AnyAggregator::Time(time).flushed().1 == time.current_bar,
{
}

/// A bar type gets an aggregator of its own kind with its own step, and one by time where it is by time:
/// a minute where it names no length.
pub proof fn bar_type_gets_its_aggregator(bar_type: BarType, a: AnyAggregator)
    requires
        fresh_for(bar_type, a),
    ensures
        bar_type.spec.aggregation is Tick ==> (a matches AnyAggregator::Tick(x) && x.step
            == bar_type.spec.step && x.builder.count == 0),
        bar_type.spec.aggregation is Volume ==> (a matches AnyAggregator::Volume(x) && x.step
            == bar_type.spec.step && x.leftover_volume == 0 && x.builder.count == 0),
        bar_type.spec.aggregation is Value ==> (a matches AnyAggregator::Value(x) && x.step
            == bar_type.spec.step && x.cum_value == 0 && x.builder.count == 0),
        bar_type.spec.aggregation is TickImbalance ==> (a matches AnyAggregator::TickImbalance(x)
            && x.step == bar_type.spec.step && x.imbalance == 0),
        bar_type.spec.aggregation is TickRuns ==> (a matches AnyAggregator::TickRuns(x) && x.step
            == bar_type.spec.step && x.run_count == 0),
        bar_type.spec.aggregation is VolumeImbalance ==> (a matches AnyAggregator::VolumeImbalance(
            x,
        ) && x.step == bar_type.spec.step && x.buy_volume == 0 && x.sell_volume == 0),
        bar_type.spec.interval_ns() matches Some(ns) ==> (a matches AnyAggregator::Time(x)
            && x.period_ns == ns && x.current_bar is None),
        bar_type.spec.aggregation is Renko ==> (a matches AnyAggregator::Time(x) && x.period_ns
            == 60_000_000_000),
{
}

} // verus!
