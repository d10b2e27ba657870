//! Playing the ticks of several instruments, in time order, to a strategy over a portfolio.

use crate::backtest::play;
use crate::backtest::play::Context;
use crate::backtest::play::ContextView;
use crate::backtest::play::Heard;
use crate::backtest::play::Hearing;
use crate::backtest::play::PlayTick;
use crate::backtest::play::Strategy;
use crate::backtest::signal;
use crate::backtest::signal::decide;
use crate::backtest::signal::est_minute_of;
use crate::backtest::signal::Decision;
use crate::backtest::signal::Holding;
use crate::backtest::signal::Signal;
use crate::buffer::buffer_set;
use crate::buffer::buffer_set::Lane;
use crate::buffer::buffer_set::MergeCursor;
use crate::buffer::buffer_set::TickBufferSet;
use crate::buffer::buffer_set::TickEntry;
use crate::buffer::tick_buffer::TradeFlowStats;
use crate::instrument;
use crate::instrument::InstrumentId;
use crate::name_index::InstrumentMap;
use vstd::multiset::Multiset;
use vstd::prelude::*;

verus! {

/// A tick of an instrument.
pub type Event = (InstrumentId, TradeFlowStats);

/// An instrument's symbol and exchange.
pub type IdText = (Seq<char>, Seq<char>);

/// What is asked of a portfolio.
pub enum PortfolioCall {
    /// An instrument is to be held.
    Register(IdText),
    /// An instrument has a new price.
    Mark { id: IdText, price: int },
    /// The position of an instrument is closed.
    Close { id: IdText, price: int, ts: int },
    /// A position is opened, on the side of a signal.
    Open { id: IdText, price: int, size: int, side: Signal },
    /// A signal is made known under a name.
    Publish { name: Seq<char>, value: int, ts: int },
    /// The best price of a position is brought up to date.
    Peak { id: IdText, price: int },
    /// The equity of the moment is noted.
    Record,
}

/// The side of a position behind a call.
pub open spec fn side_behind(
    sides: Map<IdText, Holding>,
    call: PortfolioCall,
) -> Map<IdText, Holding> {
    match call {
        PortfolioCall::Register(id) => sides.insert(id, Holding::Flat),
        PortfolioCall::Close { id, .. } => sides.insert(id, Holding::Flat),
        PortfolioCall::Open { id, size, side, .. } => sides.insert(
            id,
            match (side, size > 0, size < 0) {
                (Signal::Buy, true, _) => Holding::Long,
                (Signal::Buy, _, true) => Holding::Short,
                (Signal::Sell, true, _) => Holding::Short,
                (Signal::Sell, _, true) => Holding::Long,
                _ => Holding::Flat,
            },
        ),
        _ => sides,
    }
}

/// The side of every instrument behind calls.
pub open spec fn sides_of(calls: Seq<PortfolioCall>) -> Map<IdText, Holding>
    decreases calls.len(),
{
    if calls.len() == 0 {
        Map::empty()
    } else {
        side_behind(sides_of(calls.drop_last()), calls.last())
    }
}

/// The side of an instrument's position behind calls; flat where it is not held.
pub open spec fn held(calls: Seq<PortfolioCall>, id: IdText) -> Holding {
    if sides_of(calls).dom().contains(id) {
        sides_of(calls)[id]
    } else {
        Holding::Flat
    }
}

/// Positions of instruments. Prices and sizes are whole numbers of the unit of the ticks.
pub trait Portfolio {
    /// What was asked so far.
    spec fn calls(&self) -> Seq<PortfolioCall>;

    /// The instrument is held.
    fn knows(&self, id: &InstrumentId) -> (r: bool)
        ensures
            r == sides_of(self.calls()).dom().contains(id@),
    ;

    /// The side of an instrument's position.
    fn holding(&self, id: &InstrumentId) -> (r: Holding)
        ensures
            r == held(self.calls(), id@),
    ;

    /// Holds an instrument.
    fn register(&mut self, id: &InstrumentId)
        ensures
            final(self).calls() == old(self).calls().push(PortfolioCall::Register(id@)),
    ;

    /// Takes a new price.
    fn mark(&mut self, id: &InstrumentId, price: i64)
        ensures
            final(self).calls() == old(self).calls().push(
                PortfolioCall::Mark { id: id@, price: price as int },
            ),
    ;

    /// Closes the position of an instrument.
    fn close(&mut self, id: &InstrumentId, price: i64, ts: u64)
        ensures
            final(self).calls() == old(self).calls().push(
                PortfolioCall::Close { id: id@, price: price as int, ts: ts as int },
            ),
    ;

    /// Opens a position.
    fn open(&mut self, id: &InstrumentId, price: i64, size: i64, side: Signal)
        ensures
            final(self).calls() == old(self).calls().push(
                PortfolioCall::Open { id: id@, price: price as int, size: size as int, side },
            ),
    ;

    /// Makes a signal known.
    fn publish(&mut self, name: &str, value: i8, ts: u64)
        ensures
            final(self).calls() == old(self).calls().push(
                PortfolioCall::Publish { name: name@, value: value as int, ts: ts as int },
            ),
    ;

    /// Brings the best price of a position up to date.
    fn update_peak(&mut self, id: &InstrumentId, price: i64)
        ensures
            final(self).calls() == old(self).calls().push(
                PortfolioCall::Peak { id: id@, price: price as int },
            ),
    ;

    /// Notes the equity of the moment.
    fn record_equity(&mut self)
        ensures
            final(self).calls() == old(self).calls().push(PortfolioCall::Record),
    ;
}

/// A strategy over a portfolio. It may ask things of the portfolio, and undoes nothing.
pub trait PortfolioStrategy<P: Portfolio> {
    /// What the strategy was told so far.
    spec fn heard(&self) -> Hearing;

    /// The size that the strategy wants for a position.
    spec fn wants(&self) -> i64;

    /// A trade has happened.
    fn on_trade(
        &mut self,
        id: &InstrumentId,
        timestamp_ns: u64,
        price: i64,
        size: i64,
        portfolio: &mut P,
    ) -> (r: Signal)
        ensures
            old(portfolio).calls().is_prefix_of(final(portfolio).calls()),
            final(self).heard().events == old(self).heard().events.push(
                Heard::Trade {
                    id: id@,
                    tick: PlayTick {
                        timestamp_ns,
                        price_int: price,
                        size_int: size,
                        precision: MERGED_PRECISION,
                    },
                    context: None,
                    answer: Some(r),
                    wants: final(self).wants(),
                },
            ),
    ;

    /// The size of a position to be opened.
    fn position_size(&self) -> (r: i64)
        ensures
            r == self.wants(),
    ;
}

/// Ticks of several instruments carry prices with nine digits behind the point.
pub const MERGED_PRECISION: u8 = 9;

// ---------------------------------------------------------------------------
// One tick
// ---------------------------------------------------------------------------

/// What is remembered of an instrument: its last signal and the minute of its last tick.
#[derive(Debug, Clone, Copy, PartialEq, Eq, Structural)]
pub struct Track {
    pub last: Signal,
    pub minute: u32,
}

/// What the portfolio and the strategy answered at a tick.
pub struct Reply {
    /// The portfolio held the instrument.
    pub known: bool,
    /// The position before the strategy saw the tick.
    pub first: Holding,
    /// What the strategy asked of the portfolio.
    pub asked: Seq<PortfolioCall>,
    pub signal: Option<Signal>,
    /// The position behind the strategy.
    pub second: Holding,
    /// The size that the strategy wants for a position.
    pub size: i64,
}

/// What is remembered of an instrument of which nothing was seen.
pub open spec fn fresh() -> Track {
    Track { last: Signal::Close, minute: 0 }
}

/// What is remembered of the instrument of a tick.
pub open spec fn track_of(tracks: Map<IdText, Track>, e: Event, known: bool) -> Track {
    if known && tracks.dom().contains(e.0@) {
        tracks[e.0@]
    } else {
        fresh()
    }
}

/// The tick is the first of a new day.
pub open spec fn opens_day(t: Track, e: Event) -> bool {
    signal::new_day(t.minute as int, signal::est_minute(e.1.timestamp_ns))
}

/// The last signal at a tick: a new day begins with none.
pub open spec fn last_at(t: Track, e: Event) -> Signal {
    if opens_day(t, e) {
        Signal::Close
    } else {
        t.last
    }
}

/// Closing at the price of a tick.
pub open spec fn close_call(e: Event) -> PortfolioCall {
    PortfolioCall::Close {
        id: e.0@,
        price: e.1.price_int as int,
        ts: e.1.timestamp_ns as int,
    }
}

/// What is asked of the portfolio at the beginning of a tick: an instrument that is not held is
/// registered, and the price is taken.
pub open spec fn entry_calls(e: Event, known: bool) -> Seq<PortfolioCall> {
    (if known {
        seq![]
    } else {
        seq![PortfolioCall::Register(e.0@)]
    }) + seq![PortfolioCall::Mark { id: e.0@, price: e.1.price_int as int }]
}

/// What is asked of the portfolio before the strategy sees a tick: what is asked at the beginning,
/// and that a position of the day before is closed.
pub open spec fn calls_before(t: Track, e: Event, r: Reply) -> Seq<PortfolioCall> {
    entry_calls(e, r.known) + (if opens_day(t, e) && !(r.first is Flat) {
        seq![close_call(e)]
    } else {
        seq![]
    })
}

/// The number that is published for an answer.
pub open spec fn answer_value(signal: Option<Signal>) -> int {
    match signal {
        Some(s) => s.value(),
        None => 0,
    }
}

/// The signal is made known under the instrument's name and under `market_signal`.
pub open spec fn publications(e: Event, signal: Option<Signal>) -> Seq<PortfolioCall> {
    let ts = e.1.timestamp_ns as int;
    seq![
        PortfolioCall::Publish {
            name: instrument::instrument_text(e.0@.0, e.0@.1),
            value: answer_value(signal),
            ts,
        },
        PortfolioCall::Publish { name: "market_signal"@, value: answer_value(signal), ts },
    ]
}

/// What a decision asks.
pub open spec fn decision_calls(e: Event, d: Decision, size: i64) -> Seq<PortfolioCall> {
    (if d.close {
        seq![close_call(e)]
    } else {
        seq![]
    }) + (match d.open {
        Some(side) => seq![
            PortfolioCall::Open {
                id: e.0@,
                price: e.1.price_int as int,
                size: size as int,
                side,
            },
        ],
        None => seq![],
    })
}

/// What is asked of the portfolio behind the strategy: the signal is made known and carried out
/// where it has changed, and the books are brought up to date.
pub open spec fn calls_behind(t: Track, e: Event, r: Reply) -> Seq<PortfolioCall> {
    publications(e, r.signal) + decision_calls(
        e,
        signal::decided(r.signal, last_at(t, e), r.second),
        r.size,
    ) + seq![
        PortfolioCall::Peak { id: e.0@, price: e.1.price_int as int },
        PortfolioCall::Record,
    ]
}

/// All that is asked at a tick.
pub open spec fn calls_at(tracks: Map<IdText, Track>, e: Event, r: Reply) -> Seq<PortfolioCall> {
    let t = track_of(tracks, e, r.known);
    calls_before(t, e, r) + r.asked + calls_behind(t, e, r)
}

/// A reply is what the portfolio holds behind all that was asked of it: whether it held the
/// instrument, its position where a new day closes it, and its position when the signal is carried
/// out.
pub open spec fn is_reply(
    so_far: Seq<PortfolioCall>,
    tracks: Map<IdText, Track>,
    e: Event,
    r: Reply,
) -> bool {
    let t = track_of(tracks, e, r.known);
    &&& r.known == sides_of(so_far).dom().contains(e.0@)
    &&& r.first == if opens_day(t, e) {
        held(so_far + entry_calls(e, r.known), e.0@)
    } else {
        Holding::Flat
    }
    &&& r.second == held(
        so_far + calls_before(t, e, r) + r.asked + publications(e, r.signal),
        e.0@,
    )
}

/// What is remembered behind a tick.
pub open spec fn tracks_behind(tracks: Map<IdText, Track>, e: Event, r: Reply) -> Map<
    IdText,
    Track,
> {
    tracks.insert(
        e.0@,
        Track {
            last: match r.signal {
                Some(s) => s,
                None => Signal::Close,
            },
            minute: signal::est_minute(e.1.timestamp_ns) as u32,
        },
    )
}

/// What is remembered behind the first `n` ticks.
pub open spec fn tracks_at(events: Seq<Event>, replies: Seq<Reply>, n: int) -> Map<IdText, Track>
    decreases n,
{
    if n <= 0 {
        Map::empty()
    } else {
        tracks_behind(tracks_at(events, replies, n - 1), events[n - 1], replies[n - 1])
    }
}

/// All that is asked at the first `n` ticks.
pub open spec fn calls_of(events: Seq<Event>, replies: Seq<Reply>, n: int) -> Seq<PortfolioCall>
    decreases n,
{
    if n <= 0 {
        seq![]
    } else {
        calls_of(events, replies, n - 1) + calls_at(
            tracks_at(events, replies, n - 1),
            events[n - 1],
            replies[n - 1],
        )
    }
}

proof fn lemma_prefix(events: Seq<Event>, replies: Seq<Reply>, e: Event, r: Reply, n: int)
    requires
        0 <= n <= events.len(),
        events.len() == replies.len(),
    ensures
        tracks_at(events.push(e), replies.push(r), n) == tracks_at(events, replies, n),
        calls_of(events.push(e), replies.push(r), n) == calls_of(events, replies, n),
    decreases n,
{
    if n > 0 {
        lemma_prefix(events, replies, e, r, n - 1);
        assert(events.push(e)[n - 1] == events[n - 1]);
        assert(replies.push(r)[n - 1] == replies[n - 1]);
    }
}

// ---------------------------------------------------------------------------
// All ticks
// ---------------------------------------------------------------------------

/// The places of the lanes are within their ticks.
pub open spec fn lanes_ok(lanes: Seq<Lane>) -> bool {
    forall|i: int|
        0 <= i < lanes.len() ==> 0 <= (#[trigger] lanes[i]).next <= lanes[i].stats.len()
}

proof fn lemma_left_not_negative(lanes: Seq<Lane>, n: int)
    requires
        lanes_ok(lanes),
        0 <= n <= lanes.len(),
    ensures
        buffer_set::ticks_left(lanes, n) >= 0,
    decreases n,
{
    if n > 0 {
        lemma_left_not_negative(lanes, n - 1);
        assert(0 <= lanes[n - 1].next <= lanes[n - 1].stats.len());
    }
}

/// A tick that is delivered leaves fewer ticks, and places within the ticks.
pub proof fn delivery_leaves_fewer(lanes: Seq<Lane>)
    requires
        lanes_ok(lanes),
        buffer_set::pulled(lanes).0 is Some,
    ensures
        lanes_ok(buffer_set::pulled(lanes).1),
        buffer_set::pulled(lanes).1.len() == lanes.len(),
        0 <= buffer_set::ticks_left(buffer_set::pulled(lanes).1, lanes.len() as int)
            < buffer_set::ticks_left(lanes, lanes.len() as int),
{
    let n = lanes.len() as int;
    buffer_set::earliest_is_earliest(lanes, n);
    let i = buffer_set::earliest(lanes, n)->0;
    buffer_set::delivery_takes_one(lanes, i, n);
    let rest = buffer_set::delivered(lanes, i);
    assert forall|j: int| 0 <= j < rest.len() implies 0 <= (#[trigger] rest[j]).next
        <= rest[j].stats.len() by {
        assert(0 <= lanes[j].next <= lanes[j].stats.len());
    }
    lemma_left_not_negative(rest, n);
}

/// All ticks that lanes still deliver, in the order in which they come.
pub open spec fn delivery(lanes: Seq<Lane>) -> Seq<Event>
    decreases buffer_set::ticks_left(lanes, lanes.len() as int),
    when lanes_ok(lanes)
{
    match buffer_set::pulled(lanes) {
        (Some(e), rest) => {
            proof {
                delivery_leaves_fewer(lanes);
            }
            seq![e] + delivery(rest)
        },
        (None, _) => seq![],
    }
}

/// Lanes in time order deliver their ticks in time order.
pub proof fn all_comes_in_time_order(lanes: Seq<Lane>)
    requires
        lanes_ok(lanes),
        forall|i: int| 0 <= i < lanes.len() ==> (#[trigger] lanes[i]).in_time_order(),
    ensures
        forall|i: int, j: int|
            0 <= i <= j < delivery(lanes).len() ==> delivery(lanes)[i].1.timestamp_ns <= delivery(
                lanes,
            )[j].1.timestamp_ns,
    decreases buffer_set::ticks_left(lanes, lanes.len() as int),
{
    let (first, rest) = buffer_set::pulled(lanes);
    if first is Some {
        let n = lanes.len() as int;
        delivery_leaves_fewer(lanes);
        buffer_set::earliest_is_earliest(lanes, n);
        let k = buffer_set::earliest(lanes, n)->0;
        assert forall|i: int| 0 <= i < rest.len() implies (#[trigger] rest[i]).in_time_order() by {
            assert(lanes[i].in_time_order());
        }
        all_comes_in_time_order(rest);
        let tail = delivery(rest);
        let all = delivery(lanes);
        assert(all == seq![first->0] + tail);
        if tail.len() > 0 {
            buffer_set::delivery_is_in_time_order(lanes);
            buffer_set::earliest_is_earliest(rest, n);
            assert(tail[0] == buffer_set::pulled(rest).0->0);
        }
        assert forall|i: int, j: int| 0 <= i <= j < all.len() implies all[i].1.timestamp_ns
            <= all[j].1.timestamp_ns by {
            if i > 0 {
                assert(all[i] == tail[i - 1]);
            }
            if j > 0 {
                assert(all[j] == tail[j - 1]);
                assert(tail[0].1.timestamp_ns <= tail[j - 1].1.timestamp_ns);
            }
        }
    }
}

/// The ticks that a lane still holds.
pub open spec fn lane_left(lane: Lane) -> Seq<Event> {
    Seq::new((lane.stats.len() - lane.next) as nat, |k: int| (lane.id, lane.stats[lane.next + k]))
}

/// The ticks that the first `n` lanes still hold, however often each occurs.
pub open spec fn all_left(lanes: Seq<Lane>, n: int) -> Multiset<Event>
    decreases n,
{
    if n <= 0 {
        Multiset::empty()
    } else {
        all_left(lanes, n - 1).add(lane_left(lanes[n - 1]).to_multiset())
    }
}

/// Every tick of every lane is delivered exactly once, and nothing else is, where no tick is at the
/// largest time.
pub proof fn every_tick_is_delivered_once(lanes: Seq<Lane>)
    requires
        lanes_ok(lanes),
        forall|i: int, j: int|
            0 <= i < lanes.len() && 0 <= j < lanes[i].stats.len() ==> (
            #[trigger] lanes[i].stats[j]).timestamp_ns < u64::MAX,
    ensures
        delivery(lanes).to_multiset() == all_left(lanes, lanes.len() as int),
    decreases buffer_set::ticks_left(lanes, lanes.len() as int),
{
    broadcast use vstd::seq_lib::group_to_multiset_ensures;

    let n = lanes.len() as int;
    buffer_set::earliest_is_earliest(lanes, n);
    match buffer_set::earliest(lanes, n) {
        Some(i) => {
            let rest = buffer_set::delivered(lanes, i);
            delivery_leaves_fewer(lanes);
            assert forall|a: int, j: int|
                0 <= a < rest.len() && 0 <= j < rest[a].stats.len() implies (
            #[trigger] rest[a].stats[j]).timestamp_ns < u64::MAX by {
                assert(rest[a].stats[j] == lanes[a].stats[j]);
            }
            every_tick_is_delivered_once(rest);
            let e = buffer_set::event_of(lanes[i]);
            lemma_one_left(lanes, i, n);
            assert(delivery(lanes) == seq![e] + delivery(rest));
            vstd::seq_lib::lemma_multiset_commutative(seq![e], delivery(rest));
            assert(seq![e] =~= Seq::<Event>::empty().push(e));
            assert(seq![e].to_multiset() =~= Multiset::singleton(e));
            assert(delivery(lanes).to_multiset() =~= all_left(lanes, n));
        },
        None => {
            assert forall|j: int| 0 <= j < n implies lane_left(#[trigger] lanes[j]).len() == 0 by {
                assert(lanes[j].head_time() == u64::MAX);
                if lanes[j].has_head() {
                    assert(lanes[j].stats[lanes[j].next].timestamp_ns < u64::MAX);
                }
            }
            lemma_none_left(lanes, n);
            assert(delivery(lanes) =~= Seq::<Event>::empty());
        },
    }
}

proof fn lemma_none_left(lanes: Seq<Lane>, n: int)
    requires
        0 <= n <= lanes.len(),
        forall|j: int| 0 <= j < n ==> lane_left(#[trigger] lanes[j]).len() == 0,
    ensures
        all_left(lanes, n) == Multiset::<Event>::empty(),
    decreases n,
{
    broadcast use vstd::seq_lib::group_to_multiset_ensures;

    if n > 0 {
        lemma_none_left(lanes, n - 1);
        assert(lane_left(lanes[n - 1]) =~= Seq::<Event>::empty());
        assert(all_left(lanes, n) =~= Multiset::<Event>::empty());
    }
}

proof fn lemma_one_left(lanes: Seq<Lane>, i: int, n: int)
    requires
        lanes_ok(lanes),
        0 <= i < lanes.len(),
        0 <= n <= lanes.len(),
        lanes[i].has_head(),
    ensures
        all_left(lanes, n) == if i < n {
            all_left(buffer_set::delivered(lanes, i), n).add(
                Multiset::singleton(buffer_set::event_of(lanes[i])),
            )
        } else {
            all_left(buffer_set::delivered(lanes, i), n)
        },
    decreases n,
{
    broadcast use vstd::seq_lib::group_to_multiset_ensures;

    if n > 0 {
        lemma_one_left(lanes, i, n - 1);
        let rest = buffer_set::delivered(lanes, i);
        let e = buffer_set::event_of(lanes[i]);
        if i == n - 1 {
            let a = lane_left(lanes[i]);
            let b = lane_left(rest[i]);
            assert(a =~= seq![e] + b);
            vstd::seq_lib::lemma_multiset_commutative(seq![e], b);
            assert(seq![e] =~= Seq::<Event>::empty().push(e));
            assert(seq![e].to_multiset() =~= Multiset::singleton(e));
            assert(all_left(lanes, n) =~= all_left(rest, n).add(Multiset::singleton(e)));
        } else {
            assert(rest[n - 1] == lanes[n - 1]);
            if i < n {
                assert(all_left(lanes, n) =~= all_left(rest, n).add(Multiset::singleton(e)));
            }
        }
    }
}

/// The ticks from the start of a window to before its end, up to the first one behind it.
pub open spec fn windowed(events: Seq<Event>, window: Option<(u64, u64)>) -> Seq<Event>
    decreases events.len(),
{
    if events.len() == 0 {
        seq![]
    } else {
        let rest = windowed(events.drop_first(), window);
        match window {
            Some((start_ns, end_ns)) => if events[0].1.timestamp_ns < start_ns {
                rest
            } else if events[0].1.timestamp_ns >= end_ns {
                seq![]
            } else {
                seq![events[0]] + rest
            },
            None => seq![events[0]] + rest,
        }
    }
}

/// Without a window, every tick is played.
pub proof fn without_a_window_all_is_played(events: Seq<Event>)
    ensures
        windowed(events, None) == events,
    decreases events.len(),
{
    if events.len() > 0 {
        without_a_window_all_is_played(events.drop_first());
        assert(seq![events[0]] + events.drop_first() =~= events);
    } else {
        assert(windowed(events, None) =~= events);
    }
}

/// Of ticks in time order, a window takes exactly those from its start to before its end.
pub proof fn window_takes_its_ticks(events: Seq<Event>, start_ns: u64, end_ns: u64)
    requires
        forall|i: int, j: int|
            0 <= i <= j < events.len() ==> events[i].1.timestamp_ns <= events[j].1.timestamp_ns,
    ensures
        windowed(events, Some((start_ns, end_ns))) == events.filter(
            |e: Event| start_ns <= e.1.timestamp_ns < end_ns,
        ),
    decreases events.len(),
{
    let keep = |e: Event| start_ns <= e.1.timestamp_ns < end_ns;
    let window = Some((start_ns, end_ns));
    if events.len() == 0 {
        reveal(Seq::filter);
        assert(windowed(events, window) =~= events.filter(keep));
    } else {
        let rest = events.drop_first();
        window_takes_its_ticks(rest, start_ns, end_ns);
        let one = seq![events[0]];
        assert(events =~= one + rest);
        crate::filters::filter_of_parts(one, rest, keep);
        assert(one.filter(keep) =~= if keep(events[0]) {
            one
        } else {
            seq![]
        }) by {
            reveal(Seq::filter);
            assert(one.drop_last() =~= seq![]);
            assert(one.drop_last().filter(keep) =~= seq![]);
        }
        if events[0].1.timestamp_ns < start_ns {
            assert(Seq::<Event>::empty() + rest.filter(keep) =~= rest.filter(keep));
        } else if events[0].1.timestamp_ns >= end_ns {
            assert(events.filter(keep) =~= seq![]) by {
                if events.filter(keep).len() > 0 {
                    events.lemma_filter_contains_rev(keep, events.filter(keep)[0]);
                    events.lemma_filter_pred(keep, 0);
                }
            }
        }
    }
}

/// A run over files in time order plays every tick of every file that is in the window, each
/// exactly once, and no other, in time order; ticks at the largest time aside.
pub proof fn window_plays_every_tick_of_every_file(
    files: Seq<TickEntry>,
    lanes: Seq<Lane>,
    start_ns: u64,
    end_ns: u64,
)
    requires
        buffer_set::starts(lanes, files),
        forall|i: int, a: int, b: int|
            0 <= i < files.len() && 0 <= a <= b < files[i].1@.stats.len()
                ==> (#[trigger] files[i].1@.stats[a]).timestamp_ns <= (
            #[trigger] files[i].1@.stats[b]).timestamp_ns,
        forall|i: int, a: int|
            0 <= i < files.len() && 0 <= a < files[i].1@.stats.len() ==> (
            #[trigger] files[i].1@.stats[a]).timestamp_ns < u64::MAX,
    ensures
        windowed(delivery(lanes), Some((start_ns, end_ns))) == delivery(lanes).filter(
            |e: Event| start_ns <= e.1.timestamp_ns < end_ns,
        ),
        delivery(lanes).to_multiset() == all_left(lanes, lanes.len() as int),
        forall|i: int|
            0 <= i < lanes.len() ==> lane_left(#[trigger] lanes[i]) == Seq::new(
                files[i].1@.stats.len(),
                |k: int| (files[i].0, files[i].1@.stats[k]),
            ),
        forall|i: int, j: int|
            0 <= i <= j < delivery(lanes).len() ==> delivery(lanes)[i].1.timestamp_ns <= delivery(
                lanes,
            )[j].1.timestamp_ns,
{
    lemma_starting_lanes(lanes, files);
    assert forall|i: int| 0 <= i < lanes.len() implies (#[trigger] lanes[i]).in_time_order() by {
        assert(lanes[i].stats == files[i].1@.stats);
    }
    assert forall|i: int, j: int| 0 <= i < lanes.len() && 0 <= j < lanes[i].stats.len() implies (
    #[trigger] lanes[i].stats[j]).timestamp_ns < u64::MAX by {
        assert(lanes[i].stats[j] == files[i].1@.stats[j]);
    }
    all_comes_in_time_order(lanes);
    window_takes_its_ticks(delivery(lanes), start_ns, end_ns);
    every_tick_is_delivered_once(lanes);
    assert forall|i: int| 0 <= i < lanes.len() implies lane_left(#[trigger] lanes[i]) == Seq::new(
        files[i].1@.stats.len(),
        |k: int| (files[i].0, files[i].1@.stats[k]),
    ) by {
        assert(lane_left(lanes[i]) =~= Seq::new(
            files[i].1@.stats.len(),
            |k: int| (files[i].0, files[i].1@.stats[k]),
        ));
    }
}

/// What came of a run over several instruments.
#[derive(Debug, Clone, Copy, PartialEq, Eq, Structural)]
pub struct MultiResult {
    /// The ticks played; the largest number where there are more.
    pub num_ticks: u64,
    /// The time of the first tick; 0 where there is none.
    pub start_ts_ns: u64,
    /// The time of the last tick; 0 where there is none.
    pub end_ts_ns: u64,
}

/// The counts of a run over ticks.
pub open spec fn counted(events: Seq<Event>) -> MultiResult {
    if events.len() == 0 {
        MultiResult { num_ticks: 0, start_ts_ns: 0, end_ts_ns: 0 }
    } else {
        MultiResult {
            num_ticks: if events.len() < u64::MAX {
                events.len() as u64
            } else {
                u64::MAX
            },
            start_ts_ns: events[0].1.timestamp_ns,
            end_ts_ns: events.last().1.timestamp_ns,
        }
    }
}

/// What a strategy is told of a tick, with its answer and the size that it wants.
pub open spec fn told_of(
    e: Event,
    context: Option<ContextView>,
    answer: Option<Signal>,
    wants: i64,
) -> Heard {
    Heard::Trade {
        id: e.0@,
        tick: PlayTick {
            timestamp_ns: e.1.timestamp_ns,
            price_int: e.1.price_int,
            size_int: e.1.size_int,
            precision: MERGED_PRECISION,
        },
        context,
        answer,
        wants,
    }
}

/// What a strategy is told of ticks, with its answers.
pub open spec fn told_of_all(
    events: Seq<Event>,
    context: Option<ContextView>,
    replies: Seq<Reply>,
) -> Seq<Heard> {
    Seq::new(
        events.len(),
        |i: int| told_of(events[i], context, replies[i].signal, replies[i].size),
    )
}

/// All replies are what the portfolio holds.
pub open spec fn replies_hold(
    base: Seq<PortfolioCall>,
    events: Seq<Event>,
    replies: Seq<Reply>,
) -> bool {
    forall|i: int|
        0 <= i < events.len() ==> is_reply(
            base + calls_of(events, replies, i),
            tracks_at(events, replies, i),
            events[i],
            #[trigger] replies[i],
        )
}

/// The registration of instruments.
pub open spec fn registrations(ids: Seq<InstrumentId>) -> Seq<PortfolioCall> {
    Seq::new(ids.len(), |i: int| PortfolioCall::Register(ids[i]@))
}

/// A run over the files of a set: `ids` are registered, then the ticks in the window are played in
/// the order in which lanes deliver them. `base` is what was asked of the portfolio before, `calls`
/// what was asked in the run, and `told` what the strategy was told; with each tick it was handed
/// `context`.
pub open spec fn is_run(
    context: Option<ContextView>,
    base: Seq<PortfolioCall>,
    files: Seq<TickEntry>,
    lanes: Seq<Lane>,
    replies: Seq<Reply>,
    ids: Seq<InstrumentId>,
    window: Option<(u64, u64)>,
    calls: Seq<PortfolioCall>,
    told: Seq<Heard>,
    result: MultiResult,
) -> bool {
    let events = windowed(delivery(lanes), window);
    &&& buffer_set::starts(lanes, files)
    &&& replies.len() == events.len()
    &&& replies_hold(base + registrations(ids), events, replies)
    &&& calls == registrations(ids) + calls_of(events, replies, events.len() as int)
    &&& told == told_of_all(events, context, replies)
    &&& result == counted(events)
}

/// What a run over several instruments remembers.
struct SignalRun {
    tracks: InstrumentMap<Track>,
    result: MultiResult,
}

impl SignalRun {
    /// The run has come behind ticks, and has asked these things of a portfolio.
    #[verifier::opaque]
    spec fn behind(
        self,
        events: Seq<Event>,
        replies: Seq<Reply>,
        base: Seq<PortfolioCall>,
        calls: Seq<PortfolioCall>,
    ) -> bool {
        &&& self.tracks.wf()
        &&& replies.len() == events.len()
        &&& self.tracks@ == tracks_at(events, replies, events.len() as int)
        &&& self.result == counted(events)
        &&& calls == base + calls_of(events, replies, events.len() as int)
    }

    /// Counts a tick, and does what is done before the strategy sees it: what is remembered of its
    /// instrument, and what the portfolio answered.
    fn before<P: Portfolio>(
        &mut self,
        id: &InstrumentId,
        tick: &TradeFlowStats,
        portfolio: &mut P,
        events: Ghost<Seq<Event>>,
    ) -> (r: (Track, bool, Holding))
        requires
            old(self).tracks.wf(),
            old(self).result == counted(events@),
        ensures
            final(self).tracks == old(self).tracks,
            final(self).result == counted(events@.push((*id, *tick))),
            r.0 == track_of(old(self).tracks@, (*id, *tick), r.1),
            r.1 == sides_of(old(portfolio).calls()).dom().contains(id@),
            r.2 == if opens_day(r.0, (*id, *tick)) {
                held(old(portfolio).calls() + entry_calls((*id, *tick), r.1), id@)
            } else {
                Holding::Flat
            },
            final(portfolio).calls() == old(portfolio).calls() + calls_before(
                r.0,
                (*id, *tick),
                (Reply {
                    known: r.1,
                    first: r.2,
                    asked: seq![],
                    signal: None,
                    second: r.2,
                    size: 0,
                }),
            ),
    {
        let ghost e = (*id, *tick);
        if self.result.num_ticks == 0 {
            self.result.start_ts_ns = tick.timestamp_ns;
        }
        self.result.end_ts_ns = tick.timestamp_ns;
        if self.result.num_ticks < u64::MAX {
            self.result.num_ticks = self.result.num_ticks + 1;
        }
        let ghost start = portfolio.calls();
        let known = portfolio.knows(id);
        let mut track = Track { last: Signal::Close, minute: 0 };
        if !known {
            portfolio.register(id);
        } else {
            match self.tracks.get(id) {
                Some(t) => {
                    track = *t;
                },
                None => {},
            }
        }
        portfolio.mark(id, tick.price_int);
        assert(portfolio.calls() =~= start + entry_calls(e, known));
        let minute: u32 = est_minute_of(tick.timestamp_ns);
        let mut first = Holding::Flat;
        if minute < track.minute && track.minute > 0 {
            first = portfolio.holding(id);
            if first != Holding::Flat {
                portfolio.close(id, tick.price_int, tick.timestamp_ns);
            }
        }
        proof {
            let reply = Reply {
                known,
                first,
                asked: seq![],
                signal: None,
                second: first,
                size: 0,
            };
            assert(portfolio.calls() =~= start + calls_before(track, e, reply));
        }
        (track, known, first)
    }

    /// Does what is done behind the strategy, but for what a decision asks.
    fn publish<P: Portfolio>(
        id: &InstrumentId,
        tick: &TradeFlowStats,
        signal: Option<Signal>,
        portfolio: &mut P,
    )
        ensures
            final(portfolio).calls() == old(portfolio).calls() + publications(
                (*id, *tick),
                signal,
            ),
    {
        let value: i8 = match signal {
            Some(s) => s.as_number(),
            None => 0,
        };
        let name = id.to_text();
        portfolio.publish(name.as_str(), value, tick.timestamp_ns);
        portfolio.publish("market_signal", value, tick.timestamp_ns);
        assert(portfolio.calls() =~= old(portfolio).calls() + publications((*id, *tick), signal));
    }

    /// Carries out a decision and brings the books up to date.
    fn settle<P: Portfolio>(
        id: &InstrumentId,
        tick: &TradeFlowStats,
        decision: Decision,
        size: i64,
        portfolio: &mut P,
    )
        ensures
            final(portfolio).calls() == old(portfolio).calls() + (decision_calls(
                (*id, *tick),
                decision,
                size,
            ) + seq![
                PortfolioCall::Peak { id: id@, price: tick.price_int as int },
                PortfolioCall::Record,
            ]),
    {
        let ghost start = portfolio.calls();
        if decision.close {
            portfolio.close(id, tick.price_int, tick.timestamp_ns);
        }
        match decision.open {
            Some(side) => {
                portfolio.open(id, tick.price_int, size, side);
            },
            None => {},
        }
        assert(portfolio.calls() =~= start + decision_calls((*id, *tick), decision, size));
        portfolio.update_peak(id, tick.price_int);
        portfolio.record_equity();
        assert(portfolio.calls() =~= start + (decision_calls((*id, *tick), decision, size) + seq![
            PortfolioCall::Peak { id: id@, price: tick.price_int as int },
            PortfolioCall::Record,
        ]));
    }

    /// Remembers what a tick brought.
    fn remember(&mut self, id: &InstrumentId, tick: &TradeFlowStats, signal: Option<Signal>)
        requires
            old(self).tracks.wf(),
        ensures
            final(self).tracks.wf(),
            final(self).result == old(self).result,
            forall|r: Reply|
                r.signal == signal ==> final(self).tracks@ == #[trigger] tracks_behind(
                    old(self).tracks@,
                    (*id, *tick),
                    r,
                ),
    {
        let last = match signal {
            Some(s) => s,
            None => Signal::Close,
        };
        let minute: u32 = est_minute_of(tick.timestamp_ns);
        self.tracks.insert(id, Track { last, minute });
    }
}

proof fn lemma_run_grows(
    events: Seq<Event>,
    replies: Seq<Reply>,
    base: Seq<PortfolioCall>,
    before: SignalRun,
    calls: Seq<PortfolioCall>,
    e: Event,
    r: Reply,
    after: SignalRun,
    more: Seq<PortfolioCall>,
)
    requires
        before.behind(events, replies, base, calls),
        after.tracks.wf(),
        after.tracks@ == tracks_behind(before.tracks@, e, r),
        after.result == counted(events.push(e)),
        more == calls + calls_at(before.tracks@, e, r),
    ensures
        after.behind(events.push(e), replies.push(r), base, more),
{
    reveal(SignalRun::behind);
    let n = events.len() as int;
    lemma_prefix(events, replies, e, r, n);
    assert(more =~= base + calls_of(events.push(e), replies.push(r), n + 1));
}

/// All replies so far are what the portfolio holds.
#[verifier::opaque]
spec fn answered(base: Seq<PortfolioCall>, events: Seq<Event>, replies: Seq<Reply>) -> bool {
    replies_hold(base, events, replies)
}

proof fn lemma_replies_grow(
    base: Seq<PortfolioCall>,
    events: Seq<Event>,
    replies: Seq<Reply>,
    e: Event,
    r: Reply,
)
    requires
        events.len() == replies.len(),
        answered(base, events, replies),
        is_reply(
            base + calls_of(events, replies, events.len() as int),
            tracks_at(events, replies, events.len() as int),
            e,
            r,
        ),
    ensures
        answered(base, events.push(e), replies.push(r)),
{
    reveal(answered);
    let n = events.len() as int;
    let all = events.push(e);
    let answers = replies.push(r);
    assert forall|i: int| 0 <= i < all.len() implies is_reply(
        base + calls_of(all, answers, i),
        tracks_at(all, answers, i),
        all[i],
        #[trigger] answers[i],
    ) by {
        lemma_prefix(events, replies, e, r, i);
        if i < n {
            assert(answers[i] == replies[i]);
            assert(all[i] == events[i]);
        }
    }
}

proof fn lemma_asked_at(
    start: Seq<PortfolioCall>,
    tracks: Map<IdText, Track>,
    e: Event,
    r: Reply,
    mid: Seq<PortfolioCall>,
    asked: Seq<PortfolioCall>,
    told: Seq<PortfolioCall>,
    end: Seq<PortfolioCall>,
)
    requires
        ({
            let t = track_of(tracks, e, r.known);
            &&& mid == start + calls_before(t, e, r)
            &&& asked == mid + r.asked
            &&& told == asked + publications(e, r.signal)
            &&& end == told + (decision_calls(
                e,
                signal::decided(r.signal, last_at(t, e), r.second),
                r.size,
            ) + seq![
                PortfolioCall::Peak { id: e.0@, price: e.1.price_int as int },
                PortfolioCall::Record,
            ])
        }),
    ensures
        end == start + calls_at(tracks, e, r),
{
    assert(end =~= start + calls_at(tracks, e, r));
}

/// Registers instruments.
fn register_all<P: Portfolio>(ids: &[InstrumentId], portfolio: &mut P)
    ensures
        final(portfolio).calls() == old(portfolio).calls() + registrations(ids@),
{
    let ghost start = portfolio.calls();
    let mut i: usize = 0;
    assert(portfolio.calls() =~= start + registrations(ids@.take(0)));
    while i < ids.len()
        invariant
            i <= ids@.len(),
            portfolio.calls() == start + registrations(ids@.take(i as int)),
        decreases ids@.len() - i,
    {
        portfolio.register(&ids[i]);
        i = i + 1;
        assert(portfolio.calls() =~= start + registrations(ids@.take(i as int)));
    }
    assert(ids@.take(ids@.len() as int) =~= ids@);
}

/// A way of asking a strategy for signals, with or without a portfolio.
trait Signals<S, P: Portfolio> {
    /// What a strategy was told.
    spec fn log(strategy: S) -> Seq<Heard>;

    /// The size that a strategy wants for a position.
    spec fn wants(strategy: S) -> i64;

    /// What a strategy is handed with each tick.
    spec fn context(&self) -> Option<ContextView>;

    fn on_trade(
        &self,
        strategy: &mut S,
        id: &InstrumentId,
        tick: &TradeFlowStats,
        portfolio: &mut P,
    ) -> (r: Option<Signal>)
        ensures
            old(portfolio).calls().is_prefix_of(final(portfolio).calls()),
            Self::log(*final(strategy)) == Self::log(*old(strategy)).push(
                told_of((*id, *tick), self.context(), r, Self::wants(*final(strategy))),
            ),
    ;

    fn position_size(&self, strategy: &S) -> (r: i64)
        ensures
            r == Self::wants(*strategy),
    ;
}

struct OverPortfolio;

impl<P: Portfolio, S: PortfolioStrategy<P>> Signals<S, P> for OverPortfolio {
    spec fn log(strategy: S) -> Seq<Heard> {
        strategy.heard().events
    }

    spec fn wants(strategy: S) -> i64 {
        strategy.wants()
    }

    spec fn context(&self) -> Option<ContextView> {
        None
    }

    fn on_trade(
        &self,
        strategy: &mut S,
        id: &InstrumentId,
        tick: &TradeFlowStats,
        portfolio: &mut P,
    ) -> Option<Signal> {
        Some(
            strategy.on_trade(
                id,
                tick.timestamp_ns,
                tick.price_int,
                tick.size_int,
                portfolio,
            ),
        )
    }

    fn position_size(&self, strategy: &S) -> i64 {
        strategy.position_size()
    }
}

struct Alone {
    context: Context,
}

impl<P: Portfolio, S: Strategy> Signals<S, P> for Alone {
    spec fn log(strategy: S) -> Seq<Heard> {
        strategy.heard().events
    }

    spec fn wants(strategy: S) -> i64 {
        strategy.wants()
    }

    spec fn context(&self) -> Option<ContextView> {
        Some(self.context@)
    }

    fn on_trade(
        &self,
        strategy: &mut S,
        id: &InstrumentId,
        tick: &TradeFlowStats,
        portfolio: &mut P,
    ) -> Option<Signal> {
        let seen = PlayTick {
            timestamp_ns: tick.timestamp_ns,
            price_int: tick.price_int,
            size_int: tick.size_int,
            precision: MERGED_PRECISION,
        };
        strategy.on_trade(id, &seen, &self.context)
    }

    fn position_size(&self, strategy: &S) -> i64 {
        strategy.position_size()
    }
}

/// The same instruments.
fn ids_of(ids: &[InstrumentId]) -> (r: Vec<InstrumentId>)
    ensures
        play::id_texts(r@) == play::id_texts(ids@),
{
    let mut r: Vec<InstrumentId> = Vec::new();
    let mut i: usize = 0;
    while i < ids.len()
        invariant
            i <= ids@.len(),
            r@.len() == i,
            forall|j: int| 0 <= j < i ==> (#[trigger] r@[j])@ == ids@[j]@,
        decreases ids@.len() - i,
    {
        r.push(ids[i].clone());
        i = i + 1;
    }
    assert(play::id_texts(r@) =~= play::id_texts(ids@));
    r
}

proof fn lemma_starting_lanes(lanes: Seq<Lane>, files: Seq<TickEntry>)
    requires
        buffer_set::starts(lanes, files),
    ensures
        lanes_ok(lanes),
{
}

proof fn lemma_window_next(events: Seq<Event>, e: Event, rest: Seq<Event>, window: Option<(u64, u64)>)
    requires
        events == seq![e] + rest,
    ensures
        windowed(events, window) == match window {
            Some((start_ns, end_ns)) => if e.1.timestamp_ns < start_ns {
                windowed(rest, window)
            } else if e.1.timestamp_ns >= end_ns {
                seq![]
            } else {
                seq![e] + windowed(rest, window)
            },
            None => seq![e] + windowed(rest, window),
        },
{
    assert(events.drop_first() =~= rest);
}

/// The events that a cursor still delivers.
spec fn pending(cursor: MergeCursor<'_>) -> Seq<Event> {
    match cursor.current() {
        Some(e) => seq![e] + delivery(cursor.lanes()),
        None => seq![],
    }
}

/// What is left of the lanes behind the current event.
spec fn left(cursor: MergeCursor<'_>) -> int {
    match cursor.current() {
        Some(_) => buffer_set::ticks_left(cursor.lanes(), cursor.lanes().len() as int) + 1,
        None => 0,
    }
}

proof fn lemma_cursor_moves(a: MergeCursor<'_>, b: MergeCursor<'_>)
    requires
        lanes_ok(a.lanes()),
        a.current() is Some,
        buffer_set::pulled(a.lanes()) == (b.current(), b.lanes()),
    ensures
        lanes_ok(b.lanes()),
        pending(a) == seq![a.current()->0] + pending(b),
        0 <= left(b) < left(a),
{
    if b.current() is Some {
        delivery_leaves_fewer(a.lanes());
    }
    lemma_left_not_negative(a.lanes(), a.lanes().len() as int);
    lemma_left_not_negative(b.lanes(), b.lanes().len() as int);
    assert(delivery(a.lanes()) == pending(b));
}

/// Plays a tick, and gives what was replied.
fn play_one<S, P: Portfolio, G: Signals<S, P>>(
    way: &G,
    id: &InstrumentId,
    tick: &TradeFlowStats,
    run: &mut SignalRun,
    strategy: &mut S,
    portfolio: &mut P,
    events: Ghost<Seq<Event>>,
) -> (reply: Ghost<Reply>)
    requires
        old(run).tracks.wf(),
        old(run).result == counted(events@),
    ensures
        final(run).tracks.wf(),
        final(run).tracks@ == tracks_behind(old(run).tracks@, (*id, *tick), reply@),
        final(run).result == counted(events@.push((*id, *tick))),
        is_reply(old(portfolio).calls(), old(run).tracks@, (*id, *tick), reply@),
        final(portfolio).calls() == old(portfolio).calls() + calls_at(
            old(run).tracks@,
            (*id, *tick),
            reply@,
        ),
        G::log(*final(strategy)) == G::log(*old(strategy)).push(
            told_of((*id, *tick), way.context(), reply@.signal, reply@.size),
        ),
{
    let ghost e: Event = (*id, *tick);
    let ghost start = portfolio.calls();
    let (track, known, first) = run.before(id, tick, portfolio, events);
    let ghost mid = portfolio.calls();
    let signal = way.on_trade(strategy, id, tick, portfolio);
    let ghost asked = portfolio.calls();
    SignalRun::publish(id, tick, signal, portfolio);
    let ghost told = portfolio.calls();
    let second = portfolio.holding(id);
    let minute: u32 = est_minute_of(tick.timestamp_ns);
    let last = if minute < track.minute && track.minute > 0 {
        Signal::Close
    } else {
        track.last
    };
    let decision = decide(signal, last, second);
    let size: i64 = match decision.open {
        Some(_) => way.position_size(strategy),
        None => 0,
    };
    SignalRun::settle(id, tick, decision, size, portfolio);
    run.remember(id, tick, signal);
    let ghost reply = Reply {
        known,
        first,
        asked: asked.skip(mid.len() as int),
        signal,
        second,
        size: G::wants(*strategy),
    };
    proof {
        assert(asked =~= mid + reply.asked);
        assert(decision_calls(e, decision, size) == decision_calls(e, decision, reply.size));
        lemma_asked_at(start, old(run).tracks@, e, reply, mid, asked, told, portfolio.calls());
    }
    Ghost(reply)
}

/// A run has come behind ticks: what it remembers, what it has asked of the portfolio and what the
/// strategy was told are what the replies make of them.
#[verifier::opaque]
spec fn in_progress(
    context: Option<ContextView>,
    base: Seq<PortfolioCall>,
    log: Seq<Heard>,
    run: SignalRun,
    events: Seq<Event>,
    replies: Seq<Reply>,
    calls: Seq<PortfolioCall>,
    heard: Seq<Heard>,
) -> bool {
    &&& events.len() == replies.len()
    &&& run.behind(events, replies, base, calls)
    &&& answered(base, events, replies)
    &&& heard == log + told_of_all(events, context, replies)
}

proof fn lemma_run_starts(
    context: Option<ContextView>,
    base: Seq<PortfolioCall>,
    log: Seq<Heard>,
    run: SignalRun,
)
    requires
        run.tracks.wf(),
        run.tracks@ == Map::<IdText, Track>::empty(),
        run.result == (MultiResult { num_ticks: 0, start_ts_ns: 0, end_ts_ns: 0 }),
    ensures
        in_progress(context, base, log, run, seq![], seq![], base, log),
{
    reveal(in_progress);
    reveal(SignalRun::behind);
    reveal(answered);
    assert(base + calls_of(seq![], seq![], 0) =~= base);
    assert(log + told_of_all(seq![], context, seq![]) =~= log);
}

/// Plays a tick behind others.
fn play_next<S, P: Portfolio, G: Signals<S, P>>(
    way: &G,
    id: &InstrumentId,
    tick: &TradeFlowStats,
    run: &mut SignalRun,
    strategy: &mut S,
    portfolio: &mut P,
    base: Ghost<Seq<PortfolioCall>>,
    log: Ghost<Seq<Heard>>,
    events: Ghost<Seq<Event>>,
    replies: Ghost<Seq<Reply>>,
) -> (reply: Ghost<Reply>)
    requires
        in_progress(
            way.context(),
            base@,
            log@,
            *old(run),
            events@,
            replies@,
            old(portfolio).calls(),
            G::log(*old(strategy)),
        ),
    ensures
        in_progress(
            way.context(),
            base@,
            log@,
            *final(run),
            events@.push((*id, *tick)),
            replies@.push(reply@),
            final(portfolio).calls(),
            G::log(*final(strategy)),
        ),
{
    let ghost e: Event = (*id, *tick);
    let ghost run0 = *run;
    let ghost start = portfolio.calls();
    proof {
        reveal(in_progress);
        reveal(SignalRun::behind);
    }
    let reply = play_one::<S, P, G>(way, id, tick, run, strategy, portfolio, events);
    proof {
        lemma_replies_grow(base@, events@, replies@, e, reply@);
        lemma_run_grows(
            events@,
            replies@,
            base@,
            run0,
            start,
            e,
            reply@,
            *run,
            portfolio.calls(),
        );
        let before = told_of_all(events@, way.context(), replies@);
        let after = told_of_all(events@.push(e), way.context(), replies@.push(reply@));
        assert(after =~= before.push(told_of(e, way.context(), reply@.signal, reply@.size)));
        assert(G::log(*strategy) =~= log@ + after);
    }
    reply
}

#[verifier::spinoff_prover]
proof fn lemma_run_done(
    context: Option<ContextView>,
    origin: Seq<PortfolioCall>,
    log: Seq<Heard>,
    run: SignalRun,
    files: Seq<TickEntry>,
    lanes: Seq<Lane>,
    ids: Seq<InstrumentId>,
    window: Option<(u64, u64)>,
    replies: Seq<Reply>,
    calls: Seq<PortfolioCall>,
    heard: Seq<Heard>,
)
    requires
        buffer_set::starts(lanes, files),
        in_progress(
            context,
            origin + registrations(ids),
            log,
            run,
            windowed(delivery(lanes), window),
            replies,
            calls,
            heard,
        ),
    ensures
        exists|asked: Seq<PortfolioCall>, told: Seq<Heard>| #[trigger]
            is_run(
                context,
                origin,
                files,
                lanes,
                replies,
                ids,
                window,
                asked,
                told,
                run.result,
            ) && calls == origin + asked && heard == log + told,
{
    reveal(in_progress);
    reveal(SignalRun::behind);
    reveal(answered);
    let events = windowed(delivery(lanes), window);
    let asked = registrations(ids) + calls_of(events, replies, events.len() as int);
    assert(calls =~= origin + asked);
    let told = told_of_all(events, context, replies);
    assert(is_run(
        context,
        origin,
        files,
        lanes,
        replies,
        ids,
        window,
        asked,
        told,
        run.result,
    ));
}

#[verifier::spinoff_prover]
fn run_signals<S, P: Portfolio, G: Signals<S, P>>(
    way: &G,
    set: &TickBufferSet,
    ids: &[InstrumentId],
    window: Option<(u64, u64)>,
    strategy: &mut S,
    portfolio: &mut P,
) -> (r: MultiResult)
    requires
        set.wf(),
    ensures
        exists|
            lanes: Seq<Lane>,
            replies: Seq<Reply>,
            calls: Seq<PortfolioCall>,
            told: Seq<Heard>,
        | #[trigger]
            is_run(
                way.context(),
                old(portfolio).calls(),
                set@,
                lanes,
                replies,
                ids@,
                window,
                calls,
                told,
                r,
            ) && final(portfolio).calls()
                == old(portfolio).calls() + calls && G::log(*final(strategy)) == G::log(
                *old(strategy),
            ) + told,
{
    let ghost origin = portfolio.calls();
    register_all(ids, portfolio);
    let ghost base = portfolio.calls();
    let mut cursor = set.merge_cursor();
    let ghost lanes = choose|lanes: Seq<Lane>| #[trigger]
        buffer_set::starts(lanes, set@) && buffer_set::pulled(lanes) == (
            cursor.current(),
            cursor.lanes(),
        );
    let ghost all = delivery(lanes);
    let ghost mut events: Seq<Event> = seq![];
    let ghost mut replies: Seq<Reply> = seq![];
    let ghost log = G::log(*strategy);
    let mut run = SignalRun {
        tracks: InstrumentMap::new(),
        result: MultiResult { num_ticks: 0, start_ts_ns: 0, end_ts_ns: 0 },
    };
    proof {
        lemma_starting_lanes(lanes, set@);
        if cursor.current() is Some {
            delivery_leaves_fewer(lanes);
            lemma_left_not_negative(cursor.lanes(), cursor.lanes().len() as int);
        }
        lemma_run_starts(way.context(), base, log, run);
        assert(windowed(all, window) =~= events + windowed(pending(cursor), window));
    }
    loop
        invariant_except_break
            lanes_ok(cursor.lanes()),
            left(cursor) >= 0,
            windowed(all, window) == events + windowed(pending(cursor), window),
        invariant
            in_progress(
                way.context(),
                base,
                log,
                run,
                events,
                replies,
                portfolio.calls(),
                G::log(*strategy),
            ),
        ensures
            windowed(all, window) == events,
        decreases left(cursor),
    {
        let ghost was = cursor;
        let next = cursor.advance();
        let event = match next {
            Some(event) => event,
            None => {
                proof {
                    assert(windowed(pending(was), window) =~= seq![]);
                    assert(events + seq![] =~= events);
                }
                break;
            },
        };
        let id: &InstrumentId = &event.instrument_id;
        let tick: &TradeFlowStats = event.tick;
        let ghost e: Event = (*id, *tick);
        proof {
            lemma_cursor_moves(was, cursor);
            lemma_window_next(pending(was), e, pending(cursor), window);
        }
        match window {
            Some((start_ns, end_ns)) => {
                if tick.timestamp_ns < start_ns {
                    continue;
                }
                if tick.timestamp_ns >= end_ns {
                    assert(events + Seq::<Event>::empty() =~= events);
                    break;
                }
            },
            None => {},
        }
        let reply = play_next::<S, P, G>(
            way,
            id,
            tick,
            &mut run,
            strategy,
            portfolio,
            Ghost(base),
            Ghost(log),
            Ghost(events),
            Ghost(replies),
        );
        proof {
            assert(events + (seq![e] + windowed(pending(cursor), window)) =~= events.push(e)
                + windowed(pending(cursor), window));
            events = events.push(e);
            replies = replies.push(reply@);
        }
    }
    proof {
        lemma_run_done(
            way.context(),
            origin,
            log,
            run,
            set@,
            lanes,
            ids@,
            window,
            replies,
            portfolio.calls(),
            G::log(*strategy),
        );
    }
    run.result
}

/// Plays all ticks of a set to a strategy over a portfolio, in time order. The instruments are
/// registered first. Whatever the strategy and the portfolio answer, what is asked of the portfolio
/// is what the answers make of the ticks.
pub fn run_multi<S: PortfolioStrategy<P>, P: Portfolio>(
    set: &TickBufferSet,
    instruments: &Vec<InstrumentId>,
    strategy: &mut S,
    portfolio: &mut P,
) -> (r: MultiResult)
    requires
        set.wf(),
    ensures
        exists|
            lanes: Seq<Lane>,
            replies: Seq<Reply>,
            calls: Seq<PortfolioCall>,
            told: Seq<Heard>,
        | #[trigger]
            is_run(
                None,
                old(portfolio).calls(),
                set@,
                lanes,
                replies,
                instruments@,
                None,
                calls,
                told,
                r,
            )
                && final(portfolio).calls() == old(portfolio).calls() + calls
                && final(strategy).heard().events == old(strategy).heard().events + told,
{
    run_signals::<S, P, OverPortfolio>(
        &OverPortfolio,
        set,
        instruments.as_slice(),
        None,
        strategy,
        portfolio,
    )
}

/// Plays the ticks of a set from `window_start_ns` to before `window_end_ns` to a strategy, in time
/// order, and stops it. The instruments of the set are registered first. The strategy is handed a
/// context with the initial equity and the instruments, and without a price.
pub fn run_on_buffer_with_window<S: Strategy, P: Portfolio>(
    set: &TickBufferSet,
    window_start_ns: u64,
    window_end_ns: u64,
    initial_equity: i128,
    strategy: &mut S,
    portfolio: &mut P,
) -> (r: MultiResult)
    requires
        set.wf(),
    ensures
        exists|
            lanes: Seq<Lane>,
            replies: Seq<Reply>,
            calls: Seq<PortfolioCall>,
            told: Seq<Heard>,
        | #[trigger]
            is_run(
                Some(
                    ContextView {
                        initial_equity,
                        instruments: play::id_texts(
                            buffer_set::distinct_ids(set@, set@.len() as int),
                        ),
                        price: None,
                    },
                ),
                old(portfolio).calls(),
                set@,
                lanes,
                replies,
                buffer_set::distinct_ids(set@, set@.len() as int),
                Some((window_start_ns, window_end_ns)),
                calls,
                told,
                r,
            ) && final(portfolio).calls() == old(portfolio).calls() + calls
                && final(strategy).heard().events == (old(strategy).heard().events + told).push(
                Heard::Stop,
            ),
{
    let way = Alone {
        context: Context {
            initial_equity,
            instruments: ids_of(set.instrument_ids()),
            price: None,
        },
    };
    let r = run_signals::<S, P, Alone>(
        &way,
        set,
        set.instrument_ids(),
        Some((window_start_ns, window_end_ns)),
        strategy,
        portfolio,
    );
    strategy.on_stop();
    r
}

proof fn lemma_sides_push(calls: Seq<PortfolioCall>, call: PortfolioCall)
    ensures
        sides_of(calls.push(call)) == side_behind(sides_of(calls), call),
{
    assert(calls.push(call).drop_last() =~= calls);
}

/// A position that is opened with a buy is long and one that is opened with a sell short, the other way
/// round for a size below 0; a position that is closed is held no more, and other calls, and calls for
/// other instruments, change nothing.
pub proof fn calls_turn_the_position(
    calls: Seq<PortfolioCall>,
    id: IdText,
    other: IdText,
    price: int,
    size: int,
    ts: int,
)
    requires
        other != id,
        size > 0,
    ensures
        held(
            calls.push(PortfolioCall::Open { id, price, size, side: Signal::Buy }),
            id,
        ) is Long,
        held(
            calls.push(PortfolioCall::Open { id, price, size, side: Signal::Sell }),
            id,
        ) is Short,
        held(
            calls.push(PortfolioCall::Open { id, price, size: -size, side: Signal::Buy }),
            id,
        ) is Short,
        held(calls.push(PortfolioCall::Close { id, price, ts }), id) is Flat,
        held(calls.push(PortfolioCall::Register(id)), id) is Flat,
        held(calls.push(PortfolioCall::Open { id, price, size, side: Signal::Buy }), other) == held(
            calls,
            other,
        ),
        held(calls.push(PortfolioCall::Close { id, price, ts }), other) == held(calls, other),
        held(calls.push(PortfolioCall::Mark { id, price }), id) == held(calls, id),
        held(calls.push(PortfolioCall::Peak { id, price }), id) == held(calls, id),
        held(calls.push(PortfolioCall::Record), id) == held(calls, id),
        held(seq![], id) is Flat,
{
    lemma_sides_push(calls, PortfolioCall::Open { id, price, size, side: Signal::Buy });
    lemma_sides_push(calls, PortfolioCall::Open { id, price, size, side: Signal::Sell });
    lemma_sides_push(calls, PortfolioCall::Open { id, price, size: -size, side: Signal::Buy });
    lemma_sides_push(calls, PortfolioCall::Close { id, price, ts });
    lemma_sides_push(calls, PortfolioCall::Register(id));
    lemma_sides_push(calls, PortfolioCall::Mark { id, price });
    lemma_sides_push(calls, PortfolioCall::Peak { id, price });
    lemma_sides_push(calls, PortfolioCall::Record);
}

/// Behind a tick the portfolio holds what the strategy's signal asks for, where the signal has changed:
/// a long position behind a buy, a short one behind a sell, and none behind a close or no signal. Where
/// it has not changed, the position stays.
pub proof fn signal_is_what_is_held(
    so_far: Seq<PortfolioCall>,
    tracks: Map<IdText, Track>,
    e: Event,
    r: Reply,
)
    requires
        is_reply(so_far, tracks, e, r),
        r.size > 0,
    ensures
        ({
            let last = last_at(track_of(tracks, e, r.known), e);
            let behind = held(so_far + calls_at(tracks, e, r), e.0@);
            &&& r.signal == Some(last) ==> behind == r.second
            &&& r.signal != Some(last) && r.signal == Some(Signal::Buy) ==> behind is Long
            &&& r.signal != Some(last) && r.signal == Some(Signal::Sell) ==> behind is Short
            &&& r.signal != Some(last) && (r.signal == Some(Signal::Close) || r.signal is None)
                ==> behind is Flat
        }),
{
    let t = track_of(tracks, e, r.known);
    let d = signal::decided(r.signal, last_at(t, e), r.second);
    let id = e.0@;
    let p0 = so_far + calls_before(t, e, r) + r.asked + publications(e, r.signal);
    let dc = decision_calls(e, d, r.size);
    let peak = PortfolioCall::Peak { id, price: e.1.price_int as int };
    let p1 = p0 + dc;
    let p2 = p1.push(peak);
    let p3 = p2.push(PortfolioCall::Record);
    assert(so_far + calls_at(tracks, e, r) =~= p3);
    lemma_sides_push(p1, peak);
    lemma_sides_push(p2, PortfolioCall::Record);
    assert(held(p3, id) == held(p1, id));
    let closed = p0.push(close_call(e));
    lemma_sides_push(p0, close_call(e));
    match d.open {
        Some(side) => {
            let open = PortfolioCall::Open {
                id,
                price: e.1.price_int as int,
                size: r.size as int,
                side,
            };
            lemma_sides_push(p0, open);
            lemma_sides_push(closed, open);
            if d.close {
                assert(p1 =~= closed.push(open));
            } else {
                assert(p1 =~= p0.push(open));
            }
        },
        None => {
            if d.close {
                assert(p1 =~= closed);
            } else {
                assert(p1 =~= p0);
            }
        },
    }
    signal::position_is_closed_before_it_turns(r.signal, last_at(t, e), r.second);
    if r.signal != Some(last_at(t, e)) {
        signal::changed_signal_is_carried_out(r.signal, last_at(t, e), r.second);
    }
}

/// At every tick the price is marked first, the signal is published under the instrument's name and for
/// the market, with one number, and at the end the peak is brought up to date and the equity recorded.
pub proof fn books_are_kept_at_every_tick(tracks: Map<IdText, Track>, e: Event, r: Reply)
    ensures
        ({
            let calls = calls_at(tracks, e, r);
            let price = e.1.price_int as int;
            let ts = e.1.timestamp_ns as int;
            let value: int = if r.signal == Some(Signal::Buy) {
                1
            } else if r.signal == Some(Signal::Sell) {
                -1
            } else {
                0
            };
            let told: int = calls_before(track_of(tracks, e, r.known), e, r).len() + r.asked.len() as int;
            &&& r.known ==> calls[0] == (PortfolioCall::Mark { id: e.0@, price })
            &&& !r.known ==> calls[0] == PortfolioCall::Register(e.0@) && calls[1] == (
            PortfolioCall::Mark { id: e.0@, price })
            &&& calls[told] == (PortfolioCall::Publish {
                name: e.0@.0 + seq!['.'] + e.0@.1,
                value,
                ts,
            })
            &&& calls[told + 1] == (PortfolioCall::Publish { name: "market_signal"@, value, ts })
            &&& calls[calls.len() - 2] == (PortfolioCall::Peak { id: e.0@, price })
            &&& calls[calls.len() - 1] == PortfolioCall::Record
        }),
{
}

/// A new day begins with no signal, and with the position of the day before closed at the first price.
pub proof fn new_day_begins_flat(
    so_far: Seq<PortfolioCall>,
    tracks: Map<IdText, Track>,
    e: Event,
    r: Reply,
)
    requires
        is_reply(so_far, tracks, e, r),
        opens_day(track_of(tracks, e, r.known), e),
    ensures
        ({
            let t = track_of(tracks, e, r.known);
            &&& last_at(t, e) is Close
            &&& held(so_far + calls_before(t, e, r), e.0@) is Flat
        }),
{
    let t = track_of(tracks, e, r.known);
    let p = so_far + entry_calls(e, r.known);
    if r.first is Flat {
        assert(so_far + calls_before(t, e, r) =~= p);
    } else {
        lemma_sides_push(p, close_call(e));
        assert(so_far + calls_before(t, e, r) =~= p.push(close_call(e)));
    }
}

/// A day is new when the minute of the day has gone back; otherwise the last signal is remembered, and
/// behind a tick it is the strategy's answer, or a close where it had none.
pub proof fn last_signal_is_remembered(tracks: Map<IdText, Track>, e: Event, r: Reply, other: IdText)
    requires
        other != e.0@,
    ensures
        ({
            let behind = tracks_behind(tracks, e, r);
            let t = track_of(tracks, e, r.known);
            let minute = signal::est_minute(e.1.timestamp_ns);
            &&& opens_day(t, e) <==> minute < t.minute
            &&& !opens_day(t, e) ==> last_at(t, e) == t.last
            &&& r.signal matches Some(s) ==> behind[e.0@].last == s
            &&& r.signal is None ==> behind[e.0@].last is Close
            &&& behind[e.0@].minute == minute
            &&& behind.dom().contains(other) == tracks.dom().contains(other)
            &&& tracks.dom().contains(other) ==> behind[other] == tracks[other]
            &&& !r.known ==> t.last is Close && t.minute == 0
        }),
{
    if e.1.timestamp_ns <= 0xffff_ffff_ffff_ffff - 60_000_000_000 {
        signal::minutes_of_the_day_go_on(e.1.timestamp_ns);
    }
}

/// A run tells how many ticks it has played, and the times of the first and of the last of them.
pub proof fn run_counts_its_ticks(events: Seq<Event>)
    requires
        0 < events.len() < u64::MAX,
    ensures
        counted(events).num_ticks == events.len(),
        counted(events).start_ts_ns == events[0].1.timestamp_ns,
        counted(events).end_ts_ns == events[events.len() - 1].1.timestamp_ns,
        counted(seq![]) == (MultiResult { num_ticks: 0, start_ts_ns: 0, end_ts_ns: 0 }),
{
}

/// A strategy is told each tick as it is, with nine digits behind the point.
pub proof fn strategy_is_told_the_tick(
    events: Seq<Event>,
    context: Option<ContextView>,
    replies: Seq<Reply>,
    i: int,
)
    requires
        0 <= i < events.len(),
    ensures
        told_of_all(events, context, replies).len() == events.len(),
        told_of_all(events, context, replies)[i] == (Heard::Trade {
            id: events[i].0@,
            tick: PlayTick {
                timestamp_ns: events[i].1.timestamp_ns,
                price_int: events[i].1.price_int,
                size_int: events[i].1.size_int,
                precision: 9,
            },
            context,
            answer: replies[i].signal,
            wants: replies[i].size,
        }),
{
}

/// A run registers its instruments first, one behind the other, and then asks what its ticks ask for.
pub proof fn run_registers_first(
    context: Option<ContextView>,
    base: Seq<PortfolioCall>,
    files: Seq<TickEntry>,
    lanes: Seq<Lane>,
    replies: Seq<Reply>,
    ids: Seq<InstrumentId>,
    window: Option<(u64, u64)>,
    calls: Seq<PortfolioCall>,
    told: Seq<Heard>,
    result: MultiResult,
    i: int,
)
    requires
        is_run(context, base, files, lanes, replies, ids, window, calls, told, result),
        0 <= i < ids.len(),
    ensures
        calls[i] == PortfolioCall::Register(ids[i]@),
        ({
            let events = windowed(delivery(lanes), window);
            &&& told.len() == events.len()
            &&& events.len() < u64::MAX ==> result.num_ticks == events.len()
            &&& calls.skip(ids.len() as int) == calls_of(events, replies, events.len() as int)
        }),
{
    let events = windowed(delivery(lanes), window);
    assert(calls.skip(ids.len() as int) =~= calls_of(events, replies, events.len() as int));
}

/// What is asked at ticks is asked in their order: one more tick asks behind all before.
pub proof fn ticks_ask_in_their_order(events: Seq<Event>, replies: Seq<Reply>, n: int)
    requires
        0 < n <= events.len(),
    ensures
        calls_of(events, replies, n) == calls_of(events, replies, n - 1) + calls_at(
            tracks_at(events, replies, n - 1),
            events[n - 1],
            replies[n - 1],
        ),
        calls_of(events, replies, 0).len() == 0,
        tracks_at(events, replies, n) == tracks_behind(
            tracks_at(events, replies, n - 1),
            events[n - 1],
            replies[n - 1],
        ),
        tracks_at(events, replies, 0) == Map::<IdText, Track>::empty(),
{
}

} // verus!
