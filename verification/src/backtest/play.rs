//! Playing ticks or bars to a strategy.

use crate::backtest::signal;
use crate::backtest::signal::InstrumentState;
use crate::backtest::signal::Ledger;
use crate::backtest::signal::Signal;
use crate::buffer::bar_builder::Bar;
use crate::buffer::buffer_set::RingBufferSet;
use crate::buffer::buffer_set::SetEntry;
use crate::buffer::ring_buffer::RingBuffer;
use crate::buffer::tvc::TradeTick;
use crate::decimals;
use crate::decimals::scale;
use crate::filters;
use crate::instrument::InstrumentId;
use vstd::prelude::*;

verus! {

/// A tick for a strategy.
#[derive(Debug, Clone, Copy, PartialEq, Eq, Structural)]
pub struct PlayTick {
    pub timestamp_ns: u64,
    pub price_int: i64,
    pub size_int: i64,
    /// Digits of the price behind the point.
    pub precision: u8,
}

/// A price with its digits behind the point.
#[derive(Debug, Clone, Copy, PartialEq, Eq, Structural)]
pub struct ContextPrice {
    pub price_int: i64,
    pub precision: u8,
}

/// What a strategy can look up while it is told something.
#[derive(Debug)]
pub struct Context {
    /// The equity at the start of the run.
    pub initial_equity: i128,
    /// The instruments of the run.
    pub instruments: Vec<InstrumentId>,
    /// The last price, where the run makes it known.
    pub price: Option<ContextPrice>,
}

/// What a context says.
pub struct ContextView {
    pub initial_equity: i128,
    pub instruments: Seq<(Seq<char>, Seq<char>)>,
    pub price: Option<ContextPrice>,
}

/// The names of instruments.
pub open spec fn id_texts(ids: Seq<InstrumentId>) -> Seq<(Seq<char>, Seq<char>)> {
    Seq::new(ids.len(), |i: int| ids[i]@)
}

impl View for Context {
    type V = ContextView;

    open spec fn view(&self) -> ContextView {
        ContextView {
            initial_equity: self.initial_equity,
            instruments: id_texts(self.instruments@),
            price: self.price,
        }
    }
}

/// How ticks are played. In a single run prices are read with the precision of their file, the
/// account is valued at a price before the strategy sees it, and the context has the price. In a
/// pass of a sweep all prices are read with the precision of the first file, the account is valued
/// behind the strategy, and the context has no price.
#[derive(Debug, Clone, Copy, PartialEq, Eq, Structural)]
pub enum Pass {
    Single,
    Sweep,
}

/// What a strategy is told, with what it answers.
pub enum Heard {
    Start,
    Stop,
    Reset,
    Trade {
        id: (Seq<char>, Seq<char>),
        tick: PlayTick,
        context: Option<ContextView>,
        answer: Option<Signal>,
        wants: i64,
    },
    Bar {
        id: (Seq<char>, Seq<char>),
        bar: Bar,
        context: Option<ContextView>,
        answer: Option<Signal>,
        wants: i64,
    },
}

/// All that a strategy was told.
pub struct Hearing {
    pub events: Seq<Heard>,
}

/// A strategy: it sees ticks or bars, and answers with signals.
pub trait Strategy {
    /// What the strategy was told so far.
    spec fn heard(&self) -> Hearing;

    /// The size that the strategy wants for a position.
    spec fn wants(&self) -> i64;

    /// The first tick is about to come.
    fn on_start(&mut self)
        ensures
            final(self).heard().events == old(self).heard().events.push(Heard::Start),
    ;

    /// No more ticks come.
    fn on_stop(&mut self)
        ensures
            final(self).heard().events == old(self).heard().events.push(Heard::Stop),
    ;

    /// Everything seen is to be forgotten.
    fn on_reset(&mut self)
        ensures
            final(self).heard().events == old(self).heard().events.push(Heard::Reset),
    ;

    /// A trade has happened.
    fn on_trade(&mut self, instrument: &InstrumentId, tick: &PlayTick, context: &Context) -> (r:
        Option<Signal>)
        ensures
            final(self).heard().events == old(self).heard().events.push(
                Heard::Trade {
                    id: instrument@,
                    tick: *tick,
                    context: Some(context@),
                    answer: r,
                    wants: final(self).wants(),
                },
            ),
    ;

    /// A bar has closed.
    fn on_bar(&mut self, instrument: &InstrumentId, bar: &Bar, context: &Context) -> (r: Option<
        Signal,
    >)
        ensures
            final(self).heard().events == old(self).heard().events.push(
                Heard::Bar {
                    id: instrument@,
                    bar: *bar,
                    context: Some(context@),
                    answer: r,
                    wants: final(self).wants(),
                },
            ),
    ;

    /// The size of a position to be opened.
    fn position_size(&self) -> (r: i64)
        ensures
            r == self.wants(),
    ;
}

/// An order that is looked at before it is carried out.
#[derive(Debug, Clone, Copy, PartialEq, Eq, Structural)]
pub struct OrderCheck {
    /// Size that is bought; 0 for a sell.
    pub order_size: i64,
    pub price: i64,
    pub position: i64,
    /// What the portfolio is worth.
    pub equity: i128,
    /// The largest fall of the portfolio's worth from a peak.
    pub max_drawdown: i128,
}

/// Limits on orders.
pub trait RiskCheck {
    /// The order is not carried out.
    fn blocks(&self, order: &OrderCheck) -> bool;
}

/// The order of a signal that is looked at: with it go what the portfolio, which holds the one
/// account, is worth, and its largest drawdown. Closing is always allowed.
pub open spec fn checked_order(signal: Signal, size: i64, price: i64, s: InstrumentState) -> Option<
    OrderCheck,
> {
    if signal is Close {
        None
    } else {
        Some(
            OrderCheck {
                order_size: if signal is Buy {
                    size
                } else {
                    0
                },
                price,
                position: s.position,
                equity: s.worth,
                max_drawdown: s.drawdown,
            },
        )
    }
}

/// The order of a signal that is looked at.
pub fn order_to_check(signal: Signal, size: i64, price: i64, s: &InstrumentState) -> (r: Option<
    OrderCheck,
>)
    ensures
        r == checked_order(signal, size, price, *s),
{
    if signal == Signal::Close {
        None
    } else {
        Some(
            OrderCheck {
                order_size: if signal == Signal::Buy {
                    size
                } else {
                    0
                },
                price,
                position: s.position,
                equity: s.worth,
                max_drawdown: s.drawdown,
            },
        )
    }
}

/// What came back for a tick: a signal, the size of a position, and whether the order was blocked.
pub struct Answer {
    pub signal: Option<Signal>,
    pub size: i64,
    pub blocked: bool,
}

/// The account that an order is looked at with: in a single run it is valued at the price.
pub open spec fn entering(pass: Pass, s: Ledger, price: int) -> Ledger {
    match pass {
        Pass::Single => s.marked(price),
        Pass::Sweep => s,
    }
}

/// The account with an answer carried out at a price.
pub open spec fn carried(s: Ledger, price: int, a: Answer) -> Ledger {
    match a.signal {
        Some(sig) => if a.blocked && !(sig is Close) {
            s
        } else {
            s.routed(sig, a.size as int, price)
        },
        None => s,
    }
}

/// The account behind an answer at a price, valued at the price.
#[verifier::opaque]
pub open spec fn applied(pass: Pass, s: Ledger, price: int, a: Answer) -> Ledger {
    carried(entering(pass, s, price), price, a).valued(price)
}

/// An order is looked at: the price fits, and so does what the account is worth at it.
pub open spec fn entry_fits(pass: Pass, s: Ledger, price: int) -> bool {
    &&& i64::MIN <= price <= i64::MAX
    &&& pass is Single ==> signal::mark_fits(s, price)
}

/// The price, and the account behind an answer, fit.
#[verifier::opaque]
pub open spec fn answer_fits(pass: Pass, s: Ledger, price: int, a: Answer) -> bool {
    let entered = entering(pass, s, price);
    &&& entry_fits(pass, s, price)
    &&& match a.signal {
        Some(sig) => (a.blocked && !(sig is Close)) || signal::route_fits(
            entered,
            sig,
            a.size as int,
            price,
        ),
        None => true,
    }
    &&& signal::value_fits(carried(entered, price, a), price)
}

/// The account behind the first `n` answers.
pub open spec fn ledger_at(
    pass: Pass,
    s: Ledger,
    prices: Seq<int>,
    answers: Seq<Answer>,
    n: int,
) -> Ledger
    decreases n,
{
    if n <= 0 {
        s
    } else {
        applied(pass, ledger_at(pass, s, prices, answers, n - 1), prices[n - 1], answers[n - 1])
    }
}

/// The accounts behind the first `n` answers fit.
pub open spec fn answers_fit(
    pass: Pass,
    s: Ledger,
    prices: Seq<int>,
    answers: Seq<Answer>,
    n: int,
) -> bool {
    forall|i: int|
        0 <= i < n ==> answer_fits(
            pass,
            ledger_at(pass, s, prices, answers, i),
            prices[i],
            #[trigger] answers[i],
        )
}

proof fn lemma_ledger_prefix(
    pass: Pass,
    s: Ledger,
    prices: Seq<int>,
    answers: Seq<Answer>,
    p: int,
    a: Answer,
    n: int,
)
    requires
        0 <= n <= answers.len(),
        prices.len() == answers.len(),
    ensures
        ledger_at(pass, s, prices.push(p), answers.push(a), n)
            == ledger_at(pass, s, prices, answers, n),
    decreases n,
{
    if n > 0 {
        lemma_ledger_prefix(pass, s, prices, answers, p, a, n - 1);
    }
}

/// The account behind a tick.
#[derive(Debug, Clone, Copy, PartialEq, Eq, Structural)]
pub struct TrailPoint {
    pub timestamp_ns: u64,
    pub price_int: i64,
    pub state: InstrumentState,
}

/// Times and prices of what is played.
pub struct Moment {
    pub timestamp_ns: u64,
    pub price: int,
}

/// The prices of moments.
pub open spec fn prices_of(moments: Seq<Moment>) -> Seq<int> {
    Seq::new(moments.len(), |i: int| moments[i].price)
}

/// A trail is what answers make of moments: behind each moment stands the account behind its
/// answer.
pub open spec fn is_trail(
    pass: Pass,
    s: Ledger,
    moments: Seq<Moment>,
    answers: Seq<Answer>,
    trail: Seq<TrailPoint>,
) -> bool {
    &&& answers.len() == moments.len()
    &&& trail.len() == moments.len()
    &&& answers_fit(pass, s, prices_of(moments), answers, moments.len() as int)
    &&& forall|i: int|
        0 <= i < trail.len() ==> {
            &&& (#[trigger] trail[i]).timestamp_ns == moments[i].timestamp_ns
            &&& trail[i].price_int == moments[i].price
            &&& trail[i].state@ == ledger_at(pass, s, prices_of(moments), answers, i + 1)
        }
}

/// The account before the tick of a point.
pub open spec fn state_before(
    start: InstrumentState,
    trail: Seq<TrailPoint>,
    i: int,
) -> InstrumentState {
    if i <= 0 {
        start
    } else {
        trail[i - 1].state
    }
}

/// The account that an order is looked at with.
pub open spec fn state_entering(pass: Pass, s: InstrumentState, price: i64) -> InstrumentState {
    match pass {
        Pass::Single => InstrumentState { worth: s@.marked(price as int).worth as i128, ..s },
        Pass::Sweep => s,
    }
}

/// An order was blocked where there are limits and they block it; closing is never blocked.
pub open spec fn gate_said<R: RiskCheck>(
    pass: Pass,
    risk: Option<&R>,
    s: InstrumentState,
    price: i64,
    a: Answer,
) -> bool {
    match (risk, a.signal) {
        (Some(check), Some(sig)) => match checked_order(
            sig,
            a.size,
            price,
            state_entering(pass, s, price),
        ) {
            Some(order) => call_ensures(R::blocks, (check, &order), a.blocked),
            None => !a.blocked,
        },
        _ => !a.blocked,
    }
}

/// Orders were blocked as the limits say.
pub open spec fn is_gated<R: RiskCheck>(
    pass: Pass,
    risk: Option<&R>,
    start: InstrumentState,
    answers: Seq<Answer>,
    trail: Seq<TrailPoint>,
) -> bool {
    forall|i: int|
        0 <= i < trail.len() ==> gate_said(
            pass,
            risk,
            state_before(start, trail, i),
            trail[i].price_int,
            #[trigger] answers[i],
        )
}

/// The context at a tick.
pub open spec fn tick_context(
    pass: Pass,
    equity: i128,
    id: (Seq<char>, Seq<char>),
    t: PlayTick,
) -> ContextView {
    ContextView {
        initial_equity: equity,
        instruments: seq![id],
        price: match pass {
            Pass::Single => Some(
                ContextPrice { price_int: t.price_int, precision: t.precision },
            ),
            Pass::Sweep => None,
        },
    }
}

/// The context at a bar: the price is the one at which it closed.
pub open spec fn bar_context(equity: i128, id: (Seq<char>, Seq<char>), bar: Bar) -> ContextView {
    ContextView {
        initial_equity: equity,
        instruments: seq![id],
        price: Some(ContextPrice { price_int: bar.close, precision: 9 }),
    }
}

/// What a strategy is told of ticks that it answers: a start before the first one, and each tick.
pub open spec fn tick_hearing(
    pass: Pass,
    equity: i128,
    id: (Seq<char>, Seq<char>),
    ticks: Seq<PlayTick>,
    answers: Seq<Answer>,
) -> Seq<Heard> {
    if answers.len() == 0 {
        seq![]
    } else {
        seq![Heard::Start] + Seq::new(
            answers.len(),
            |i: int|
                Heard::Trade {
                    id,
                    tick: ticks[i],
                    context: Some(tick_context(pass, equity, id, ticks[i])),
                    answer: answers[i].signal,
                    wants: answers[i].size,
                },
        )
    }
}

/// What a strategy is told of bars that it answers.
pub open spec fn bar_hearing(
    equity: i128,
    id: (Seq<char>, Seq<char>),
    bars: Seq<Bar>,
    answers: Seq<Answer>,
) -> Seq<Heard> {
    seq![Heard::Start] + Seq::new(
        answers.len(),
        |i: int|
            Heard::Bar {
                id,
                bar: bars[i],
                context: Some(bar_context(equity, id, bars[i])),
                answer: answers[i].signal,
                wants: answers[i].size,
            },
    )
}

/// Answers were given until one did not fit.
pub open spec fn stopped_early(
    pass: Pass,
    s: Ledger,
    moments: Seq<Moment>,
    answers: Seq<Answer>,
) -> bool {
    let n = answers.len() - 1;
    &&& 0 < answers.len() <= moments.len()
    &&& answers_fit(pass, s, prices_of(moments), answers, n)
    &&& !answer_fits(
        pass,
        ledger_at(pass, s, prices_of(moments), answers, n),
        moments[n].price,
        answers[n],
    )
}

/// Answers were given until one did not fit: `trail` is what those before it make of the moments,
/// and orders were blocked as the limits say. The last answer was looked at where its price
/// fits and the account is worth a number that does.
pub open spec fn gated_until<R: RiskCheck>(
    pass: Pass,
    start: InstrumentState,
    risk: Option<&R>,
    moments: Seq<Moment>,
    answers: Seq<Answer>,
    trail: Seq<TrailPoint>,
) -> bool {
    let n = answers.len() - 1;
    &&& is_trail(pass, start@, moments.take(n), answers.drop_last(), trail)
    &&& is_gated(pass, risk, start, answers.drop_last(), trail)
    &&& entry_fits(pass, state_before(start, trail, n)@, moments[n].price) ==> gate_said(
        pass,
        risk,
        state_before(start, trail, n),
        moments[n].price as i64,
        answers[n],
    )
}

/// What came of playing: the account behind every tick.
#[derive(Debug)]
pub struct PlayResult {
    pub trail: Vec<TrailPoint>,
    /// Something was played.
    pub started: bool,
    /// Digits behind the point of the prices of the trail.
    pub unit: u8,
}

impl PlayResult {
    /// The number of ticks.
    pub fn num_ticks(&self) -> (r: u64)
        ensures
            r == self.trail@.len(),
    {
        self.trail.len() as u64
    }

    /// The time of the first tick; 0 where there is none.
    pub fn start_ts_ns(&self) -> (r: u64)
        ensures
            r == (if self.trail@.len() == 0 {
                0
            } else {
                self.trail@[0].timestamp_ns
            }),
    {
        if self.trail.len() == 0 {
            0
        } else {
            self.trail[0].timestamp_ns
        }
    }

    /// The time of the last tick; 0 where there is none.
    pub fn end_ts_ns(&self) -> (r: u64)
        ensures
            r == (if self.trail@.len() == 0 {
                0
            } else {
                self.trail@.last().timestamp_ns
            }),
    {
        let n: usize = self.trail.len();
        if n == 0 {
            0
        } else {
            self.trail[n - 1].timestamp_ns
        }
    }
}

/// Carries out an answer: what is left of the account, and what the risk check said.
fn carry_out<R: RiskCheck>(
    pass: Pass,
    state: &InstrumentState,
    price: i64,
    signal: Option<Signal>,
    size: i64,
    risk: Option<&R>,
) -> (r: (Option<InstrumentState>, Ghost<Answer>))
    ensures
        r.1@.signal == signal,
        r.1@.size == size,
        r.0 is Some || entry_fits(pass, state@, price as int) ==> gate_said(
            pass,
            risk,
            *state,
            price,
            r.1@,
        ),
        match r.0 {
            Some(t) => answer_fits(pass, state@, price as int, r.1@) && t@ == applied(
                pass,
                state@,
                price as int,
                r.1@,
            ),
            None => !answer_fits(pass, state@, price as int, r.1@),
        },
{
    proof {
        reveal(applied);
        reveal(answer_fits);
    }
    let entered: InstrumentState = match pass {
        Pass::Single => match state.mark(price) {
            Some(t) => t,
            None => {
                return (None, Ghost(Answer { signal, size, blocked: false }));
            },
        },
        Pass::Sweep => *state,
    };
    assert(entered == state_entering(pass, *state, price));
    let sig = match signal {
        Some(s) => s,
        None => {
            return (entered.value(price), Ghost(Answer { signal, size, blocked: false }));
        },
    };
    let mut blocked = false;
    match (order_to_check(sig, size, price, &entered), risk) {
        (Some(order), Some(check)) => {
            blocked = check.blocks(&order);
        },
        _ => {},
    }
    if blocked {
        return (entered.value(price), Ghost(Answer { signal, size, blocked: true }));
    }
    let left = match entered.route(sig, size, price) {
        Some(t) => t.value(price),
        None => None,
    };
    (left, Ghost(Answer { signal, size, blocked: false }))
}

proof fn lemma_trail_grows(
    pass: Pass,
    s: Ledger,
    moments: Seq<Moment>,
    answers: Seq<Answer>,
    trail: Seq<TrailPoint>,
    m: Moment,
    a: Answer,
    p: TrailPoint,
    current: Ledger,
)
    requires
        is_trail(pass, s, moments, answers, trail),
        current == ledger_at(pass, s, prices_of(moments), answers, moments.len() as int),
        answer_fits(pass, current, m.price, a),
        p.timestamp_ns == m.timestamp_ns,
        p.price_int == m.price,
        p.state@ == applied(pass, current, m.price, a),
    ensures
        is_trail(pass, s, moments.push(m), answers.push(a), trail.push(p)),
        p.state@ == ledger_at(
            pass,
            s,
            prices_of(moments.push(m)),
            answers.push(a),
            moments.len() as int + 1,
        ),
{
    let prices = prices_of(moments);
    let more = prices_of(moments.push(m));
    assert(more =~= prices.push(m.price));
    let b = answers.push(a);
    let t = trail.push(p);
    assert forall|i: int| 0 <= i <= answers.len() implies ledger_at(pass, s, more, b, i) == ledger_at(
        pass,
        s,
        prices,
        answers,
        i,
    ) by {
        lemma_ledger_prefix(pass, s, prices, answers, m.price, a, i);
    }
    assert forall|i: int| 0 <= i < b.len() implies answer_fits(
        pass,
        ledger_at(pass, s, more, b, i),
        more[i],
        #[trigger] b[i],
    ) by {
        if i < answers.len() {
            assert(b[i] == answers[i]);
        }
    }
    assert forall|i: int| 0 <= i < t.len() implies {
        &&& (#[trigger] t[i]).timestamp_ns == moments.push(m)[i].timestamp_ns
        &&& t[i].price_int == moments.push(m)[i].price
        &&& t[i].state@ == ledger_at(pass, s, more, b, i + 1)
    } by {
        if i < trail.len() {
            assert(t[i] == trail[i]);
        }
    }
}

proof fn lemma_stops(
    pass: Pass,
    s: Ledger,
    moments: Seq<Moment>,
    answers: Seq<Answer>,
    trail: Seq<TrailPoint>,
    rest: Seq<Moment>,
    a: Answer,
    current: Ledger,
)
    requires
        is_trail(pass, s, moments, answers, trail),
        rest.len() > 0,
        current == ledger_at(pass, s, prices_of(moments), answers, moments.len() as int),
        !answer_fits(pass, current, rest[0].price, a),
    ensures
        stopped_early(pass, s, moments + rest, answers.push(a)),
{
    let all = moments + rest;
    let n = moments.len() as int;
    let prices = prices_of(moments);
    let more = prices_of(all);
    let b = answers.push(a);
    assert forall|i: int| 0 <= i <= n implies ledger_at(pass, s, more, b, i) == ledger_at(
        pass,
        s,
        prices,
        answers,
        i,
    ) by {
        lemma_ledger_same(pass, s, prices, answers, more, b, i);
    }
    assert forall|i: int| 0 <= i < n implies answer_fits(
        pass,
        ledger_at(pass, s, more, b, i),
        more[i],
        #[trigger] b[i],
    ) by {
        assert(b[i] == answers[i]);
        assert(more[i] == prices[i]);
    }
    assert(all[n] == rest[0]);
}

proof fn lemma_ledger_same(
    pass: Pass,
    s: Ledger,
    p: Seq<int>,
    a: Seq<Answer>,
    q: Seq<int>,
    b: Seq<Answer>,
    n: int,
)
    requires
        0 <= n <= p.len() <= q.len(),
        n <= a.len() <= b.len(),
        forall|i: int| 0 <= i < n ==> p[i] == q[i],
        forall|i: int| 0 <= i < n ==> a[i] == b[i],
    ensures
        ledger_at(pass, s, q, b, n) == ledger_at(pass, s, p, a, n),
    decreases n,
{
    if n > 0 {
        lemma_ledger_same(pass, s, p, a, q, b, n - 1);
    }
}

// ---------------------------------------------------------------------------
// Bars
// ---------------------------------------------------------------------------

/// The bars that could be read, among the first `n`.
pub open spec fn readable_bars(bars: Seq<Option<Bar>>, n: int) -> Seq<Bar>
    decreases n,
{
    if n <= 0 {
        seq![]
    } else {
        match bars[n - 1] {
            Some(b) => readable_bars(bars, n - 1).push(b),
            None => readable_bars(bars, n - 1),
        }
    }
}

/// The moments of the bars that could be read, among the first `n`.
pub open spec fn bar_moments(bars: Seq<Option<Bar>>, n: int) -> Seq<Moment>
    decreases n,
{
    if n <= 0 {
        seq![]
    } else {
        match bars[n - 1] {
            Some(b) => bar_moments(bars, n - 1).push(
                Moment { timestamp_ns: b.ts_event, price: b.close as int },
            ),
            None => bar_moments(bars, n - 1),
        }
    }
}

proof fn lemma_bar_moments_split(bars: Seq<Option<Bar>>, a: int, b: int)
    requires
        0 <= a <= b,
    ensures
        exists|rest: Seq<Moment>| bar_moments(bars, b) == #[trigger] (bar_moments(bars, a) + rest),
    decreases b - a,
{
    if a == b {
        let rest = Seq::<Moment>::empty();
        assert(bar_moments(bars, b) =~= bar_moments(bars, a) + rest);
    } else {
        lemma_bar_moments_split(bars, a, b - 1);
        let rest = choose|rest: Seq<Moment>|
            bar_moments(bars, b - 1) == #[trigger] (bar_moments(bars, a) + rest);
        match bars[b - 1] {
            Some(bar) => {
                let m = Moment { timestamp_ns: bar.ts_event, price: bar.close as int };
                assert(bar_moments(bars, b) =~= bar_moments(bars, a) + rest.push(m));
            },
            None => {
                assert(bar_moments(bars, b) == bar_moments(bars, a) + rest);
            },
        }
    }
}

proof fn lemma_readable_prefix(bars: Seq<Option<Bar>>, a: int, b: int)
    requires
        0 <= a <= b,
    ensures
        readable_bars(bars, a).is_prefix_of(readable_bars(bars, b)),
    decreases b - a,
{
    if a < b {
        lemma_readable_prefix(bars, a, b - 1);
    }
}

proof fn lemma_bar_told(
    equity: i128,
    id: (Seq<char>, Seq<char>),
    bars: Seq<Bar>,
    answers: Seq<Answer>,
    bar: Bar,
    a: Answer,
    all: Seq<Bar>,
)
    requires
        bars.len() == answers.len(),
        bars.push(bar).is_prefix_of(all),
    ensures
        bar_hearing(equity, id, all, answers.push(a)) == bar_hearing(equity, id, bars, answers).push(
            Heard::Bar {
            id,
            bar,
            context: Some(bar_context(equity, id, bar)),
            answer: a.signal,
            wants: a.size,
        },
        ),
{
    assert forall|i: int| 0 <= i <= bars.len() implies #[trigger] all[i] == bars.push(bar)[i] by {
        assert(all.subrange(0, bars.len() as int + 1)[i] == all[i]);
    }
    assert(bar_hearing(equity, id, all, answers.push(a)) =~= bar_hearing(equity, id, bars, answers).push(
        Heard::Bar {
            id,
            bar,
            context: Some(bar_context(equity, id, bar)),
            answer: a.signal,
            wants: a.size,
        },
    ));
}

proof fn lemma_gated_grows<R: RiskCheck>(
    pass: Pass,
    risk: Option<&R>,
    start: InstrumentState,
    answers: Seq<Answer>,
    trail: Seq<TrailPoint>,
    a: Answer,
    p: TrailPoint,
    state: InstrumentState,
)
    requires
        is_gated(pass, risk, start, answers, trail),
        answers.len() == trail.len(),
        state == state_before(start, trail, trail.len() as int),
        gate_said(pass, risk, state, p.price_int, a),
    ensures
        is_gated(pass, risk, start, answers.push(a), trail.push(p)),
{
    let t = trail.push(p);
    let b = answers.push(a);
    assert forall|i: int| 0 <= i < t.len() implies gate_said(
        pass,
        risk,
        state_before(start, t, i),
        t[i].price_int,
        #[trigger] b[i],
    ) by {
        assert(state_before(start, t, i) == state_before(start, trail, i));
        if i < trail.len() {
            assert(b[i] == answers[i]);
            assert(t[i] == trail[i]);
        }
    }
}

/// A play of bars to its end: the trail is what the answers make of the bars, and the strategy was
/// started, was told each bar that could be read, and was stopped.
pub open spec fn is_bar_play(
    start: InstrumentState,
    bars: Seq<Option<Bar>>,
    id: (Seq<char>, Seq<char>),
    answers: Seq<Answer>,
    told: Seq<Heard>,
    trail: Seq<TrailPoint>,
) -> bool {
    let n = bars.len() as int;
    &&& is_trail(Pass::Single, start@, bar_moments(bars, n), answers, trail)
    &&& is_gated(Pass::Single, None::<&NoRisk>, start, answers, trail)
    &&& told == bar_hearing(start.equity, id, readable_bars(bars, n), answers).push(Heard::Stop)
}

/// A play of bars up to an account that does not fit.
pub open spec fn is_bar_stop(
    start: InstrumentState,
    bars: Seq<Option<Bar>>,
    id: (Seq<char>, Seq<char>),
    answers: Seq<Answer>,
    told: Seq<Heard>,
) -> bool {
    let n = bars.len() as int;
    &&& stopped_early(Pass::Single, start@, bar_moments(bars, n), answers)
    &&& exists|trail: Seq<TrailPoint>| #[trigger]
        gated_until(Pass::Single, start, None::<&NoRisk>, bar_moments(bars, n), answers, trail)
    &&& told == bar_hearing(start.equity, id, readable_bars(bars, n), answers)
}

/// A play of bars has come behind the first `i`, with these answers.
#[verifier::opaque]
spec fn bars_behind(
    start: InstrumentState,
    bars: Seq<Option<Bar>>,
    i: int,
    id: (Seq<char>, Seq<char>),
    answers: Seq<Answer>,
    trail: Seq<TrailPoint>,
    state: InstrumentState,
    heard: Seq<Heard>,
) -> bool {
    let moments = bar_moments(bars, i);
    &&& is_trail(Pass::Single, start@, moments, answers, trail)
    &&& is_gated(Pass::Single, None::<&NoRisk>, start, answers, trail)
    &&& state == state_before(start, trail, trail.len() as int)
    &&& state@ == ledger_at(
        Pass::Single,
        start@,
        prices_of(moments),
        answers,
        moments.len() as int,
    )
    &&& readable_bars(bars, i).len() == answers.len()
    &&& heard == bar_hearing(start.equity, id, readable_bars(bars, i), answers)
}

/// A play of bars goes on behind an answer that fits.
proof fn lemma_bar_grows(
    start: InstrumentState,
    bars: Seq<Option<Bar>>,
    i: int,
    id: (Seq<char>, Seq<char>),
    answers: Seq<Answer>,
    trail: Seq<TrailPoint>,
    a: Answer,
    state: InstrumentState,
    bar: Bar,
    p: TrailPoint,
    heard: Seq<Heard>,
)
    requires
        0 <= i < bars.len(),
        bars[i] == Some(bar),
        bars_behind(start, bars, i, id, answers, trail, state, heard),
        answer_fits(Pass::Single, state@, bar.close as int, a),
        gate_said(Pass::Single, None::<&NoRisk>, state, bar.close, a),
        p.timestamp_ns == bar.ts_event,
        p.price_int == bar.close,
        p.state@ == applied(Pass::Single, state@, bar.close as int, a),
    ensures
        bars_behind(
            start,
            bars,
            i + 1,
            id,
            answers.push(a),
            trail.push(p),
            p.state,
            heard.push(
                Heard::Bar {
                    id,
                    bar,
                    context: Some(bar_context(start.equity, id, bar)),
                    answer: a.signal,
                    wants: a.size,
                },
            ),
        ),
{
    reveal(bars_behind);
    let before = bar_moments(bars, i);
    let seen = readable_bars(bars, i);
    let m = Moment { timestamp_ns: bar.ts_event, price: bar.close as int };
    lemma_trail_grows(Pass::Single, start@, before, answers, trail, m, a, p, state@);
    lemma_gated_grows(Pass::Single, None::<&NoRisk>, start, answers, trail, a, p, state);
    lemma_bar_told(start.equity, id, seen, answers, bar, a, seen.push(bar));
    assert(bar_moments(bars, i + 1) == before.push(m));
    assert(readable_bars(bars, i + 1) == seen.push(bar));
}

/// A bar that could not be read is passed over.
proof fn lemma_bar_skipped(
    start: InstrumentState,
    bars: Seq<Option<Bar>>,
    i: int,
    id: (Seq<char>, Seq<char>),
    answers: Seq<Answer>,
    trail: Seq<TrailPoint>,
    state: InstrumentState,
    heard: Seq<Heard>,
)
    requires
        0 <= i < bars.len(),
        bars[i] is None,
        bars_behind(start, bars, i, id, answers, trail, state, heard),
    ensures
        bars_behind(start, bars, i + 1, id, answers, trail, state, heard),
{
    reveal(bars_behind);
}

/// A play of bars stops at an answer that does not fit.
proof fn lemma_bar_stop(
    start: InstrumentState,
    bars: Seq<Option<Bar>>,
    i: int,
    id: (Seq<char>, Seq<char>),
    answers: Seq<Answer>,
    trail: Seq<TrailPoint>,
    a: Answer,
    state: InstrumentState,
    bar: Bar,
    heard: Seq<Heard>,
)
    requires
        0 <= i < bars.len(),
        bars[i] == Some(bar),
        bars_behind(start, bars, i, id, answers, trail, state, heard),
        !answer_fits(Pass::Single, state@, bar.close as int, a),
        entry_fits(Pass::Single, state@, bar.close as int) ==> gate_said(
            Pass::Single,
            None::<&NoRisk>,
            state,
            bar.close,
            a,
        ),
    ensures
        ({
            let seen = readable_bars(bars, bars.len() as int);
            let told = bar_hearing(start.equity, id, seen, answers.push(a));
            &&& told == heard.push(
                Heard::Bar {
                    id,
                    bar,
                    context: Some(bar_context(start.equity, id, bar)),
                    answer: a.signal,
                    wants: a.size,
                },
            )
            &&& is_bar_stop(start, bars, id, answers.push(a), told)
        }),
{
    reveal(bars_behind);
    let n = bars.len() as int;
    let before = bar_moments(bars, i);
    let m = Moment { timestamp_ns: bar.ts_event, price: bar.close as int };
    lemma_bar_moments_split(bars, i + 1, n);
    let all = bar_moments(bars, n);
    let rest = choose|rest: Seq<Moment>| all == #[trigger] (bar_moments(bars, i + 1) + rest);
    let tail = seq![m] + rest;
    assert(all =~= before + tail);
    lemma_stops(Pass::Single, start@, before, answers, trail, tail, a, state@);
    lemma_readable_prefix(bars, i + 1, n);
    lemma_bar_told(
        start.equity,
        id,
        readable_bars(bars, i),
        answers,
        bar,
        a,
        readable_bars(bars, n),
    );
    let more = answers.push(a);
    assert(all.take(before.len() as int) =~= before);
    assert(more.drop_last() =~= answers);
    assert(all[before.len() as int] == m);
    assert(gated_until(Pass::Single, start, None::<&NoRisk>, all, more, trail));
}

/// Plays bars to a strategy: it is started, sees every bar that could be read, and is stopped.
/// Whatever it answers, the trail is what its answers make of the bars; where an account does not
/// fit, the play stops.
pub fn run_bar_backtest<S: Strategy>(
    bars: &Vec<Option<Bar>>,
    instrument: &InstrumentId,
    start: InstrumentState,
    strategy: &mut S,
) -> (r: Result<PlayResult, String>)
    ensures
        match r {
            Ok(p) => p.started && p.unit == 9 && exists|answers: Seq<Answer>, told: Seq<Heard>|
                #[trigger]
                is_bar_play(start, bars@, instrument@, answers, told, p.trail@)
                    && final(strategy).heard().events == old(strategy).heard().events + told,
            Err(e) => e@ == overflow_text() && exists|answers: Seq<Answer>, told: Seq<Heard>|
                #[trigger]
                is_bar_stop(start, bars@, instrument@, answers, told)
                    && final(strategy).heard().events == old(strategy).heard().events + told,
        },
{
    let ghost mut answers: Seq<Answer> = seq![];
    let ghost log = strategy.heard().events;
    let ghost mut heard: Seq<Heard> = seq![Heard::Start];
    let mut trail: Vec<TrailPoint> = Vec::new();
    let mut state: InstrumentState = start;
    let mut context = Context {
        initial_equity: start.equity,
        instruments: vec![instrument.clone()],
        price: None,
    };
    assert(id_texts(context.instruments@) =~= seq![instrument@]);
    strategy.on_start();
    let mut i: usize = 0;
    proof {
        reveal(bars_behind);
        assert(heard =~= bar_hearing(start.equity, instrument@, seq![], answers));
        assert(bars_behind(start, bars@, 0, instrument@, answers, trail@, state, heard));
        assert(strategy.heard().events =~= log + heard);
    }
    while i < bars.len()
        invariant
            i <= bars@.len(),
            context.initial_equity == start.equity,
            id_texts(context.instruments@) == seq![instrument@],
            log == old(strategy).heard().events,
            strategy.heard().events == log + heard,
            bars_behind(start, bars@, i as int, instrument@, answers, trail@, state, heard),
        decreases bars@.len() - i,
    {
        match &bars[i] {
            Some(bar) => {
                context.price = Some(ContextPrice { price_int: bar.close, precision: 9 });
                let signal = strategy.on_bar(instrument, bar, &context);
                let size: i64 = strategy.position_size();
                let (next, answer) = carry_out(
                    Pass::Single,
                    &state,
                    bar.close,
                    signal,
                    size,
                    None::<&NoRisk>,
                );
                let ghost event = Heard::Bar {
                    id: instrument@,
                    bar: *bar,
                    context: Some(bar_context(start.equity, instrument@, *bar)),
                    answer: signal,
                    wants: size,
                };
                assert(context@ == bar_context(start.equity, instrument@, *bar));
                assert(strategy.heard().events =~= log + heard.push(event));
                match next {
                    Some(t) => {
                        let p = TrailPoint {
                            timestamp_ns: bar.ts_event,
                            price_int: bar.close,
                            state: t,
                        };
                        proof {
                            lemma_bar_grows(
                                start,
                                bars@,
                                i as int,
                                instrument@,
                                answers,
                                trail@,
                                answer@,
                                state,
                                *bar,
                                p,
                                heard,
                            );
                            answers = answers.push(answer@);
                            heard = heard.push(event);
                        }
                        trail.push(p);
                        state = t;
                    },
                    None => {
                        proof {
                            lemma_bar_stop(
                                start,
                                bars@,
                                i as int,
                                instrument@,
                                answers,
                                trail@,
                                answer@,
                                state,
                                *bar,
                                heard,
                            );
                            assert(is_bar_stop(
                                start,
                                bars@,
                                instrument@,
                                answers.push(answer@),
                                heard.push(event),
                            ));
                        }
                        return Err(overflow_message());
                    },
                }
            },
            None => {
                proof {
                    lemma_bar_skipped(
                        start,
                        bars@,
                        i as int,
                        instrument@,
                        answers,
                        trail@,
                        state,
                        heard,
                    );
                }
            },
        }
        i = i + 1;
    }
    strategy.on_stop();
    let played = PlayResult { trail, started: true, unit: 9 };
    proof {
        reveal(bars_behind);
        let told = heard.push(Heard::Stop);
        assert(strategy.heard().events =~= log + told);
        assert(is_bar_play(start, bars@, instrument@, answers, told, played.trail@));
    }
    Ok(played)
}

/// No limits on orders.
#[derive(Debug, Clone, Copy)]
pub struct NoRisk;

impl RiskCheck for NoRisk {
    fn blocks(&self, order: &OrderCheck) -> (r: bool)
        ensures
            !r,
    {
        false
    }
}

/// An account does not fit.
pub open spec fn overflow_text() -> Seq<char> {
    "account out of range"@
}

fn overflow_message() -> (r: String)
    ensures
        r@ == overflow_text(),
{
    "account out of range".to_owned()
}

// ---------------------------------------------------------------------------
// Ticks
// ---------------------------------------------------------------------------

/// A tick of a file, for a strategy.
pub open spec fn play_tick(t: TradeTick, precision: u8) -> PlayTick {
    PlayTick {
        timestamp_ns: t.timestamp_ns,
        price_int: t.price_int,
        size_int: t.size_int,
        precision,
    }
}

/// Ticks of a file, for a strategy.
pub open spec fn play_ticks(ticks: Seq<TradeTick>, precision: u8) -> Seq<PlayTick> {
    Seq::new(ticks.len(), |i: int| play_tick(ticks[i], precision))
}

/// The precision with which all prices of a run are read; none where each file has its own.
pub open spec fn reading_of(pass: Pass, files: Seq<SetEntry>) -> Option<u8> {
    match pass {
        Pass::Single => None,
        Pass::Sweep => if files.len() > 0 {
            Some(files[0].1@.header.decimal_precision)
        } else {
            Some(9)
        },
    }
}

/// The precision with which the prices of a file are read.
pub open spec fn precision_of(reading: Option<u8>, f: SetEntry) -> u8 {
    match reading {
        Some(p) => p,
        None => f.1@.header.decimal_precision,
    }
}

/// The digits behind the point of the prices of a run.
pub open spec fn run_unit(reading: Option<u8>, files: Seq<SetEntry>) -> u8 {
    match reading {
        Some(p) => p,
        None => common_unit(files, files.len() as int),
    }
}

/// The ticks of a file; none where the first one cannot be read.
pub open spec fn file_ticks(reading: Option<u8>, f: SetEntry) -> Seq<PlayTick> {
    if f.1@.anchor_at(128) is Some {
        play_ticks(f.1@.ticks(), precision_of(reading, f))
    } else {
        seq![]
    }
}

/// The ticks of the first `n` files, one behind the other.
pub open spec fn set_ticks(reading: Option<u8>, files: Seq<SetEntry>, n: int) -> Seq<PlayTick>
    decreases n,
{
    if n <= 0 {
        seq![]
    } else {
        set_ticks(reading, files, n - 1) + file_ticks(reading, files[n - 1])
    }
}

/// The largest precision among the first `n` files: prices of all files are whole numbers of it.
pub open spec fn common_unit(files: Seq<SetEntry>, n: int) -> u8
    decreases n,
{
    if n <= 0 {
        0
    } else {
        let front = common_unit(files, n - 1);
        let here = files[n - 1].1@.header.decimal_precision;
        if here > front {
            here
        } else {
            front
        }
    }
}

proof fn lemma_unit(files: Seq<SetEntry>, i: int, n: int)
    requires
        0 <= i < n,
    ensures
        files[i].1@.header.decimal_precision <= common_unit(files, n),
    decreases n,
{
    if i < n - 1 {
        lemma_unit(files, i, n - 1);
    }
}

/// The largest precision among files.
fn unit_of(files: &[SetEntry]) -> (r: u8)
    ensures
        r == common_unit(files@, files@.len() as int),
{
    let mut unit: u8 = 0;
    let mut i: usize = 0;
    while i < files.len()
        invariant
            i <= files@.len(),
            unit == common_unit(files@, i as int),
        decreases files@.len() - i,
    {
        let here: u8 = files[i].1.header().decimal_precision;
        if here > unit {
            unit = here;
        }
        i = i + 1;
    }
    unit
}

/// The moment of a tick, with its price in the unit of a run.
pub open spec fn moment_of(t: PlayTick, unit: u8) -> Moment {
    Moment {
        timestamp_ns: t.timestamp_ns,
        price: decimals::scaled(t.price_int as int, unit - t.precision),
    }
}

/// The moments of ticks, with their prices in the unit of a run.
pub open spec fn moments_of(ticks: Seq<PlayTick>, unit: u8) -> Seq<Moment> {
    Seq::new(ticks.len(), |i: int| moment_of(ticks[i], unit))
}

/// The ticks from `start_ns` to before `end_ns`.
pub open spec fn window_ticks(ticks: Seq<PlayTick>, start_ns: u64, end_ns: u64) -> Seq<PlayTick> {
    ticks.filter(|t: PlayTick| start_ns <= t.timestamp_ns < end_ns)
}

/// The moments of the ticks from `start_ns` to before `end_ns`.
spec fn window_moments(
    ticks: Seq<PlayTick>,
    unit: u8,
    start_ns: u64,
    end_ns: u64,
) -> Seq<Moment> {
    moments_of(window_ticks(ticks, start_ns, end_ns), unit)
}

/// A play of ticks to its end: the trail is what the answers make of the ticks, orders were blocked
/// as the limits say, and the strategy was started before the first tick, was told each tick, and
/// was stopped behind the last one.
pub open spec fn is_tick_play<R: RiskCheck>(
    pass: Pass,
    start: InstrumentState,
    risk: Option<&R>,
    id: (Seq<char>, Seq<char>),
    ticks: Seq<PlayTick>,
    unit: u8,
    answers: Seq<Answer>,
    told: Seq<Heard>,
    trail: Seq<TrailPoint>,
) -> bool {
    &&& is_trail(pass, start@, moments_of(ticks, unit), answers, trail)
    &&& is_gated(pass, risk, start, answers, trail)
    &&& told == tick_hearing(pass, start.equity, id, ticks, answers) + (if ticks.len() > 0 {
        seq![Heard::Stop]
    } else {
        seq![]
    })
}

/// A play of ticks up to an account that does not fit; until then, orders were blocked as the limits
/// say.
pub open spec fn is_tick_stop<R: RiskCheck>(
    pass: Pass,
    start: InstrumentState,
    risk: Option<&R>,
    id: (Seq<char>, Seq<char>),
    ticks: Seq<PlayTick>,
    unit: u8,
    answers: Seq<Answer>,
    told: Seq<Heard>,
) -> bool {
    &&& stopped_early(pass, start@, moments_of(ticks, unit), answers)
    &&& exists|trail: Seq<TrailPoint>| #[trigger]
        gated_until(pass, start, risk, moments_of(ticks, unit), answers, trail)
    &&& told == tick_hearing(pass, start.equity, id, ticks, answers)
}

proof fn lemma_tick_told(
    pass: Pass,
    equity: i128,
    id: (Seq<char>, Seq<char>),
    ticks: Seq<PlayTick>,
    answers: Seq<Answer>,
    t: PlayTick,
    a: Answer,
    all: Seq<PlayTick>,
)
    requires
        ticks.len() == answers.len(),
        ticks.push(t).is_prefix_of(all),
    ensures
        tick_hearing(pass, equity, id, all, answers.push(a)) == (if answers.len() == 0 {
            seq![Heard::Start]
        } else {
            tick_hearing(pass, equity, id, ticks, answers)
        }).push(Heard::Trade {
            id,
            tick: t,
            context: Some(tick_context(pass, equity, id, t)),
            answer: a.signal,
            wants: a.size,
        }),
{
    assert forall|i: int| 0 <= i <= ticks.len() implies #[trigger] all[i] == ticks.push(t)[i] by {
        assert(all.subrange(0, ticks.len() as int + 1)[i] == all[i]);
    }
    assert(tick_hearing(pass, equity, id, all, answers.push(a)) =~= (if answers.len() == 0 {
        seq![Heard::Start]
    } else {
        tick_hearing(pass, equity, id, ticks, answers)
    }).push(Heard::Trade {
            id,
            tick: t,
            context: Some(tick_context(pass, equity, id, t)),
            answer: a.signal,
            wants: a.size,
        }));
}

/// The ticks of every file whose first tick can be read stay in range.
pub open spec fn files_play(files: Seq<SetEntry>) -> bool {
    forall|i: int|
        0 <= i < files.len() && (#[trigger] files[i]).1@.anchor_at(128) is Some
            ==> files[i].1@.ticks_fit(files[i].1@.origin(), u64::MAX)
}

/// The ticks of every file whose first tick can be read stay in range.
pub fn can_play(set: &RingBufferSet) -> (r: bool)
    ensures
        r == files_play(set@.files),
{
    let files = set.buffers();
    let mut i: usize = 0;
    while i < files.len()
        invariant
            files@ == set@.files,
            i <= files@.len(),
            forall|j: int|
                0 <= j < i && (#[trigger] files@[j]).1@.anchor_at(128) is Some
                    ==> files@[j].1@.ticks_fit(files@[j].1@.origin(), u64::MAX),
        decreases files@.len() - i,
    {
        let buffer = &files[i].1;
        match buffer.decode_anchor_at(128) {
            Ok(_) => match buffer.read_all() {
                Some(_) => {},
                None => {
                    return false;
                },
            },
            Err(_) => {},
        }
        i = i + 1;
    }
    true
}

proof fn lemma_window_push(ticks: Seq<PlayTick>, t: PlayTick, unit: u8, start_ns: u64, end_ns: u64)
    ensures
        window_moments(ticks.push(t), unit, start_ns, end_ns) == if start_ns <= t.timestamp_ns < end_ns {
            window_moments(ticks, unit, start_ns, end_ns).push(
                moment_of(t, unit),
            )
        } else {
            window_moments(ticks, unit, start_ns, end_ns)
        },
        window_ticks(ticks.push(t), start_ns, end_ns) == if start_ns <= t.timestamp_ns < end_ns {
            window_ticks(ticks, start_ns, end_ns).push(t)
        } else {
            window_ticks(ticks, start_ns, end_ns)
        },
{
    let pred = |t: PlayTick| start_ns <= t.timestamp_ns < end_ns;
    filters::filter_of_push(ticks, t, pred);
    if pred(t) {
        assert(window_moments(ticks.push(t), unit, start_ns, end_ns) =~= window_moments(
            ticks,
            unit,
            start_ns,
            end_ns,
        ).push(moment_of(t, unit)));
    }
}

proof fn lemma_window_parts(a: Seq<PlayTick>, b: Seq<PlayTick>, unit: u8, start_ns: u64, end_ns: u64)
    ensures
        window_moments(a + b, unit, start_ns, end_ns) == window_moments(a, unit, start_ns, end_ns)
            + window_moments(b, unit, start_ns, end_ns),
        window_ticks(a + b, start_ns, end_ns) == window_ticks(a, start_ns, end_ns) + window_ticks(
            b,
            start_ns,
            end_ns,
        ),
{
    let pred = |t: PlayTick| start_ns <= t.timestamp_ns < end_ns;
    filters::filter_of_parts(a, b, pred);
    assert(window_moments(a + b, unit, start_ns, end_ns) =~= window_moments(a, unit, start_ns, end_ns)
        + window_moments(b, unit, start_ns, end_ns));
}

/// What a run over ticks is about.
struct Ground {
    pass: Pass,
    start: InstrumentState,
    id: (Seq<char>, Seq<char>),
    unit: u8,
    start_ns: u64,
    end_ns: u64,
    /// What the strategy was told before the run.
    log: Seq<Heard>,
}

impl Ground {
    /// The ticks that are played.
    spec fn inside(self, ticks: Seq<PlayTick>) -> Seq<PlayTick> {
        window_ticks(ticks, self.start_ns, self.end_ns)
    }

    /// A run over ticks stops early with these answers.
    #[verifier::opaque]
    spec fn fails<R: RiskCheck>(
        self,
        risk: Option<&R>,
        ticks: Seq<PlayTick>,
        answers: Seq<Answer>,
        heard: Seq<Heard>,
    ) -> bool {
        exists|told: Seq<Heard>| #[trigger]
            is_tick_stop(self.pass, self.start, risk, self.id, self.inside(ticks), self.unit, answers, told)
                && heard == self.log + told
    }
}

/// A run in progress.
struct Run {
    context: Context,
    state: InstrumentState,
    trail: Vec<TrailPoint>,
    started: bool,
}

impl Run {
    /// The run has come behind the ticks, with these answers.
    #[verifier::opaque]
    spec fn behind<R: RiskCheck>(
        self,
        g: Ground,
        risk: Option<&R>,
        ticks: Seq<PlayTick>,
        answers: Seq<Answer>,
        heard: Seq<Heard>,
    ) -> bool {
        let moments = moments_of(g.inside(ticks), g.unit);
        &&& self.context.initial_equity == g.start.equity
        &&& id_texts(self.context.instruments@) == seq![g.id]
        &&& g.pass is Sweep ==> self.context.price is None
        &&& is_trail(g.pass, g.start@, moments, answers, self.trail@)
        &&& is_gated(g.pass, risk, g.start, answers, self.trail@)
        &&& self.state == state_before(g.start, self.trail@, self.trail@.len() as int)
        &&& self.state@ == ledger_at(g.pass, g.start@, prices_of(moments), answers, moments.len() as int)
        &&& self.started == (moments.len() > 0)
        &&& heard == g.log + tick_hearing(g.pass, g.start.equity, g.id, g.inside(ticks), answers)
    }

    /// Plays one tick.
    fn play<S: Strategy, R: RiskCheck>(
        &mut self,
        tick: PlayTick,
        pass: Pass,
        unit: u8,
        start_ns: u64,
        end_ns: u64,
        instrument: &InstrumentId,
        strategy: &mut S,
        risk: Option<&R>,
        ground: Ghost<Ground>,
        ticks: Ghost<Seq<PlayTick>>,
        answers: Ghost<Seq<Answer>>,
    ) -> (r: (bool, Ghost<Seq<Answer>>))
        requires
            tick.precision <= unit,
            ground@.id == instrument@,
            ground@.unit == unit,
            ground@.pass == pass,
            ground@.start_ns == start_ns,
            ground@.end_ns == end_ns,
            old(self).behind(ground@, risk, ticks@, answers@, old(strategy).heard().events),
        ensures
            r.0 ==> final(self).behind(
                ground@,
                risk,
                ticks@.push(tick),
                r.1@,
                final(strategy).heard().events,
            ),
            !r.0 ==> forall|rest: Seq<PlayTick>|
                ground@.fails(
                    risk,
                    #[trigger] (ticks@ + (seq![tick] + rest)),
                    r.1@,
                    final(strategy).heard().events,
                ),
    {
        let ghost g = ground@;
        let ghost before = *self;
        let ghost log = strategy.heard().events;
        if tick.timestamp_ns < start_ns || tick.timestamp_ns >= end_ns {
            proof {
                lemma_play_skips(before, g, risk, ticks@, tick, answers@, log);
            }
            return (true, answers);
        }
        proof {
            lemma_play_opens(before, g, risk, ticks@, answers@, log);
        }
        match pass {
            Pass::Single => {
                self.context.price = Some(
                    ContextPrice { price_int: tick.price_int, precision: tick.precision },
                );
            },
            Pass::Sweep => {},
        }
        if !self.started {
            strategy.on_start();
            self.started = true;
        }
        let signal = strategy.on_trade(instrument, &tick, &self.context);
        let size: i64 = strategy.position_size();
        assert(self.context@ == tick_context(pass, g.start.equity, g.id, tick));
        let in_unit = scale(tick.price_int, unit - tick.precision);
        let (price, next, answer): (i64, Option<InstrumentState>, Ghost<Answer>) = match in_unit {
            Some(price) => {
                let (next, answer) = carry_out(pass, &self.state, price, signal, size, risk);
                (price, next, answer)
            },
            None => {
                let ghost answer = Answer { signal, size, blocked: false };
                proof {
                    lemma_price_out(pass, self.state@, moment_of(tick, unit).price, answer);
                }
                (0, None, Ghost(answer))
            },
        };
        let ghost more = answers@.push(answer@);
        let ghost heard = heard_behind(g, tick, answers@, answer@, log);
        assert(strategy.heard().events =~= heard);
        match next {
            Some(t) => {
                let p = TrailPoint {
                    timestamp_ns: tick.timestamp_ns,
                    price_int: price,
                    state: t,
                };
                self.trail.push(p);
                self.state = t;
                proof {
                    lemma_play_grows(before, *self, g, risk, ticks@, tick, answers@, answer@, p, log);
                }
                (true, Ghost(more))
            },
            None => {
                proof {
                    assert forall|rest: Seq<PlayTick>|
                        g.fails(risk, #[trigger] (ticks@ + (seq![tick] + rest)), more, heard) by {
                        lemma_play_fails(
                            before,
                            g,
                            risk,
                            ticks@,
                            tick,
                            answers@,
                            answer@,
                            log,
                            rest,
                        );
                    }
                }
                (false, Ghost(more))
            },
        }
    }
}

/// What the strategy was told behind a tick that it answers.
spec fn heard_behind(
    g: Ground,
    tick: PlayTick,
    answers: Seq<Answer>,
    a: Answer,
    heard: Seq<Heard>,
) -> Seq<Heard> {
    (if answers.len() == 0 {
        heard.push(Heard::Start)
    } else {
        heard
    }).push(
        Heard::Trade {
            id: g.id,
            tick,
            context: Some(tick_context(g.pass, g.start.equity, g.id, tick)),
            answer: a.signal,
            wants: a.size,
        },
    )
}

/// A price that does not fit is answered by nothing that fits.
proof fn lemma_price_out(pass: Pass, s: Ledger, price: int, a: Answer)
    requires
        !(i64::MIN <= price <= i64::MAX),
    ensures
        !answer_fits(pass, s, price, a),
        !entry_fits(pass, s, price),
{
    reveal(answer_fits);
}

/// What a run in progress knows of its strategy and its context.
proof fn lemma_play_opens<R: RiskCheck>(
    run: Run,
    g: Ground,
    risk: Option<&R>,
    ticks: Seq<PlayTick>,
    answers: Seq<Answer>,
    heard: Seq<Heard>,
)
    requires
        run.behind(g, risk, ticks, answers, heard),
    ensures
        run.started == (answers.len() > 0),
        run.context.initial_equity == g.start.equity,
        id_texts(run.context.instruments@) == seq![g.id],
        g.pass is Sweep ==> run.context.price is None,
{
    reveal(Run::behind);
}

/// A tick outside the window is passed over.
proof fn lemma_play_skips<R: RiskCheck>(
    run: Run,
    g: Ground,
    risk: Option<&R>,
    ticks: Seq<PlayTick>,
    tick: PlayTick,
    answers: Seq<Answer>,
    heard: Seq<Heard>,
)
    requires
        run.behind(g, risk, ticks, answers, heard),
        !(g.start_ns <= tick.timestamp_ns < g.end_ns),
    ensures
        run.behind(g, risk, ticks.push(tick), answers, heard),
{
    reveal(Run::behind);
    lemma_window_push(ticks, tick, g.unit, g.start_ns, g.end_ns);
}

/// A run goes on behind an answer that fits.
proof fn lemma_play_grows<R: RiskCheck>(
    run: Run,
    after: Run,
    g: Ground,
    risk: Option<&R>,
    ticks: Seq<PlayTick>,
    tick: PlayTick,
    answers: Seq<Answer>,
    a: Answer,
    p: TrailPoint,
    heard: Seq<Heard>,
)
    requires
        run.behind(g, risk, ticks, answers, heard),
        g.start_ns <= tick.timestamp_ns < g.end_ns,
        p.timestamp_ns == tick.timestamp_ns,
        p.price_int == moment_of(tick, g.unit).price,
        answer_fits(g.pass, run.state@, p.price_int as int, a),
        gate_said(g.pass, risk, run.state, p.price_int, a),
        p.state@ == applied(g.pass, run.state@, p.price_int as int, a),
        after.trail@ == run.trail@.push(p),
        after.state == p.state,
        after.started,
        after.context.initial_equity == run.context.initial_equity,
        after.context.instruments == run.context.instruments,
        g.pass is Sweep ==> after.context.price is None,
    ensures
        after.behind(
            g,
            risk,
            ticks.push(tick),
            answers.push(a),
            heard_behind(g, tick, answers, a, heard),
        ),
{
    reveal(Run::behind);
    lemma_window_push(ticks, tick, g.unit, g.start_ns, g.end_ns);
    let inside = g.inside(ticks);
    let moments = moments_of(inside, g.unit);
    let m = moment_of(tick, g.unit);
    lemma_trail_grows(g.pass, g.start@, moments, answers, run.trail@, m, a, p, run.state@);
    lemma_gated_grows(g.pass, risk, g.start, answers, run.trail@, a, p, run.state);
    assert(moments_of(inside.push(tick), g.unit) =~= moments.push(m));
    lemma_tick_told(
        g.pass,
        g.start.equity,
        g.id,
        inside,
        answers,
        tick,
        a,
        inside.push(tick),
    );
    assert(heard_behind(g, tick, answers, a, heard) =~= g.log + tick_hearing(
        g.pass,
        g.start.equity,
        g.id,
        inside.push(tick),
        answers.push(a),
    ));
}

/// A run stops at an answer that does not fit, whatever ticks are left.
proof fn lemma_play_fails<R: RiskCheck>(
    run: Run,
    g: Ground,
    risk: Option<&R>,
    ticks: Seq<PlayTick>,
    tick: PlayTick,
    answers: Seq<Answer>,
    a: Answer,
    heard: Seq<Heard>,
    rest: Seq<PlayTick>,
)
    requires
        run.behind(g, risk, ticks, answers, heard),
        g.start_ns <= tick.timestamp_ns < g.end_ns,
        !answer_fits(g.pass, run.state@, moment_of(tick, g.unit).price, a),
        entry_fits(g.pass, run.state@, moment_of(tick, g.unit).price) ==> gate_said(
            g.pass,
            risk,
            run.state,
            moment_of(tick, g.unit).price as i64,
            a,
        ),
    ensures
        g.fails(
            risk,
            ticks + (seq![tick] + rest),
            answers.push(a),
            heard_behind(g, tick, answers, a, heard),
        ),
{
    reveal(Run::behind);
    reveal(Ground::fails);
    let inside = g.inside(ticks);
    let moments = moments_of(inside, g.unit);
    let m = moment_of(tick, g.unit);
    let more = answers.push(a);
    let one = seq![tick];
    lemma_window_parts(ticks, one + rest, g.unit, g.start_ns, g.end_ns);
    lemma_window_parts(one, rest, g.unit, g.start_ns, g.end_ns);
    lemma_window_push(seq![], tick, g.unit, g.start_ns, g.end_ns);
    lemma_window_nothing(g.unit, g.start_ns, g.end_ns);
    assert(Seq::<PlayTick>::empty().push(tick) =~= one);
    let all = g.inside(ticks + (one + rest));
    assert(g.inside(one) =~= one);
    assert(all =~= inside.push(tick) + g.inside(rest));
    assert(inside.push(tick).is_prefix_of(all));
    let full = moments_of(all, g.unit);
    let tail = seq![m] + moments_of(g.inside(rest), g.unit);
    assert(full =~= moments + tail);
    lemma_stops(g.pass, g.start@, moments, answers, run.trail@, tail, a, run.state@);
    lemma_tick_told(g.pass, g.start.equity, g.id, inside, answers, tick, a, all);
    let told = tick_hearing(g.pass, g.start.equity, g.id, all, more);
    assert(heard_behind(g, tick, answers, a, heard) =~= g.log + told);
    assert(full.take(moments.len() as int) =~= moments);
    assert(more.drop_last() =~= answers);
    assert(full[moments.len() as int] == m);
    assert(gated_until(g.pass, g.start, risk, full, more, run.trail@));
    assert(is_tick_stop(g.pass, g.start, risk, g.id, all, g.unit, more, told));
}

impl Run {
    /// Plays the ticks of a file, whose first tick is given.
    fn play_file<S: Strategy, R: RiskCheck>(
        &mut self,
        buffer: &RingBuffer,
        first: TradeTick,
        precision: u8,
        pass: Pass,
        unit: u8,
        start_ns: u64,
        end_ns: u64,
        instrument: &InstrumentId,
        strategy: &mut S,
        risk: Option<&R>,
        ground: Ghost<Ground>,
        before: Ghost<Seq<PlayTick>>,
        answers: Ghost<Seq<Answer>>,
    ) -> (r: (bool, Ghost<Seq<Answer>>))
        requires
            buffer@.anchor_at(128) == Some(first),
            buffer@.ticks_fit(buffer@.origin(), u64::MAX),
            precision <= unit,
            ground@.id == instrument@,
            ground@.unit == unit,
            ground@.pass == pass,
            ground@.start_ns == start_ns,
            ground@.end_ns == end_ns,
            old(self).behind(ground@, risk, before@, answers@, old(strategy).heard().events),
        ensures
            ({
                let here = play_ticks(buffer@.ticks(), precision);
                let heard = final(strategy).heard().events;
                &&& r.0 ==> final(self).behind(ground@, risk, before@ + here, r.1@, heard)
                &&& !r.0 ==> forall|rest: Seq<PlayTick>|
                    ground@.fails(risk, #[trigger] ((before@ + here) + rest), r.1@, heard)
            }),
    {
        let ghost view = buffer@;
        let ghost here = play_ticks(view.ticks(), precision);
        let mut all: Ghost<Seq<Answer>> = answers;
        let mut it = buffer.iter_from(128, 0, first, 0);
        let ghost mut done: Seq<PlayTick> = seq![];
        assert(done + play_ticks(view.ticks_from(it@, u64::MAX), precision) =~= here);
        assert(before@ + done =~= before@);
        loop
            invariant_except_break
                it.source() == view,
                it.end() == u64::MAX,
                view.ticks_fit(it@, u64::MAX),
                done + play_ticks(view.ticks_from(it@, u64::MAX), precision) == here,
                self.behind(ground@, risk, before@ + done, all@, strategy.heard().events),
            invariant
                view == buffer@,
                here == play_ticks(view.ticks(), precision),
                precision <= unit,
                ground@.id == instrument@,
                ground@.unit == unit,
                ground@.pass == pass,
                ground@.start_ns == start_ns,
                ground@.end_ns == end_ns,
            ensures
                self.behind(ground@, risk, before@ + here, all@, strategy.heard().events),
            decreases view.header.num_ticks - it@.index,
        {
            let ghost pos = it@;
            match it.next() {
                Some(t) => {
                    let tick = PlayTick {
                        timestamp_ns: t.timestamp_ns,
                        price_int: t.price_int,
                        size_int: t.size_int,
                        precision,
                    };
                    let ghost rest = play_ticks(view.ticks_from(it@, u64::MAX), precision);
                    proof {
                        assert(view.ticks_from(pos, u64::MAX) == seq![t] + view.ticks_from(
                            it@,
                            u64::MAX,
                        ));
                        lemma_one_tick(t, view.ticks_from(it@, u64::MAX), precision, done);
                    }
                    let (ok, more) = self.play(
                        tick,
                        pass,
                        unit,
                        start_ns,
                        end_ns,
                        instrument,
                        strategy,
                        risk,
                        ground,
                        Ghost(before@ + done),
                        all,
                    );
                    if !ok {
                        proof {
                            let heard = strategy.heard().events;
                            assert forall|tail: Seq<PlayTick>|
                                ground@.fails(
                                    risk,
                                    #[trigger] ((before@ + here) + tail),
                                    more@,
                                    heard,
                                ) by {
                                assert((before@ + here) + tail =~= (before@ + done) + (seq![tick]
                                    + (rest + tail)));
                            }
                        }
                        return (false, more);
                    }
                    proof {
                        assert((before@ + done).push(tick) =~= before@ + done.push(tick));
                        done = done.push(tick);
                    }
                    all = more;
                },
                None => {
                    proof {
                        assert(view.ticks_from(pos, u64::MAX) =~= seq![]);
                        assert(play_ticks(seq![], precision) =~= seq![]);
                        assert(done + seq![] =~= done);
                    }
                    break;
                },
            }
        }
        (true, all)
    }
}

impl Run {
    /// Plays the ticks of files.
    fn play_files<S: Strategy, R: RiskCheck>(
        &mut self,
        files: &[SetEntry],
        reading: Option<u8>,
        pass: Pass,
        unit: u8,
        start_ns: u64,
        end_ns: u64,
        instrument: &InstrumentId,
        strategy: &mut S,
        risk: Option<&R>,
        ground: Ghost<Ground>,
    ) -> (r: (bool, Ghost<Seq<Answer>>))
        requires
            files_play(files@),
            unit == run_unit(reading, files@),
            ground@.id == instrument@,
            ground@.unit == unit,
            ground@.pass == pass,
            ground@.start_ns == start_ns,
            ground@.end_ns == end_ns,
            old(self).behind(ground@, risk, seq![], seq![], old(strategy).heard().events),
        ensures
            ({
                let all = set_ticks(reading, files@, files@.len() as int);
                let heard = final(strategy).heard().events;
                if r.0 {
                    final(self).behind(ground@, risk, all, r.1@, heard)
                } else {
                    ground@.fails(risk, all, r.1@, heard)
                }
            }),
    {
        let ghost all = set_ticks(reading, files@, files@.len() as int);
        let mut answers: Ghost<Seq<Answer>> = Ghost(Seq::empty());
        let mut i: usize = 0;
        while i < files.len()
            invariant
                files_play(files@),
                all == set_ticks(reading, files@, files@.len() as int),
                unit == run_unit(reading, files@),
                i <= files@.len(),
                ground@.id == instrument@,
                ground@.unit == unit,
                ground@.pass == pass,
                ground@.start_ns == start_ns,
                ground@.end_ns == end_ns,
                self.behind(
                    ground@,
                    risk,
                    set_ticks(reading, files@, i as int),
                    answers@,
                    strategy.heard().events,
                ),
            decreases files@.len() - i,
        {
            let buffer: &RingBuffer = &files[i].1;
            let ghost before = set_ticks(reading, files@, i as int);
            let ghost here = file_ticks(reading, files@[i as int]);
            proof {
                lemma_unit(files@, i as int, files@.len() as int);
            }
            let precision: u8 = match reading {
                Some(p) => p,
                None => buffer.header().decimal_precision,
            };
            match buffer.decode_anchor_at(128) {
                Ok(first) => {
                    let (ok, more) = self.play_file(
                        buffer,
                        first,
                        precision,
                        pass,
                        unit,
                        start_ns,
                        end_ns,
                        instrument,
                        strategy,
                        risk,
                        ground,
                        Ghost(before),
                        answers,
                    );
                    if !ok {
                        proof {
                            lemma_set_ticks_split(reading, files@, i + 1, files@.len() as int);
                            let tail = choose|tail: Seq<PlayTick>|
                                all == #[trigger] (set_ticks(reading, files@, i + 1) + tail);
                            assert(set_ticks(reading, files@, i + 1) == before + here);
                            assert(ground@.fails(
                                risk,
                                (before + here) + tail,
                                more@,
                                strategy.heard().events,
                            ));
                        }
                        return (false, more);
                    }
                    answers = more;
                },
                Err(_) => {
                    assert(before + here =~= before);
                },
            }
            i = i + 1;
        }
        (true, answers)
    }
}

/// The ticks of a set that are played: those of the files from `start_ns` to before `end_ns`.
pub open spec fn played_ticks(
    pass: Pass,
    files: Seq<SetEntry>,
    start_ns: u64,
    end_ns: u64,
) -> Seq<PlayTick> {
    window_ticks(
        set_ticks(reading_of(pass, files), files, files.len() as int),
        start_ns,
        end_ns,
    )
}

/// A run over the ticks of files: to its end, or up to an account that does not fit. `told` is what
/// the strategy was told.
pub open spec fn is_set_play<R: RiskCheck>(
    pass: Pass,
    start: InstrumentState,
    risk: Option<&R>,
    id: (Seq<char>, Seq<char>),
    files: Seq<SetEntry>,
    start_ns: u64,
    end_ns: u64,
    told: Seq<Heard>,
    r: Result<PlayResult, String>,
) -> bool {
    let unit = run_unit(reading_of(pass, files), files);
    let ticks = played_ticks(pass, files, start_ns, end_ns);
    match r {
        Ok(p) => {
            &&& p.started == (ticks.len() > 0)
            &&& p.unit == unit
            &&& exists|answers: Seq<Answer>| #[trigger]
                is_tick_play(pass, start, risk, id, ticks, unit, answers, told, p.trail@)
        },
        Err(e) => e@ == overflow_text() && exists|answers: Seq<Answer>| #[trigger]
            is_tick_stop(pass, start, risk, id, ticks, unit, answers, told),
    }
}

/// Plays the ticks of files to a strategy in a single run, one file behind the other: those from
/// `start_ns` to before `end_ns`. The strategy is started before the first of them, and stopped if
/// it was started. Whatever it answers, the trail is what its answers make of these ticks; where an
/// account does not fit, the play stops.
pub fn run_backtest_loop<S: Strategy, R: RiskCheck>(
    set: &RingBufferSet,
    instrument: &InstrumentId,
    start_ns: u64,
    end_ns: u64,
    start: InstrumentState,
    strategy: &mut S,
    risk: Option<&R>,
) -> (r: Result<PlayResult, String>)
    requires
        files_play(set@.files),
    ensures
        exists|told: Seq<Heard>| #[trigger]
            is_set_play(
                Pass::Single,
                start,
                risk,
                instrument@,
                set@.files,
                start_ns,
                end_ns,
                told,
                r,
            ) && final(strategy).heard().events == old(strategy).heard().events + told,
{
    play_set(Pass::Single, set, instrument, start_ns, end_ns, start, strategy, risk)
}

/// Plays the ticks of files to a strategy in a pass of a sweep: as in a single run, but for how
/// prices are read, when the account is valued and what the context has.
pub fn run_sweep_loop<S: Strategy, R: RiskCheck>(
    set: &RingBufferSet,
    instrument: &InstrumentId,
    start_ns: u64,
    end_ns: u64,
    start: InstrumentState,
    strategy: &mut S,
    risk: Option<&R>,
) -> (r: Result<PlayResult, String>)
    requires
        files_play(set@.files),
    ensures
        exists|told: Seq<Heard>| #[trigger]
            is_set_play(
                Pass::Sweep,
                start,
                risk,
                instrument@,
                set@.files,
                start_ns,
                end_ns,
                told,
                r,
            ) && final(strategy).heard().events == old(strategy).heard().events + told,
{
    play_set(Pass::Sweep, set, instrument, start_ns, end_ns, start, strategy, risk)
}

fn play_set<S: Strategy, R: RiskCheck>(
    pass: Pass,
    set: &RingBufferSet,
    instrument: &InstrumentId,
    start_ns: u64,
    end_ns: u64,
    start: InstrumentState,
    strategy: &mut S,
    risk: Option<&R>,
) -> (r: Result<PlayResult, String>)
    requires
        files_play(set@.files),
    ensures
        exists|told: Seq<Heard>| #[trigger]
            is_set_play(pass, start, risk, instrument@, set@.files, start_ns, end_ns, told, r)
                && final(strategy).heard().events == old(strategy).heard().events + told,
{
    let files = set.buffers();
    let reading: Option<u8> = match pass {
        Pass::Single => None,
        Pass::Sweep => if files.len() > 0 {
            Some(files[0].1.header().decimal_precision)
        } else {
            Some(9)
        },
    };
    let ghost all = set_ticks(reading, files@, files@.len() as int);
    let unit: u8 = match reading {
        Some(p) => p,
        None => unit_of(files),
    };
    assert(reading == reading_of(pass, set@.files));
    assert(unit == run_unit(reading, set@.files));
    let mut run = Run {
        context: Context {
            initial_equity: start.equity,
            instruments: vec![instrument.clone()],
            price: None,
        },
        state: start,
        trail: Vec::new(),
        started: false,
    };
    let ghost g = Ground {
        pass,
        start,
        id: instrument@,
        unit,
        start_ns,
        end_ns,
        log: strategy.heard().events,
    };
    proof {
        reveal(Run::behind);
        lemma_window_nothing(unit, start_ns, end_ns);
        assert(id_texts(run.context.instruments@) =~= seq![instrument@]);
        assert(g.log + tick_hearing(pass, start.equity, g.id, g.inside(seq![]), seq![]) =~= g.log);
    }
    let (ok, answers) = run.play_files(
        files,
        reading,
        pass,
        unit,
        start_ns,
        end_ns,
        instrument,
        strategy,
        risk,
        Ghost(g),
    );
    let ghost ticks = played_ticks(pass, set@.files, start_ns, end_ns);
    if !ok {
        let r: Result<PlayResult, String> = Err(overflow_message());
        proof {
            reveal(Ground::fails);
            let heard = strategy.heard().events;
            let told = choose|told: Seq<Heard>| #[trigger]
                is_tick_stop(pass, start, risk, instrument@, g.inside(all), unit, answers@, told)
                    && heard == g.log + told;
            assert(is_tick_stop(pass, start, risk, instrument@, ticks, unit, answers@, told));
            assert(is_set_play(
                pass,
                start,
                risk,
                instrument@,
                set@.files,
                start_ns,
                end_ns,
                told,
                r,
            ));
        }
        return r;
    }
    let ghost heard = tick_hearing(pass, start.equity, instrument@, ticks, answers@);
    proof {
        reveal(Run::behind);
    }
    if run.started {
        strategy.on_stop();
    }
    let Run { context: _, state: _, trail, started } = run;
    let played = PlayResult { trail, started, unit };
    let ghost points = played.trail@;
    let r: Result<PlayResult, String> = Ok(played);
    proof {
        assert(r->Ok_0.trail@ == points);
        assert(ticks == g.inside(all));
        assert(moments_of(ticks, unit).len() == ticks.len());
        let told = heard + (if ticks.len() > 0 {
            seq![Heard::Stop]
        } else {
            seq![]
        });
        assert(strategy.heard().events =~= g.log + told);
        assert(is_tick_play(
            pass,
            start,
            risk,
            instrument@,
            ticks,
            unit,
            answers@,
            told,
            points,
        ));
        assert(is_set_play(
            pass,
            start,
            risk,
            instrument@,
            set@.files,
            start_ns,
            end_ns,
            told,
            r,
        ));
    }
    r
}

proof fn lemma_window_nothing(unit: u8, start_ns: u64, end_ns: u64)
    ensures
        window_ticks(seq![], start_ns, end_ns) == Seq::<PlayTick>::empty(),
        window_moments(seq![], unit, start_ns, end_ns) == Seq::<Moment>::empty(),
{
    reveal(Seq::filter);
    assert(window_ticks(seq![], start_ns, end_ns) =~= seq![]);
    assert(window_moments(seq![], unit, start_ns, end_ns) =~= seq![]);
}

proof fn lemma_one_tick(t: TradeTick, rest: Seq<TradeTick>, precision: u8, done: Seq<PlayTick>)
    ensures
        done + play_ticks(seq![t] + rest, precision) == done.push(play_tick(t, precision))
            + play_ticks(rest, precision),
{
    assert(done + play_ticks(seq![t] + rest, precision) =~= done.push(play_tick(t, precision))
        + play_ticks(rest, precision));
}

proof fn lemma_set_ticks_split(reading: Option<u8>, files: Seq<SetEntry>, a: int, b: int)
    requires
        0 <= a <= b,
    ensures
        exists|tail: Seq<PlayTick>|
            set_ticks(reading, files, b) == #[trigger] (set_ticks(reading, files, a) + tail),
    decreases b - a,
{
    if a == b {
        let tail = Seq::<PlayTick>::empty();
        assert(set_ticks(reading, files, b) =~= set_ticks(reading, files, a) + tail);
    } else {
        lemma_set_ticks_split(reading, files, a, b - 1);
        let tail = choose|tail: Seq<PlayTick>|
            set_ticks(reading, files, b - 1) == #[trigger] (set_ticks(reading, files, a) + tail);
        assert(set_ticks(reading, files, b) =~= set_ticks(reading, files, a) + (tail + file_ticks(
            reading,
            files[b - 1],
        )));
    }
}

/// What is played lies within the window, and every tick of the files that lies within it is played.
pub proof fn only_the_window_is_played(
    pass: Pass,
    files: Seq<SetEntry>,
    start_ns: u64,
    end_ns: u64,
    t: PlayTick,
)
    ensures
        played_ticks(pass, files, start_ns, end_ns).contains(t) <==> set_ticks(
            reading_of(pass, files),
            files,
            files.len() as int,
        ).contains(t) && start_ns <= t.timestamp_ns < end_ns,
{
    let all = set_ticks(reading_of(pass, files), files, files.len() as int);
    let pred = |t: PlayTick| start_ns <= t.timestamp_ns < end_ns;
    let played = played_ticks(pass, files, start_ns, end_ns);
    if played.contains(t) {
        let i = choose|i: int| 0 <= i < played.len() && played[i] == t;
        all.lemma_filter_pred(pred, i);
        all.lemma_filter_contains_rev(pred, t);
    }
    if all.contains(t) && pred(t) {
        all.lemma_filter_contains(pred, choose|i: int| 0 <= i < all.len() && all[i] == t);
    }
}

/// An order that is blocked changes nothing in the account; a close is carried out whatever the limits
/// say, and so is an order that is not blocked. Without a signal nothing is done.
pub proof fn blocked_order_is_not_carried_out(s: Ledger, price: int, size: i64, blocked: bool)
    ensures
        carried(s, price, Answer { signal: Some(Signal::Buy), size, blocked: true }) == s,
        carried(s, price, Answer { signal: Some(Signal::Sell), size, blocked: true }) == s,
        carried(s, price, Answer { signal: Some(Signal::Close), size, blocked }) == s.routed(
            Signal::Close,
            size as int,
            price,
        ),
        carried(s, price, Answer { signal: Some(Signal::Buy), size, blocked: false }) == s.routed(
            Signal::Buy,
            size as int,
            price,
        ),
        carried(s, price, Answer { signal: Some(Signal::Sell), size, blocked: false }) == s.routed(
            Signal::Sell,
            size as int,
            price,
        ),
        carried(s, price, Answer { signal: None, size, blocked }) == s,
{
}

/// Behind a tick the account has traded what the answer says and is valued at the price of the tick:
/// the one of a single run is the same as that of a sweep.
pub proof fn account_is_valued_at_the_tick(s: Ledger, price: int, a: Answer)
    ensures
        applied(Pass::Single, s, price, a) == applied(Pass::Sweep, s, price, a),
        applied(Pass::Sweep, s, price, a) == carried(s, price, a).valued(price),
        a.signal is None ==> applied(Pass::Sweep, s, price, a) == s.valued(price),
        a.signal is Some && !a.blocked ==> applied(Pass::Sweep, s, price, a) == s.routed(
            a.signal->0,
            a.size as int,
            price,
        ).valued(price),
{
    reveal(applied);
}

/// What limits are shown of an order: the size that is bought, and 0 for a sell; the price, what is
/// held, what the portfolio is worth and its largest drawdown. A close is not shown.
pub proof fn limits_see_the_order(size: i64, price: i64, s: InstrumentState)
    ensures
        checked_order(Signal::Close, size, price, s) is None,
        checked_order(Signal::Buy, size, price, s) matches Some(o) && o.order_size == size && o.price
            == price && o.position == s.position && o.equity == s.worth && o.max_drawdown
            == s.drawdown,
        checked_order(Signal::Sell, size, price, s) matches Some(o) && o.order_size == 0 && o.price
            == price && o.position == s.position && o.equity == s.worth && o.max_drawdown
            == s.drawdown,
{
}

/// In a single run limits see what the portfolio is worth at the price of the tick; in a sweep, what it
/// was worth behind the tick before. Nothing else of the account differs.
pub proof fn limits_see_the_worth(s: InstrumentState, price: i64)
    requires
        signal::mark_fits(s@, price as int),
    ensures
        ({
            let single = state_entering(Pass::Single, s, price);
            &&& single.worth == s.equity + 2000 * (s.position * (price - s.entry_price))
            &&& single == (InstrumentState { worth: single.worth, ..s })
            &&& state_entering(Pass::Sweep, s, price) == s
        }),
{
    signal::profit_follows_the_price(s.position as int, s.entry_price as int, price as int);
}

/// A strategy is started before the first tick, is told each tick once and in turn, with its context,
/// and is stopped behind the last one; without ticks it is told nothing.
pub proof fn strategy_is_told_every_tick<R: RiskCheck>(
    pass: Pass,
    start: InstrumentState,
    risk: Option<&R>,
    id: (Seq<char>, Seq<char>),
    ticks: Seq<PlayTick>,
    unit: u8,
    answers: Seq<Answer>,
    told: Seq<Heard>,
    trail: Seq<TrailPoint>,
    i: int,
)
    requires
        is_tick_play(pass, start, risk, id, ticks, unit, answers, told, trail),
    ensures
        ticks.len() == 0 ==> told.len() == 0,
        ticks.len() > 0 ==> told.len() == ticks.len() + 2 && told[0] is Start && told[told.len() - 1]
            is Stop,
        0 <= i < ticks.len() ==> told[i + 1] == (Heard::Trade {
            id,
            tick: ticks[i],
            context: Some(
                ContextView {
                    initial_equity: start.equity,
                    instruments: seq![id],
                    price: if pass is Single {
                        Some(
                            ContextPrice {
                                price_int: ticks[i].price_int,
                                precision: ticks[i].precision,
                            },
                        )
                    } else {
                        None
                    },
                },
            ),
            answer: answers[i].signal,
            wants: answers[i].size,
        }),
        trail.len() == ticks.len(),
        0 <= i < ticks.len() ==> trail[i].timestamp_ns == ticks[i].timestamp_ns,
{
}

/// Prices of files with different precision are brought to one unit: a price with more digits that is
/// worth the same comes to the same number, and a higher one to a higher number.
pub proof fn precision_does_not_change_the_price(t: PlayTick, u: PlayTick, unit: u8)
    requires
        t.precision <= u.precision <= unit,
        u.price_int == decimals::scaled(t.price_int as int, u.precision - t.precision),
    ensures
        moment_of(t, unit).price == moment_of(u, unit).price,
        unit == t.precision ==> moment_of(t, unit).price == t.price_int,
        unit == t.precision + 1 ==> moment_of(t, unit).price == 10 * t.price_int,
        moment_of(t, unit).timestamp_ns == t.timestamp_ns,
{
    decimals::zeros_are_tens(
        t.price_int as int,
        u.precision - t.precision,
        unit - u.precision,
    );
    decimals::zeros_are_tens(t.price_int as int, 0, 0);
}

/// A single run counts in the largest precision of its files, a sweep in that of the first one; in a
/// single run each file has its own precision, in a sweep all have that of the first.
pub proof fn run_counts_in_one_unit(files: Seq<SetEntry>, i: int)
    requires
        0 <= i < files.len(),
    ensures
        files[i].1@.header.decimal_precision <= run_unit(reading_of(Pass::Single, files), files),
        exists|j: int|
            0 <= j < files.len() && (#[trigger] files[j]).1@.header.decimal_precision == run_unit(
                reading_of(Pass::Single, files),
                files,
            ),
        run_unit(reading_of(Pass::Sweep, files), files) == files[0].1@.header.decimal_precision,
        precision_of(reading_of(Pass::Sweep, files), files[i])
            == files[0].1@.header.decimal_precision,
        precision_of(reading_of(Pass::Single, files), files[i])
            == files[i].1@.header.decimal_precision,
        run_unit(reading_of(Pass::Sweep, seq![]), seq![]) == 9,
{
    lemma_unit(files, i, files.len() as int);
    lemma_unit_is_one(files, files.len() as int);
}

proof fn lemma_unit_is_one(files: Seq<SetEntry>, n: int)
    requires
        0 < n <= files.len(),
    ensures
        exists|j: int|
            0 <= j < n && (#[trigger] files[j]).1@.header.decimal_precision == common_unit(files, n),
    decreases n,
{
    if n == 1 {
        assert(common_unit(files, 0) == 0);
        assert(files[0].1@.header.decimal_precision == common_unit(files, 1));
    } else {
        lemma_unit_is_one(files, n - 1);
        assert(files[n - 1].1@.header.decimal_precision <= common_unit(files, n));
        if common_unit(files, n) == common_unit(files, n - 1) {
            let j = choose|j: int|
                0 <= j < n - 1 && (#[trigger] files[j]).1@.header.decimal_precision == common_unit(
                    files,
                    n - 1,
                );
            assert(files[j].1@.header.decimal_precision == common_unit(files, n));
        } else {
            assert(files[n - 1].1@.header.decimal_precision == common_unit(files, n));
        }
    }
}

/// A tick of a file is told with its time, price and size, and the precision with which it is read.
pub proof fn ticks_are_told_as_they_are(ticks: Seq<TradeTick>, precision: u8, i: int)
    requires
        0 <= i < ticks.len(),
    ensures
        play_ticks(ticks, precision).len() == ticks.len(),
        play_ticks(ticks, precision)[i].timestamp_ns == ticks[i].timestamp_ns,
        play_ticks(ticks, precision)[i].price_int == ticks[i].price_int,
        play_ticks(ticks, precision)[i].size_int == ticks[i].size_int,
        play_ticks(ticks, precision)[i].precision == precision,
{
}

/// Each point of a trail has the account of the point before with the answer carried out at the price
/// of the point, and valued at it.
pub proof fn account_follows_the_answers(
    pass: Pass,
    s: Ledger,
    moments: Seq<Moment>,
    answers: Seq<Answer>,
    trail: Seq<TrailPoint>,
    i: int,
)
    requires
        is_trail(pass, s, moments, answers, trail),
        0 <= i < trail.len(),
    ensures
        ({
            let before = if i == 0 {
                s
            } else {
                trail[i - 1].state@
            };
            let price = trail[i].price_int as int;
            &&& trail[i].state@ == carried(before, price, answers[i]).valued(price)
            &&& price == moments[i].price
            &&& trail[i].timestamp_ns == moments[i].timestamp_ns
        }),
{
    let prices = prices_of(moments);
    let before = ledger_at(pass, s, prices, answers, i);
    account_is_valued_at_the_tick(before, prices[i], answers[i]);
    assert(trail[i].state@ == ledger_at(pass, s, prices, answers, i + 1));
    if i > 0 {
        assert(trail[i - 1].state@ == before);
    }
}

/// Bars are played at the price at which they closed, in their order; a bar that could not be read is
/// left out.
pub proof fn bars_are_played_at_their_close(bars: Seq<Option<Bar>>, n: int, i: int)
    requires
        0 <= n <= bars.len(),
    ensures
        bar_moments(bars, n).len() == readable_bars(bars, n).len(),
        0 <= i < readable_bars(bars, n).len() ==> bar_moments(bars, n)[i].price == readable_bars(
            bars,
            n,
        )[i].close && bar_moments(bars, n)[i].timestamp_ns == readable_bars(bars, n)[i].ts_event,
        n > 0 && bars[n - 1] is None ==> readable_bars(bars, n) == readable_bars(bars, n - 1),
        n > 0 && bars[n - 1] is Some ==> readable_bars(bars, n) == readable_bars(bars, n - 1).push(
            bars[n - 1]->0,
        ),
        readable_bars(bars, 0).len() == 0,
    decreases n,
{
    if n > 0 {
        bars_are_played_at_their_close(bars, n - 1, i);
    }
}

/// A strategy is started before the bars, is told each bar that could be read, once and in turn, with
/// the price at which it closed, and is stopped behind the last one.
pub proof fn strategy_is_told_every_bar(
    start: InstrumentState,
    bars: Seq<Option<Bar>>,
    id: (Seq<char>, Seq<char>),
    answers: Seq<Answer>,
    told: Seq<Heard>,
    trail: Seq<TrailPoint>,
    i: int,
)
    requires
        is_bar_play(start, bars, id, answers, told, trail),
    ensures
        ({
            let read = readable_bars(bars, bars.len() as int);
            &&& told.len() == read.len() + 2
            &&& told[0] is Start
            &&& told[told.len() - 1] is Stop
            &&& trail.len() == read.len()
            &&& 0 <= i < read.len() ==> told[i + 1] == (Heard::Bar {
                id,
                bar: read[i],
                context: Some(
                    ContextView {
                        initial_equity: start.equity,
                        instruments: seq![id],
                        price: Some(ContextPrice { price_int: read[i].close, precision: 9 }),
                    },
                ),
                answer: answers[i].signal,
                wants: answers[i].size,
            })
            &&& 0 <= i < read.len() ==> !answers[i].blocked
        }),
{
    bars_are_played_at_their_close(bars, bars.len() as int, i);
    if 0 <= i < trail.len() {
        assert(gate_said(
            Pass::Single,
            None::<&NoRisk>,
            state_before(start, trail, i),
            trail[i].price_int,
            answers[i],
        ));
    }
}

/// Without limits no order is blocked; with them no close is, and nothing where there is no signal.
pub proof fn close_is_never_blocked<R: RiskCheck>(
    pass: Pass,
    risk: Option<&R>,
    s: InstrumentState,
    price: i64,
    a: Answer,
)
    requires
        gate_said(pass, risk, s, price, a),
    ensures
        risk is None ==> !a.blocked,
        a.signal == Some(Signal::Close) ==> !a.blocked,
        a.signal is None ==> !a.blocked,
{
}

} // verus!
