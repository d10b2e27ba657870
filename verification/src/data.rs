//! The data engine: who wants which market data, and who gets it.

use crate::actor::clock::Clock;
use crate::actor::component::Logger;
use crate::actor::component::TraderId;
use crate::actor::fsm;
use crate::actor::fsm::ComponentState;
use crate::actor::fsm::ComponentTrigger;
use crate::actor::fsm::FiniteStateMachine;
use crate::actor::handler::Handler;
use crate::actor::handler::Turns;
use crate::actor::msgbus;
use crate::actor::msgbus::MessageBus;
use crate::actor::msgbus::Subscription;
use crate::buffer::bar_builder::Bar;
use crate::buffer::bar_spec::AggregationSource;
use crate::buffer::bar_spec::BarType;
use crate::buffer::bar_spec::BarTypeText;
use crate::buffer::tick_buffer::TradeFlowStats;
use crate::buffer::tick_buffer::Vpin;
use crate::instrument::InstrumentId;
use crate::name_map;
use crate::name_map::NameMap;
use crate::text;
use crate::text::same_text;
use vstd::prelude::*;

verus! {

/// The side that a trade came from.
#[derive(Debug, Clone, Copy, PartialEq, Eq, Structural)]
pub enum TradeSide {
    Buy,
    Sell,
}

/// The number that an exchange gave a trade.
#[derive(Debug)]
pub struct TradeId {
    pub text: String,
}

/// A trade of an instrument. Price and size are in nanounits.
#[derive(Debug)]
pub struct TradeTick {
    pub ts_event: u64,
    pub ts_init: u64,
    pub price: i64,
    pub size: i64,
    pub side: TradeSide,
    pub trade_id: Option<TradeId>,
    pub instrument_id: InstrumentId,
}

/// Best prices. Prices and sizes are in nanounits.
#[derive(Debug)]
pub struct QuoteTick {
    pub ts_event: u64,
    pub ts_init: u64,
    pub bid_price: i64,
    pub ask_price: i64,
    pub bid_size: i64,
    pub ask_size: i64,
    pub instrument_id: InstrumentId,
}

/// An order book at a time, as pairs of price and size in nanounits.
#[derive(Debug)]
pub struct OrderBookSnapshot {
    pub instrument_id: InstrumentId,
    pub bids: Vec<(i64, i64)>,
    pub asks: Vec<(i64, i64)>,
    pub ts_event: u64,
}

/// What the engine hands out.
#[derive(Debug)]
pub enum MarketData {
    Trade(TradeFlowStats),
    Quote(QuoteTick),
    OrderBook(OrderBookSnapshot),
    Bar(Bar),
}

/// A trade, in ten-thousandths of price and size.
#[derive(Debug, Clone, Copy, PartialEq, Eq, Structural)]
pub struct TradeData {
    pub price_int: i64,
    pub size_int: i64,
    /// 0 for a buy, 1 for a sell.
    pub aggressor_side: u8,
    pub ts_event: u64,
}

/// A command to hand out trades.
#[derive(Debug)]
pub struct ProcessTrades {
    pub instrument_id: InstrumentId,
    pub trades: Vec<TradeData>,
}

/// A command to hand out a quote.
#[derive(Debug)]
pub struct ProcessQuotes {
    pub instrument_id: InstrumentId,
    pub quote: QuoteTick,
}

/// A command to hand out a bar.
#[derive(Debug)]
pub struct ProcessBars {
    pub bar_type: BarType,
    pub bar: Bar,
}

/// A command to hand out an order book.
#[derive(Debug)]
pub struct ProcessOrderBooks {
    pub instrument_id: InstrumentId,
    pub book: OrderBookSnapshot,
}

/// A command of the engine's endpoints.
#[derive(Debug)]
pub enum ProcessCommand {
    Trades(ProcessTrades),
    Quotes(ProcessQuotes),
    Bars(ProcessBars),
    OrderBooks(ProcessOrderBooks),
}

/// A wish for the trades of an instrument.
#[derive(Debug)]
pub struct SubscribeTrades<H> {
    pub trader_id: TraderId,
    pub strategy_id: String,
    pub instrument_id: InstrumentId,
    pub endpoint: String,
    pub callback: Option<H>,
}

/// No more trades for an endpoint.
#[derive(Debug)]
pub struct UnsubscribeTrades {
    pub endpoint: String,
}

/// A wish for the bars of a type.
#[derive(Debug)]
pub struct SubscribeBars {
    pub trader_id: TraderId,
    pub strategy_id: String,
    pub bar_type: BarType,
    pub endpoint: String,
}

/// No more bars for an endpoint.
#[derive(Debug)]
pub struct UnsubscribeBars {
    pub endpoint: String,
}

/// A wish for the quotes of an instrument.
#[derive(Debug)]
pub struct SubscribeQuotes<H> {
    pub trader_id: TraderId,
    pub strategy_id: String,
    pub instrument_id: InstrumentId,
    pub endpoint: String,
    pub callback: Option<H>,
}

/// No more quotes for an endpoint.
#[derive(Debug)]
pub struct UnsubscribeQuotes {
    pub endpoint: String,
}

/// A wish for the order books of an instrument.
#[derive(Debug)]
pub struct SubscribeOrderBooks<H> {
    pub trader_id: TraderId,
    pub strategy_id: String,
    pub instrument_id: InstrumentId,
    pub endpoint: String,
    pub callback: Option<H>,
}

/// No more order books for an endpoint.
#[derive(Debug)]
pub struct UnsubscribeOrderBooks {
    pub endpoint: String,
}

/// What an endpoint wants.
#[derive(Debug)]
pub enum DataSubscription {
    Trades { instrument_id: InstrumentId },
    Bars { bar_type: BarType },
    Quotes { instrument_id: InstrumentId },
    OrderBooks { instrument_id: InstrumentId },
}

/// What an endpoint wants, as values.
pub enum Interest {
    Trades((Seq<char>, Seq<char>)),
    Bars(BarTypeText, AggregationSource),
    Quotes((Seq<char>, Seq<char>)),
    OrderBooks((Seq<char>, Seq<char>)),
}

impl View for DataSubscription {
    type V = Interest;

    open spec fn view(&self) -> Interest {
        match *self {
            DataSubscription::Trades { instrument_id } => Interest::Trades(instrument_id@),
            DataSubscription::Bars { bar_type } => Interest::Bars(
                bar_type.said(),
                bar_type.aggregation_source,
            ),
            DataSubscription::Quotes { instrument_id } => Interest::Quotes(instrument_id@),
            DataSubscription::OrderBooks { instrument_id } => Interest::OrderBooks(
                instrument_id@,
            ),
        }
    }
}

impl DataSubscription {
    /// Both want the same.
    pub fn same(&self, other: &DataSubscription) -> (r: bool)
        ensures
            r == (self@ == other@),
    {
        match (self, other) {
            (
                DataSubscription::Trades { instrument_id: a },
                DataSubscription::Trades { instrument_id: b },
            ) => a.same(b),
            (
                DataSubscription::Quotes { instrument_id: a },
                DataSubscription::Quotes { instrument_id: b },
            ) => a.same(b),
            (
                DataSubscription::OrderBooks { instrument_id: a },
                DataSubscription::OrderBooks { instrument_id: b },
            ) => a.same(b),
            (DataSubscription::Bars { bar_type: a }, DataSubscription::Bars { bar_type: b }) => {
                same_text(a.symbol.as_str(), b.symbol.as_str()) && same_text(
                    a.venue.as_str(),
                    b.venue.as_str(),
                ) && a.spec == b.spec && a.aggregation_source == b.aggregation_source
            },
            _ => false,
        }
    }
}

/// The transitions of the engine: those of a component, but a stopped engine is not resumed.
pub open spec fn engine_table() -> Seq<(ComponentState, ComponentTrigger, ComponentState)> {
    seq![
        (ComponentState::PreInitialized, ComponentTrigger::Initialize, ComponentState::Initialized),
        (ComponentState::Initialized, ComponentTrigger::Start, ComponentState::Starting),
        (ComponentState::Starting, ComponentTrigger::StartCompleted, ComponentState::Running),
        (ComponentState::Running, ComponentTrigger::Stop, ComponentState::Stopping),
        (ComponentState::Stopping, ComponentTrigger::StopCompleted, ComponentState::Stopped),
        (ComponentState::Ready, ComponentTrigger::Reset, ComponentState::Resetting),
        (ComponentState::Resetting, ComponentTrigger::ResetCompleted, ComponentState::Ready),
        (ComponentState::Ready, ComponentTrigger::Dispose, ComponentState::Disposing),
        (ComponentState::Disposing, ComponentTrigger::DisposeCompleted, ComponentState::Disposed),
        (ComponentState::Running, ComponentTrigger::Fault, ComponentState::Faulting),
        (ComponentState::Faulting, ComponentTrigger::FaultCompleted, ComponentState::Faulted),
        (ComponentState::Running, ComponentTrigger::Degrade, ComponentState::Degrading),
        (ComponentState::Degrading, ComponentTrigger::DegradeCompleted, ComponentState::Degraded),
        (ComponentState::Degraded, ComponentTrigger::Resume, ComponentState::Resuming),
        (ComponentState::Resuming, ComponentTrigger::ResumeCompleted, ComponentState::Ready),
    ]
}

/// The transitions of the engine.
pub fn data_engine_transitions() -> (r: Vec<(ComponentState, ComponentTrigger, ComponentState)>)
    ensures
        r@ == engine_table(),
{
    vec![
        (ComponentState::PreInitialized, ComponentTrigger::Initialize, ComponentState::Initialized),
        (ComponentState::Initialized, ComponentTrigger::Start, ComponentState::Starting),
        (ComponentState::Starting, ComponentTrigger::StartCompleted, ComponentState::Running),
        (ComponentState::Running, ComponentTrigger::Stop, ComponentState::Stopping),
        (ComponentState::Stopping, ComponentTrigger::StopCompleted, ComponentState::Stopped),
        (ComponentState::Ready, ComponentTrigger::Reset, ComponentState::Resetting),
        (ComponentState::Resetting, ComponentTrigger::ResetCompleted, ComponentState::Ready),
        (ComponentState::Ready, ComponentTrigger::Dispose, ComponentState::Disposing),
        (ComponentState::Disposing, ComponentTrigger::DisposeCompleted, ComponentState::Disposed),
        (ComponentState::Running, ComponentTrigger::Fault, ComponentState::Faulting),
        (ComponentState::Faulting, ComponentTrigger::FaultCompleted, ComponentState::Faulted),
        (ComponentState::Running, ComponentTrigger::Degrade, ComponentState::Degrading),
        (ComponentState::Degrading, ComponentTrigger::DegradeCompleted, ComponentState::Degraded),
        (ComponentState::Degraded, ComponentTrigger::Resume, ComponentState::Resuming),
        (ComponentState::Resuming, ComponentTrigger::ResumeCompleted, ComponentState::Ready),
    ]
}

/// The engine goes where a component goes, but for resuming from `Stopped`, where it stays.
pub proof fn engine_goes_where_a_component_goes(s: ComponentState, t: ComponentTrigger)
    ensures
        fsm::successor(engine_table(), s, t) == (if s is Stopped && t is Resume {
            None
        } else {
            fsm::component_next(s, t)
        }),
{
    reveal_with_fuel(fsm::row_from, 16);
}

/// The tick of a trade that is handed to the engine: without running volumes.
pub open spec fn plain_tick(t: TradeData) -> TradeFlowStats {
    TradeFlowStats {
        timestamp_ns: t.ts_event,
        price_int: t.price_int,
        size_int: t.size_int,
        side: t.aggressor_side,
        cum_buy_volume: 0,
        cum_sell_volume: 0,
        vpin: Vpin { num: 0, den: 1 },
        bucket_index: 0,
    }
}

/// Trades as data.
pub open spec fn trades_of(trades: Seq<TradeData>) -> Seq<MarketData> {
    Seq::new(trades.len(), |i: int| MarketData::Trade(plain_tick(trades[i])))
}

impl ProcessCommand {
    /// What the data of the command is for.
    pub open spec fn interest(self) -> Interest {
        match self {
            ProcessCommand::Trades(p) => Interest::Trades(p.instrument_id@),
            ProcessCommand::Quotes(p) => Interest::Quotes(p.instrument_id@),
            ProcessCommand::Bars(p) => Interest::Bars(
                p.bar_type.said(),
                p.bar_type.aggregation_source,
            ),
            ProcessCommand::OrderBooks(p) => Interest::OrderBooks(p.instrument_id@),
        }
    }

    /// The data of the command.
    pub open spec fn data(self) -> Seq<MarketData> {
        match self {
            ProcessCommand::Trades(p) => trades_of(p.trades@),
            ProcessCommand::Quotes(p) => seq![MarketData::Quote(p.quote)],
            ProcessCommand::Bars(p) => seq![MarketData::Bar(p.bar)],
            ProcessCommand::OrderBooks(p) => seq![MarketData::OrderBook(p.book)],
        }
    }
}

/// Handlers of the engine's endpoints and topics.
#[derive(Debug)]
pub struct EngineHandlers<H> {
    pub execute: H,
    pub process: H,
    pub request: H,
    pub response: H,
    pub trade: H,
    pub quote: H,
    pub bar: H,
    pub book: H,
}

/// Endpoints with those of the engine.
pub open spec fn with_endpoints<H>(m: Map<Seq<char>, H>, h: EngineHandlers<H>) -> Map<
    Seq<char>,
    H,
> {
    m.insert("DataEngine.execute"@, h.execute).insert("DataEngine.process"@, h.process).insert(
        "DataEngine.request"@,
        h.request,
    ).insert("DataEngine.response"@, h.response)
}

/// Subscriptions with those of the engine.
pub open spec fn with_topics<H>(s: Seq<Subscription<H>>, id: u64, h: EngineHandlers<H>) -> Seq<
    Subscription<H>,
> {
    let trade = Subscription {
        topic: "data.trade.*"@,
        priority: 0,
        component_id: id,
        handler: h.trade,
    };
    let quote = Subscription {
        topic: "data.quote.*"@,
        priority: 0,
        component_id: id,
        handler: h.quote,
    };
    let bar = Subscription {
        topic: "data.bar.*"@,
        priority: 0,
        component_id: id,
        handler: h.bar,
    };
    let book = Subscription {
        topic: "data.ob.*"@,
        priority: 0,
        component_id: id,
        handler: h.book,
    };
    msgbus::subscribed(
        msgbus::subscribed(msgbus::subscribed(msgbus::subscribed(s, trade), quote), bar),
        book,
    )
}

/// What the engine knows: what each endpoint wants, and where each kind of data goes.
#[verifier::ext_equal]
pub struct EngineState<H> {
    pub subscriptions: Map<Seq<char>, Interest>,
    pub tick_callbacks: Map<Seq<char>, H>,
    pub quote_callbacks: Map<Seq<char>, H>,
    pub ob_callbacks: Map<Seq<char>, H>,
    pub bar_callbacks: Map<Seq<char>, H>,
}

impl<H> EngineState<H> {
    /// The callbacks for what is wanted.
    pub open spec fn callbacks(self, i: Interest) -> Map<Seq<char>, H> {
        match i {
            Interest::Trades(_) => self.tick_callbacks,
            Interest::Bars(_, _) => self.bar_callbacks,
            Interest::Quotes(_) => self.quote_callbacks,
            Interest::OrderBooks(_) => self.ob_callbacks,
        }
    }

    /// An endpoint wants something; it keeps its callback where none is given.
    pub open spec fn subscribed(
        self,
        endpoint: Seq<char>,
        i: Interest,
        callback: Option<H>,
    ) -> EngineState<H> {
        let s = EngineState { subscriptions: self.subscriptions.insert(endpoint, i), ..self };
        match callback {
            Some(h) => s.with_callback(endpoint, i, h),
            None => s,
        }
    }

    /// An endpoint gets a callback for the kind of data that is wanted.
    pub open spec fn with_callback(self, endpoint: Seq<char>, i: Interest, h: H) -> EngineState<
        H,
    > {
        match i {
            Interest::Trades(_) => EngineState {
                tick_callbacks: self.tick_callbacks.insert(endpoint, h),
                ..self
            },
            Interest::Bars(_, _) => EngineState {
                bar_callbacks: self.bar_callbacks.insert(endpoint, h),
                ..self
            },
            Interest::Quotes(_) => EngineState {
                quote_callbacks: self.quote_callbacks.insert(endpoint, h),
                ..self
            },
            Interest::OrderBooks(_) => EngineState {
                ob_callbacks: self.ob_callbacks.insert(endpoint, h),
                ..self
            },
        }
    }

    /// An endpoint wants nothing.
    pub open spec fn unsubscribed(self, endpoint: Seq<char>) -> EngineState<H> {
        EngineState { subscriptions: self.subscriptions.remove(endpoint), ..self }
    }

    /// The same but for the callbacks for what is wanted.
    pub open spec fn with_callbacks(self, i: Interest, m: Map<Seq<char>, H>) -> EngineState<H> {
        match i {
            Interest::Trades(_) => EngineState { tick_callbacks: m, ..self },
            Interest::Bars(_, _) => EngineState { bar_callbacks: m, ..self },
            Interest::Quotes(_) => EngineState { quote_callbacks: m, ..self },
            Interest::OrderBooks(_) => EngineState { ob_callbacks: m, ..self },
        }
    }

    /// The endpoints that get data that is wanted, in ascending order.
    pub open spec fn takers(self, i: Interest, names: Seq<Seq<char>>) -> bool {
        &&& names_ascend(names)
        &&& forall|k: Seq<char>| #[trigger] names.contains(k) <==> self.gets(k, i)
    }

    /// The endpoint gets data that is wanted.
    pub open spec fn gets(self, endpoint: Seq<char>, i: Interest) -> bool {
        self.subscriptions.dom().contains(endpoint) && self.subscriptions[endpoint] == i
            && self.callbacks(i).dom().contains(endpoint)
    }
}

/// An endpoint that wanted nothing wants nothing again once it has unsubscribed.
pub proof fn unsubscribing_takes_the_wish_back<H>(
    s: EngineState<H>,
    endpoint: Seq<char>,
    i: Interest,
    callback: Option<H>,
)
    requires
        !s.subscriptions.dom().contains(endpoint),
    ensures
        s.subscribed(endpoint, i, callback).unsubscribed(endpoint).subscriptions
            == s.subscriptions,
        !s.subscribed(endpoint, i, callback).unsubscribed(endpoint).gets(endpoint, i),
{
    assert(s.subscriptions.insert(endpoint, i).remove(endpoint) =~= s.subscriptions);
}

/// An endpoint that subscribes with a callback gets what it wants and nothing else.
pub proof fn subscriber_gets_what_it_wants<H>(
    s: EngineState<H>,
    endpoint: Seq<char>,
    i: Interest,
    callback: H,
    other: Interest,
)
    ensures
        s.subscribed(endpoint, i, Some(callback)).gets(endpoint, i),
        s.subscribed(endpoint, i, Some(callback)).callbacks(i)[endpoint] == callback,
        other != i ==> !s.subscribed(endpoint, i, Some(callback)).gets(endpoint, other),
{
}

/// Names in ascending order, each of them once.
pub open spec fn names_ascend(names: Seq<Seq<char>>) -> bool {
    forall|i: int, j: int|
        0 <= i < j < names.len() ==> text::comes_before(#[trigger] names[i], #[trigger] names[j])
}

/// What handing out data makes of the callbacks of those who get it: each of them is called once
/// with each piece of data, in ascending order of the names; nothing else changes. `n` calls had
/// been made before.
pub open spec fn handed_to<H: Handler<MarketData>>(
    before: EngineState<H>,
    after: EngineState<H>,
    i: Interest,
    names: Seq<Seq<char>>,
    data: Seq<MarketData>,
    n: nat,
) -> bool {
    &&& after == before.with_callbacks(i, after.callbacks(i))
    &&& after.callbacks(i).dom() == before.callbacks(i).dom()
    &&& forall|k: Seq<char>| #[trigger]
        before.callbacks(i).dom().contains(k) && !names.contains(k) ==> after.callbacks(i)[k]
            == before.callbacks(i)[k]
    &&& forall|j: int|
        0 <= j < names.len() ==> after.callbacks(i)[#[trigger] names[j]].log().calls
            == before.callbacks(i)[names[j]].log().calls + msgbus::rounds(
            data,
            n,
            names.len(),
            j as nat,
        )
}

/// Data has been handed out, one piece after the other, to those who want it and to nobody else:
/// each of them was called once with each piece. `n` calls had been made before, and `m` have been
/// made now.
pub open spec fn handed_out<H: Handler<MarketData>>(
    before: EngineState<H>,
    after: EngineState<H>,
    i: Interest,
    data: Seq<MarketData>,
    n: nat,
    m: nat,
) -> bool {
    exists|names: Seq<Seq<char>>| #[trigger]
        before.takers(i, names) && handed_to(before, after, i, names, data, n) && m == n
            + data.len() * names.len()
}

/// Names in ascending order are fixed by what they are.
proof fn lemma_same_names(a: Seq<Seq<char>>, b: Seq<Seq<char>>)
    requires
        names_ascend(a),
        names_ascend(b),
        forall|k: Seq<char>| #[trigger] a.contains(k) <==> b.contains(k),
    ensures
        a == b,
    decreases a.len(),
{
    broadcast use text::before_irreflexive;

    if a.len() == 0 {
        if b.len() > 0 {
            assert(b.contains(b[0]));
            assert(a.contains(b[0]));
        }
        assert(a =~= b);
    } else {
        assert(a.contains(a.last()));
        assert(b.contains(a.last()));
        let y = b.last();
        assert(b.contains(y));
        assert(a.contains(y));
        let i = choose|i: int| 0 <= i < a.len() && a[i] == y;
        let j = choose|j: int| 0 <= j < b.len() && b[j] == a.last();
        if y != a.last() {
            assert(text::comes_before(a[i], a[a.len() - 1]));
            assert(text::comes_before(b[j], b[b.len() - 1]));
            text::before_transitive(y, a.last(), y);
        }
        let c = a.drop_last();
        let d = b.drop_last();
        assert forall|k: Seq<char>| #[trigger] c.contains(k) <==> d.contains(k) by {
            if c.contains(k) {
                let u = choose|u: int| 0 <= u < c.len() && c[u] == k;
                assert(a[u] == k);
                assert(a.contains(k));
                assert(text::comes_before(a[u], a[a.len() - 1]));
                let v = choose|v: int| 0 <= v < b.len() && b[v] == k;
                assert(d[v] == k);
            }
            if d.contains(k) {
                let u = choose|u: int| 0 <= u < d.len() && d[u] == k;
                assert(b[u] == k);
                assert(b.contains(k));
                assert(a.contains(k));
                assert(text::comes_before(b[u], b[b.len() - 1]));
                let v = choose|v: int| 0 <= v < a.len() && a[v] == k;
                assert(c[v] == k);
            }
        }
        assert forall|u: int, v: int| 0 <= u < v < c.len() implies text::comes_before(
            #[trigger] c[u],
            #[trigger] c[v],
        ) by {
            assert(text::comes_before(a[u], a[v]));
        }
        assert forall|u: int, v: int| 0 <= u < v < d.len() implies text::comes_before(
            #[trigger] d[u],
            #[trigger] d[v],
        ) by {
            assert(text::comes_before(b[u], b[v]));
        }
        lemma_same_names(c, d);
        assert(a =~= c.push(a.last()));
        assert(b =~= d.push(b.last()));
    }
}

/// Handing out one piece of data more.
proof fn lemma_one_more<H: Handler<MarketData>>(
    before: EngineState<H>,
    between: EngineState<H>,
    after: EngineState<H>,
    i: Interest,
    data: Seq<MarketData>,
    last: MarketData,
    n: nat,
    m: nat,
    l: nat,
)
    requires
        handed_out(before, between, i, data, n, m),
        handed_out(between, after, i, seq![last], m, l),
    ensures
        handed_out(before, after, i, data.push(last), n, l),
{
    let names = choose|names: Seq<Seq<char>>| #[trigger]
        before.takers(i, names) && handed_to(before, between, i, names, data, n) && m == n
            + data.len() * names.len();
    let again = choose|names: Seq<Seq<char>>| #[trigger]
        between.takers(i, names) && handed_to(between, after, i, names, seq![last], m) && l == m
            + seq![last].len() * names.len();
    assert forall|k: Seq<char>| #[trigger] names.contains(k) <==> again.contains(k) by {
        assert(before.gets(k, i) == between.gets(k, i));
    }
    lemma_same_names(names, again);
    let size = names.len();
    let d = data.len();
    assert(0 * size == 0 && 1 * size == size && (d + 1) * size == d * size + size)
        by (nonlinear_arith);
    assert(after =~= before.with_callbacks(i, after.callbacks(i)));
    assert forall|j: int| 0 <= j < names.len() implies after.callbacks(i)[#[trigger] names[j]].log().calls
        == before.callbacks(i)[names[j]].log().calls + msgbus::rounds(
        data.push(last),
        n,
        names.len(),
        j as nat,
    ) by {
        let x = msgbus::rounds(data, n, size, j as nat);
        let y = msgbus::rounds(seq![last], m, size, j as nat);
        let z = msgbus::rounds(data.push(last), n, size, j as nat);
        assert(y.len() == 1 && z.len() == d + 1);
        assert(y[0] == z[d as int]);
        assert(x + y =~= z);
        let had = before.callbacks(i)[names[j]].log().calls;
        assert(had + x + y =~= had + z);
    }
    assert(data.push(last).len() == d + 1);
    assert(handed_to(before, after, i, names, data.push(last), n));
}

/// Nothing has been handed out.
proof fn lemma_nothing_yet<H: Handler<MarketData>>(
    s: EngineState<H>,
    i: Interest,
    names: Seq<Seq<char>>,
    n: nat,
)
    requires
        s.takers(i, names),
    ensures
        handed_out(s, s, i, Seq::empty(), n, n),
{
    let none = Seq::<MarketData>::empty();
    assert forall|j: int| 0 <= j < names.len() implies s.callbacks(i)[#[trigger] names[j]].log().calls
        == s.callbacks(i)[names[j]].log().calls + msgbus::rounds(
        none,
        n,
        names.len(),
        j as nat,
    ) by {
        let had = s.callbacks(i)[names[j]].log().calls;
        assert(had + msgbus::rounds(none, n, names.len(), j as nat) =~= had);
    }
    assert(s =~= s.with_callbacks(i, s.callbacks(i)));
    assert(0 * names.len() == 0) by (nonlinear_arith);
    assert(handed_to(s, s, i, names, none, n));
}

/// Subscriptions to market data, and the way of the data to those who want it.
pub struct DataEngine<C, H> {
    pub id: u64,
    pub name: &'static str,
    pub trader_id: TraderId,
    pub clock: C,
    pub core: EngineCore<H>,
}

/// The log, the life cycle and the subscriptions of an engine.
pub struct EngineCore<H> {
    logger: Logger,
    fsm: FiniteStateMachine<ComponentState, ComponentTrigger>,
    subscriptions: NameMap<DataSubscription>,
    tick_callbacks: NameMap<H>,
    quote_callbacks: NameMap<H>,
    ob_callbacks: NameMap<H>,
    bar_callbacks: NameMap<H>,
    turns: Turns,
}

impl<C: Clock, H: Handler<MarketData>> View for DataEngine<C, H> {
    type V = EngineState<H>;

    closed spec fn view(&self) -> EngineState<H> {
        EngineState {
            subscriptions: name_map::views(self.core.subscriptions@),
            tick_callbacks: self.core.tick_callbacks@,
            quote_callbacks: self.core.quote_callbacks@,
            ob_callbacks: self.core.ob_callbacks@,
            bar_callbacks: self.core.bar_callbacks@,
        }
    }
}

impl<C: Clock, H: Handler<MarketData>> DataEngine<C, H> {
    /// The parts are in order, and every callback takes any data.
    pub closed spec fn wf(&self) -> bool {
        &&& self.core.fsm.transitions() == engine_table()
        &&& self.core.logger.name() == "DataEngine"@
        &&& self.core.subscriptions.wf()
        &&& self.core.tick_callbacks.wf()
        &&& self.core.quote_callbacks.wf()
        &&& self.core.ob_callbacks.wf()
        &&& self.core.bar_callbacks.wf()
    }

    /// The number of the engine.
    pub open spec fn ident(&self) -> u64 {
        self.id
    }

    /// The state of the engine.
    pub closed spec fn current(&self) -> ComponentState {
        self.core.fsm.state()
    }

    /// The trader of the engine.
    pub open spec fn trader(&self) -> TraderId {
        self.trader_id
    }

    /// The clock of the engine.
    pub open spec fn time(&self) -> C {
        self.clock
    }

    /// The number of calls of callbacks that the engine has made.
    pub closed spec fn calls(&self) -> nat {
        self.core.turns.count()
    }

    /// The same but for what the engine knows.
    pub open spec fn same_setting(&self, other: &Self) -> bool {
        self.ident() == other.ident() && self.current() == other.current() && self.trader()
            == other.trader() && self.time() == other.time()
    }

    /// An engine for a backtest.
    pub fn new(clock: C) -> (r: Self)
        ensures
            r.wf(),
            r@ == no_subscriptions::<H>(),
            r.calls() == 0,
            r.ident() == 0,
            r.current() == ComponentState::PreInitialized,
            r.trader()@ == "BACKTEST"@,
            r.time() == clock,
    {
        Self::new_with_components(TraderId::new("BACKTEST"), clock)
    }

    /// An engine of a trader.
    pub fn new_with_components(trader_id: TraderId, clock: C) -> (r: Self)
        ensures
            r.wf(),
            r@ == no_subscriptions::<H>(),
            r.calls() == 0,
            r.ident() == 0,
            r.current() == ComponentState::PreInitialized,
            r.trader() == trader_id,
            r.time() == clock,
    {
        let r = DataEngine {
            id: 0,
            name: "DataEngine",
            trader_id,
            clock,
            core: EngineCore {
                logger: Logger::new("DataEngine"),
                fsm: FiniteStateMachine::new(
                    ComponentState::PreInitialized,
                    data_engine_transitions(),
                ),
                subscriptions: NameMap::new(),
                tick_callbacks: NameMap::new(),
                quote_callbacks: NameMap::new(),
                ob_callbacks: NameMap::new(),
                bar_callbacks: NameMap::new(),
                turns: Turns::new(),
            },
        };
        assert(r@ =~= no_subscriptions::<H>()) by {
            assert(r@.subscriptions =~= Map::<Seq<char>, Interest>::empty());
        }
        r
    }

    /// The state of the engine.
    pub fn state(&self) -> (r: ComponentState)
        ensures
            r == self.current(),
    {
        self.core.fsm.current()
    }

    /// The log of the engine.
    pub fn logger(&self) -> (r: &Logger)
        requires
            self.wf(),
        ensures
            r.name() == "DataEngine"@,
    {
        &self.core.logger
    }

    /// Registers the endpoints of the engine and subscribes to its topics; nothing happens in any
    /// state but `PreInitialized`.
    pub fn initialize<M, B: Handler<M>>(
        &mut self,
        bus: &mut MessageBus<M, B>,
        handlers: EngineHandlers<B>,
    )
        requires
            old(self).wf(),
            old(bus).wf(),
        ensures
            final(self).wf(),
            final(self)@ == old(self)@,
            final(self).calls() == old(self).calls(),
            final(self).ident() == old(self).ident(),
            final(self).trader() == old(self).trader(),
            final(self).time() == old(self).time(),
            final(bus).wf(),
            final(bus).calls() == old(bus).calls(),
            final(bus).number() == old(bus).number(),
            if old(self).current() == ComponentState::PreInitialized {
                &&& final(self).current() == ComponentState::Initialized
                &&& final(bus).endpoints() == with_endpoints(old(bus).endpoints(), handlers)
                &&& final(bus).subscriptions() == with_topics(
                    old(bus).subscriptions(),
                    old(self).ident(),
                    handlers,
                )
            } else {
                &&& final(self).current() == old(self).current()
                &&& final(bus).endpoints() == old(bus).endpoints()
                &&& final(bus).subscriptions() == old(bus).subscriptions()
            },
    {
        if self.core.fsm.current() != ComponentState::PreInitialized {
            return;
        }
        bus.register("DataEngine.execute", handlers.execute);
        bus.register("DataEngine.process", handlers.process);
        bus.register("DataEngine.request", handlers.request);
        bus.register("DataEngine.response", handlers.response);
        bus.subscribe("data.trade.*", self.id, handlers.trade, 0);
        bus.subscribe("data.quote.*", self.id, handlers.quote, 0);
        bus.subscribe("data.bar.*", self.id, handlers.bar, 0);
        bus.subscribe("data.ob.*", self.id, handlers.book, 0);
        self.step(ComponentTrigger::Initialize);
    }

    /// Takes a transition.
    fn step(&mut self, trigger: ComponentTrigger)
        requires
            old(self).wf(),
        ensures
            final(self).wf(),
            final(self)@ == old(self)@,
            final(self).calls() == old(self).calls(),
            final(self).ident() == old(self).ident(),
            final(self).trader() == old(self).trader(),
            final(self).time() == old(self).time(),
            final(self).current() == (match fsm::successor(
                engine_table(),
                old(self).current(),
                trigger,
            ) {
                Some(s) => s,
                None => old(self).current(),
            }),
            !(old(self).current() is Stopped) && fsm::component_next(
                old(self).current(),
                trigger,
            ) is Some ==> Some(final(self).current()) == fsm::component_next(
                old(self).current(),
                trigger,
            ),
    {
        proof {
            engine_goes_where_a_component_goes(self.current(), trigger);
        }
        let ghost before = self@;
        self.core.fsm.trigger(trigger);
        assert(self@ =~= before);
    }

    /// Goes from `Initialized` to `Running`; nothing happens in any other state.
    pub fn start(&mut self)
        requires
            old(self).wf(),
        ensures
            final(self).wf(),
            final(self)@ == old(self)@,
            final(self).calls() == old(self).calls(),
            final(self).ident() == old(self).ident(),
            final(self).trader() == old(self).trader(),
            final(self).time() == old(self).time(),
            final(self).current() == (if old(self).current() == ComponentState::Initialized {
                ComponentState::Running
            } else {
                old(self).current()
            }),
    {
        if self.core.fsm.current() != ComponentState::Initialized {
            return;
        }
        self.step(ComponentTrigger::Start);
        self.step(ComponentTrigger::StartCompleted);
    }

    /// Goes from `Running` to `Stopped`; nothing happens in any other state.
    pub fn stop(&mut self)
        requires
            old(self).wf(),
        ensures
            final(self).wf(),
            final(self)@ == old(self)@,
            final(self).calls() == old(self).calls(),
            final(self).ident() == old(self).ident(),
            final(self).trader() == old(self).trader(),
            final(self).time() == old(self).time(),
            final(self).current() == (if old(self).current() == ComponentState::Running {
                ComponentState::Stopped
            } else {
                old(self).current()
            }),
    {
        if self.core.fsm.current() != ComponentState::Running {
            return;
        }
        self.step(ComponentTrigger::Stop);
        self.step(ComponentTrigger::StopCompleted);
    }

    /// Subscribes the engine to a topic of the bus.
    pub fn subscribe<M, B: Handler<M>>(
        &self,
        bus: &mut MessageBus<M, B>,
        topic: &str,
        handler: B,
        priority: i32,
    )
        requires
            old(bus).wf(),
        ensures
            final(bus).wf(),
            final(bus).endpoints() == old(bus).endpoints(),
            final(bus).calls() == old(bus).calls(),
            final(bus).number() == old(bus).number(),
            final(bus).subscriptions() == msgbus::subscribed(
                old(bus).subscriptions(),
                (Subscription { topic: topic@, priority, component_id: self.ident(), handler }),
            ),
    {
        bus.subscribe(topic, self.id, handler, priority);
    }

    /// Registers a callback for trades.
    pub fn register_tick_callback(&mut self, endpoint: &str, callback: H)
        requires
            old(self).wf(),
        ensures
            final(self).wf(),
            final(self).same_setting(old(self)),
            final(self).calls() == old(self).calls(),
            final(self)@ == (EngineState {
                tick_callbacks: old(self)@.tick_callbacks.insert(endpoint@, callback),
                ..old(self)@
            }),
    {
        self.core.tick_callbacks.insert(endpoint, callback);
    }

    /// Registers a callback for quotes.
    pub fn register_quote_callback(&mut self, endpoint: &str, callback: H)
        requires
            old(self).wf(),
        ensures
            final(self).wf(),
            final(self).same_setting(old(self)),
            final(self).calls() == old(self).calls(),
            final(self)@ == (EngineState {
                quote_callbacks: old(self)@.quote_callbacks.insert(endpoint@, callback),
                ..old(self)@
            }),
    {
        self.core.quote_callbacks.insert(endpoint, callback);
    }

    /// Registers a callback for order books.
    pub fn register_ob_callback(&mut self, endpoint: &str, callback: H)
        requires
            old(self).wf(),
        ensures
            final(self).wf(),
            final(self).same_setting(old(self)),
            final(self).calls() == old(self).calls(),
            final(self)@ == (EngineState {
                ob_callbacks: old(self)@.ob_callbacks.insert(endpoint@, callback),
                ..old(self)@
            }),
    {
        self.core.ob_callbacks.insert(endpoint, callback);
    }

    /// Registers a callback for bars.
    pub fn register_bar_callback(&mut self, endpoint: &str, callback: H)
        requires
            old(self).wf(),
        ensures
            final(self).wf(),
            final(self).same_setting(old(self)),
            final(self).calls() == old(self).calls(),
            final(self)@ == (EngineState {
                bar_callbacks: old(self)@.bar_callbacks.insert(endpoint@, callback),
                ..old(self)@
            }),
    {
        self.core.bar_callbacks.insert(endpoint, callback);
    }

    /// Nothing happens: bars come with the data.
    pub fn advance_clock(&mut self, timestamp_ns: u64)
        ensures
            *final(self) == *old(self),
    {
    }

    /// Hands out data to all that want it.
    fn hand_out(&mut self, wanted: &DataSubscription, data: &MarketData)
        requires
            old(self).wf(),
        ensures
            final(self).wf(),
            final(self).same_setting(old(self)),
            handed_out(
                old(self)@,
                final(self)@,
                wanted@,
                seq![*data],
                old(self).calls(),
                final(self).calls(),
            ),
    {
        let ghost listing = self.core.subscriptions.listing();
        let ghost i = wanted@;
        let ghost before = self@;
        let ghost start = self.calls();
        proof {
            name_map::map_of_lists(listing);
        }
        let mut callbacks: NameMap<H> = NameMap::new();
        match wanted {
            DataSubscription::Trades { .. } => std::mem::swap(
                &mut callbacks,
                &mut self.core.tick_callbacks,
            ),
            DataSubscription::Bars { .. } => std::mem::swap(
                &mut callbacks,
                &mut self.core.bar_callbacks,
            ),
            DataSubscription::Quotes { .. } => std::mem::swap(
                &mut callbacks,
                &mut self.core.quote_callbacks,
            ),
            DataSubscription::OrderBooks { .. } => std::mem::swap(
                &mut callbacks,
                &mut self.core.ob_callbacks,
            ),
        }
        let ghost none = self@.callbacks(i);
        let ghost had = before.callbacks(i);
        let mut names: Ghost<Seq<Seq<char>>> = Ghost(Seq::empty());
        let mut n: usize = 0;
        while n < self.core.subscriptions.len()
            invariant
                i == wanted@,
                self.wf(),
                self.same_setting(old(self)),
                self@ == before.with_callbacks(i, none),
                had == before.callbacks(i),
                callbacks.wf(),
                callbacks@.dom() == had.dom(),
                listing == self.core.subscriptions.listing(),
                n <= listing.len(),
                name_map::ascending(listing),
                forall|j: int|
                    0 <= j < listing.len() ==> self.core.subscriptions@.dom().contains(
                        (#[trigger] listing[j]).0,
                    ) && self.core.subscriptions@[listing[j].0] == listing[j].1,
                names_ascend(names@),
                forall|k: Seq<char>| #[trigger]
                    names@.contains(k) <==> before.gets(k, i) && exists|j: int|
                        0 <= j < n && (#[trigger] listing[j]).0 == k,
                forall|k: Seq<char>| #[trigger]
                    had.dom().contains(k) && !names@.contains(k) ==> callbacks@[k] == had[k],
                forall|j: int|
                    0 <= j < names@.len() ==> callbacks@[#[trigger] names@[j]].log().calls
                        == had[names@[j]].log().calls.push(((start + j) as nat, *data)),
                self.calls() == start + names@.len(),
            decreases listing.len() - n,
        {
            let endpoint = self.core.subscriptions.name_at(n);
            let sub = self.core.subscriptions.value_at(n);
            let ghost k = endpoint@;
            let ghost names0 = names@;
            let ghost calls0 = callbacks@;
            assert(self.core.subscriptions@.dom().contains(listing[n as int].0));
            assert(self@.subscriptions[endpoint@] == sub@);
            assert(before.subscriptions.dom().contains(k));
            assert(!names0.contains(k)) by {
                broadcast use text::before_irreflexive;

                if names0.contains(k) {
                    let j = choose|j: int| 0 <= j < n && (#[trigger] listing[j]).0 == k;
                    assert(text::comes_before(listing[j].0, listing[n as int].0));
                }
            }
            if sub.same(wanted) {
                match callbacks.remove(endpoint) {
                    Some(callback) => {
                        let mut called = callback;
                        called.handle(data, &mut self.core.turns);
                        callbacks.insert(endpoint, called);
                        proof {
                            assert(before.gets(k, i));
                            names@ = names0.push(k);
                            assert(names@[names0.len() as int] == k);
                            assert forall|a: int, b: int| 0 <= a < b < names@.len() implies
                            text::comes_before(#[trigger] names@[a], #[trigger] names@[b]) by {
                                if b == names0.len() {
                                    assert(names0.contains(names0[a]));
                                    let j = choose|j: int|
                                        0 <= j < n && (#[trigger] listing[j]).0 == names0[a];
                                    assert(text::comes_before(listing[j].0, listing[n as int].0));
                                } else {
                                    assert(names@[a] == names0[a] && names@[b] == names0[b]);
                                }
                            }
                            assert forall|j: int| 0 <= j < names@.len() implies callbacks@[
                                #[trigger] names@[j]].log().calls
                                == had[names@[j]].log().calls.push(
                                ((start + j) as nat, *data),
                            ) by {
                                if j < names0.len() {
                                    assert(names@[j] == names0[j]);
                                    assert(names0.contains(names0[j]));
                                    assert(callbacks@[names0[j]] == calls0[names0[j]]);
                                }
                            }
                            assert(callbacks@.dom() =~= had.dom());
                        }
                    },
                    None => {
                        assert(!before.gets(k, i));
                        assert(callbacks@ =~= calls0);
                    },
                }
            }
            proof {
                assert forall|x: Seq<char>| #[trigger]
                    names@.contains(x) <==> before.gets(x, i) && exists|j: int|
                        0 <= j < n + 1 && (#[trigger] listing[j]).0 == x by {
                    if names@.contains(x) {
                        let u = choose|u: int| 0 <= u < names@.len() && names@[u] == x;
                        if u < names0.len() {
                            assert(names0[u] == x);
                            assert(names0.contains(x));
                            let j = choose|j: int| 0 <= j < n && (#[trigger] listing[j]).0 == x;
                            assert(listing[j].0 == x);
                        } else {
                            assert(listing[n as int].0 == x);
                        }
                    }
                    if before.gets(x, i) && exists|j: int|
                        0 <= j < n + 1 && (#[trigger] listing[j]).0 == x {
                        let j = choose|j: int| 0 <= j < n + 1 && (#[trigger] listing[j]).0 == x;
                        if j < n {
                            assert(names0.contains(x));
                            let u = choose|u: int| 0 <= u < names0.len() && names0[u] == x;
                            assert(names@[u] == x);
                        }
                    }
                }
                assert forall|x: Seq<char>| #[trigger]
                    had.dom().contains(x) && !names@.contains(x) implies callbacks@[x]
                    == had[x] by {
                    if names0.contains(x) {
                        let u = choose|u: int| 0 <= u < names0.len() && names0[u] == x;
                        assert(names@[u] == x);
                    }
                    if x == k && names@ != names0 {
                        assert(names@[names0.len() as int] == x);
                    }
                }
            }
            n = n + 1;
        }
        let ghost left = callbacks@;
        match wanted {
            DataSubscription::Trades { .. } => std::mem::swap(
                &mut callbacks,
                &mut self.core.tick_callbacks,
            ),
            DataSubscription::Bars { .. } => std::mem::swap(
                &mut callbacks,
                &mut self.core.bar_callbacks,
            ),
            DataSubscription::Quotes { .. } => std::mem::swap(
                &mut callbacks,
                &mut self.core.quote_callbacks,
            ),
            DataSubscription::OrderBooks { .. } => std::mem::swap(
                &mut callbacks,
                &mut self.core.ob_callbacks,
            ),
        }
        proof {
            assert(self@ =~= before.with_callbacks(i, left));
            assert forall|k: Seq<char>| #[trigger] names@.contains(k) <==> before.gets(k, i) by {
                if before.gets(k, i) {
                    assert(self.core.subscriptions@.dom().contains(k));
                    let j = choose|j: int| 0 <= j < listing.len() && (#[trigger] listing[j]).0 == k;
                    assert(listing[j].0 == k);
                }
            }
            let size = names@.len();
            assert(0 * size == 0 && 1 * size == size) by (nonlinear_arith);
            assert forall|j: int| 0 <= j < names@.len() implies self@.callbacks(i)[
                #[trigger] names@[j]].log().calls == before.callbacks(i)[names@[j]].log().calls
                + msgbus::rounds(seq![*data], start, size, j as nat) by {
                let h = had[names@[j]].log().calls;
                assert(h + msgbus::rounds(seq![*data], start, size, j as nat) =~= h.push(
                    ((start + j) as nat, *data),
                ));
            }
            assert(before.takers(i, names@));
            assert(handed_to(before, self@, i, names@, seq![*data], start));
        }
    }

    /// Hands out a trade to all that want the trades of the instrument.
    pub fn process_trade(&mut self, tick: &TradeFlowStats, instrument_id: &InstrumentId)
        requires
            old(self).wf(),
        ensures
            final(self).wf(),
            final(self).same_setting(old(self)),
            handed_out(
                old(self)@,
                final(self)@,
                Interest::Trades(instrument_id@),
                seq![MarketData::Trade(*tick)],
                old(self).calls(),
                final(self).calls(),
            ),
    {
        let wanted = DataSubscription::Trades { instrument_id: instrument_id.clone() };
        self.hand_out(&wanted, &MarketData::Trade(*tick));
    }

    /// Hands out a quote to all that want the quotes of the instrument.
    pub fn process_quote(&mut self, tick: QuoteTick, instrument_id: &InstrumentId)
        requires
            old(self).wf(),
        ensures
            final(self).wf(),
            final(self).same_setting(old(self)),
            handed_out(
                old(self)@,
                final(self)@,
                Interest::Quotes(instrument_id@),
                seq![MarketData::Quote(tick)],
                old(self).calls(),
                final(self).calls(),
            ),
    {
        let wanted = DataSubscription::Quotes { instrument_id: instrument_id.clone() };
        self.hand_out(&wanted, &MarketData::Quote(tick));
    }

    /// Hands out an order book to all that want the order books of the instrument.
    pub fn process_orderbook(&mut self, book: OrderBookSnapshot, instrument_id: &InstrumentId)
        requires
            old(self).wf(),
        ensures
            final(self).wf(),
            final(self).same_setting(old(self)),
            handed_out(
                old(self)@,
                final(self)@,
                Interest::OrderBooks(instrument_id@),
                seq![MarketData::OrderBook(book)],
                old(self).calls(),
                final(self).calls(),
            ),
    {
        let wanted = DataSubscription::OrderBooks { instrument_id: instrument_id.clone() };
        self.hand_out(&wanted, &MarketData::OrderBook(book));
    }

    /// Hands out a bar to all that want the bars of the type.
    pub fn process_bar(&mut self, bar: Bar, bar_type: &BarType)
        requires
            old(self).wf(),
        ensures
            final(self).wf(),
            final(self).same_setting(old(self)),
            handed_out(
                old(self)@,
                final(self)@,
                Interest::Bars(bar_type.said(), bar_type.aggregation_source),
                seq![MarketData::Bar(bar)],
                old(self).calls(),
                final(self).calls(),
            ),
    {
        let wanted = DataSubscription::Bars { bar_type: bar_type.clone() };
        self.hand_out(&wanted, &MarketData::Bar(bar));
    }

    /// The endpoints that get data that is wanted can be listed.
    proof fn lemma_takers(&self, i: Interest)
        requires
            self.wf(),
        ensures
            exists|names: Seq<Seq<char>>| #[trigger] self@.takers(i, names),
    {
        let listing = self.core.subscriptions.listing();
        name_map::map_of_lists(listing);
        lemma_takers_of(self@, i, listing, listing.len() as int);
        let names = choose|names: Seq<Seq<char>>| #[trigger]
            takers_among(self@, i, listing, listing.len() as int, names);
        assert forall|k: Seq<char>| #[trigger] names.contains(k) <==> self@.gets(k, i) by {
            if self@.gets(k, i) {
                assert(self.core.subscriptions@.dom().contains(k));
            }
        }
        assert(self@.takers(i, names));
    }

    /// Carries out a command of the endpoints `DataEngine.execute` and `DataEngine.process`.
    pub fn execute(&mut self, command: ProcessCommand)
        requires
            old(self).wf(),
        ensures
            final(self).wf(),
            final(self).same_setting(old(self)),
            handed_out(
                old(self)@,
                final(self)@,
                command.interest(),
                command.data(),
                old(self).calls(),
                final(self).calls(),
            ),
    {
        match command {
            ProcessCommand::Trades(p) => {
                let ghost i = Interest::Trades(p.instrument_id@);
                let ghost all = command.data();
                proof {
                    self.lemma_takers(i);
                    let names = choose|names: Seq<Seq<char>>| #[trigger] self@.takers(i, names);
                    lemma_nothing_yet(self@, i, names, self.calls());
                    assert(all.take(0) =~= Seq::<MarketData>::empty());
                }
                let mut n: usize = 0;
                while n < p.trades.len()
                    invariant
                        self.wf(),
                        self.same_setting(old(self)),
                        n <= p.trades@.len(),
                        i == Interest::Trades(p.instrument_id@),
                        all == trades_of(p.trades@),
                        handed_out(
                            old(self)@,
                            self@,
                            i,
                            all.take(n as int),
                            old(self).calls(),
                            self.calls(),
                        ),
                    decreases p.trades@.len() - n,
                {
                    let trade = p.trades[n];
                    let tick = TradeFlowStats {
                        timestamp_ns: trade.ts_event,
                        price_int: trade.price_int,
                        size_int: trade.size_int,
                        side: trade.aggressor_side,
                        cum_buy_volume: 0,
                        cum_sell_volume: 0,
                        vpin: Vpin { num: 0, den: 1 },
                        bucket_index: 0,
                    };
                    let ghost between = self@;
                    let ghost m = self.calls();
                    self.process_trade(&tick, &p.instrument_id);
                    proof {
                        lemma_one_more(
                            old(self)@,
                            between,
                            self@,
                            i,
                            all.take(n as int),
                            all[n as int],
                            old(self).calls(),
                            m,
                            self.calls(),
                        );
                        assert(all.take(n + 1) =~= all.take(n as int).push(all[n as int]));
                    }
                    n = n + 1;
                }
                assert(all.take(all.len() as int) =~= all);
            },
            ProcessCommand::Quotes(p) => {
                self.process_quote(p.quote, &p.instrument_id);
            },
            ProcessCommand::Bars(p) => {
                self.process_bar(p.bar, &p.bar_type);
            },
            ProcessCommand::OrderBooks(p) => {
                self.process_orderbook(p.book, &p.instrument_id);
            },
        }
    }

    /// An endpoint wants the trades of an instrument.
    pub fn subscribe_trades(&mut self, msg: SubscribeTrades<H>)
        requires
            old(self).wf(),
        ensures
            final(self).wf(),
            final(self).same_setting(old(self)),
            final(self).calls() == old(self).calls(),
            final(self)@ == old(self)@.subscribed(
                msg.endpoint@,
                Interest::Trades(msg.instrument_id@),
                msg.callback,
            ),
    {
        let ghost before = self@;
        let ghost i = Interest::Trades(msg.instrument_id@);
        self.core.subscriptions.insert(
            msg.endpoint.as_str(),
            DataSubscription::Trades { instrument_id: msg.instrument_id },
        );
        match msg.callback {
            Some(h) => self.core.tick_callbacks.insert(msg.endpoint.as_str(), h),
            None => {},
        }
        assert(self@.subscriptions =~= before.subscriptions.insert(msg.endpoint@, i));
    }

    /// An endpoint wants nothing.
    pub fn unsubscribe_trades(&mut self, msg: UnsubscribeTrades)
        requires
            old(self).wf(),
        ensures
            final(self).wf(),
            final(self).same_setting(old(self)),
            final(self).calls() == old(self).calls(),
            final(self)@ == old(self)@.unsubscribed(msg.endpoint@),
    {
        self.drop_subscription(msg.endpoint.as_str());
    }

    fn drop_subscription(&mut self, endpoint: &str)
        requires
            old(self).wf(),
        ensures
            final(self).wf(),
            final(self).same_setting(old(self)),
            final(self).calls() == old(self).calls(),
            final(self)@ == old(self)@.unsubscribed(endpoint@),
    {
        let ghost before = self@;
        self.core.subscriptions.remove(endpoint);
        assert(self@.subscriptions =~= before.subscriptions.remove(endpoint@));
    }

    /// An endpoint wants the bars of a type.
    pub fn subscribe_bars(&mut self, msg: SubscribeBars)
        requires
            old(self).wf(),
        ensures
            final(self).wf(),
            final(self).same_setting(old(self)),
            final(self).calls() == old(self).calls(),
            final(self)@ == old(self)@.subscribed(
                msg.endpoint@,
                Interest::Bars(msg.bar_type.said(), msg.bar_type.aggregation_source),
                None,
            ),
    {
        let ghost before = self@;
        let ghost i = Interest::Bars(msg.bar_type.said(), msg.bar_type.aggregation_source);
        self.core.subscriptions.insert(
            msg.endpoint.as_str(),
            DataSubscription::Bars { bar_type: msg.bar_type },
        );
        assert(self@.subscriptions =~= before.subscriptions.insert(msg.endpoint@, i));
    }

    /// An endpoint wants nothing.
    pub fn unsubscribe_bars(&mut self, msg: UnsubscribeBars)
        requires
            old(self).wf(),
        ensures
            final(self).wf(),
            final(self).same_setting(old(self)),
            final(self).calls() == old(self).calls(),
            final(self)@ == old(self)@.unsubscribed(msg.endpoint@),
    {
        self.drop_subscription(msg.endpoint.as_str());
    }

    /// An endpoint wants the quotes of an instrument.
    pub fn subscribe_quotes(&mut self, msg: SubscribeQuotes<H>)
        requires
            old(self).wf(),
        ensures
            final(self).wf(),
            final(self).same_setting(old(self)),
            final(self).calls() == old(self).calls(),
            final(self)@ == old(self)@.subscribed(
                msg.endpoint@,
                Interest::Quotes(msg.instrument_id@),
                msg.callback,
            ),
    {
        let ghost before = self@;
        let ghost i = Interest::Quotes(msg.instrument_id@);
        self.core.subscriptions.insert(
            msg.endpoint.as_str(),
            DataSubscription::Quotes { instrument_id: msg.instrument_id },
        );
        match msg.callback {
            Some(h) => self.core.quote_callbacks.insert(msg.endpoint.as_str(), h),
            None => {},
        }
        assert(self@.subscriptions =~= before.subscriptions.insert(msg.endpoint@, i));
    }

    /// An endpoint wants nothing.
    pub fn unsubscribe_quotes(&mut self, msg: UnsubscribeQuotes)
        requires
            old(self).wf(),
        ensures
            final(self).wf(),
            final(self).same_setting(old(self)),
            final(self).calls() == old(self).calls(),
            final(self)@ == old(self)@.unsubscribed(msg.endpoint@),
    {
        self.drop_subscription(msg.endpoint.as_str());
    }

    /// An endpoint wants the order books of an instrument.
    pub fn subscribe_orderbooks(&mut self, msg: SubscribeOrderBooks<H>)
        requires
            old(self).wf(),
        ensures
            final(self).wf(),
            final(self).same_setting(old(self)),
            final(self).calls() == old(self).calls(),
            final(self)@ == old(self)@.subscribed(
                msg.endpoint@,
                Interest::OrderBooks(msg.instrument_id@),
                msg.callback,
            ),
    {
        let ghost before = self@;
        let ghost i = Interest::OrderBooks(msg.instrument_id@);
        self.core.subscriptions.insert(
            msg.endpoint.as_str(),
            DataSubscription::OrderBooks { instrument_id: msg.instrument_id },
        );
        match msg.callback {
            Some(h) => self.core.ob_callbacks.insert(msg.endpoint.as_str(), h),
            None => {},
        }
        assert(self@.subscriptions =~= before.subscriptions.insert(msg.endpoint@, i));
    }

    /// An endpoint wants nothing.
    pub fn unsubscribe_orderbooks(&mut self, msg: UnsubscribeOrderBooks)
        requires
            old(self).wf(),
        ensures
            final(self).wf(),
            final(self).same_setting(old(self)),
            final(self).calls() == old(self).calls(),
            final(self)@ == old(self)@.unsubscribed(msg.endpoint@),
    {
        self.drop_subscription(msg.endpoint.as_str());
    }

    /// The number of endpoints that want something.
    pub fn subscription_count(&self) -> (r: usize)
        requires
            self.wf(),
        ensures
            exists|listing: Seq<(Seq<char>, DataSubscription)>| #[trigger]
                name_map::ascending(listing) && name_map::views(name_map::map_of(listing))
                    == self@.subscriptions && r == listing.len(),
    {
        proof {
            assert(name_map::ascending(self.core.subscriptions.listing()));
        }
        self.core.subscriptions.len()
    }

    /// Hands out ticks one after the other.
    pub fn replay(&mut self, ticks: &[TradeFlowStats], instrument_id: &InstrumentId)
        requires
            old(self).wf(),
        ensures
            final(self).wf(),
            final(self).same_setting(old(self)),
            handed_out(
                old(self)@,
                final(self)@,
                Interest::Trades(instrument_id@),
                Seq::new(ticks@.len(), |n: int| MarketData::Trade(ticks@[n])),
                old(self).calls(),
                final(self).calls(),
            ),
    {
        let ghost i = Interest::Trades(instrument_id@);
        let ghost all = Seq::new(ticks@.len(), |n: int| MarketData::Trade(ticks@[n]));
        proof {
            self.lemma_takers(i);
            let names = choose|names: Seq<Seq<char>>| #[trigger] self@.takers(i, names);
            lemma_nothing_yet(self@, i, names, self.calls());
            assert(all.take(0) =~= Seq::<MarketData>::empty());
        }
        let mut n: usize = 0;
        while n < ticks.len()
            invariant
                self.wf(),
                self.same_setting(old(self)),
                n <= ticks@.len(),
                i == Interest::Trades(instrument_id@),
                all == Seq::new(ticks@.len(), |n: int| MarketData::Trade(ticks@[n])),
                handed_out(
                    old(self)@,
                    self@,
                    i,
                    all.take(n as int),
                    old(self).calls(),
                    self.calls(),
                ),
            decreases ticks@.len() - n,
        {
            let ghost between = self@;
            let ghost m = self.calls();
            self.process_trade(&ticks[n], instrument_id);
            proof {
                lemma_one_more(
                    old(self)@,
                    between,
                    self@,
                    i,
                    all.take(n as int),
                    all[n as int],
                    old(self).calls(),
                    m,
                    self.calls(),
                );
                assert(all.take(n + 1) =~= all.take(n as int).push(all[n as int]));
            }
            n = n + 1;
        }
        assert(all.take(all.len() as int) =~= all);
    }
}

/// Of the first `n` endpoints of a listing, those that get data that is wanted, in ascending order.
spec fn takers_among<H>(
    s: EngineState<H>,
    i: Interest,
    listing: Seq<(Seq<char>, DataSubscription)>,
    n: int,
    names: Seq<Seq<char>>,
) -> bool {
    &&& names_ascend(names)
    &&& forall|k: Seq<char>| #[trigger]
        names.contains(k) <==> s.gets(k, i) && exists|j: int|
            0 <= j < n && (#[trigger] listing[j]).0 == k
}

/// Those that get data can be listed.
proof fn lemma_takers_of<H>(
    s: EngineState<H>,
    i: Interest,
    listing: Seq<(Seq<char>, DataSubscription)>,
    n: int,
)
    requires
        name_map::ascending(listing),
        0 <= n <= listing.len(),
    ensures
        exists|names: Seq<Seq<char>>| #[trigger] takers_among(s, i, listing, n, names),
    decreases n,
{
    if n <= 0 {
        let names = Seq::<Seq<char>>::empty();
        assert(names_ascend(names));
        assert(takers_among(s, i, listing, n, names));
    } else {
        lemma_takers_of(s, i, listing, n - 1);
        let front = choose|names: Seq<Seq<char>>| #[trigger]
            takers_among(s, i, listing, n - 1, names);
        let last = listing[n - 1].0;
        let names = if s.gets(last, i) {
            front.push(last)
        } else {
            front
        };
        assert forall|a: int, b: int| 0 <= a < b < names.len() implies text::comes_before(
            #[trigger] names[a],
            #[trigger] names[b],
        ) by {
            if b < front.len() {
                assert(names[a] == front[a] && names[b] == front[b]);
            } else {
                assert(front.contains(front[a]));
                let j = choose|j: int| 0 <= j < n - 1 && (#[trigger] listing[j]).0 == front[a];
                assert(text::comes_before(listing[j].0, listing[n - 1].0));
            }
        }
        assert forall|k: Seq<char>| #[trigger] names.contains(k) <==> s.gets(k, i) && exists|j: int|
            0 <= j < n && (#[trigger] listing[j]).0 == k by {
            if names.contains(k) {
                let u = choose|u: int| 0 <= u < names.len() && names[u] == k;
                if u < front.len() {
                    assert(front[u] == k);
                    assert(front.contains(k));
                    let j = choose|j: int| 0 <= j < n - 1 && (#[trigger] listing[j]).0 == k;
                    assert(listing[j].0 == k);
                } else {
                    assert(listing[n - 1].0 == k);
                }
            }
            if s.gets(k, i) && exists|j: int| 0 <= j < n && (#[trigger] listing[j]).0 == k {
                let j = choose|j: int| 0 <= j < n && (#[trigger] listing[j]).0 == k;
                if j < n - 1 {
                    assert(front.contains(k));
                    let u = choose|u: int| 0 <= u < front.len() && front[u] == k;
                    assert(names[u] == k);
                } else {
                    assert(names[front.len() as int] == k);
                }
            }
        }
        assert(takers_among(s, i, listing, n, names));
    }
}

/// Nobody wants anything.
pub open spec fn no_subscriptions<H>() -> EngineState<H> {
    EngineState {
        subscriptions: Map::empty(),
        tick_callbacks: Map::empty(),
        quote_callbacks: Map::empty(),
        ob_callbacks: Map::empty(),
        bar_callbacks: Map::empty(),
    }
}

/// What an endpoint wants, and its callback, concern no other endpoint, and its callback for one kind
/// of data no other kind; an endpoint that wants something else gets only that.
pub proof fn subscribing_concerns_one_endpoint<H>(
    s: EngineState<H>,
    endpoint: Seq<char>,
    i: Interest,
    callback: Option<H>,
    other: Seq<char>,
    j: Interest,
)
    requires
        other != endpoint,
    ensures
        ({
            let t = s.subscribed(endpoint, i, callback);
            &&& t.gets(other, j) == s.gets(other, j)
            &&& s.gets(other, j) ==> t.callbacks(j)[other] == s.callbacks(j)[other]
            &&& t.subscriptions[endpoint] == i
            &&& s.unsubscribed(endpoint).gets(other, j) == s.gets(other, j)
            &&& !s.unsubscribed(endpoint).subscriptions.dom().contains(endpoint)
            &&& callback is None ==> (t.gets(endpoint, i) <==> s.callbacks(i).dom().contains(
                endpoint,
            ))
            &&& i is Trades ==> t.bar_callbacks == s.bar_callbacks && t.quote_callbacks
                == s.quote_callbacks && t.ob_callbacks == s.ob_callbacks
            &&& i is Bars ==> t.tick_callbacks == s.tick_callbacks && t.quote_callbacks
                == s.quote_callbacks && t.ob_callbacks == s.ob_callbacks
            &&& i is Quotes ==> t.tick_callbacks == s.tick_callbacks && t.bar_callbacks
                == s.bar_callbacks && t.ob_callbacks == s.ob_callbacks
            &&& i is OrderBooks ==> t.tick_callbacks == s.tick_callbacks && t.bar_callbacks
                == s.bar_callbacks && t.quote_callbacks == s.quote_callbacks
        }),
{
}

/// A trade is handed out as it came, with nothing of running volumes.
pub proof fn trades_are_handed_out_as_they_came(trades: Seq<TradeData>, i: int)
    requires
        0 <= i < trades.len(),
    ensures
        trades_of(trades).len() == trades.len(),
        trades_of(trades)[i] matches MarketData::Trade(t) && t.timestamp_ns == trades[i].ts_event
            && t.price_int == trades[i].price_int && t.size_int == trades[i].size_int && t.side
            == trades[i].aggressor_side && t.vpin.num == 0 && t.cum_buy_volume == 0
            && t.cum_sell_volume == 0,
{
}

/// Each piece of data that is handed out reaches each taker once, in its turn, and nobody else.
pub proof fn taker_is_called_once_for_each_piece<H: Handler<MarketData>>(
    before: EngineState<H>,
    after: EngineState<H>,
    i: Interest,
    names: Seq<Seq<char>>,
    data: MarketData,
    n: nat,
    j: int,
)
    requires
        handed_to(before, after, i, names, seq![data], n),
        0 <= j < names.len(),
    ensures
        ({
            let calls = after.callbacks(i)[names[j]].log().calls;
            let earlier = before.callbacks(i)[names[j]].log().calls;
            &&& calls.len() == earlier.len() + 1
            &&& calls[earlier.len() as int].1 == data
            &&& calls[earlier.len() as int].0 == n + j
            &&& calls.take(earlier.len() as int) == earlier
        }),
        after.subscriptions == before.subscriptions,
{
    let calls = after.callbacks(i)[names[j]].log().calls;
    let earlier = before.callbacks(i)[names[j]].log().calls;
    let more = msgbus::rounds(seq![data], n, names.len(), j as nat);
    assert(calls == earlier + more);
    assert(more.len() == 1);
    assert(0 * names.len() == 0);
    assert(calls[earlier.len() as int] == more[0]);
    assert(calls.take(earlier.len() as int) =~= earlier);
}

/// Data that is handed out goes to the endpoints that want exactly it and have a callback for it, and
/// to no others.
pub proof fn takers_want_the_data<H>(s: EngineState<H>, i: Interest, names: Seq<Seq<char>>, k: Seq<char>)
    requires
        s.takers(i, names),
    ensures
        names.contains(k) <==> s.subscriptions.dom().contains(k) && s.subscriptions[k] == i
            && s.callbacks(i).dom().contains(k),
        forall|a: int, b: int|
            0 <= a < b < names.len() ==> text::comes_before(#[trigger] names[a], #[trigger] names[b]),
{
    assert(names.contains(k) <==> s.gets(k, i));
}

/// The callbacks for a kind of data are those that were given for it.
pub proof fn callbacks_are_by_kind<H>(
    s: EngineState<H>,
    id: (Seq<char>, Seq<char>),
    t: BarTypeText,
    source: AggregationSource,
)
    ensures
        s.callbacks(Interest::Trades(id)) == s.tick_callbacks,
        s.callbacks(Interest::Quotes(id)) == s.quote_callbacks,
        s.callbacks(Interest::OrderBooks(id)) == s.ob_callbacks,
        s.callbacks(Interest::Bars(t, source)) == s.bar_callbacks,
{
}

/// The engine is reached at its four endpoints, each with its own handler; other endpoints stay.
pub proof fn engine_is_reached_at_its_endpoints<H>(
    m: Map<Seq<char>, H>,
    h: EngineHandlers<H>,
    k: Seq<char>,
)
    ensures
        ({
            let t = with_endpoints(m, h);
            &&& t["DataEngine.execute"@] == h.execute
            &&& t["DataEngine.process"@] == h.process
            &&& t["DataEngine.request"@] == h.request
            &&& t["DataEngine.response"@] == h.response
            &&& k != "DataEngine.execute"@ && k != "DataEngine.process"@ && k
                != "DataEngine.request"@ && k != "DataEngine.response"@ ==> t.dom().contains(k)
                == m.dom().contains(k) && (m.dom().contains(k) ==> t[k] == m[k])
        }),
{
    reveal_strlit("DataEngine.execute");
    reveal_strlit("DataEngine.process");
    reveal_strlit("DataEngine.request");
    reveal_strlit("DataEngine.response");
    assert("DataEngine.execute"@[11] != "DataEngine.process"@[11]);
    assert("DataEngine.execute"@[11] != "DataEngine.request"@[11]);
    assert("DataEngine.execute"@[11] != "DataEngine.response"@[11]);
    assert("DataEngine.process"@[11] != "DataEngine.request"@[11]);
    assert("DataEngine.process"@[11] != "DataEngine.response"@[11]);
    assert("DataEngine.request"@.len() != "DataEngine.response"@.len());
}

/// A piece of data of a kind is for those who want it: trades, quotes and books of an instrument, and
/// bars of a bar type.
pub proof fn data_is_for_those_who_want_it(
    trades: ProcessTrades,
    quotes: ProcessQuotes,
    bars: ProcessBars,
    books: ProcessOrderBooks,
)
    ensures
        ProcessCommand::Trades(trades).interest() == Interest::Trades(trades.instrument_id@),
        ProcessCommand::Quotes(quotes).interest() == Interest::Quotes(quotes.instrument_id@),
        ProcessCommand::OrderBooks(books).interest() == Interest::OrderBooks(books.instrument_id@),
        ProcessCommand::Bars(bars).interest() is Bars,
        ProcessCommand::Trades(trades).data().len() == trades.trades@.len(),
        ProcessCommand::Quotes(quotes).data() == seq![MarketData::Quote(quotes.quote)],
        ProcessCommand::Bars(bars).data() == seq![MarketData::Bar(bars.bar)],
        ProcessCommand::OrderBooks(books).data() == seq![MarketData::OrderBook(books.book)],
{
}

} // verus!
