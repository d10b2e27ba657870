use nexus::backtest::capital::{CapitalSpread, CapitalSpreadError, Weight};
use nexus::backtest::data_index::{DataIndex, IndexedFile, InstrumentIndex};
use nexus::backtest::engine::{run_bars, BacktestEngine, BacktestError, BacktestMode, BarSource, RunPlan};
use nexus::backtest::multi::{run_multi, run_on_buffer_with_window, Portfolio, PortfolioStrategy};
use nexus::backtest::paper::{PaperEntry, PaperPortfolio};
use nexus::backtest::play::{
    can_play, order_to_check, run_backtest_loop, run_sweep_loop, Context, ContextPrice, Hearing,
    NoRisk, OrderCheck, PlayTick, RiskCheck, Strategy,
};
use nexus::backtest::signal::{decide, est_minute_of, Decision, Holding, InstrumentState, Signal};
use nexus::buffer::bar_builder::Bar;
use nexus::buffer::buffer_set::{RingBufferSet, TickBufferSet};
use nexus::buffer::ring_buffer::RingBuffer;
use nexus::buffer::tvc::{TradeTick, TvcHeader};
use nexus::data_manager::types::{Exchange, Venue};
use nexus::date::Date;
use nexus::instrument::InstrumentId;
use nexus::name_map::NameMap;
use std::cell::RefCell;

fn weights(w: &[f64]) -> CapitalSpread {
    CapitalSpread::Weighted(w.iter().map(|x| Weight { bits: x.to_bits() }).collect())
}

fn day(s: &str) -> Date {
    Date::parse(s).unwrap()
}

fn btc() -> InstrumentId {
    InstrumentId::new("BTCUSDT", "BINANCE")
}

fn eth() -> InstrumentId {
    InstrumentId::new("ETHUSDT", "BINANCE")
}

// --- Capital ---

#[test]
fn test_equal_validate() {
    assert!(CapitalSpread::Equal.validate().is_ok());
}

#[test]
fn test_weighted_valid() {
    assert!(weights(&[0.5, 0.5]).validate().is_ok());
}

#[test]
fn test_weighted_zero_sum() {
    assert!(matches!(weights(&[0.0, 0.0]).validate(), Err(CapitalSpreadError::ZeroSum)));
}

#[test]
fn test_weighted_nan() {
    assert!(matches!(weights(&[0.5, f64::NAN]).validate(), Err(CapitalSpreadError::NaNWeight)));
}

#[test]
fn test_weighted_negative() {
    assert!(matches!(weights(&[0.5, -0.5]).validate(), Err(CapitalSpreadError::NegativeWeight)));
}

#[test]
fn test_weighted_empty() {
    assert!(matches!(weights(&[]).validate(), Err(CapitalSpreadError::EmptyWeights)));
}

#[test]
fn spreads_count_their_weights() {
    assert_eq!(weights(&[1.0, 2.0, 3.0]).len(), 3);
    assert!(!weights(&[1.0]).is_equal());
    assert!(CapitalSpread::Equal.is_equal());
    // A zero with a sign is no negative weight.
    assert!(weights(&[-0.0, 1.0]).validate().is_ok());
    assert_eq!(CapitalSpreadError::EmptyWeights.message(), "weights list is empty");
}

// --- Index of files ---

#[test]
fn test_files_for_range() {
    let mut instruments = NameMap::new();
    let file = |path: &str, start_ts: u64, end_ts: u64| IndexedFile {
        path: path.to_string(),
        start_ts,
        end_ts,
        num_ticks: 1440,
    };
    instruments.insert(
        "BTCUSDT",
        InstrumentIndex {
            exchange: "BINANCE".to_string(),
            files: vec![
                file("BTCUSDT_2025-01-02.tvc", 1735794059999000000, 1735880399999000000),
                file("BTCUSDT_2025-01-03.tvc", 1735880400000000000, 1735966799999000000),
            ],
        },
    );
    let index = DataIndex { version: 1, instruments };

    let files = index.files_for_range("BTCUSDT", day("2025-01-02"), day("2025-01-02"));
    assert_eq!(files.len(), 1);
    assert_eq!(files[0], "BTCUSDT_2025-01-02.tvc");

    let files = index.files_for_range("BTCUSDT", day("2025-01-01"), day("2025-01-03"));
    assert_eq!(files.len(), 2);

    let files = index.files_for_range("BTCUSDT", day("2025-01-05"), day("2025-01-10"));
    assert!(files.is_empty());

    // The last tick of a file may be at the start of the range.
    let mut edge = NameMap::new();
    let start_ts = 1735776000000000000;
    let end_ts = 1735948800000000000;
    edge.insert(
        "BTCUSDT",
        InstrumentIndex {
            exchange: "BINANCE".to_string(),
            files: vec![file("edge.tvc", start_ts, end_ts)],
        },
    );
    let edge = DataIndex { version: 1, instruments: edge };
    assert_eq!(edge.files_for_range("BTCUSDT", day("2025-01-04"), day("2025-01-04")).len(), 1);
    assert!(edge.files_for_range("BTCUSDT", day("2025-01-05"), day("2025-01-05")).is_empty());

    assert!(DataIndex::can_find(day("2025-01-05"), day("2025-01-10")));
    assert!(index.files_for_range("ETHUSDT", day("2025-01-01"), day("2025-01-03")).is_empty());
}

// --- Configuration ---

#[test]
fn test_date_est_to_utc_ns() {
    let ts = Date::from_ymd(2025, 1, 2).unwrap().trading_day_start_ns();
    let expected = chrono::DateTime::parse_from_rfc3339("2025-01-01T22:00:00Z").unwrap();
    assert_eq!(ts, expected.timestamp_nanos_opt().unwrap() as u64);
}

#[test]
fn test_builder_instrument() {
    let engine = BacktestEngine::new().with_instrument("BTCUSDT", "BINANCE").unwrap();
    assert!(engine.instrument.is_some());
}

#[test]
fn test_builder_chain() {
    let result = BacktestEngine::new()
        .with_instrument("BTCUSDT", "BINANCE")
        .unwrap()
        .with_data_dir("/tmp", false)
        .is_err();
    assert!(result);
}

fn configured() -> BacktestEngine {
    BacktestEngine::new()
        .with_instrument("BTCUSDT", "BINANCE")
        .unwrap()
        .with_data_dir("/data", true)
        .unwrap()
        .with_date_range(day("2025-01-02"), day("2025-01-03"))
        .unwrap()
}

#[test]
fn ticks_are_planned_from_trading_day_to_trading_day() {
    match configured().with_exchange_venue(Exchange::Bybit, Venue::Linear).run_plan() {
        Ok(RunPlan::Ticks(plan)) => {
            assert_eq!(plan.config.exchange, Exchange::Bybit);
            assert_eq!(plan.config.venue, Venue::Linear);
            assert_eq!(plan.config.symbol, "BTCUSDT");
            assert!(plan.config.download_on_miss);
            assert_eq!(plan.end_ns - plan.start_ns, 2 * 86_400_000_000_000);
        }
        _ => panic!("a run over ticks"),
    }
}

#[test]
fn timeframes_ask_for_bars() {
    match configured().with_timeframe("15m").run_plan() {
        Ok(RunPlan::LoadBars { request, .. }) => {
            assert_eq!(request.timeframe, "15m");
            assert_eq!(request.exchange, Exchange::Binance);
        }
        _ => panic!("a run over bars of files"),
    }
}

#[test]
fn missing_settings_are_named() {
    let e = BacktestEngine::new().with_mode(BacktestMode::Paper).run_plan().err().unwrap();
    assert!(matches!(e, BacktestError::NoInstrument));
    assert_eq!(e.message(), "no instrument configured — call .with_instrument()");
    let one = || BacktestEngine::new().with_instrument("BTCUSDT", "BINANCE").unwrap();
    assert!(matches!(one().run_plan().err().unwrap(), BacktestError::NoDateRange));
    let dated = one().with_date_range(day("2025-01-02"), day("2025-01-02")).unwrap();
    assert!(matches!(dated.run_plan().err().unwrap(), BacktestError::NoDataDir));
    let e = one().with_data_dir("/nowhere", false).err().unwrap();
    assert_eq!(e.message(), "data directory does not exist: /nowhere");
    let e = one().with_date_range(day("2025-01-03"), day("2025-01-02")).err().unwrap();
    assert!(matches!(e, BacktestError::NoDateRange));
    let several = configured().with_instruments(vec![btc(), eth()]);
    assert!(matches!(several.run_plan().err().unwrap(), BacktestError::InvalidConfig(_)));
    assert_eq!(BacktestError::from_io("x").message(), "IO error: x");
}

#[test]
fn several_instruments_have_a_plan_of_their_own() {
    let plan = configured()
        .with_capital_spread(CapitalSpread::Equal)
        .multi_plan(&vec![btc(), eth()])
        .ok()
        .unwrap();
    assert_eq!(plan.pairs.len(), 2);
    assert_eq!(plan.pairs[1], ("ETHUSDT".to_string(), Exchange::Binance));
}

// --- Signals ---

#[test]
fn signals_turn_positions() {
    let turn = decide(Some(Signal::Buy), Signal::Sell, Holding::Short);
    assert_eq!(turn, Decision { close: true, open: Some(Signal::Buy) });
    let again = decide(Some(Signal::Buy), Signal::Buy, Holding::Flat);
    assert_eq!(again, Decision { close: false, open: None });
    let end = decide(None, Signal::Buy, Holding::Long);
    assert_eq!(end, Decision { close: true, open: None });
    assert_eq!(Signal::Sell.as_number(), -1);
    // 05:01 in UTC is 00:01 in New York.
    assert_eq!(est_minute_of(5 * 3_600_000_000_000 + 60_000_000_000), 1);
}

#[test]
fn closing_settles_with_a_commission_on_both_trades() {
    let s = InstrumentState::new(1_000_000);
    let s = s.route(Signal::Buy, 10, 100).unwrap();
    assert_eq!((s.position, s.entry_price, s.equity), (10, 100, 1_000_000 - 1_000));
    assert_eq!(s.holding(), Holding::Long);
    assert_eq!(s.route(Signal::Buy, 10, 120).unwrap(), s);
    let s = s.route(Signal::Close, 10, 110).unwrap();
    assert_eq!(s.position, 0);
    assert_eq!(s.realized_pnl, 10 * 10 * 2000);
    assert_eq!(s.equity, 1_000_000 - 1_000 + 200_000 - 1_100);
    assert_eq!(s.commissions, 2_100);
    assert_eq!((s.num_trades, s.num_wins, s.num_losses), (2, 1, 0));
}

#[test]
fn accounts_out_of_range_are_not_routed() {
    let s = InstrumentState::new(i128::MIN);
    assert!(s.route(Signal::Buy, 1, 1).is_none());
    assert!(order_to_check(Signal::Close, 1, 1, &s).is_none());
    let o = order_to_check(Signal::Sell, 7, 3, &InstrumentState::new(5)).unwrap();
    let asked = OrderCheck { order_size: 0, price: 3, position: 0, equity: 5, max_drawdown: 0 };
    assert_eq!(o, asked);
}

// --- Runs ---

const START: u64 = 1_735_689_600_000_000_000;

fn tick(ts: u64, price: i64) -> TradeTick {
    TradeTick { timestamp_ns: ts, price_int: price, size_int: 1, side: 0, flags: 0, sequence: 0 }
}

fn ring(ticks: &[TradeTick], id: InstrumentId) -> RingBuffer {
    ring_with(ticks, id, 9)
}

fn ring_with(ticks: &[TradeTick], id: InstrumentId, decimal_precision: u8) -> RingBuffer {
    let mut bytes = vec![0u8; 128];
    for t in ticks {
        bytes.extend_from_slice(&t.timestamp_ns.to_le_bytes());
        bytes.extend_from_slice(&t.price_int.to_le_bytes());
        bytes.extend_from_slice(&t.size_int.to_le_bytes());
        bytes.extend_from_slice(&[t.side, t.flags]);
        bytes.extend_from_slice(&t.sequence.to_le_bytes());
    }
    let index_offset = bytes.len() as u64;
    bytes.extend_from_slice(&(ticks.len() as u32).to_le_bytes());
    for i in 0..ticks.len() as u64 {
        bytes.extend_from_slice(&i.to_le_bytes());
        bytes.extend_from_slice(&(128 + 30 * i).to_le_bytes());
    }
    let header = TvcHeader {
        magic: *b"TVC3",
        version: 2,
        instrument_id: 1,
        decimal_precision,
        anchor_interval: 1,
        num_ticks: ticks.len() as u64,
        num_anchors: ticks.len() as u32,
        start_time_ns: ticks[0].timestamp_ns,
        end_time_ns: ticks[ticks.len() - 1].timestamp_ns,
        index_offset,
    };
    RingBuffer::from_bytes(bytes, header, id).unwrap()
}

/// Buys at the first price, closes at any other.
struct Once {
    started: u32,
    stopped: u32,
    first: Option<i64>,
    /// Initial equity, number of instruments and price of each context.
    seen: Vec<(i128, usize, Option<ContextPrice>)>,
}

impl Once {
    fn new() -> Self {
        Once { started: 0, stopped: 0, first: None, seen: Vec::new() }
    }

    fn answer(&mut self, price: i64, context: &Context) -> Option<Signal> {
        self.seen.push((context.initial_equity, context.instruments.len(), context.price));
        match self.first {
            None => {
                self.first = Some(price);
                Some(Signal::Buy)
            }
            Some(p) if p == price => None,
            Some(_) => Some(Signal::Close),
        }
    }
}

impl Strategy for Once {
    fn heard(&self) -> Hearing {
        unreachable!()
    }

    fn wants(&self) -> i64 {
        unreachable!()
    }

    fn on_start(&mut self) {
        self.started += 1;
    }

    fn on_stop(&mut self) {
        self.stopped += 1;
    }

    fn on_reset(&mut self) {
        self.first = None;
    }

    fn on_trade(&mut self, _: &InstrumentId, tick: &PlayTick, c: &Context) -> Option<Signal> {
        self.answer(tick.price_int, c)
    }

    fn on_bar(&mut self, _: &InstrumentId, bar: &Bar, c: &Context) -> Option<Signal> {
        self.answer(bar.close, c)
    }

    fn position_size(&self) -> i64 {
        2
    }
}

fn bar(ts: u64, close: i64) -> Bar {
    Bar {
        ts_event: ts,
        ts_init: ts,
        timestamp_ns: ts,
        open: close,
        high: close,
        low: close,
        close,
        volume: 1,
        buy_volume: 1,
        sell_volume: 0,
        tick_count: 1,
        instrument_id: btc(),
    }
}

#[test]
fn bars_are_played_in_turn() {
    let bars = vec![Some(bar(1, 100)), Some(bar(2, 100)), Some(bar(3, 130))];
    let mut strategy = Once::new();
    let r = run_bars(&btc(), &bars, InstrumentState::new(0), &mut strategy).ok().unwrap();
    assert_eq!((r.num_ticks(), r.start_ts_ns(), r.end_ts_ns()), (3, 1, 3));
    assert_eq!(r.trail[1].state.position, 2);
    assert_eq!(r.trail[2].state.position, 0);
    assert_eq!(r.trail[2].state.realized_pnl, 30 * 2 * 2000);
    assert_eq!((strategy.started, strategy.stopped), (1, 1));
    let last = ContextPrice { price_int: 130, precision: 9 };
    assert_eq!(strategy.seen[2], (0, 1, Some(last)));
}

#[test]
fn bars_that_are_there_are_run() {
    let engine = configured().with_bar_source(BarSource::BarIter(vec![Some(bar(1, 100))]));
    assert!(matches!(engine.run_plan(), Ok(RunPlan::Bars { .. })));
}

struct Never;

impl RiskCheck for Never {
    fn blocks(&self, _: &OrderCheck) -> bool {
        true
    }
}

fn three() -> RingBufferSet {
    let ticks = [tick(START, 100), tick(START + 1, 120), tick(START + 2, 130)];
    RingBufferSet::from_buffers(vec![(btc(), ring(&ticks, btc()))])
}

#[test]
fn only_ticks_of_the_window_are_played() {
    let set = three();
    assert!(can_play(&set));
    let mut strategy = Once::new();
    let start = InstrumentState::new(0);
    let r =
        run_backtest_loop::<Once, NoRisk>(&set, &btc(), START + 1, u64::MAX, start, &mut strategy, None)
            .unwrap();
    assert_eq!(r.num_ticks(), 2);
    assert_eq!(r.trail[0].price_int, 120);
    assert_eq!(r.trail[1].state.realized_pnl, 10 * 2 * 2000);
    assert_eq!(r.unit, 9);
    assert!(r.started);
}

#[test]
fn blocked_orders_are_not_carried_out() {
    let set = three();
    let mut strategy = Once::new();
    let start = InstrumentState::new(0);
    let r = run_backtest_loop(&set, &btc(), 0, u64::MAX, start, &mut strategy, Some(&Never)).unwrap();
    assert_eq!(r.num_ticks(), 3);
    assert_eq!(r.trail[2].state, start);
}

#[test]
fn sweeps_start_from_nothing_each_time() {
    let set = three();
    let plan = match configured().run_plan() {
        Ok(RunPlan::Ticks(mut p)) => {
            p.start_ns = 0;
            p.end_ns = u64::MAX;
            p
        }
        _ => panic!("a run over ticks"),
    };
    let mut strategy = Once::new();
    let first = plan.run_one::<Once, NoRisk>(&set, InstrumentState::new(0), &mut strategy, None);
    let second = plan.run_one::<Once, NoRisk>(&set, InstrumentState::new(0), &mut strategy, None);
    assert_eq!(first.ok().unwrap().trail, second.ok().unwrap().trail);
}

#[test]
fn sweeps_read_all_prices_with_the_first_precision() {
    let first = ring_with(&[tick(START, 100)], btc(), 2);
    let second = ring_with(&[tick(START + 1, 1200)], btc(), 3);
    let set = RingBufferSet::from_buffers(vec![(btc(), first), (btc(), second)]);
    let start = InstrumentState::new(0);
    let mut swept = Once::new();
    let r = run_sweep_loop::<Once, NoRisk>(&set, &btc(), 0, u64::MAX, start, &mut swept, None)
        .unwrap();
    assert_eq!(r.unit, 2);
    assert_eq!(r.trail.iter().map(|p| p.price_int).collect::<Vec<_>>(), vec![100, 1200]);
    let mut single = Once::new();
    let r = run_backtest_loop::<Once, NoRisk>(&set, &btc(), 0, u64::MAX, start, &mut single, None)
        .unwrap();
    assert_eq!(r.unit, 3);
    assert_eq!(r.trail.iter().map(|p| p.price_int).collect::<Vec<_>>(), vec![1000, 1200]);
}

#[test]
fn strategies_see_the_context_of_a_run() {
    let set = three();
    let start = InstrumentState::new(50);
    let mut single = Once::new();
    run_backtest_loop::<Once, NoRisk>(&set, &btc(), 0, u64::MAX, start, &mut single, None).unwrap();
    let price = |price_int: i64| Some(ContextPrice { price_int, precision: 9 });
    assert_eq!(single.seen, vec![(50, 1, price(100)), (50, 1, price(120)), (50, 1, price(130))]);
    let mut swept = Once::new();
    run_sweep_loop::<Once, NoRisk>(&set, &btc(), 0, u64::MAX, start, &mut swept, None).unwrap();
    assert_eq!(swept.seen, vec![(50, 1, None); 3]);
}

/// Wants to buy at every price.
struct Buys;

impl Strategy for Buys {
    fn heard(&self) -> Hearing {
        unreachable!()
    }

    fn wants(&self) -> i64 {
        unreachable!()
    }

    fn on_start(&mut self) {}

    fn on_stop(&mut self) {}

    fn on_reset(&mut self) {}

    fn on_trade(&mut self, _: &InstrumentId, _: &PlayTick, _: &Context) -> Option<Signal> {
        Some(Signal::Buy)
    }

    fn on_bar(&mut self, _: &InstrumentId, _: &Bar, _: &Context) -> Option<Signal> {
        Some(Signal::Buy)
    }

    fn position_size(&self) -> i64 {
        2
    }
}

/// Lets every order through and keeps it.
struct Keeps(RefCell<Vec<OrderCheck>>);

impl RiskCheck for Keeps {
    fn blocks(&self, order: &OrderCheck) -> bool {
        self.0.borrow_mut().push(*order);
        false
    }
}

#[test]
fn orders_are_looked_at_with_worth_and_drawdown() {
    let set = three();
    let start = InstrumentState::new(0);
    let order = |price: i64, position: i64, equity: i128, max_drawdown: i128| OrderCheck {
        order_size: 2,
        price,
        position,
        equity,
        max_drawdown,
    };
    let single = Keeps(RefCell::new(Vec::new()));
    run_backtest_loop(&set, &btc(), 0, u64::MAX, start, &mut Buys, Some(&single)).unwrap();
    let asked = vec![order(100, 0, 0, 0), order(120, 2, 79_800, 200), order(130, 2, 119_800, 200)];
    assert_eq!(single.0.into_inner(), asked);
    // A sweep values the account behind each tick only.
    let swept = Keeps(RefCell::new(Vec::new()));
    run_sweep_loop(&set, &btc(), 0, u64::MAX, start, &mut Buys, Some(&swept)).unwrap();
    let asked = vec![order(100, 0, 0, 0), order(120, 2, -200, 200), order(130, 2, 79_800, 200)];
    assert_eq!(swept.0.into_inner(), asked);
}

#[test]
fn drawdown_is_the_largest_fall_from_a_peak() {
    let s = InstrumentState::new(1_000).route(Signal::Buy, 1, 100).unwrap();
    let s = s.value(110).unwrap();
    assert_eq!((s.worth, s.peak, s.drawdown), (20_900, 20_900, 0));
    let s = s.value(105).unwrap();
    assert_eq!((s.worth, s.peak, s.drawdown), (10_900, 20_900, 10_000));
    let s = s.value(108).unwrap();
    assert_eq!((s.worth, s.peak, s.drawdown), (16_900, 20_900, 10_000));
    assert_eq!(s.mark(120).unwrap().worth, 40_900);
    assert!(InstrumentState::new(i128::MAX).route(Signal::Sell, 0, 1).unwrap().mark(1).is_some());
}

struct Always(Signal);

impl PortfolioStrategy<PaperPortfolio> for Always {
    fn heard(&self) -> Hearing {
        unreachable!()
    }

    fn wants(&self) -> i64 {
        unreachable!()
    }

    fn on_trade(
        &mut self,
        _: &InstrumentId,
        _: u64,
        _: i64,
        _: i64,
        _: &mut PaperPortfolio,
    ) -> Signal {
        self.0
    }

    fn position_size(&self) -> i64 {
        3
    }
}

fn two_files() -> TickBufferSet {
    let b = ring(&[tick(START, 100), tick(START + 20, 110)], btc());
    let e = ring(&[tick(START + 10, 50)], eth());
    let files = vec![(btc(), b), (eth(), e)];
    nexus::data_manager::loader::DataLoader::load_range(files).unwrap()
}

#[test]
fn ticks_of_all_instruments_come_in_time_order() {
    let mut portfolio = PaperPortfolio::new();
    let set = two_files();
    let mut strategy = Always(Signal::Buy);
    let r = run_multi(&set, &vec![btc(), eth()], &mut strategy, &mut portfolio);
    assert_eq!((r.num_ticks, r.start_ts_ns, r.end_ts_ns), (3, START, START + 20));
    assert_eq!(portfolio.side(&btc()), Some(Holding::Long));
    assert_eq!(portfolio.holding(&eth()), Holding::Long);
    let marks: Vec<i64> = portfolio
        .entries()
        .iter()
        .filter_map(|e| match e {
            PaperEntry::Mark { price, .. } => Some(*price),
            _ => None,
        })
        .collect();
    assert_eq!(marks, vec![100, 50, 110]);
    let opened = portfolio.entries().iter().filter(|e| matches!(e, PaperEntry::Open { .. })).count();
    assert_eq!(opened, 2);
}

#[test]
fn windows_leave_other_ticks_out() {
    let mut portfolio = PaperPortfolio::new();
    let set = two_files();
    let mut strategy = Once::new();
    let r = run_on_buffer_with_window(&set, START + 5, START + 15, 7, &mut strategy, &mut portfolio);
    assert_eq!((strategy.started, strategy.stopped), (0, 1));
    assert_eq!(strategy.seen, vec![(7, 2, None)]);
    assert_eq!((r.num_ticks, r.start_ts_ns, r.end_ts_ns), (1, START + 10, START + 10));
    let mut other = PaperPortfolio::new();
    let r = run_on_buffer_with_window(&set, 0, u64::MAX, 0, &mut Once::new(), &mut other);
    assert_eq!(r.num_ticks, 3);
}

#[test]
fn later_files_of_an_instrument_are_played() {
    let first = ring(&[tick(START, 100)], btc());
    let second = ring(&[tick(START + 50, 120), tick(START + 60, 130)], btc());
    let files = vec![(btc(), first), (btc(), second)];
    let set = nexus::data_manager::loader::DataLoader::load_range(files).unwrap();
    let mut portfolio = PaperPortfolio::new();
    let mut strategy = Once::new();
    let r = run_on_buffer_with_window(&set, START + 40, u64::MAX, 0, &mut strategy, &mut portfolio);
    assert_eq!((r.num_ticks, r.start_ts_ns, r.end_ts_ns), (2, START + 50, START + 60));
    let sizes: Vec<i64> = portfolio
        .entries()
        .iter()
        .filter_map(|e| match e {
            PaperEntry::Open { size, .. } => Some(*size),
            _ => None,
        })
        .collect();
    assert_eq!(sizes, vec![strategy.position_size()]);
    assert_eq!(portfolio.holding(&btc()), Holding::Flat);
}
