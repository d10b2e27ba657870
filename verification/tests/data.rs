use nexus::actor::clock::{TestClock, TimeEvent};
use nexus::actor::component::TraderId;
use nexus::actor::fsm::ComponentState;
use nexus::actor::handler::Callback;
use nexus::buffer::bar_spec::BarType;
use nexus::buffer::tick_buffer::{TradeFlowStats, Vpin};
use nexus::data::{
    DataEngine, MarketData, SubscribeBars, SubscribeTrades, UnsubscribeBars, UnsubscribeTrades,
};
use nexus::instrument::InstrumentId;
use std::cell::RefCell;
use std::rc::Rc;

type OnData = Callback<MarketData, Box<dyn Fn(&MarketData)>>;
type OnTime = Callback<TimeEvent, Box<dyn Fn(&TimeEvent)>>;
type Engine = DataEngine<TestClock<OnTime>, OnData>;

fn engine() -> Engine {
    DataEngine::new(TestClock::new())
}

fn trades(endpoint: &str, id: InstrumentId, callback: Option<OnData>) -> SubscribeTrades<OnData> {
    SubscribeTrades {
        trader_id: TraderId::new("trader-001"),
        strategy_id: "strategy-001".to_string(),
        instrument_id: id,
        endpoint: endpoint.to_string(),
        callback,
    }
}

fn bars(endpoint: &str) -> SubscribeBars {
    SubscribeBars {
        trader_id: TraderId::new("trader-001"),
        strategy_id: "strategy-001".to_string(),
        bar_type: BarType::parse_bar_type("BTCUSDT.BINANCE-1-MINUTE-LAST").unwrap(),
        endpoint: endpoint.to_string(),
    }
}

fn btc() -> InstrumentId {
    InstrumentId::new("BTCUSDT", "BINANCE")
}

#[test]
fn test_subscribe_and_unsubscribe_trades() {
    let mut engine = engine();
    assert_eq!(engine.subscription_count(), 0);
    engine.subscribe_trades(trades("MyStrategy.on_trade_tick", btc(), None));
    assert_eq!(engine.subscription_count(), 1);
    engine.unsubscribe_trades(UnsubscribeTrades {
        endpoint: "MyStrategy.on_trade_tick".to_string(),
    });
    assert_eq!(engine.subscription_count(), 0);
}

#[test]
fn test_subscribe_and_unsubscribe_bars() {
    let mut engine = engine();
    engine.subscribe_bars(bars("MyStrategy.on_bar"));
    assert_eq!(engine.subscription_count(), 1);
    engine.unsubscribe_bars(UnsubscribeBars { endpoint: "MyStrategy.on_bar".to_string() });
    assert_eq!(engine.subscription_count(), 0);
}

#[test]
fn test_multiple_subscriptions() {
    let mut engine = engine();
    let eth = InstrumentId::new("ETHUSDT", "BINANCE");
    engine.subscribe_trades(trades("Strategy1.on_trade_tick_btc", btc(), None));
    engine.subscribe_trades(trades("Strategy1.on_trade_tick_eth", eth, None));
    engine.subscribe_bars(bars("Strategy1.on_bar"));
    assert_eq!(engine.subscription_count(), 3);
}

#[test]
fn trades_reach_those_who_want_them() {
    let mut engine = engine();
    let seen = Rc::new(RefCell::new(Vec::new()));
    let seen_clone = Rc::clone(&seen);
    engine.subscribe_trades(trades(
        "s.on_trade",
        btc(),
        Some(Callback::new(Box::new(move |d: &MarketData| {
            if let MarketData::Trade(t) = d {
                seen_clone.borrow_mut().push(t.price_int);
            }
        }))),
    ));
    let t = |price: i64| TradeFlowStats {
        timestamp_ns: 1,
        price_int: price,
        size_int: 1,
        side: 0,
        cum_buy_volume: 1,
        cum_sell_volume: 0,
        vpin: Vpin { num: 0, den: 1 },
        bucket_index: 0,
    };
    engine.process_trade(&t(5), &btc());
    engine.process_trade(&t(6), &InstrumentId::new("ETHUSDT", "BINANCE"));
    engine.replay(&[t(7), t(8)], &btc());
    assert_eq!(*seen.borrow(), vec![5, 7, 8]);
    assert_eq!(engine.state(), ComponentState::PreInitialized);
}
