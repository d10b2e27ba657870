use nexus::backtest::signal::{decide, Decision, Holding, InstrumentState, Signal};
use nexus::book::{OrderBook, Side};
use nexus::cache::Cache;
use nexus::catalog::{Catalog as TickCatalog, CatalogEntry};
use nexus::data_manager::catalog::{entry_of, Catalog, FoundFile, VenueDir};
use nexus::data_manager::data_manager::RingLoad;
use nexus::data_manager::tvc_builder::TvcBuilder;
use nexus::data_manager::types::{match_exchange, match_venue, DataManagerConfig, Exchange, Venue};
use nexus::date::{dates_between, Date};
use nexus::emulator::OrderEmulator;
use nexus::instrument::{fnv1a_hash, InstrumentId};
use nexus::level_map::LevelMap;
use nexus::name_index::NameSet;
use nexus::name_map::NameMap;
use nexus::order::stable_order;
use nexus::trading::{Order, OrderSide, OrderType};

fn day(s: &str) -> Date {
    Date::parse(s).unwrap()
}

#[test]
fn names_of_exchanges_and_venues_read_back() {
    for e in [Exchange::Binance, Exchange::Bybit, Exchange::Okx, Exchange::Coinbase] {
        assert_eq!(match_exchange(e.as_str()), Some(e));
    }
    for v in [Venue::Spot, Venue::Futures, Venue::Linear, Venue::Swap] {
        assert_eq!(match_venue(v.as_str()), Some(v));
    }
    assert_eq!(match_exchange("nyse"), None);
}

#[test]
fn built_files_are_found_again() {
    let date = day("2024-02-29");
    let plan = TvcBuilder::new("/data")
        .build_from_trades(Exchange::Bybit, Venue::Linear, "ethusdt", date, vec![])
        .unwrap();
    let found = |path: &str| FoundFile {
        exchange_dir: "bybit".to_string(),
        venue_dir: "linear".to_string(),
        symbol_dir: "ethusdt".to_string(),
        path: path.to_string(),
        head: b"TVC3".to_vec(),
        size_bytes: 1,
    };
    let entry = entry_of(&found(&plan.path)).unwrap();
    assert_eq!((entry.exchange, entry.venue, entry.date), (Exchange::Bybit, Venue::Linear, date));
    assert_eq!(entry.symbol, "ETHUSDT");
    assert!(entry_of(&found("/data/bybit/linear/ethusdt/2024-02-30.tvc")).is_none());
    assert!(entry_of(&found("/data/bybit/linear/ethusdt/2024-02-29.csv")).is_none());

    let venues = vec![VenueDir { exchange_dir: "bybit".to_string(), venue_dir: "linear".to_string() }];
    let c = Catalog::scan("/data", &venues, &vec![found(&plan.path)]).unwrap();
    assert!(c.contains(Exchange::Bybit, Venue::Linear, "EthUsdt", date));
}

#[test]
fn missing_files_are_downloaded_for_their_days() {
    let config = DataManagerConfig {
        data_root: "/data.d/x".to_string(),
        exchange: Exchange::Binance,
        venue: Venue::Spot,
        symbol: "A.B".to_string(),
        start_date: day("2024-12-31"),
        end_date: day("2025-01-01"),
        download_on_miss: true,
    };
    let mut walk = RingLoad::start(&config).unwrap();
    assert_eq!(walk.take(false).unwrap(), Some(day("2024-12-31")));
    assert_eq!(walk.take(false).unwrap(), Some(day("2025-01-01")));
}

#[test]
fn trading_days_touch() {
    let days = dates_between(day("2024-12-30"), day("2025-01-02"));
    for pair in days.windows(2) {
        assert_eq!(
            pair[1].trading_day_start_ns() - pair[0].trading_day_start_ns(),
            86_400_000_000_000
        );
    }
}

#[test]
fn equal_keys_keep_their_order() {
    assert_eq!(stable_order(&vec![3, 1, 3, 2, 1]), vec![1, 4, 3, 0, 2]);
    assert!(stable_order(&vec![]).is_empty());
}

#[test]
fn maps_list_their_keys_in_order() {
    let mut levels: LevelMap<u8> = LevelMap::new();
    for k in [5, -3, 9, 5] {
        levels.insert(k, 1);
    }
    let keys: Vec<i64> = (0..levels.len()).map(|i| levels.key_at(i)).collect();
    assert_eq!(keys, vec![-3, 5, 9]);
    assert_eq!(levels.remove(5), Some(1));
    assert!(levels.get(&5).is_none());

    let mut names: NameMap<u8> = NameMap::new();
    names.insert("b", 1);
    names.insert("a", 2);
    names.insert("b", 3);
    assert_eq!(names.names(), vec!["a", "b"]);
    assert_eq!(names.get("b"), Some(&3));

    let mut set = NameSet::new();
    set.insert("z");
    set.insert("z");
    set.insert("y");
    assert_eq!(set.names(), vec!["y", "z"]);
}

fn entry(start: u64, end: u64) -> CatalogEntry {
    CatalogEntry {
        instrument_id: fnv1a_hash(b"BTCUSDT"),
        symbol: "BTCUSDT".to_string(),
        start_time_ns: start,
        end_time_ns: end,
        num_ticks: 1,
        file_path: format!("/{}", start),
        checksum: String::new(),
        created_at_ns: 0,
        source_adapter: String::new(),
        is_complete: true,
        partial_range: None,
    }
}

#[test]
fn entries_come_in_time_order() {
    let mut c = TickCatalog::new("c.json");
    c.add_entry(entry(50, 60));
    c.add_entry(entry(10, 20));
    let starts: Vec<u64> = c.query("btcusdt", 0, 100).iter().map(|e| e.start_time_ns).collect();
    assert_eq!(starts, vec![10, 50]);
    assert_eq!(c.instruments(), vec![fnv1a_hash(b"BTCUSDT")]);
}

#[test]
fn removing_undoes_adding_a_level() {
    let mut book = OrderBook::new();
    book.add_limit_order(100, 7, 1);
    assert_eq!(book.best_bid(), Some(100));
    book.remove_size(100, 7, 1);
    assert_eq!(book.best_bid(), None);
    assert_eq!(Side::Buy.opposite().opposite(), Side::Buy);
}

#[test]
fn queues_are_served_in_order() {
    let mut market = OrderEmulator::new();
    let a = market.submit_limit(100, 1, Side::Buy, 1);
    let b = market.submit_limit(100, 1, Side::Buy, 2);
    assert_eq!((market.queue_position(a), market.queue_position(b)), (Some(0), Some(1)));
    let ids: Vec<u64> = market.process_fills(99, 3).iter().map(|f| f.order_id).collect();
    assert_eq!(ids, vec![a, b]);
}

#[test]
fn far_orders_wait() {
    let mut market = OrderEmulator::new();
    for i in 0..13 {
        market.submit_limit(100, 1, Side::Sell, i);
    }
    // The first eleven of a queue are filled at once.
    assert_eq!(market.process_fills(100, 20).len(), 11);
    assert_eq!(market.num_pending(), 2);
    assert!(market.process_fills(99, 21).is_empty());
}

#[test]
fn one_signal_is_at_most_one_trade() {
    let s = InstrumentState::new(0).route(Signal::Sell, 3, 10).unwrap();
    assert_eq!(s.num_trades, 1);
    let t = s.route(Signal::Buy, 3, 8).unwrap();
    assert_eq!((t.num_trades, t.num_wins, t.position), (2, 1, 3));
    assert_eq!(t.realized_pnl, 2 * 3 * 2000);
    assert_eq!(decide(Some(Signal::Sell), Signal::Buy, Holding::Short), Decision { close: false, open: None });
}

#[test]
fn open_orders_are_not_closed() {
    let mut cache = Cache::new(1, 1);
    let order = Order::new(
        1,
        "O".to_string(),
        "s".to_string(),
        InstrumentId::new("BTC", "X"),
        "X".to_string(),
        OrderSide::Sell,
        OrderType::Limit,
        5,
        6,
        None,
        Some(9),
    );
    cache.update_order(order);
    assert!(cache.is_order_open("O") && !cache.is_order_closed("O"));
    assert!(!cache.is_order_open("P") && !cache.is_order_closed("P"));
}
