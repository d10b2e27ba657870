use nexus::cache::{
    Cache, CacheSnapshot, InstrumentDef, InstrumentRegistry, SyntheticInstrument,
};
use nexus::database::{Database, DatabaseError, MemoryDatabase, Stored};
use nexus::instrument::InstrumentId;
use nexus::name_map::NameMap;
use nexus::trading::{Account, OmsOrder, Order, OrderSide, OrderState, OrderType, Position};

const UNIT: i64 = 1_000_000_000;

fn order_of(
    number: u64,
    id: &str,
    strategy: &str,
    instrument: InstrumentId,
    side: OrderSide,
    price: i64,
) -> Order {
    Order::new(
        number,
        id.to_string(),
        strategy.to_string(),
        instrument,
        "BINANCE".to_string(),
        side,
        OrderType::Market,
        price,
        UNIT,
        None,
        None,
    )
}

fn make_test_order(id: &str, strategy: &str, instrument: InstrumentId, filled: bool) -> Order {
    let mut order = order_of(1, id, strategy, instrument, OrderSide::Buy, 0);
    order.filled = filled;
    order
}

fn position_at(id: &str, strategy: &str, venue: &str, quantity: i64, price: i64) -> Position {
    Position::new(
        id.to_string(),
        btc(),
        strategy.to_string(),
        venue.to_string(),
        OrderSide::Buy,
        quantity,
        price,
        0,
    )
}

fn btc() -> InstrumentId {
    InstrumentId::new("BTC-USDT", "BINANCE")
}

fn eth() -> InstrumentId {
    InstrumentId::new("ETH-USDT", "BINANCE")
}

#[test]
fn test_update_order_moves_open_to_closed() {
    let mut cache = Cache::new(1000, 1000);
    cache.update_order(make_test_order("ORD-001", "strat-1", btc(), false));
    assert!(cache.is_order_open("ORD-001"));
    cache.update_order(make_test_order("ORD-001", "strat-1", btc(), true));
    assert!(!cache.is_order_open("ORD-001"));
    assert!(cache.is_order_closed("ORD-001"));
}

#[test]
fn test_get_orders_for_strategy() {
    let mut cache = Cache::new(1000, 1000);
    cache.update_order(make_test_order("ORD-001", "strat-1", btc(), false));
    cache.update_order(make_test_order("ORD-002", "strat-1", btc(), false));
    cache.update_order(make_test_order("ORD-003", "strat-2", btc(), false));
    assert_eq!(cache.get_orders_for_strategy("strat-1").len(), 2);
    assert_eq!(cache.get_orders_for_strategy("strat-2").len(), 1);
}

#[test]
fn test_get_orders_for_instrument() {
    let mut cache = Cache::new(1000, 1000);
    cache.update_order(make_test_order("ORD-001", "strat-1", btc(), false));
    cache.update_order(make_test_order("ORD-002", "strat-1", eth(), false));
    assert_eq!(cache.get_orders_for_instrument(&btc()).len(), 1);
}

#[test]
fn test_update_position_open_to_closed() {
    let mut cache = Cache::new(1000, 1000);
    cache.update_position(position_at("POS-001", "strat-1", "BINANCE", UNIT, 50_000 * UNIT));
    assert!(cache.is_position_open("POS-001"));
    cache.update_position(position_at("POS-001", "strat-1", "BINANCE", 0, 50_000 * UNIT));
    assert!(!cache.is_position_open("POS-001"));
    assert!(cache.is_position_closed("POS-001"));
}

#[test]
fn test_cache_snapshot() {
    let cache = Cache::new(1000, 1000);
    let snap = cache.snapshot();
    assert_eq!(snap.orders.len(), 0);
    assert_eq!(snap.positions.len(), 0);
}

#[test]
fn test_cache_load_from_database_reconstructs_indices() {
    let mut db = MemoryDatabase::new();
    let price = 50_000 * UNIT;
    let mut order1 = order_of(1, "ORD-001", "strat-A", btc(), OrderSide::Buy, price);
    order1.filled = false;
    db.save_order(&order1).unwrap();
    let mut order2 = order_of(2, "ORD-002", "strat-A", btc(), OrderSide::Buy, price);
    order2.filled = true;
    db.save_order(&order2).unwrap();
    let mut order3 = order_of(3, "ORD-003", "strat-B", eth(), OrderSide::Sell, 51_000 * UNIT);
    order3.filled = false;
    db.save_order(&order3).unwrap();
    db.save_position(&position_at("POS-001", "strat-A", "BINANCE", UNIT, price)).unwrap();

    let cache = Cache::load_from_database(&db).unwrap();
    let snap = cache.snapshot();
    assert_eq!(snap.orders.len(), 3);
    assert_eq!(snap.positions.len(), 1);
    assert_eq!(cache.get_orders_for_strategy("strat-A").len(), 2);
    assert_eq!(cache.get_orders_for_strategy("strat-B").len(), 1);
    assert_eq!(cache.get_positions_open().len(), 1);
    let ids = ["ORD-001", "ORD-002", "ORD-003"];
    assert_eq!(ids.iter().filter(|id| cache.is_order_open(id)).count(), 2);
    assert_eq!(ids.iter().filter(|id| cache.is_order_closed(id)).count(), 1);
}

#[test]
fn saved_cache_loads_again() {
    let mut cache = Cache::new(10, 10);
    cache.update_order(make_test_order("ORD-KILL", "strat-X", btc(), false));
    cache.update_position(position_at("POS-KILL", "strat-X", "BINANCE", UNIT, 50_000 * UNIT));
    let mut db = MemoryDatabase::new();
    let (snap, failures) = cache.snapshot_to(&mut db);
    assert!(failures.is_empty());
    assert_eq!(snap.orders.len(), 1);
    let reloaded = Cache::load_from_database(&db).unwrap();
    assert_eq!(reloaded.get_orders_for_strategy("strat-X").len(), 1);
    assert_eq!(reloaded.get_positions_open().len(), 1);
}

/// A database that is not open.
struct Closed;

impl Database for Closed {
    fn stored(&self) -> Stored {
        unreachable!()
    }

    fn ok(&self) -> bool {
        unreachable!()
    }

    fn reliable(&self) -> bool {
        unreachable!()
    }

    fn save_order(&mut self, _: &Order) -> Result<(), DatabaseError> {
        Err(DatabaseError::NotOpen)
    }

    fn load_orders(&self) -> Result<NameMap<Order>, DatabaseError> {
        Err(DatabaseError::NotOpen)
    }

    fn save_position(&mut self, _: &Position) -> Result<(), DatabaseError> {
        Err(DatabaseError::NotOpen)
    }

    fn load_positions(&self) -> Result<NameMap<Position>, DatabaseError> {
        Err(DatabaseError::NotOpen)
    }

    fn save_account(&mut self, _: &Account) -> Result<(), DatabaseError> {
        Err(DatabaseError::NotOpen)
    }

    fn load_accounts(&self) -> Result<NameMap<Account>, DatabaseError> {
        Err(DatabaseError::NotOpen)
    }

    fn save_equity_curve(&mut self, _: &CacheSnapshot) -> Result<(), DatabaseError> {
        Err(DatabaseError::NotOpen)
    }

    fn load_equity_curve(&self) -> Result<Vec<CacheSnapshot>, DatabaseError> {
        Err(DatabaseError::NotOpen)
    }

    fn save_heartbeat(&mut self, _: u64) -> Result<(), DatabaseError> {
        Err(DatabaseError::NotOpen)
    }

    fn load_heartbeat(&self) -> Result<Option<u64>, DatabaseError> {
        Err(DatabaseError::NotOpen)
    }

    fn flush(&mut self) -> Result<(), DatabaseError> {
        Err(DatabaseError::NotOpen)
    }

    fn close(&mut self) -> Result<(), DatabaseError> {
        Ok(())
    }
}

#[test]
fn each_thing_that_is_not_saved_is_told_once() {
    let mut cache = Cache::new(10, 10);
    cache.update_order(make_test_order("ORD-1", "strat-X", btc(), false));
    cache.update_order(make_test_order("ORD-2", "strat-X", btc(), false));
    cache.update_position(position_at("POS-1", "strat-X", "BINANCE", UNIT, 50_000 * UNIT));
    cache.add_account(Account::new("ACC-1", 10_000 * UNIT));
    let (snap, failures) = cache.snapshot_to(&mut Closed);
    assert_eq!(snap.orders.len(), 2);
    let told = ["order", "order", "position", "account", "equity curve"]
        .map(|what| format!("snapshot: failed to persist {}: Database not open", what));
    assert_eq!(failures, told);
    assert!(Cache::load_from_database(&Closed).is_err());
}

#[test]
fn test_add_account_populates_venue_index() {
    let mut cache = Cache::new(1000, 1000);
    let mut account = Account::new("ACC-BIN-001", 10_000 * UNIT);
    account.add_venue_account("BINANCE", "ACC-BIN-001");
    cache.add_account(account);
    assert_eq!(cache.account_for_venue("BINANCE"), Some("ACC-BIN-001"));
    assert_eq!(cache.get_equity_for_venue("BINANCE"), 10_000 * UNIT);
    assert_eq!(cache.get_equity_for_venue("KRAKEN"), 0);
}

#[test]
fn test_hedge_oms_creates_per_venue_positions() {
    let mut cache = Cache::new(1000, 1000);
    cache.update_position(position_at("P-1", "EMA_BOT", "BINANCE", UNIT, 50_000 * UNIT));
    cache.update_position(position_at("P-2", "EMA_BOT", "BYBIT", UNIT / 2, 51_000 * UNIT));
    assert_eq!(cache.get_positions_for_venue("BINANCE").len(), 1);
    assert_eq!(cache.get_positions_for_venue("BYBIT").len(), 1);
}

#[test]
fn test_cache_get_position_by_id() {
    let mut cache = Cache::new(1000, 1000);
    cache.update_position(position_at("POS-TEST-001", "strat-A", "BINANCE", UNIT, 50_000 * UNIT));
    assert!(cache.get_position("POS-TEST-001").is_some());
    assert_eq!(cache.get_position("POS-TEST-001").unwrap().quantity, UNIT);
}

#[test]
fn test_cache_update_position_maintains_venue_index() {
    let mut cache = Cache::new(1000, 1000);
    cache.update_position(position_at("POS-TEST-002", "strat-A", "BINANCE", UNIT, 50_000 * UNIT));
    assert_eq!(cache.get_positions_for_venue("BINANCE").len(), 1);
    cache.update_position(position_at("POS-TEST-002", "strat-A", "BINANCE", 0, 50_000 * UNIT));
    let all = cache.get_positions_for_venue("BINANCE");
    assert_eq!(all.len(), 1);
    assert_eq!(all[0].quantity, 0);
}

fn oms(id: &str, venue_id: Option<&str>, state: OrderState) -> OmsOrder {
    OmsOrder {
        client_order_id: id.to_string(),
        strategy_id: "s".to_string(),
        instrument_id: "BTC-USDT.BINANCE".to_string(),
        venue_order_id: venue_id.map(|v| v.to_string()),
        state,
    }
}

#[test]
fn managed_orders_are_found_by_the_number_of_the_venue() {
    let mut cache = Cache::new(1, 1);
    cache.update_oms_order(oms("A", Some("v-1"), OrderState::Accepted));
    cache.update_oms_order(oms("B", None, OrderState::Filled));
    assert!(cache.oms_contains("A"));
    assert!(!cache.oms_contains("C"));
    assert_eq!(cache.get_client_order_id_by_venue("v-1").unwrap(), "A");
    assert_eq!(cache.get_oms_order_by_venue("v-1").unwrap().client_order_id, "A");
    assert_eq!(cache.oms_get_open_order_ids(), vec!["A"]);
    assert_eq!(cache.oms_get_open_for_strategy("s"), vec!["A"]);
    cache.oms_update_venue_index("v-2", "B");
    assert_eq!(cache.get_oms_order_by_venue("v-2").unwrap().client_order_id, "B");
    cache.update_oms_order(oms("A", Some("v-1"), OrderState::Filled));
    assert!(cache.oms_get_open_order_ids().is_empty());
}

#[test]
fn instruments_come_from_the_registry() {
    let mut cache = Cache::new(1, 1);
    assert!(cache.get_instrument(&btc()).is_none());
    let mut registry = InstrumentRegistry::new();
    registry.register(InstrumentDef {
        id: btc().id,
        symbol: "BTC-USDT".to_string(),
        venue: "BINANCE".to_string(),
    });
    cache.set_registry(registry);
    assert_eq!(cache.get_instrument(&btc()).unwrap().symbol, "BTC-USDT");
    cache.add_synthetic(SyntheticInstrument {
        id: InstrumentId::new("SPREAD", "X"),
        component_names: vec!["ETH-USDT".to_string(), "BTC-USDT".to_string()],
    });
    assert_eq!(cache.get_synthetics_by_underlying("ETH-USDT").len(), 1);
    assert_eq!(cache.get_synthetics_by_underlying("BTC-USDT").len(), 0);
}

// --- Database ---

#[test]
fn test_save_load_orders_roundtrip() {
    let mut db = MemoryDatabase::new();
    let id = InstrumentId::new("BTCUSDT", "BINANCE");
    let order = order_of(1, "test-order-1", "test-strategy", id, OrderSide::Buy, 50_000 * UNIT);
    db.save_order(&order).unwrap();
    let loaded = db.load_orders().unwrap();
    assert_eq!(loaded.len(), 1);
    let loaded_order = loaded.get("test-order-1").unwrap();
    assert_eq!(loaded_order.id, 1);
    assert_eq!(loaded_order.price, 50_000 * UNIT);
}

#[test]
fn test_save_load_positions_roundtrip() {
    let mut db = MemoryDatabase::new();
    db.save_position(&position_at("pos-1", "test-strategy", "BINANCE", UNIT, 50_000 * UNIT))
        .unwrap();
    let loaded = db.load_positions().unwrap();
    assert_eq!(loaded.len(), 1);
    assert_eq!(loaded.get("pos-1").unwrap().quantity, UNIT);
}

#[test]
fn test_save_load_equity_curve() {
    let mut db = MemoryDatabase::new();
    let snap = CacheSnapshot {
        orders: NameMap::new(),
        positions: NameMap::new(),
        accounts: NameMap::new(),
        timestamp_ns: 12345,
    };
    db.save_equity_curve(&snap).unwrap();
    db.save_equity_curve(&snap).unwrap();
    let loaded = db.load_equity_curve().unwrap();
    assert_eq!(loaded.len(), 2);
    assert_eq!(loaded[0].timestamp_ns, 12345);
}

#[test]
fn test_save_load_heartbeat() {
    let mut db = MemoryDatabase::new();
    db.save_heartbeat(999).unwrap();
    assert_eq!(db.load_heartbeat().unwrap(), Some(999));
}

#[test]
fn test_memory_database_all_methods() {
    let mut db = MemoryDatabase::new();
    assert!(db.save_instrument("inst1", &[1, 2, 3]).is_ok());
    assert!(db.load_instrument("inst1").unwrap().is_none());
    assert!(db.save_strategy_state("strat1", &[1, 2, 3]).is_ok());
    assert!(db.load_strategy_state("strat1").unwrap().is_none());
    assert!(db.flush().is_ok());
    assert!(db.close().is_ok());
}

#[test]
fn database_errors_have_messages() {
    assert_eq!(DatabaseError::Io("x".to_string()).message(), "IO error: x");
}
