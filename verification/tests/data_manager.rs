use nexus::calibrate::{fit_count, holdout_passes, read_rows};
use nexus::data_manager::bar_ingester::{
    binance_row, bybit_row, event_ns, fnv1a_hash, normalize_okx_symbol, ns_to_tf, okx_row,
    timeframe_to_ns, year_chunks, year_of_bar, BarIngester, BarIngesterError, Cell, ExchangeKind,
    InstrumentType, YearFetch,
};
use nexus::data_manager::catalog::{
    is_valid_tvc_magic, parse_date_from_stem, Catalog, FoundFile, VenueDir,
};
use nexus::data_manager::data_manager::{
    present_files, BarRequest, BarStep, DataManager, DataManagerError, RingLoad,
};
use nexus::data_manager::downloader::{DownloadError, DownloadSource, Downloader, RawTradeData};
use nexus::data_manager::downloaders::binance::{
    check_status, normalize_timestamp_ns, parse_price_to_int, parse_qty_to_int, BinanceDownloader,
};
use nexus::data_manager::downloaders::bybit::BybitDownloader;
use nexus::data_manager::downloaders::parsers;
use nexus::data_manager::loader::{DataLoader, LoadError};
use nexus::data_manager::tvc_builder::TvcBuilder;
use nexus::data_manager::types::{DataManagerConfig, Exchange, TvcFile, Venue};
use nexus::date::{dates_between, Date};
use nexus::ingest::{range_files, DayOutcome, IngestArgs, IngestMode, Progress};
use std::io::Write;

fn day(s: &str) -> Date {
    Date::parse(s).unwrap()
}

// --- Bars ---

#[test]
fn test_timeframe_to_ns() {
    assert_eq!(timeframe_to_ns("15m"), 900_000_000_000);
    assert_eq!(timeframe_to_ns("1h"), 3_600_000_000_000);
    assert_eq!(timeframe_to_ns("1d"), 86_400_000_000_000);
}

#[test]
fn test_ns_to_tf() {
    assert_eq!(ns_to_tf(900_000_000_000), "15m");
    assert_eq!(ns_to_tf(3_600_000_000_000), "1h");
}

#[test]
fn test_anchor_interval() {
    assert_eq!(BarIngester::compute_anchor_interval(900_000_000_000), 10);
    assert_eq!(BarIngester::compute_anchor_interval(60_000_000_000), 10);
}

#[test]
fn test_fnv1a_hash() {
    let h = fnv1a_hash("BTCUSDT");
    assert_ne!(h, 0);
}

#[test]
fn timeframes_read_back() {
    for tf in ["1m", "5m", "15m", "1h", "4h", "1d"] {
        assert_eq!(ns_to_tf(timeframe_to_ns(tf)), tf);
    }
}

#[test]
fn symbols_are_written_as_each_exchange_wants_them() {
    assert_eq!(normalize_okx_symbol("BTCUSDT").unwrap(), "BTC-USDT");
    assert_eq!(BarIngester::okx_futures("1h").format_inst_id("BTCUSDT").unwrap(), "BTC-USDT-SWAP");
    assert_eq!(BarIngester::okx_futures("1h").format_inst_id("BTC-USDT").unwrap(), "BTC-USDT-SWAP");
    assert_eq!(BarIngester::okx_spot("1h").format_inst_id("BTC-USDT").unwrap(), "BTC-USDT");
    assert_eq!(normalize_okx_symbol("ABCDEF").unwrap(), "ABC-DEF");
    assert_eq!(ExchangeKind::Bybit.interval_key("1h"), "60");
    assert_eq!(ExchangeKind::Binance.interval_key("1h"), "1h");
    assert_eq!(
        BarIngester::binance_spot("15m").binance_url("btcusdt", "15m", 7, None).unwrap(),
        "https://api.binance.com/api/v3/klines?symbol=BTCUSDT&interval=15m&startTime=7&limit=1000"
    );
    let inverse = BarIngester::new(ExchangeKind::Binance, InstrumentType::Inverse, 60_000_000_000);
    assert!(inverse.binance_url("BTCUSD", "1m", 0, None).is_err());
    assert!(BarIngester::okx_spot("1h").okx_url("BTCUSDT", "1h", 5).unwrap().contains("before=5"));
    let path = BarIngester::bybit_futures("15m").year_path("/out", "BTCUSDT", 2025);
    assert_eq!(path, "/out/bybit/futures/btcusdt/15m/2025.tvcb");
}

#[test]
fn requests_walk_to_the_end() {
    let hour: u64 = 3_600_000;
    let mut f = YearFetch::new(ExchangeKind::Binance, 0, 3 * hour, timeframe_to_ns("1h"));
    assert_eq!(f.next_request(), Some(0));
    f.take_batch(2, hour * 1_000_000);
    assert_eq!(f.next_request(), Some(2 * hour));
    f.take_batch(2, 3 * hour * 1_000_000);
    assert_eq!(f.next_request(), None);
    assert!(f.outcome("BTCUSDT").is_ok());

    let mut f = YearFetch::new(ExchangeKind::Okx, 0, 3 * hour, timeframe_to_ns("1h"));
    assert_eq!(f.next_request(), Some(3 * hour));
    f.take_batch(0, 0);
    assert_eq!(f.next_request(), None);
    let e = f.outcome("BTCUSDT").unwrap_err();
    assert!(matches!(e, BarIngesterError::NoData(_)));
    assert!(e.message().starts_with("no data for "));
}

fn text(s: &str) -> Cell {
    Cell::Text(s.to_string())
}

#[test]
fn rows_of_exchanges_have_times() {
    let row: Vec<Cell> = vec![
        Cell::Number(Some(1_700_000_000_000)),
        text("1"),
        text("2"),
        text("3"),
        text("4"),
        text("5"),
        Cell::Number(Some(6)),
        text("7"),
        Cell::Number(Some(42)),
        text("9"),
        text("10"),
        text("11"),
    ];
    assert_eq!(binance_row(&row, true), Some((1_700_000_000_000, 9)));
    assert!(binance_row(&vec![], false).is_none());
    assert!(bybit_row(&vec![Cell::Other]).is_none());
    assert!(okx_row(&vec![]).is_none());
    assert_eq!(event_ns(3), Some(3_000_000));
    assert_eq!(event_ns(u64::MAX), None);
    assert_eq!(year_of_bar(1_735_689_600_000_000_000), 2025);
}

#[test]
fn bar_files_have_a_front() {
    let h = BarIngester::binance_spot("15m").file_header("/out/BTCUSDT.tvcb", 1_735_689_600_000_000_000);
    assert_eq!(h.year, 2025);
    assert_eq!(h.timeframe_ns, 900_000_000_000);
    assert_eq!(h.instrument_hash, fnv1a_hash("BTCUSDT"));
}

#[test]
fn ranges_of_years() {
    let v = year_chunks(day("2025-03-01"), day("2025-03-02")).unwrap();
    assert_eq!(v.len(), 1);
    assert_eq!(v[0].year, 2025);
    assert_eq!(v[0].end_ms - v[0].start_ms, 2 * 86_400_000 - 1);
    let v = year_chunks(day("2023-12-30"), day("2025-01-02")).unwrap();
    let years: Vec<i32> = v.iter().map(|c| c.year).collect();
    assert_eq!(years, vec![2023, 2024, 2025]);
    assert_eq!(v[0].end_ms - v[0].start_ms, 2 * 86_400_000 - 1);
    assert_eq!(v[1].start_ms, 1_704_067_200_000);
    assert_eq!(v[1].end_ms - v[1].start_ms, 366 * 86_400_000 - 1);
    assert_eq!(v[2].start_ms, 1_735_689_600_000);
    assert_eq!(v[2].end_ms - v[2].start_ms, 2 * 86_400_000 - 1);
    assert!(year_chunks(day("2025-03-02"), day("2025-03-01")).unwrap().is_empty());
}

// --- Trades ---

#[test]
fn test_normalize_timestamp_ns() {
    assert_eq!(normalize_timestamp_ns(1735689600010866_u64), 1735689600010866000_u64);
    assert_eq!(normalize_timestamp_ns(1640995200000000000_u64), 1640995200000000000_u64);
}

#[test]
fn binance_test_parse_price_to_int() {
    let p = parse_price_to_int("93576.00000000", 9);
    assert_eq!(p, Some(93576000000000));
    let p2 = parse_price_to_int("50000.12345678", 9);
    assert_eq!(p2, Some(50000123456780));
}

#[test]
fn binance_test_parse_qty_to_int() {
    let q = parse_qty_to_int("0.00136000", 9);
    assert_eq!(q, Some(1360000));
    let q2 = parse_qty_to_int("0.003", 9);
    assert_eq!(q2, Some(3000000));
}

#[test]
fn parsers_test_parse_price_to_int() {
    assert_eq!(parsers::parse_price_to_int("93576.00000000", 9), 93_576_000_000_000);
    assert_eq!(parsers::parse_price_to_int("50000.12345678", 9), 50_000_123_456_780);
    assert_eq!(parsers::parse_price_to_int("93530.00", 9), 93_530_000_000_000);
    assert_eq!(parsers::parse_price_to_int("50000", 9), 50_000_000_000_000);
}

#[test]
fn parsers_test_parse_qty_to_int() {
    assert_eq!(parsers::parse_qty_to_int("0.00136000", 9), 1_360_000);
    assert_eq!(parsers::parse_qty_to_int("0.003", 9), 3_000_000);
    assert_eq!(parsers::parse_qty_to_int("1.5", 9), 1_500_000_000);
}

fn zip_of(files: &[(&str, &str)]) -> Vec<u8> {
    let mut zip = zip::ZipWriter::new(std::io::Cursor::new(Vec::new()));
    for (name, contents) in files {
        zip.start_file(*name, zip::write::SimpleFileOptions::default()).unwrap();
        zip.write_all(contents.as_bytes()).unwrap();
    }
    zip.finish().unwrap().into_inner()
}

const CSV: &str = "id,price,qty,quote_qty,time,is_buyer_maker,is_best_match\n\
1,100.5,2,201,1735689600010866,true,true\n\
2,101,0.25,25.25,1735689600010900,false,true\n\
3,102\n";

#[test]
fn test_binance_downloader() {
    let d = BinanceDownloader::new();
    assert_eq!(
        d.url("BTCUSDT", day("2025-01-01")).unwrap(),
        "https://data.binance.vision/data/spot/daily/trades/BTCUSDT/BTCUSDT-trades-2025-01-01.zip"
    );
    let data = d
        .read_archive("BTCUSDT", &zip_of(&[("a.csv", CSV)]), day("2025-01-01"))
        .unwrap()
        .unwrap();
    assert_eq!(data.symbol, "BTCUSDT");
    assert_eq!(data.venue, Venue::Spot);
    assert_eq!(
        data.trades,
        vec![
            (1735689600010866000, 100_500_000_000, 2_000_000_000),
            (1735689600010900000, 101_000_000_000, 250_000_000),
        ]
    );
}

#[test]
fn broken_archives_are_refused() {
    let d = BinanceDownloader::new().with_precision(2);
    assert_eq!(d.name(), "Binance Historical Archive");
    let e = d.parse_zip(b"no archive", day("2025-01-01")).unwrap().unwrap_err();
    assert!(matches!(e, DownloadError::Parse(_)));
    let e = d.parse_zip(&zip_of(&[]), day("2025-01-01")).unwrap().unwrap_err();
    assert!(matches!(e, DownloadError::Parse(_)));
    let bad = "h\n1,1,1,1,later,true,true\n";
    assert!(d.parse_csv(bad, day("2025-01-01")).unwrap().is_err());
    assert_eq!(d.parse_csv("h\n1,1.5,1,1,1735689600010866,true,true\n", day("2025-01-01"))
        .unwrap().unwrap().trades, vec![(1735689600010866000, 150, 100)]);
    assert!(check_status(200, "u").is_ok());
    assert_eq!(check_status(404, "u").unwrap_err().message(), "HTTP 404: Failed to fetch u");
}

fn gz_of(contents: &str) -> Vec<u8> {
    let mut gz = flate2::write::GzEncoder::new(Vec::new(), flate2::Compression::default());
    gz.write_all(contents.as_bytes()).unwrap();
    gz.finish().unwrap()
}

#[test]
fn test_bybit_downloader() {
    let d = BybitDownloader::new();
    let rows = d.rows(&gz_of(
        "timestamp,symbol,side,size,price,tickDirection\n\
         1735689600.5,BTCUSDT,Buy,0.5,93530.00,PlusTick\n\
         1735689601,BTCUSDT,Sell,1,93531,MinusTick\n",
    ));
    assert_eq!(rows.len(), 2);
    assert_eq!(rows[0].as_ref().unwrap()[4], "93530.00");
    let times = vec![Some(1_735_689_600_500_000_000), Some(1_735_689_601_000_000_000)];
    let data = d.read_trading("BTCUSDT", &rows, &times, day("2025-01-01")).unwrap().unwrap();
    assert_eq!(data.venue, Venue::Linear);
    assert_eq!(data.exchange, Exchange::Bybit);
    assert_eq!(
        data.trades,
        vec![
            (1_735_689_600_500_000_000, 93_530_000_000_000, 500_000_000),
            (1_735_689_601_000_000_000, 93_531_000_000_000, 1_000_000_000),
        ]
    );
}

#[test]
fn broken_rows_of_bybit() {
    let d = BybitDownloader::new().with_precision(9);
    assert!(d.trading_url("BTCUSDT", day("2025-01-01")).unwrap().ends_with("BTCUSDT2025-01-01.csv.gz"));
    assert!(d.spot_url("BTCUSDT", day("2025-01-01")).unwrap().contains("2025-01"));
    let rows = d.rows(&gz_of("h\n2025-01-01 00:00:00,a,b,1,2,c\n2025-01-02 00:00:00,a,b,1,2,c\n"));
    let times = vec![Some(5), Some(6)];
    let data = d.read_spot("BTCUSDT", &rows, &times, day("2025-01-02")).unwrap().unwrap();
    assert_eq!(data.trades.len(), 1);
    assert_eq!(data.trades[0].0, 6);
    let e = d.read_trading("BTCUSDT", &rows, &vec![None, None], day("2025-01-01")).unwrap();
    assert!(matches!(e, Err(DownloadError::Parse(_))));
    let short = d.rows(&gz_of("h\n1,2\n"));
    assert!(d.read_trading("BTCUSDT", &short, &vec![Some(1)], day("2025-01-01")).is_none());
}

struct Fixed;

impl DownloadSource for Fixed {
    fn source_exchange(&self) -> Exchange {
        Exchange::Okx
    }

    fn name(&self) -> &str {
        "fixed"
    }

    fn exchange(&self) -> Exchange {
        Exchange::Okx
    }

    fn download(&self, symbol: &str, date: Date) -> Result<RawTradeData, DownloadError> {
        Ok(RawTradeData {
            exchange: Exchange::Okx,
            venue: Venue::Spot,
            symbol: symbol.to_string(),
            date,
            trades: vec![(1, 2, 3)],
        })
    }
}

#[test]
fn downloads_go_to_the_source_of_the_exchange() {
    let mut d: Downloader<Fixed> = Downloader::new();
    assert!(!d.has_source(Exchange::Okx));
    d.register(Fixed);
    let data = d.download(Exchange::Okx, Venue::Swap, "BTCUSDT", day("2025-01-01")).unwrap();
    assert_eq!(data.venue, Venue::Swap);
    let e = d.download(Exchange::Bybit, Venue::Spot, "BTCUSDT", day("2025-01-01")).unwrap_err();
    assert!(e.message().starts_with("Unsupported: "));
}

// --- Files ---

#[test]
fn names_of_files_hold_dates() {
    assert_eq!(parse_date_from_stem("2025-01-02"), Some(day("2025-01-02")));
    assert_eq!(parse_date_from_stem("BTCUSDT_2025-01-02"), Some(day("2025-01-02")));
    assert_eq!(parse_date_from_stem("notes"), None);
    assert!(is_valid_tvc_magic(b"TVC3"));
    assert!(!is_valid_tvc_magic(b"TVC"));
    assert_eq!(Exchange::from_str("BYBIT").unwrap(), Exchange::Bybit);
    assert!(Exchange::from_str("nyse").is_err());
}

fn found(date: &str, head: &[u8]) -> FoundFile {
    FoundFile {
        exchange_dir: "binance".to_string(),
        venue_dir: "spot".to_string(),
        symbol_dir: "BTCUSDT".to_string(),
        path: format!("/data/binance/spot/BTCUSDT/{}.tvc", date),
        head: head.to_vec(),
        size_bytes: 9,
    }
}

#[test]
fn scans_take_the_files_of_known_venues() {
    let venues = vec![VenueDir { exchange_dir: "binance".to_string(), venue_dir: "spot".to_string() }];
    let files = vec![found("2025-01-01", b"TVC3"), found("2025-01-03", b"TVC3"), found("2025-01-02", b"zip")];
    let c = Catalog::scan("/data", &venues, &files).unwrap();
    let (x, v) = (Exchange::Binance, Venue::Spot);
    assert!(c.contains(x, v, "BTCUSDT", day("2025-01-01")));
    assert_eq!(c.get(x, v, "BTCUSDT", day("2025-01-03")).unwrap().size_bytes, 9);
    assert_eq!(c.files_for(x, v, "BTCUSDT").len(), 2);
    assert_eq!(c.files_in_range(x, v, "BTCUSDT", day("2025-01-02"), day("2025-01-05")).len(), 1);
    let missing = c.missing_dates(x, v, "BTCUSDT", day("2025-01-01"), day("2025-01-03"));
    assert_eq!(missing, vec![day("2025-01-02")]);
    let bad = vec![VenueDir { exchange_dir: "binance".to_string(), venue_dir: "moon".to_string() }];
    assert!(Catalog::scan("/data", &bad, &vec![]).is_err());
}

#[test]
fn files_put_in_are_found() {
    let mut c = Catalog::scan("/data", &vec![], &vec![]).unwrap();
    let file = |size_bytes: u64| TvcFile {
        exchange: Exchange::Okx,
        venue: Venue::Swap,
        symbol: "X".to_string(),
        date: day("2025-01-01"),
        path: "p".to_string(),
        size_bytes,
    };
    c.insert(file(1));
    c.insert(file(2));
    assert_eq!(c.files_for(Exchange::Okx, Venue::Swap, "X").len(), 1);
    let m: DataManager<Fixed> = DataManager::new("/data", c);
    assert!(m.has_file(Exchange::Okx, Venue::Swap, "X", day("2025-01-01")));
    assert!(!m.has_file(Exchange::Okx, Venue::Spot, "X", day("2025-01-01")));
    let e = m.download(Exchange::Okx, Venue::Swap, "X", day("2025-01-02")).unwrap_err();
    assert!(matches!(e, DataManagerError::NoDownloader));
}

fn config(download_on_miss: bool) -> DataManagerConfig {
    DataManagerConfig {
        data_root: "/data".to_string(),
        exchange: Exchange::Binance,
        venue: Venue::Spot,
        symbol: "BTCUSDT".to_string(),
        start_date: day("2025-01-01"),
        end_date: day("2025-01-02"),
        download_on_miss,
    }
}

#[test]
fn files_are_asked_for_day_by_day() {
    assert_eq!(
        config(true).all_tvc_paths().unwrap(),
        vec!["/data/binance/spot/BTCUSDT/2025-01-01.tvc", "/data/binance/spot/BTCUSDT/2025-01-02.tvc"]
    );
    let mut load = RingLoad::start(&config(true)).unwrap();
    assert_eq!(load.pending().unwrap(), "/data/binance/spot/BTCUSDT/2025-01-01.tvc");
    assert_eq!(load.take(true).unwrap(), None);
    assert_eq!(load.take(false).unwrap(), Some(day("2025-01-02")));
    assert!(load.pending().is_none());
    assert_eq!(load.files().unwrap().len(), 2);

    let mut load = RingLoad::start(&config(false)).unwrap();
    let e = load.take(false).unwrap_err();
    assert_eq!(
        e.message(),
        "TVC3 file not found: \"/data/binance/spot/BTCUSDT/2025-01-01.tvc\""
    );
    assert!(present_files(vec![], &vec![]).is_err());
}

#[test]
fn bars_come_from_one_file_a_year() {
    let q = BarRequest {
        exchange: Exchange::Binance,
        instrument_type: InstrumentType::Spot,
        symbol: "BTCUSDT".to_string(),
        timeframe: "15m".to_string(),
        start_date: day("2024-12-31"),
        end_date: day("2025-01-02"),
        download_on_miss: true,
    };
    let files = q.candidates("/data").unwrap();
    assert_eq!(files.len(), 2);
    assert!(files[0].contains("2024") && files[1].contains("2025"));
    match q.decide(files, &vec![false, true], false) {
        Some(Ok(BarStep::Read { files, start_ns, end_ns })) => {
            assert_eq!(files.len(), 1);
            assert_eq!(end_ns - start_ns, 3 * 86_400_000_000_000);
        }
        _ => panic!("one file is read"),
    }
    assert!(matches!(q.decide(vec![], &vec![], false), Some(Ok(BarStep::Fetch))));
    let e = q.decide(vec![], &vec![], true).unwrap().unwrap_err();
    assert!(e.message().starts_with("TVCB file not found: no TVCB files for binance spot BTCUSDT"));
    assert_eq!(q.ingester().unwrap(), BarIngester::binance_spot("15m"));
}

#[test]
fn trades_become_ticks_of_a_file() {
    let plan = TvcBuilder::new("/data")
        .with_anchor_interval(5)
        .with_precision(9)
        .build_from_trades(Exchange::Okx, Venue::Swap, "X", day("2025-01-01"), vec![(1, 2, 3), (4, 5, 6)])
        .unwrap();
    assert_eq!(plan.path, "/data/okx/swap/X/2025-01-01.tvc");
    assert_eq!(plan.ticks[1].price_int, 5);
    assert_eq!(plan.ticks[1].sequence, 1);
    let r = plan.result(77);
    assert_eq!((r.num_trades, r.size_bytes), (2, 77));
}

#[test]
fn nothing_is_loaded_without_files() {
    assert!(matches!(DataLoader::load_range(vec![]), Err(LoadError::NoData)));
    let none = DataLoader::files_in_range(&vec![], Exchange::Okx, "X");
    assert!(matches!(none, Err(LoadError::NoData)));
    let one = DataLoader::files_in_range(&vec!["p".to_string()], Exchange::Okx, "X").unwrap();
    assert_eq!(one[0].1.exchange, "okx");
}

// --- Dates ---

#[test]
fn dates_follow_each_other() {
    let days = dates_between(day("2024-02-28"), day("2024-03-01"));
    let texts: Vec<String> = days.iter().map(|d| d.to_text().unwrap()).collect();
    assert_eq!(texts, vec!["2024-02-28", "2024-02-29", "2024-03-01"]);
    assert_eq!(day("2024-02-29").year(), Some(2024));
    assert_eq!(Date::from_ymd(2025, 2, 29), None);
    assert_eq!(Date::parse("2025-13-01"), None);
    assert_eq!(day("1970-01-02").utc_ns(), 86_400_000_000_000);
    assert_eq!(day("1970-01-02").utc_millis(), 86_400_000);
}

// --- Programs ---

#[test]
fn calibration_holds_a_fifth_out() {
    let rows = read_rows("order_size_ticks,vpin,actual_impact_bps\n1, 0.5 ,2\n\n3,0.1,4\n");
    assert_eq!(rows.len(), 2);
    assert_eq!(rows[0].vpin.trim(), "0.5");
    assert_eq!(fit_count(10), Ok(8));
    assert_eq!(fit_count(25), Ok(20));
    assert_eq!(fit_count(9), Err("Need at least 10 rows for calibration, got 9".to_string()));
    assert!(holdout_passes(4, 5));
    assert!(!holdout_passes(3, 5));
}

fn args(a: &[&str]) -> IngestArgs {
    IngestArgs::parse(&a.iter().map(|s| s.to_string()).collect())
}

#[test]
fn arguments_choose_what_is_done() {
    let a = args(&["ingest", "--symbol", "ETHUSDT", "--start", "2025-01-01", "--end", "2025-01-02"]);
    assert_eq!(a.symbol, "ETHUSDT");
    assert!(matches!(a.mode(), IngestMode::Download));
    assert_eq!(a.precision, 9);
    assert!(matches!(args(&["ingest"]).mode(), IngestMode::Usage));
    let files = range_files("ETHUSDT", "2025-01-01", "2025-01-02").unwrap();
    assert_eq!(files.len(), 2);
    assert_eq!(files[1].tvc_name, "ETHUSDT_2025-01-02.tvc");
    assert!(range_files("X", "soon", "2025-01-02").unwrap_err().starts_with("Invalid start"));
    assert!(range_files("X", "2025-01-02", "soon").unwrap_err().starts_with("Invalid end"));
}

#[test]
fn progress_counts_what_was_written() {
    let mut p = Progress::new();
    assert!(p.count(&DayOutcome::Written(5)));
    assert!(p.count(&DayOutcome::Status("404".to_string())));
    assert!(p.count(&DayOutcome::Written(7)));
    assert_eq!(p.summary(), "\n✓ Done — 2 files, 12 total ticks");
    assert_eq!(DayOutcome::Failed("x".to_string()).message(), "ERROR: x");
    assert_eq!(DayOutcome::Status("404".to_string()).message(), "SKIP (HTTP 404)");
}
