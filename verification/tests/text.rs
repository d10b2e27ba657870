use nexus::catalog::symbol_id;
use nexus::data_manager::types::Exchange;
use nexus::date::Date;
use nexus::decimals::{scale, shorten};
use nexus::instrument::{fnv1a_hash, InstrumentId};
use nexus::path::{extension_of, join, name_of, stem_of};
use nexus::text::{
    decimal_text, lines_of, parse_signed_text, parse_unsigned_text, signed_text, split_text,
    text_before, trim_text,
};

#[test]
fn numbers_read_back() {
    for n in [0u64, 7, 10, 4_294_967_296, u64::MAX] {
        assert_eq!(parse_unsigned_text(&decimal_text(n), u64::MAX), Some(n));
    }
    assert_eq!(signed_text(-12), "-12");
    assert_eq!(signed_text(i32::MIN), "-2147483648");
    assert_eq!(parse_signed_text("-5"), Some(-5));
    assert_eq!(parse_unsigned_text("256", 255), None);
    assert_eq!(parse_unsigned_text("", 255), None);
}

#[test]
fn texts_are_taken_apart() {
    assert_eq!(split_text("a,,b", ','), vec!["a", "", "b"]);
    assert_eq!(split_text("", ','), vec![""]);
    assert_eq!(lines_of("a\r\nb\n"), vec!["a", "b"]);
    assert_eq!(trim_text(" \u{3000}x y\t"), "x y");
    assert_eq!(symbol_id("straße"), fnv1a_hash(b"STRASSE"));
    assert_eq!(Exchange::from_str("OKX").unwrap(), Exchange::Okx);
    assert!(text_before("a", "b"));
    assert!(text_before("a", "aa"));
    assert!(!text_before("b", "a"));
}

#[test]
fn paths_are_put_together() {
    assert_eq!(join("/data", "x"), "/data/x");
    assert_eq!(join("/data", "/x"), "/x");
    assert_eq!(name_of("/data/x.tvc"), "x.tvc");
    assert_eq!(stem_of("x.tar.gz"), "x.tar");
    assert_eq!(extension_of("x.tar.gz"), Some("gz".to_string()));
    assert_eq!(extension_of(".gz"), None);
}

#[test]
fn scaling_is_undone() {
    assert_eq!(scale(-25, 3), Some(-25_000));
    assert_eq!(scale(i64::MAX, 1), None);
    assert_eq!(shorten(-25_000, 3), -25);
}

#[test]
fn instruments_read_back() {
    let id = InstrumentId::parse("BTCUSDT.BINANCE").unwrap();
    assert_eq!(id.to_text(), "BTCUSDT.BINANCE");
    assert!(id.same(&InstrumentId::new("BTCUSDT", "BINANCE")));
    assert!(InstrumentId::parse("BTCUSDT").is_none());
}

#[test]
fn calendar_ends() {
    assert!(Date { days: i32::MAX }.to_text().is_none());
    assert!(Date { days: i32::MAX }.year().is_none());
}
