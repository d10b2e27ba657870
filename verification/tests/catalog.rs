use nexus::catalog::{
    checksum_text, hex_text, symbol_id, Catalog, CatalogEntry, CatalogError, FileCheck,
};
use nexus::instrument::fnv1a_hash;

fn make_entry(symbol: &str, start: u64, end: u64, num_ticks: u64, path: &str) -> CatalogEntry {
    CatalogEntry {
        instrument_id: fnv1a_hash(symbol.to_uppercase().as_bytes()),
        symbol: symbol.to_string(),
        start_time_ns: start,
        end_time_ns: end,
        num_ticks,
        file_path: path.to_string(),
        checksum: "abcd1234".to_string(),
        created_at_ns: 0,
        source_adapter: String::new(),
        is_complete: true,
        partial_range: None,
    }
}

#[test]
fn test_merge_entries_non_overlapping() {
    let entries = vec![
        make_entry("BTCUSDT", 1000, 2000, 1000, "/a.tvc"),
        make_entry("BTCUSDT", 3000, 4000, 1000, "/b.tvc"),
    ];
    assert!(Catalog::can_merge(&entries));
    let merged = Catalog::merge_entries(&entries);
    assert_eq!(merged.len(), 2);
}

#[test]
fn test_merge_entries_overlapping() {
    let entries = vec![
        make_entry("BTCUSDT", 1000, 2000, 1000, "/a.tvc"),
        make_entry("BTCUSDT", 1500, 2500, 1000, "/b.tvc"),
    ];
    let merged = Catalog::merge_entries(&entries);
    assert_eq!(merged.len(), 1);
    assert_eq!(merged[0].start_time_ns, 1000);
    assert_eq!(merged[0].end_time_ns, 2500);
    assert_eq!(merged[0].num_ticks, 2000);
}

#[test]
fn merged_entries_stay_as_they_are() {
    let merged = Catalog::merge_entries(&[
        make_entry("A", 1, 3, 2, "/y"),
        make_entry("A", 2, 6, 4, "/z"),
        make_entry("A", 7, 9, 1, "/x"),
    ]);
    assert_eq!(merged.len(), 1);
    assert_eq!((merged[0].start_time_ns, merged[0].end_time_ns, merged[0].num_ticks), (1, 9, 7));
    let again = Catalog::merge_entries(&merged);
    assert_eq!(again.len(), 1);
    assert_eq!(again[0].num_ticks, 7);
}

#[test]
fn test_query_returns_matching_entries() {
    let mut catalog = Catalog::new("/tmp/catalog.json");
    catalog.add_entry(make_entry("BTCUSDT", 1000, 2000, 100, "/a.tvc"));
    catalog.add_entry(make_entry("BTCUSDT", 3000, 4000, 100, "/b.tvc"));
    catalog.add_entry(make_entry("ETHUSDT", 1000, 2000, 100, "/c.tvc"));
    let loaded = Catalog::from_entries(catalog.path(), &catalog.all_entries());
    let results = loaded.query("BTCUSDT", 1500, 3500);
    assert_eq!(results.len(), 2);
}

#[test]
fn test_save_and_load_roundtrip() {
    let mut catalog = Catalog::new("/tmp/catalog.json");
    catalog.add_entry(make_entry("BTCUSDT", 1000, 5000, 1000, "/btc.tvc"));
    catalog.add_entry(make_entry("ETHUSDT", 2000, 6000, 500, "/eth.tvc"));
    let loaded = Catalog::from_entries(catalog.path(), &catalog.all_entries());
    assert_eq!(loaded.len(), 2);
    let btc = loaded.query("BTCUSDT", 0, u64::MAX);
    assert_eq!(btc.len(), 1);
    assert_eq!(btc[0].symbol, "BTCUSDT");
    assert_eq!(btc[0].num_ticks, 1000);
}

#[test]
fn test_fnv1a_stable() {
    let id1 = fnv1a_hash(b"BTCUSDT");
    let id2 = fnv1a_hash(b"BTCUSDT");
    assert_eq!(id1, id2);
    assert_ne!(id1, 0);
}

#[test]
fn test_entry_overlaps() {
    let entry = make_entry("BTCUSDT", 1000, 2000, 100, "/a.tvc");
    assert!(entry.overlaps(500, 1500));
    assert!(entry.overlaps(1000, 2000));
    assert!(entry.overlaps(1500, 2500));
    assert!(!entry.overlaps(0, 500));
    assert!(!entry.overlaps(3000, 4000));
}

#[test]
fn test_validate_entry_nonexistent_file() {
    let entry = make_entry("BTCUSDT", 1000, 2000, 100, "/nonexistent/path/to/file.tvc");
    let result = entry.judge(FileCheck::Missing("no such file".to_string()));
    assert!(matches!(result, Err(CatalogError::TvcOpenError(_))));
}

#[test]
fn sound_files_pass_and_others_do_not() {
    let entry = make_entry("BTCUSDT", 1000, 2000, 100, "/a.tvc");
    assert!(entry.judge(FileCheck::Sound).is_ok());
    assert!(entry.judge_for_load(FileCheck::Sound).is_ok());
    let e = entry.judge(FileCheck::Sha256Mismatch).unwrap_err();
    assert!(matches!(e, CatalogError::ChecksumMismatch(_)));
    assert!(!e.message().is_empty());
    assert!(entry.judge(FileCheck::Failed("bad".to_string())).is_err());
}

#[test]
fn test_streaming_ingestion_cycle() {
    let mut catalog = Catalog::new("/tmp/catalog.json");
    let instrument_id = fnv1a_hash(b"BTCUSDT");
    let mut entry = make_entry("BTCUSDT", 1000, 1000, 0, "/dummy.tvc");
    entry.is_complete = false;
    entry.partial_range = Some((1000, 2000));
    catalog.add_entry(entry);

    catalog.update_entry(instrument_id, 3000);
    let latest = catalog.get_instrument("BTCUSDT").pop().unwrap();
    assert_eq!(latest.partial_range, Some((1000, 3000)));
    assert!(!latest.is_complete);

    catalog.finalize_entry(instrument_id);
    let latest = catalog.get_instrument("BTCUSDT").pop().unwrap();
    assert!(latest.is_complete, "entry should be complete after finalize");
    assert!(latest.partial_range.is_none(), "partial_range should be None after finalize");
}

#[test]
fn checksums_are_hexadecimal_digits() {
    assert_eq!(hex_text(&vec![0, 15, 255]), "000fff");
    assert_eq!(
        checksum_text(b"abc"),
        "ba7816bf8f01cfea414140de5dae2223b00361a396177a9cb410ff61f20015ad"
    );
    assert_eq!(symbol_id("btcusdt"), fnv1a_hash(b"BTCUSDT"));
}
