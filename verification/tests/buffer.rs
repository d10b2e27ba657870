use nexus::buffer::bar_aggregation::{
    Aggregator, BarPeriod, TickBarAggregator, TimeBarAggregator, ValueBarAggregator,
    VolumeBarAggregator,
};
use nexus::buffer::bar_building::{
    build_bars, build_bars_with_type, can_build_bars, try_build_bars_with_type, AggregatorFactory,
    BarBuffer,
};
use nexus::buffer::bar_spec::{BarAggregation, BarType, PriceType};
use nexus::buffer::buffer_set::{RingBufferSet, TickBufferSet};
use nexus::buffer::ring_buffer::{RingBuffer, RingBufferError};
use nexus::buffer::tick_buffer::{InstrumentId as TickInstrument, TickBuffer, TickBufferError};
use nexus::buffer::tvc::{zigzag_decode, TradeTick, TvcHeader};
use nexus::instrument::{fnv1a_hash, InstrumentId};

const START: u64 = 1_735_689_600_000_000_000;

fn btc() -> InstrumentId {
    InstrumentId::new("BTCUSDT", "BINANCE")
}

fn eth() -> InstrumentId {
    InstrumentId::new("ETHUSDT", "BINANCE")
}

fn tick(i: u64, price: i64, size: i64, side: u8) -> TradeTick {
    TradeTick {
        timestamp_ns: START + i * 1_000_000_000,
        price_int: price,
        size_int: size,
        side,
        flags: 1,
        sequence: i as u32,
    }
}

fn put_anchor(bytes: &mut Vec<u8>, t: &TradeTick) {
    bytes.extend_from_slice(&t.timestamp_ns.to_le_bytes());
    bytes.extend_from_slice(&t.price_int.to_le_bytes());
    bytes.extend_from_slice(&t.size_int.to_le_bytes());
    bytes.push(t.side);
    bytes.push(t.flags);
    bytes.extend_from_slice(&t.sequence.to_le_bytes());
}

fn header(num_ticks: u64, anchors: u32, interval: u32, end: u64, index_offset: u64) -> TvcHeader {
    TvcHeader {
        magic: *b"TVC3",
        version: 2,
        instrument_id: 1,
        decimal_precision: 9,
        anchor_interval: interval,
        num_ticks,
        num_anchors: anchors,
        start_time_ns: START,
        end_time_ns: end,
        index_offset,
    }
}

/// A file in which every tick is a full record.
fn file(ticks: &[TradeTick]) -> (Vec<u8>, TvcHeader) {
    let mut bytes = vec![0u8; 128];
    let mut offsets = Vec::new();
    for t in ticks {
        offsets.push(bytes.len() as u64);
        put_anchor(&mut bytes, t);
    }
    let index_offset = bytes.len() as u64;
    bytes.extend_from_slice(&(ticks.len() as u32).to_le_bytes());
    for (i, o) in offsets.iter().enumerate() {
        bytes.extend_from_slice(&(i as u64).to_le_bytes());
        bytes.extend_from_slice(&o.to_le_bytes());
    }
    let end = ticks.last().map_or(START, |t| t.timestamp_ns);
    let h = header(ticks.len() as u64, ticks.len() as u32, 1, end, index_offset);
    (bytes, h)
}

fn ring(ticks: &[TradeTick], id: InstrumentId) -> RingBuffer {
    let (bytes, h) = file(ticks);
    RingBuffer::from_bytes(bytes, h, id).unwrap()
}

/// A file of one full record and `n` ticks behind it, each 7 microseconds and a price of 3 later.
fn grouped(first: &TradeTick, n: u64) -> (Vec<u8>, TvcHeader) {
    let mut bytes = vec![0u8; 128];
    put_anchor(&mut bytes, first);
    let packed: u64 = 7 | (6u64 << 17);
    for _ in 0..n {
        bytes.extend_from_slice(&packed.to_le_bytes());
    }
    let index_offset = bytes.len() as u64;
    bytes.extend_from_slice(&1u32.to_le_bytes());
    bytes.extend_from_slice(&0u64.to_le_bytes());
    bytes.extend_from_slice(&128u64.to_le_bytes());
    let h = header(n + 1, 1, 100, START + n * 7_000, index_offset);
    (bytes, h)
}

fn some_ticks(n: u64) -> Vec<TradeTick> {
    (0..n).map(|i| tick(i, 100_000 + i as i64, 10, (i % 2) as u8)).collect()
}

#[test]
fn test_bar_period_conversions() {
    assert_eq!(BarPeriod::OneSecond.as_ns(), 1_000_000_000);
    assert_eq!(BarPeriod::OneMinute.as_ns(), 60_000_000_000);
    assert_eq!(BarPeriod::FiveMinutes.as_ns(), 300_000_000_000);
    assert_eq!(BarPeriod::OneHour.as_ns(), 3_600_000_000_000);
}

#[test]
fn test_instrument_id_in_buffers() {
    let id1 = InstrumentId::new("BTCUSDT", "BINANCE");
    let id2 = InstrumentId::new("ETHUSDT", "BINANCE");
    assert_ne!(id1, id2);
    assert_eq!(id1, id1);
}

#[test]
fn test_ring_buffer_set_empty() {
    let files = Vec::new();
    assert!(RingBufferSet::indices_in_range(&files));
    let set = RingBufferSet::from_buffers(files);
    assert_eq!(set.num_instruments(), 0);
}

#[test]
fn test_instrument_id_in_buffer() {
    let id = InstrumentId::new("ETHUSDT", "BINANCE");
    assert_eq!(id.id, fnv1a_hash(b"ETHUSDT.BINANCE"));
}

#[test]
fn test_instrument_id_type() {
    let id: TickInstrument = 12345u64;
    assert_eq!(id, 12345);
}

#[test]
fn full_records_read_back() {
    let ticks = some_ticks(5);
    let rb = ring(&ticks, btc());
    assert_eq!(rb.num_ticks(), 5);
    assert_eq!(rb.num_anchors(), 5);
    assert_eq!(rb.first_anchor_offset(), 128);
    assert_eq!(rb.read_all().unwrap(), ticks);
    assert_eq!(rb.decode_anchor_at(128).unwrap(), ticks[0]);
    assert_eq!(rb.seek_to_tick(3).unwrap(), (128 + 3 * 30, 3));
}

#[test]
fn deltas_are_added_to_the_tick_before() {
    let first = tick(0, 1_000, 50, 0);
    let mut bytes = vec![0u8; 128];
    put_anchor(&mut bytes, &first);
    // 7 microseconds later, price 3 higher, size 2 lower, side 1, flag 1.
    let packed: u64 = 7 | (6u64 << 17) | (3u64 << 35) | (1u64 << 62) | (1u64 << 63);
    bytes.extend_from_slice(&packed.to_le_bytes());
    // The long form: 200 milliseconds later, price 70000 lower, size 5 higher.
    bytes.push(0xFF);
    bytes.extend_from_slice(&400_000u32.to_le_bytes());
    bytes.extend_from_slice(&139_999u32.to_le_bytes());
    bytes.extend_from_slice(&10u32.to_le_bytes());
    bytes.push(0);
    let index_offset = bytes.len() as u64;
    bytes.extend_from_slice(&1u32.to_le_bytes());
    bytes.extend_from_slice(&0u64.to_le_bytes());
    bytes.extend_from_slice(&128u64.to_le_bytes());
    let h = header(3, 1, 100, START + 1, index_offset);
    let rb = RingBuffer::from_bytes(bytes, h, btc()).unwrap();
    let all = rb.read_all().unwrap();
    assert_eq!(all.len(), 3);
    assert_eq!(all[1].timestamp_ns, START + 7_000);
    assert_eq!((all[1].price_int, all[1].size_int), (1_003, 48));
    assert_eq!((all[1].side, all[1].flags, all[1].sequence), (1, 1, 1));
    assert_eq!(all[2].timestamp_ns, START + 7_000 + 200_000_000);
    assert_eq!((all[2].price_int, all[2].size_int), (1_003 - 70_000, 53));
    let (t, n) = rb.decode_delta_at(158, &first).unwrap();
    assert_eq!((t, n), (all[1], 8));
    let (_, n) = rb.decode_delta_at(166, &all[1]).unwrap();
    assert_eq!(n, 14);
}

#[test]
fn zigzag_numbers() {
    assert_eq!(zigzag_decode(0), 0);
    assert_eq!(zigzag_decode(1), -1);
    assert_eq!(zigzag_decode(6), 3);
}

#[test]
fn bad_files_are_refused() {
    let (bytes, h) = file(&some_ticks(2));
    let e = |r: Result<RingBuffer, RingBufferError>| r.unwrap_err().message();
    assert_eq!(
        e(RingBuffer::from_bytes(vec![0; 100], header(0, 0, 1, 0, 0), btc())),
        "Invalid header: File too small"
    );
    let mut wrong = header(2, 2, 1, START, h.index_offset);
    wrong.magic = *b"TVC2";
    assert_eq!(
        e(RingBuffer::from_bytes(bytes.clone(), wrong, btc())),
        "Invalid header: Invalid TVC magic"
    );
    let mut wrong = header(2, 2, 1, START, h.index_offset);
    wrong.version = 3;
    assert_eq!(
        e(RingBuffer::from_bytes(bytes.clone(), wrong, btc())),
        "Invalid header: Unsupported version"
    );
    assert_eq!(
        e(RingBuffer::from_bytes(bytes.clone(), header(2, 2, 1, START, 0), btc())),
        "Invalid header: Invalid index offset"
    );
    let n = bytes.len() as u64;
    assert_eq!(
        e(RingBuffer::from_bytes(bytes.clone(), header(2, 2, 1, START, n - 2), btc())),
        "Invalid header: Index offset too close to end of file"
    );
    assert_eq!(
        e(RingBuffer::from_bytes(vec![0; 200], header(2, 2, 1, START, 128), btc())),
        "No anchors in file"
    );
    let cut = bytes[..bytes.len() - 8].to_vec();
    assert_eq!(
        e(RingBuffer::from_bytes(cut, header(2, 2, 1, START, h.index_offset), btc())),
        "Invalid header: Index extends beyond file"
    );
    let rb = ring(&some_ticks(2), btc());
    assert_eq!(
        rb.decode_anchor_at(100_000).unwrap_err().message(),
        "Seek failed: Beyond file bounds"
    );
    // The last full record stands at or before any later tick.
    assert_eq!(rb.seek_to_tick(9).unwrap(), (158, 1));
}

#[test]
fn decoded_ticks_carry_running_volumes() {
    let rb = ring(&some_ticks(10), btc());
    assert!(TickBuffer::can_decode(&rb, 5));
    let tb = TickBuffer::from_ring_buffer(&rb, 5).unwrap();
    assert_eq!(tb.num_ticks(), 10);
    let last = tb.get(9).unwrap();
    assert_eq!(last.cum_buy_volume + last.cum_sell_volume, 100);
    assert_eq!(tb.get(10), None);
    assert_eq!(tb.instrument_id(), btc());
    assert_eq!(TickBufferError::EmptyBuffer.message(), "Buffer has no ticks");
}

#[test]
fn sets_know_their_files() {
    let set = RingBufferSet::from_buffers(vec![
        (btc(), ring(&some_ticks(3), btc())),
        (btc(), ring(&some_ticks(2), btc())),
        (eth(), ring(&some_ticks(4), eth())),
    ]);
    assert_eq!(set.num_instruments(), 2);
    assert_eq!(set.buffers().len(), 3);
    let (rb, offset, local, slot) = set.iter_state_from_global_tick(4).unwrap();
    assert_eq!((rb.num_ticks(), offset, local, slot), (2, 128 + 30, 1, 1));
    assert_eq!(set.total_ticks(), 9);
    assert_eq!(set.num_anchors(), 9);
    assert_eq!(set.instrument_ids().len(), 2);
    assert_eq!(set.get(&eth()).unwrap().num_ticks(), 4);
    assert!(set.get(&InstrumentId::new("X", "Y")).is_none());
}

#[test]
fn merged_ticks_come_in_time_order() {
    let late: Vec<TradeTick> = (0..4).map(|i| tick(i * 2 + 1, 7, 1, 0)).collect();
    let early: Vec<TradeTick> = (0..4).map(|i| tick(i * 2, 5, 1, 0)).collect();
    let files = vec![(btc(), ring(&late, btc())), (eth(), ring(&early, eth()))];
    let set = TickBufferSet::from_ring_buffers(files, 50).unwrap();
    assert_eq!(set.num_instruments(), 2);
    assert_eq!(set.total_ticks(), 8);
    let mut cursor = set.merge_cursor();
    let mut times = Vec::new();
    assert!(cursor.has_next());
    while let Some(e) = cursor.advance() {
        times.push(e.tick.timestamp_ns);
    }
    assert_eq!(times.len(), 8);
    assert!(times.windows(2).all(|w| w[0] <= w[1]));
}

#[test]
fn every_file_of_an_instrument_is_walked() {
    let first: Vec<TradeTick> = (0..3).map(|i| tick(i, 5, 1, 0)).collect();
    let second: Vec<TradeTick> = (10..12).map(|i| tick(i, 6, 1, 0)).collect();
    let files = vec![(btc(), ring(&first, btc())), (btc(), ring(&second, btc()))];
    let set = TickBufferSet::from_ring_buffers(files, 50).unwrap();
    assert_eq!(set.num_instruments(), 1);
    let mut cursor = set.merge_cursor();
    let mut times = Vec::new();
    while let Some(e) = cursor.advance() {
        assert_eq!(e.instrument_id, btc());
        times.push((e.tick.timestamp_ns - START) / 1_000_000_000);
    }
    assert_eq!(times, vec![0, 1, 2, 10, 11]);
}

#[test]
fn ranges_hold_the_ticks_from_start_to_end() {
    let rb = ring(&some_ticks(10), btc());
    let at = |i: u64| START + i * 1_000_000_000;
    let within = |start: u64, end: u64| {
        assert!(rb.can_iter_range(start));
        let mut it = rb.iter_range(start, end);
        let mut times = Vec::new();
        while let Some(t) = it.next() {
            times.push((t.timestamp_ns - START) / 1_000_000_000);
        }
        times
    };
    assert_eq!(within(at(3), at(6)), vec![3, 4, 5]);
    assert_eq!(within(at(3) + 1, at(6) + 1), vec![4, 5, 6]);
    assert_eq!(within(0, at(2)), vec![0, 1]);
    assert!(within(at(20), u64::MAX).is_empty());
}

#[test]
fn ranges_start_behind_an_anchor_where_deltas_do() {
    let first = tick(0, 100_000, 10, 0);
    let (bytes, h) = grouped(&first, 2);
    let rb = RingBuffer::from_bytes(bytes, h, btc()).unwrap();
    let mut all = rb.iter();
    let times: Vec<u64> = std::iter::from_fn(|| all.next()).map(|t| t.timestamp_ns).collect();
    assert_eq!(times.len(), 3);
    let mut it = rb.iter_range(times[1], u64::MAX);
    assert_eq!(it.next().unwrap().timestamp_ns, times[1]);
    assert_eq!(it.next().unwrap().timestamp_ns, times[2]);
    assert!(it.next().is_none());
}

#[test]
fn a_time_is_found_at_the_anchor_before_it() {
    let rb = ring(&some_ticks(4), btc());
    let (offset, index, t) = rb.seek_to_time_ns(START + 2_500_000_000).unwrap();
    assert_eq!((offset, index), (128 + 60, 2));
    assert_eq!(t.timestamp_ns, START + 2_000_000_000);
    assert!(matches!(rb.seek_to_time_ns(START - 1), Err(RingBufferError::TickNotFound(_))));
}

#[test]
fn a_bucket_contains_the_times_between_its_ticks() {
    let tb = TickBuffer::from_ring_buffer(&ring(&some_ticks(10), btc()), 5).unwrap();
    assert_eq!(tb.bucket_size(), 2);
    let second = tb.bucket_vpin(1);
    assert!(second.is_some());
    assert_eq!(tb.vpin_at_timestamp(START + 2_000_000_000), second);
    assert_eq!(tb.vpin_at_timestamp(START + 2_500_000_000), second);
    assert_eq!(tb.vpin_at_timestamp(START + 3_000_000_000), second);
    assert_eq!(tb.vpin_at_timestamp(START + 3_500_000_000), None);
    assert_eq!(tb.vpin_at_timestamp(START - 1), None);
    assert_eq!(tb.vpin_at_timestamp(START + 60_000_000_000), None);
}

#[test]
fn minute_bars_close_at_the_minute() {
    let ticks: Vec<TradeTick> = (0..150).map(|i| tick(i, 1_000 + i as i64, 1, 0)).collect();
    let tb = TickBuffer::from_ring_buffer(&ring(&ticks, btc()), 50).unwrap();
    assert!(can_build_bars(&tb, BarPeriod::OneMinute));
    let bars = build_bars(&tb, BarPeriod::OneMinute);
    assert_eq!(bars.len(), 3);
    assert_eq!((bars[0].open, bars[0].close), (1_000, 1_059));
    assert_eq!((bars[1].open, bars[1].close), (1_060, 1_119));
    assert_eq!(bars[2].tick_count, 30);
    let buffer = BarBuffer::from_tick_buffer(&tb, BarPeriod::OneMinute);
    assert_eq!(buffer.num_bars(), 3);
    assert_eq!(buffer.get(0).unwrap().high, 1_059);
}

#[test]
fn bar_types_read_back() {
    let t = BarType::parse_bar_type("BTCUSDT.BINANCE-1-MINUTE-LAST").unwrap();
    let again = BarType::parse_bar_type(&t.as_str()).unwrap();
    assert_eq!(t.as_str(), again.as_str());
    assert_eq!(t.instrument_id(), btc());
    assert!(BarType::parse_bar_type("nonsense").is_err());
    assert_eq!(BarAggregation::from_name(BarAggregation::Tick.name()), Some(BarAggregation::Tick));
    assert_eq!(PriceType::from_name(PriceType::Last.name()), Some(PriceType::Last));
}

#[test]
fn short_bar_types_name_an_interval() {
    let b = BarType::parse_bar_type("BTCUSDT.BINANCE-1m-BETWEEN").unwrap();
    assert_eq!((b.symbol.as_str(), b.venue.as_str()), ("BTCUSDT", "BINANCE"));
    assert_eq!(b.spec.get_interval_ns(), Some(60_000_000_000));
    assert_eq!(b.as_str(), "BTCUSDT.BINANCE-1-MINUTE-LAST");
    let h = BarType::parse_bar_type("BTCUSDT.BINANCE-4h-between").unwrap();
    assert_eq!(h.spec.get_interval_ns(), Some(14_400_000_000_000));
    let e = BarType::parse_bar_type("BTCUSDT.BINANCE-1x-BETWEEN").unwrap_err();
    assert_eq!(
        e.message(),
        "ParseBarTypeError: Invalid step '1x' in BarType 'BTCUSDT.BINANCE-1x-BETWEEN'"
    );
}

#[test]
fn value_bars_take_a_part_of_a_trade() {
    let t = BarType::parse_bar_type("BTCUSDT.BINANCE-100-VALUE-LAST").unwrap();
    let mut agg = ValueBarAggregator::new(t);
    assert!(agg.update(10, 6, 0, START).is_none());
    // 40 of the value of 80 is missing: half of the trade completes the bar.
    let bar = agg.update(10, 8, 0, START + 1).unwrap();
    assert_eq!(bar.volume, 10);
    assert_eq!(agg.flush().unwrap().volume, 4);
}

#[test]
fn volume_that_did_not_fit_waits_for_the_next_trade() {
    let t = BarType::parse_bar_type("BTCUSDT.BINANCE-10-VOLUME-LAST").unwrap();
    let mut agg = VolumeBarAggregator::new(t);
    let bar = agg.update(5, 14, 0, START).unwrap();
    assert_eq!(bar.volume, 10);
    assert_eq!(agg.leftover_volume, 4);
    assert!(agg.update(5, 1, 0, START + 1).is_none());
    assert_eq!(agg.flush().unwrap().volume, 5);
}

#[test]
fn tick_bars_close_after_their_ticks() {
    let t = BarType::parse_bar_type("BTCUSDT.BINANCE-3-TICK-LAST").unwrap();
    let mut agg = TickBarAggregator::new(t);
    assert!(agg.update(10, 1, 0, START).is_none());
    assert!(agg.update(14, 1, 0, START + 1).is_none());
    let bar = agg.update(12, 1, 0, START + 2).unwrap();
    assert_eq!((bar.open, bar.high, bar.low, bar.close), (10, 14, 10, 12));
    assert_eq!(bar.volume, 3);
    assert!(agg.flush().is_none());
}

#[test]
fn time_bars_are_flushed() {
    let mut agg = TimeBarAggregator::new(BarPeriod::OneSecond, btc());
    assert!(agg.is_empty());
    assert!(agg.update_raw(5, 2, 0, START).is_none());
    let bar = agg.update_raw(6, 1, 0, START + 1_000_000_000).unwrap();
    assert_eq!((bar.open, bar.close, bar.volume), (5, 5, 2));
    let rest = agg.flush().unwrap();
    assert_eq!((rest.open, rest.volume), (6, 1));
}

#[test]
fn bars_of_a_type_are_built_from_ticks() {
    let tb = TickBuffer::from_ring_buffer(&ring(&some_ticks(10), btc()), 50).unwrap();
    let t = BarType::parse_bar_type("BTCUSDT.BINANCE-5-TICK-LAST").unwrap();
    let bars = try_build_bars_with_type(&tb, &t).unwrap();
    assert_eq!(bars.len(), 2);
    assert_eq!((bars[0].open, bars[1].close), (100_000, 100_009));
    assert_eq!(build_bars_with_type(&tb, &t).len(), 2);
    let mut any = AggregatorFactory::create(t);
    assert!(any.flush().is_none());
}
