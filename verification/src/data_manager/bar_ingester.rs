//! Candles of exchanges and the yearly bar files that they fill: names, requests, and the walk over
//! the answers.

use crate::date;
use crate::date::Date;
use crate::instrument;
use crate::path;
use crate::path::join;
use crate::path::join4;
use crate::path::name_of;
use crate::path::stem_of;
use crate::text;
use crate::text::chars_of;
use crate::text::decimal_text;
use crate::text::parse_unsigned_text;
use crate::text::same_text;
use crate::text::signed_text;
use crate::text::text_of;
use crate::text::to_lower;
use crate::text::to_upper;
use vstd::prelude::*;
use vstd::string::*;

verus! {

// ---------------------------------------------------------------------------
// Names
// ---------------------------------------------------------------------------

/// The kind of an instrument on an exchange.
#[derive(Debug, Clone, Copy, PartialEq, Eq, Structural)]
pub enum InstrumentType {
    Spot,
    Futures,
    Inverse,
}

impl InstrumentType {
    /// The name in paths.
    pub open spec fn name(self) -> Seq<char> {
        match self {
            InstrumentType::Spot => "spot"@,
            InstrumentType::Futures => "futures"@,
            InstrumentType::Inverse => "inverse"@,
        }
    }

    /// The name in paths.
    pub fn as_str(&self) -> (r: &'static str)
        ensures
            r@ == self.name(),
    {
        match self {
            InstrumentType::Spot => "spot",
            InstrumentType::Futures => "futures",
            InstrumentType::Inverse => "inverse",
        }
    }
}

/// An exchange that hands out candles.
#[derive(Debug, Clone, Copy, PartialEq, Eq, Structural)]
pub enum ExchangeKind {
    Binance,
    Bybit,
    Okx,
}

/// The interval by which Bybit knows a timeframe; other exchanges, and unknown timeframes, keep
/// the timeframe itself.
pub open spec fn interval_of(exchange: ExchangeKind, tf: Seq<char>) -> Seq<char> {
    if exchange is Bybit {
        if tf == "1m"@ {
            "1"@
        } else if tf == "5m"@ {
            "5"@
        } else if tf == "15m"@ {
            "15"@
        } else if tf == "1h"@ {
            "60"@
        } else if tf == "4h"@ {
            "240"@
        } else if tf == "1d"@ {
            "D"@
        } else {
            tf
        }
    } else {
        tf
    }
}

impl ExchangeKind {
    /// The name in paths.
    pub open spec fn name(self) -> Seq<char> {
        match self {
            ExchangeKind::Binance => "binance"@,
            ExchangeKind::Bybit => "bybit"@,
            ExchangeKind::Okx => "okx"@,
        }
    }

    /// The name in paths.
    pub fn as_str(&self) -> (r: &'static str)
        ensures
            r@ == self.name(),
    {
        match self {
            ExchangeKind::Binance => "binance",
            ExchangeKind::Bybit => "bybit",
            ExchangeKind::Okx => "okx",
        }
    }

    /// The interval by which the exchange knows a timeframe.
    pub fn interval_key(&self, tf: &str) -> (r: String)
        ensures
            r@ == interval_of(*self, tf@),
    {
        if *self != ExchangeKind::Bybit {
            return tf.to_owned();
        }
        if same_text(tf, "1m") {
            "1".to_owned()
        } else if same_text(tf, "5m") {
            "5".to_owned()
        } else if same_text(tf, "15m") {
            "15".to_owned()
        } else if same_text(tf, "1h") {
            "60".to_owned()
        } else if same_text(tf, "4h") {
            "240".to_owned()
        } else if same_text(tf, "1d") {
            "D".to_owned()
        } else {
            tf.to_owned()
        }
    }
}

/// The nanoseconds of a timeframe; an unknown one counts as fifteen minutes.
pub open spec fn ns_of(tf: Seq<char>) -> u64 {
    if tf == "1m"@ {
        60_000_000_000
    } else if tf == "5m"@ {
        300_000_000_000
    } else if tf == "15m"@ {
        900_000_000_000
    } else if tf == "1h"@ {
        3_600_000_000_000
    } else if tf == "4h"@ {
        14_400_000_000_000
    } else if tf == "1d"@ {
        86_400_000_000_000
    } else {
        900_000_000_000
    }
}

/// The nanoseconds of a timeframe.
pub fn timeframe_to_ns(tf: &str) -> (r: u64)
    ensures
        r == ns_of(tf@),
{
    if same_text(tf, "1m") {
        60_000_000_000
    } else if same_text(tf, "5m") {
        300_000_000_000
    } else if same_text(tf, "15m") {
        900_000_000_000
    } else if same_text(tf, "1h") {
        3_600_000_000_000
    } else if same_text(tf, "4h") {
        14_400_000_000_000
    } else if same_text(tf, "1d") {
        86_400_000_000_000
    } else {
        900_000_000_000
    }
}

/// The timeframe of a number of nanoseconds; the number with `ns` where there is none.
pub open spec fn tf_of(ns: u64) -> Seq<char> {
    if ns == 60_000_000_000 {
        "1m"@
    } else if ns == 300_000_000_000 {
        "5m"@
    } else if ns == 900_000_000_000 {
        "15m"@
    } else if ns == 3_600_000_000_000 {
        "1h"@
    } else if ns == 14_400_000_000_000 {
        "4h"@
    } else if ns == 86_400_000_000_000 {
        "1d"@
    } else {
        text::decimal(ns as nat) + "ns"@
    }
}

/// The timeframe of a number of nanoseconds.
pub fn ns_to_tf(ns: u64) -> (r: String)
    ensures
        r@ == tf_of(ns),
{
    if ns == 60_000_000_000 {
        "1m".to_owned()
    } else if ns == 300_000_000_000 {
        "5m".to_owned()
    } else if ns == 900_000_000_000 {
        "15m".to_owned()
    } else if ns == 3_600_000_000_000 {
        "1h".to_owned()
    } else if ns == 14_400_000_000_000 {
        "4h".to_owned()
    } else if ns == 86_400_000_000_000 {
        "1d".to_owned()
    } else {
        let mut s = decimal_text(ns);
        s.append("ns");
        s
    }
}

/// The text is one of the timeframes.
pub open spec fn is_timeframe(tf: Seq<char>) -> bool {
    tf == "1m"@ || tf == "5m"@ || tf == "15m"@ || tf == "1h"@ || tf == "4h"@ || tf == "1d"@
}

/// A timeframe reads back from its nanoseconds.
pub proof fn timeframe_reads_back(tf: Seq<char>)
    requires
        is_timeframe(tf),
    ensures
        tf_of(ns_of(tf)) == tf,
{
    reveal_strlit("1m");
    reveal_strlit("5m");
    reveal_strlit("15m");
    reveal_strlit("1h");
    reveal_strlit("4h");
    reveal_strlit("1d");
    assert("1m"@[0] != "5m"@[0]);
    assert("1m"@[1] != "1h"@[1]);
    assert("1m"@[1] != "1d"@[1]);
    assert("1h"@[1] != "1d"@[1]);
    assert("5m"@[0] != "4h"@[0]);
    assert("1m"@[0] != "4h"@[0]);
    assert("1m"@.len() != "15m"@.len());
}

/// Hash of a text.
pub fn fnv1a_hash(s: &str) -> (r: u32)
    ensures
        r == instrument::fnv1a(vstd::utf8::encode_utf8(s@)),
{
    instrument::fnv1a_hash(s.as_bytes())
}

// ---------------------------------------------------------------------------
// OKX symbols
// ---------------------------------------------------------------------------

/// The text ends with another, and is longer.
pub open spec fn ends_behind(s: Seq<char>, end: Seq<char>) -> bool {
    s.len() > end.len() && s.skip(s.len() - end.len()) == end
}

/// A text with a dash before its end.
pub open spec fn dashed(s: Seq<char>, end: Seq<char>) -> Seq<char> {
    s.take(s.len() - end.len()) + "-"@ + end
}

/// The first place from `k` on that has this many bytes before it.
pub open spec fn place_of(s: Seq<char>, bytes: int, k: int) -> Option<int>
    decreases s.len() + 1 - k,
{
    if k < 0 || k > s.len() {
        None
    } else if vstd::utf8::encode_utf8(s.take(k)).len() == bytes {
        Some(k)
    } else {
        place_of(s, bytes, k + 1)
    }
}

/// A symbol with a dash before its quote currency: a known one, or else the later half. None where
/// the middle byte is inside a character.
pub open spec fn okx_symbol(s: Seq<char>) -> Option<Seq<char>> {
    if ends_behind(s, "USDT"@) {
        Some(dashed(s, "USDT"@))
    } else if ends_behind(s, "USDC"@) {
        Some(dashed(s, "USDC"@))
    } else if ends_behind(s, "BTC"@) {
        Some(dashed(s, "BTC"@))
    } else if ends_behind(s, "ETH"@) {
        Some(dashed(s, "ETH"@))
    } else if ends_behind(s, "USD"@) {
        Some(dashed(s, "USD"@))
    } else if ends_behind(s, "BNB"@) {
        Some(dashed(s, "BNB"@))
    } else {
        match place_of(s, vstd::utf8::encode_utf8(s).len() as int / 2, 0) {
            Some(k) => Some(s.take(k) + "-"@ + s.skip(k)),
            None => None,
        }
    }
}

/// A text with a dash before an end that it has.
fn with_dash(v: &Vec<char>, end: &str) -> (r: Option<String>)
    ensures
        match r {
            Some(t) => ends_behind(v@, end@) && t@ == dashed(v@, end@),
            None => !ends_behind(v@, end@),
        },
{
    let e = chars_of(end);
    let n: usize = v.len();
    let m: usize = e.len();
    if n <= m {
        return None;
    }
    let tail = text_of(v, n - m, n);
    assert(tail@ =~= v@.skip(n - m));
    if !same_text(tail.as_str(), end) {
        return None;
    }
    let mut t = text_of(v, 0, n - m);
    t.append("-");
    t.append(end);
    assert(t@ =~= dashed(v@, end@));
    Some(t)
}

/// A symbol with a dash before its quote currency.
pub fn normalize_okx_symbol(symbol: &str) -> (r: Option<String>)
    ensures
        match r {
            Some(t) => okx_symbol(symbol@) == Some(t@),
            None => okx_symbol(symbol@) is None,
        },
{
    let v = chars_of(symbol);
    match with_dash(&v, "USDT") {
        Some(t) => {
            return Some(t);
        },
        None => {},
    }
    match with_dash(&v, "USDC") {
        Some(t) => {
            return Some(t);
        },
        None => {},
    }
    match with_dash(&v, "BTC") {
        Some(t) => {
            return Some(t);
        },
        None => {},
    }
    match with_dash(&v, "ETH") {
        Some(t) => {
            return Some(t);
        },
        None => {},
    }
    match with_dash(&v, "USD") {
        Some(t) => {
            return Some(t);
        },
        None => {},
    }
    match with_dash(&v, "BNB") {
        Some(t) => {
            return Some(t);
        },
        None => {},
    }
    let mid: usize = symbol.as_bytes().len() / 2;
    let n: usize = v.len();
    let mut k: usize = 0;
    loop
        invariant
            k <= n,
            n == v@.len(),
            v@ == symbol@,
            mid == vstd::utf8::encode_utf8(symbol@).len() as int / 2,
            place_of(v@, mid as int, 0) == place_of(v@, mid as int, k as int),
            !ends_behind(v@, "USDT"@),
            !ends_behind(v@, "USDC"@),
            !ends_behind(v@, "BTC"@),
            !ends_behind(v@, "ETH"@),
            !ends_behind(v@, "USD"@),
            !ends_behind(v@, "BNB"@),
        decreases n - k,
    {
        let mut head = text_of(&v, 0, k);
        assert(head@ =~= v@.take(k as int));
        if head.as_str().as_bytes().len() == mid {
            let tail = text_of(&v, k, n);
            assert(tail@ =~= v@.skip(k as int));
            head.append("-");
            head.append(tail.as_str());
            assert(place_of(v@, mid as int, k as int) == Some(k as int));
            assert(head@ =~= v@.take(k as int) + "-"@ + v@.skip(k as int));
            return Some(head);
        }
        if k == n {
            assert(place_of(v@, mid as int, n + 1) is None);
            return None;
        }
        k = k + 1;
    }
}

fn has_dash(symbol: &str) -> (r: bool)
    ensures
        r == symbol@.contains('-'),
{
    let v = chars_of(symbol);
    let mut i: usize = 0;
    while i < v.len()
        invariant
            i <= v@.len(),
            v@ == symbol@,
            forall|j: int| 0 <= j < i ==> v@[j] != '-',
        decreases v@.len() - i,
    {
        if v[i] == '-' {
            assert(symbol@[i as int] == '-');
            return true;
        }
        i = i + 1;
    }
    false
}

// ---------------------------------------------------------------------------
// Errors
// ---------------------------------------------------------------------------

/// Errors of bar ingestion.
#[derive(Debug)]
pub enum BarIngesterError {
    Network(String),
    Parse(String),
    Write(String),
    NoData(String),
}

impl BarIngesterError {
    /// The message of the error.
    pub open spec fn text(self) -> Seq<char> {
        match self {
            BarIngesterError::Network(s) => "network error: "@ + s@,
            BarIngesterError::Parse(s) => "parse error: "@ + s@,
            BarIngesterError::Write(s) => "write error: "@ + s@,
            BarIngesterError::NoData(s) => "no data for "@ + s@,
        }
    }

    /// The message of the error.
    pub fn message(&self) -> (r: String)
        ensures
            r@ == self.text(),
    {
        match self {
            BarIngesterError::Network(s) => "network error: ".to_owned().concat(s.as_str()),
            BarIngesterError::Parse(s) => "parse error: ".to_owned().concat(s.as_str()),
            BarIngesterError::Write(s) => "write error: ".to_owned().concat(s.as_str()),
            BarIngesterError::NoData(s) => "no data for ".to_owned().concat(s.as_str()),
        }
    }
}

// ---------------------------------------------------------------------------
// The ingester
// ---------------------------------------------------------------------------

/// What is fetched: candles of a timeframe, for instruments of a kind, from an exchange.
#[derive(Debug, Clone, Copy, PartialEq, Eq, Structural)]
pub struct BarIngester {
    pub exchange: ExchangeKind,
    pub instrument_type: InstrumentType,
    pub timeframe_ns: u64,
    /// Bars from one full record of a file to the next.
    pub anchor_interval: u32,
    /// Digits of a price behind the point.
    pub decimal_precision: u8,
}

/// An ingester of a timeframe.
pub open spec fn ingester(
    exchange: ExchangeKind,
    instrument_type: InstrumentType,
    timeframe_ns: u64,
) -> BarIngester {
    BarIngester {
        exchange,
        instrument_type,
        timeframe_ns,
        anchor_interval: 10,
        decimal_precision: 9,
    }
}

/// The address at which Binance hands out candles; none for inverse futures.
pub open spec fn binance_base(instrument_type: InstrumentType) -> Option<Seq<char>> {
    match instrument_type {
        InstrumentType::Spot => Some("https://api.binance.com/api/v3/klines"@),
        InstrumentType::Futures => Some("https://api.binance.com/fapi/v3/klines"@),
        InstrumentType::Inverse => None,
    }
}

/// The category under which Bybit knows a kind of instrument.
pub open spec fn bybit_category(instrument_type: InstrumentType) -> Seq<char> {
    match instrument_type {
        InstrumentType::Spot => "spot"@,
        InstrumentType::Futures => "linear"@,
        InstrumentType::Inverse => "inverse"@,
    }
}

/// The symbol with its dash; one that has a dash stays as it is.
pub open spec fn pair_name(symbol: Seq<char>) -> Option<Seq<char>> {
    if symbol.contains('-') {
        Some(symbol)
    } else {
        okx_symbol(symbol)
    }
}

/// The name under which OKX knows a symbol.
pub open spec fn inst_id(instrument_type: InstrumentType, symbol: Seq<char>) -> Option<Seq<char>> {
    match pair_name(symbol) {
        Some(s) => if instrument_type is Futures {
            Some(s + "-SWAP"@)
        } else {
            Some(s)
        },
        None => None,
    }
}

/// The part of a request that names the end of a range.
pub open spec fn end_part(key: Seq<char>, end_ms: Option<u64>) -> Seq<char> {
    match end_ms {
        Some(ms) => key + text::decimal(ms as nat),
        None => seq![],
    }
}

/// A request for candles of Binance.
pub open spec fn binance_request(
    base: Seq<char>,
    symbol: Seq<char>,
    interval: Seq<char>,
    start_ms: u64,
    end_ms: Option<u64>,
) -> Seq<char> {
    base + "?symbol="@ + text::upper(symbol) + "&interval="@ + interval + "&startTime="@
        + text::decimal(start_ms as nat) + end_part("&endTime="@, end_ms) + "&limit=1000"@
}

/// A request for candles of Bybit.
pub open spec fn bybit_request(
    category: Seq<char>,
    symbol: Seq<char>,
    interval: Seq<char>,
    start_ms: u64,
    end_ms: Option<u64>,
) -> Seq<char> {
    "https://api.bybit.com/v5/market/kline?category="@ + category + "&symbol="@ + text::upper(
        symbol,
    ) + "&interval="@ + interval + "&start="@ + text::decimal(start_ms as nat) + end_part(
        "&end="@,
        end_ms,
    ) + "&limit=1000"@
}

/// A request for candles of OKX.
pub open spec fn okx_request(id: Seq<char>, interval: Seq<char>, before_ms: u64) -> Seq<char> {
    "https://www.okx.com/api/v5/market/candles?instId="@ + id + "&bar="@ + interval + "&before="@
        + text::decimal(before_ms as nat) + "&limit=1000"@
}

/// Adds the end of a range to a request.
fn add_end(url: &mut String, key: &str, end_ms: Option<u64>)
    ensures
        final(url)@ == old(url)@ + end_part(key@, end_ms),
{
    match end_ms {
        Some(ms) => {
            url.append(key);
            url.append(decimal_text(ms).as_str());
            assert(url@ =~= old(url)@ + end_part(key@, end_ms));
        },
        None => {
            assert(url@ =~= old(url)@ + end_part(key@, end_ms));
        },
    }
}

impl BarIngester {
    /// An ingester of a timeframe in nanoseconds.
    pub fn new(exchange: ExchangeKind, instrument_type: InstrumentType, timeframe_ns: u64) -> (r:
        Self)
        requires
            timeframe_ns > 0,
        ensures
            r == ingester(exchange, instrument_type, timeframe_ns),
    {
        BarIngester {
            exchange,
            instrument_type,
            timeframe_ns,
            anchor_interval: Self::compute_anchor_interval(timeframe_ns),
            decimal_precision: 9,
        }
    }

    /// Bars from one full record of a file to the next: ten, whatever the timeframe.
    pub fn compute_anchor_interval(timeframe_ns: u64) -> (r: u32)
        requires
            timeframe_ns > 0,
        ensures
            r == 10,
    {
        10
    }

    /// Binance spot.
    pub fn binance_spot(timeframe: &str) -> (r: Self)
        ensures
            r == ingester(ExchangeKind::Binance, InstrumentType::Spot, ns_of(timeframe@)),
    {
        Self::new(ExchangeKind::Binance, InstrumentType::Spot, timeframe_to_ns(timeframe))
    }

    /// Binance futures.
    pub fn binance_futures(timeframe: &str) -> (r: Self)
        ensures
            r == ingester(ExchangeKind::Binance, InstrumentType::Futures, ns_of(timeframe@)),
    {
        Self::new(ExchangeKind::Binance, InstrumentType::Futures, timeframe_to_ns(timeframe))
    }

    /// Bybit spot.
    pub fn bybit_spot(timeframe: &str) -> (r: Self)
        ensures
            r == ingester(ExchangeKind::Bybit, InstrumentType::Spot, ns_of(timeframe@)),
    {
        Self::new(ExchangeKind::Bybit, InstrumentType::Spot, timeframe_to_ns(timeframe))
    }

    /// Bybit linear futures.
    pub fn bybit_futures(timeframe: &str) -> (r: Self)
        ensures
            r == ingester(ExchangeKind::Bybit, InstrumentType::Futures, ns_of(timeframe@)),
    {
        Self::new(ExchangeKind::Bybit, InstrumentType::Futures, timeframe_to_ns(timeframe))
    }

    /// Bybit inverse futures.
    pub fn bybit_inverse(timeframe: &str) -> (r: Self)
        ensures
            r == ingester(ExchangeKind::Bybit, InstrumentType::Inverse, ns_of(timeframe@)),
    {
        Self::new(ExchangeKind::Bybit, InstrumentType::Inverse, timeframe_to_ns(timeframe))
    }

    /// OKX spot.
    pub fn okx_spot(timeframe: &str) -> (r: Self)
        ensures
            r == ingester(ExchangeKind::Okx, InstrumentType::Spot, ns_of(timeframe@)),
    {
        Self::new(ExchangeKind::Okx, InstrumentType::Spot, timeframe_to_ns(timeframe))
    }

    /// OKX futures.
    pub fn okx_futures(timeframe: &str) -> (r: Self)
        ensures
            r == ingester(ExchangeKind::Okx, InstrumentType::Futures, ns_of(timeframe@)),
    {
        Self::new(ExchangeKind::Okx, InstrumentType::Futures, timeframe_to_ns(timeframe))
    }

    /// The interval to ask for.
    pub fn interval(&self) -> (r: String)
        ensures
            r@ == interval_of(self.exchange, tf_of(self.timeframe_ns)),
    {
        self.exchange.interval_key(ns_to_tf(self.timeframe_ns).as_str())
    }

    /// The name under which OKX knows a symbol.
    pub fn format_inst_id(&self, symbol: &str) -> (r: Option<String>)
        ensures
            match r {
                Some(s) => inst_id(self.instrument_type, symbol@) == Some(s@),
                None => inst_id(self.instrument_type, symbol@) is None,
            },
    {
        let name = if has_dash(symbol) {
            Some(symbol.to_owned())
        } else {
            normalize_okx_symbol(symbol)
        };
        match name {
            Some(mut s) => {
                if self.instrument_type == InstrumentType::Futures {
                    s.append("-SWAP");
                }
                Some(s)
            },
            None => None,
        }
    }

    /// A request for candles of Binance, from a time on.
    pub fn binance_url(
        &self,
        symbol: &str,
        interval: &str,
        start_ms: u64,
        end_ms: Option<u64>,
    ) -> (r: Result<String, BarIngesterError>)
        ensures
            match (binance_base(self.instrument_type), r) {
                (Some(base), Ok(url)) => url@ == binance_request(
                    base,
                    symbol@,
                    interval@,
                    start_ms,
                    end_ms,
                ),
                (None, Err(e)) => e is Network && e->Network_0@
                    == "Binance does not support inverse futures via public klines API"@,
                _ => false,
            },
    {
        let base = match self.instrument_type {
            InstrumentType::Spot => "https://api.binance.com/api/v3/klines",
            InstrumentType::Futures => "https://api.binance.com/fapi/v3/klines",
            InstrumentType::Inverse => {
                return Err(
                    BarIngesterError::Network(
                        "Binance does not support inverse futures via public klines API".to_owned(),
                    ),
                );
            },
        };
        let mut url = base.to_owned();
        url.append("?symbol=");
        url.append(to_upper(symbol).as_str());
        url.append("&interval=");
        url.append(interval);
        url.append("&startTime=");
        url.append(decimal_text(start_ms).as_str());
        add_end(&mut url, "&endTime=", end_ms);
        url.append("&limit=1000");
        assert(url@ =~= binance_request(base@, symbol@, interval@, start_ms, end_ms));
        Ok(url)
    }

    /// A request for candles of Bybit, from a time on.
    pub fn bybit_url(
        &self,
        symbol: &str,
        interval: &str,
        start_ms: u64,
        end_ms: Option<u64>,
    ) -> (r: String)
        ensures
            r@ == bybit_request(
                bybit_category(self.instrument_type),
                symbol@,
                interval@,
                start_ms,
                end_ms,
            ),
    {
        let category = match self.instrument_type {
            InstrumentType::Spot => "spot",
            InstrumentType::Futures => "linear",
            InstrumentType::Inverse => "inverse",
        };
        let mut url = "https://api.bybit.com/v5/market/kline?category=".to_owned();
        url.append(category);
        url.append("&symbol=");
        url.append(to_upper(symbol).as_str());
        url.append("&interval=");
        url.append(interval);
        url.append("&start=");
        url.append(decimal_text(start_ms).as_str());
        add_end(&mut url, "&end=", end_ms);
        url.append("&limit=1000");
        assert(url@ =~= bybit_request(category@, symbol@, interval@, start_ms, end_ms));
        url
    }

    /// A request for candles of OKX, before a time. None where the symbol has no name there.
    pub fn okx_url(&self, symbol: &str, interval: &str, before_ms: u64) -> (r: Option<String>)
        ensures
            match (inst_id(self.instrument_type, symbol@), r) {
                (Some(id), Some(url)) => url@ == okx_request(id, interval@, before_ms),
                (None, None) => true,
                _ => false,
            },
    {
        let id = match self.format_inst_id(symbol) {
            Some(id) => id,
            None => {
                return None;
            },
        };
        let mut url = "https://www.okx.com/api/v5/market/candles?instId=".to_owned();
        url.append(id.as_str());
        url.append("&bar=");
        url.append(interval);
        url.append("&before=");
        url.append(decimal_text(before_ms).as_str());
        url.append("&limit=1000");
        assert(url@ =~= okx_request(id@, interval@, before_ms));
        Some(url)
    }

    /// The file of a year: `{dir}/{exchange}/{kind}/{symbol}/{timeframe}/{year}.tvcb`.
    pub fn year_path(&self, output_dir: &str, symbol: &str, year: i32) -> (r: String)
        ensures
            r@ == tvcb_path(
                output_dir@,
                self.exchange.name(),
                self.instrument_type.name(),
                symbol@,
                tf_of(self.timeframe_ns),
                year as int,
            ),
    {
        tvcb_path_of(
            output_dir,
            self.exchange.as_str(),
            self.instrument_type.as_str(),
            symbol,
            ns_to_tf(self.timeframe_ns).as_str(),
            year,
        )
    }
}

/// The bar file of a year.
pub open spec fn tvcb_path(
    root: Seq<char>,
    exchange: Seq<char>,
    kind: Seq<char>,
    symbol: Seq<char>,
    timeframe: Seq<char>,
    year: int,
) -> Seq<char> {
    path::joined(
        path::joined4(root, exchange, kind, text::lower(symbol), timeframe),
        text::signed(year) + ".tvcb"@,
    )
}

/// The bar file of a year.
pub fn tvcb_path_of(
    root: &str,
    exchange: &str,
    kind: &str,
    symbol: &str,
    timeframe: &str,
    year: i32,
) -> (r: String)
    ensures
        r@ == tvcb_path(root@, exchange@, kind@, symbol@, timeframe@, year as int),
{
    let dir = join4(root, exchange, kind, to_lower(symbol).as_str(), timeframe);
    let mut name = signed_text(year);
    name.append(".tvcb");
    join(dir.as_str(), name.as_str())
}

// ---------------------------------------------------------------------------
// Requests
// ---------------------------------------------------------------------------

/// The walk over a range: OKX is asked for what lies before a time, the others for what lies behind
/// one. No more than 500 requests are made.
#[derive(Debug, Clone, Copy, PartialEq, Eq, Structural)]
pub struct YearFetch {
    pub exchange: ExchangeKind,
    pub start_ms: u64,
    pub end_ms: u64,
    pub timeframe_ms: u64,
    /// Where the next request starts.
    pub current_start: u64,
    /// Before what the next request ends.
    pub current_before: u64,
    /// Requests so far.
    pub loop_count: u32,
    /// A bar has come.
    pub got_bars: bool,
    /// No more is asked.
    pub done: bool,
}

/// The most requests for one file.
pub const MAX_REQUESTS: u32 = 500;

impl YearFetch {
    /// The walk before the first request.
    pub open spec fn started(
        exchange: ExchangeKind,
        start_ms: u64,
        end_ms: u64,
        timeframe_ns: u64,
    ) -> YearFetch {
        YearFetch {
            exchange,
            start_ms,
            end_ms,
            timeframe_ms: timeframe_ns / 1_000_000,
            current_start: start_ms,
            current_before: end_ms,
            loop_count: 0,
            got_bars: false,
            done: false,
        }
    }

    /// The number of requests is within its limit, and times in milliseconds come from nanoseconds.
    pub open spec fn wf(self) -> bool {
        self.loop_count <= MAX_REQUESTS && self.timeframe_ms <= u64::MAX / 1_000_000
    }

    /// The time to ask with.
    pub open spec fn cursor(self) -> u64 {
        if self.exchange is Okx {
            self.current_before
        } else {
            self.current_start
        }
    }

    /// The walk behind a batch of bars.
    pub open spec fn taken(self, count: int, last_ts_ns: u64) -> YearFetch {
        let last = last_ts_ns / 1_000_000;
        if count == 0 {
            YearFetch { done: true, ..self }
        } else if self.exchange is Okx {
            if last <= self.start_ms {
                YearFetch { got_bars: true, done: true, ..self }
            } else {
                YearFetch { got_bars: true, current_before: last, ..self }
            }
        } else if last >= self.end_ms || last + self.timeframe_ms <= self.current_start {
            YearFetch { got_bars: true, done: true, ..self }
        } else {
            YearFetch {
                got_bars: true,
                current_start: (last + self.timeframe_ms) as u64,
                ..self
            }
        }
    }

    /// Starts a walk.
    pub fn new(exchange: ExchangeKind, start_ms: u64, end_ms: u64, timeframe_ns: u64) -> (r: Self)
        requires
            timeframe_ns >= 1_000_000,
        ensures
            r == YearFetch::started(exchange, start_ms, end_ms, timeframe_ns),
            r.wf(),
    {
        YearFetch {
            exchange,
            start_ms,
            end_ms,
            timeframe_ms: timeframe_ns / 1_000_000,
            current_start: start_ms,
            current_before: end_ms,
            loop_count: 0,
            got_bars: false,
            done: false,
        }
    }

    /// The time of the next request; none where the walk is done.
    pub fn next_request(&mut self) -> (r: Option<u64>)
        requires
            old(self).wf(),
        ensures
            final(self).wf(),
            if old(self).done {
                r is None && *final(self) == *old(self)
            } else if old(self).loop_count >= MAX_REQUESTS {
                r is None && *final(self) == (YearFetch { done: true, ..*old(self) })
            } else {
                r == Some(old(self).cursor()) && *final(self) == (YearFetch {
                    loop_count: (old(self).loop_count + 1) as u32,
                    ..*old(self)
                })
            },
    {
        if self.done {
            return None;
        }
        if self.loop_count >= MAX_REQUESTS {
            self.done = true;
            return None;
        }
        self.loop_count = self.loop_count + 1;
        if self.exchange == ExchangeKind::Okx {
            Some(self.current_before)
        } else {
            Some(self.current_start)
        }
    }

    /// Takes a batch: how many bars came, and the time of the last one.
    pub fn take_batch(&mut self, count: usize, last_ts_ns: u64)
        requires
            old(self).wf(),
        ensures
            final(self).wf(),
            *final(self) == old(self).taken(count as int, last_ts_ns),
    {
        if count == 0 {
            self.done = true;
            return;
        }
        self.got_bars = true;
        let last: u64 = last_ts_ns / 1_000_000;
        if self.exchange == ExchangeKind::Okx {
            if last <= self.start_ms {
                self.done = true;
            } else {
                self.current_before = last;
            }
        } else {
            if last >= self.end_ms {
                self.done = true;
                return;
            }
            let next: u64 = last + self.timeframe_ms;
            if next <= self.current_start {
                self.done = true;
            } else {
                self.current_start = next;
            }
        }
    }

    /// The walk has brought bars; without any there is no data for the symbol.
    pub fn outcome(&self, symbol: &str) -> (r: Result<(), BarIngesterError>)
        ensures
            match r {
                Ok(_) => self.got_bars,
                Err(e) => !self.got_bars && e is NoData && e->NoData_0@ == symbol@,
            },
    {
        if self.got_bars {
            Ok(())
        } else {
            Err(BarIngesterError::NoData(symbol.to_owned()))
        }
    }
}

/// A walk that goes on asks for later bars than before; on OKX, for bars behind the start.
pub proof fn walk_moves_on(f: YearFetch, count: int, last_ts_ns: u64)
    requires
        !f.done,
        f.wf(),
    ensures
        !f.taken(count, last_ts_ns).done ==> if f.exchange is Okx {
            f.taken(count, last_ts_ns).cursor() > f.start_ms
        } else {
            f.taken(count, last_ts_ns).cursor() > f.cursor() && last_ts_ns / 1_000_000 < f.end_ms
        },
{
}

// ---------------------------------------------------------------------------
// Answers
// ---------------------------------------------------------------------------

/// A field of a candle, as far as a row is judged by it.
#[derive(Debug)]
pub enum Cell {
    Text(String),
    /// A number, with its value where it is a whole one that is not negative.
    Number(Option<u64>),
    Other,
}

impl Cell {
    /// The field holds a text or a number.
    pub open spec fn readable(self) -> bool {
        !(self is Other)
    }

    /// The whole number in a text or a number; 0 where there is none.
    pub open spec fn whole(self) -> u64 {
        match self {
            Cell::Text(s) => match text::parse_unsigned(s@, u64::MAX as nat) {
                Some(n) => n as u64,
                None => 0,
            },
            Cell::Number(Some(n)) => n,
            _ => 0,
        }
    }

    fn is_readable(&self) -> (r: bool)
        ensures
            r == self.readable(),
    {
        match self {
            Cell::Other => false,
            _ => true,
        }
    }

    fn whole_number(&self) -> (r: u64)
        ensures
            r == self.whole(),
    {
        match self {
            Cell::Text(s) => match parse_unsigned_text(s.as_str(), u64::MAX) {
                Some(n) => n,
                None => 0,
            },
            Cell::Number(Some(n)) => *n,
            _ => 0,
        }
    }
}

/// The number of a `u64` as a `u32`.
pub open spec fn low_half(n: u64) -> u32 {
    (n % 0x1_0000_0000) as u32
}

/// The opening time in milliseconds and the number of trades of a row of Binance. A row has ten
/// fields, its time is a number and its prices can be read; a strict reader also wants to read
/// the quote volume and the number of trades.
pub open spec fn binance_candle(row: Seq<Cell>, strict: bool) -> Option<(u64, u32)> {
    if row.len() < 10 {
        None
    } else if !(row[1].readable() && row[2].readable() && row[3].readable() && row[4].readable()
        && row[5].readable()) || (strict && !(row[8].readable() && row[9].readable())) {
        None
    } else {
        match row[0] {
            Cell::Number(Some(ms)) => Some((ms, low_half(row[9].whole()))),
            _ => None,
        }
    }
}

/// The opening time and the number of trades of a row of Binance.
pub fn binance_row(row: &Vec<Cell>, strict: bool) -> (r: Option<(u64, u32)>)
    ensures
        r == binance_candle(row@, strict),
{
    if row.len() < 10 {
        return None;
    }
    if !row[1].is_readable() || !row[2].is_readable() || !row[3].is_readable()
        || !row[4].is_readable() || !row[5].is_readable() {
        return None;
    }
    if strict && (!row[8].is_readable() || !row[9].is_readable()) {
        return None;
    }
    match &row[0] {
        Cell::Number(Some(ms)) => {
            let trades: u64 = row[9].whole_number();
            Some((*ms, (trades % 0x1_0000_0000) as u32))
        },
        _ => None,
    }
}

/// The opening time in milliseconds of a row of Bybit: a row has seven fields, and its time is a
/// text or a number.
pub open spec fn bybit_candle(row: Seq<Cell>) -> Option<u64> {
    if row.len() < 7 || !row[0].readable() {
        None
    } else {
        Some(row[0].whole())
    }
}

/// The opening time of a row of Bybit.
pub fn bybit_row(row: &Vec<Cell>) -> (r: Option<u64>)
    ensures
        r == bybit_candle(row@),
{
    if row.len() < 7 || !row[0].is_readable() {
        None
    } else {
        Some(row[0].whole_number())
    }
}

/// The opening time in milliseconds of a row of OKX: a row has seven fields, and its time is a
/// number in a text.
pub open spec fn okx_candle(row: Seq<Cell>) -> Option<u64> {
    if row.len() < 7 {
        None
    } else {
        match row[0] {
            Cell::Text(s) => match text::parse_unsigned(s@, u64::MAX as nat) {
                Some(n) => Some(n as u64),
                None => None,
            },
            _ => None,
        }
    }
}

/// The opening time of a row of OKX.
pub fn okx_row(row: &Vec<Cell>) -> (r: Option<u64>)
    ensures
        r == okx_candle(row@),
{
    if row.len() < 7 {
        return None;
    }
    match &row[0] {
        Cell::Text(s) => parse_unsigned_text(s.as_str(), u64::MAX),
        _ => None,
    }
}

/// A time in nanoseconds; none where it does not fit.
pub fn event_ns(ms: u64) -> (r: Option<u64>)
    ensures
        r == (if ms * 1_000_000 <= u64::MAX {
            Some((ms * 1_000_000) as u64)
        } else {
            None
        }),
{
    ms.checked_mul(1_000_000)
}

/// The year of a time; 2024 where there is none.
pub open spec fn year_at(ts_ns: u64) -> int {
    match date::year_of_day((date::EPOCH_DAY + ts_ns / 86_400_000_000_000) as i32) {
        Some(y) => y as int,
        None => 2024,
    }
}

/// The year of a time.
pub fn year_of_bar(ts_ns: u64) -> (r: i32)
    ensures
        r == year_at(ts_ns),
{
    let day: u64 = ts_ns / 86_400_000_000_000;
    let d = Date { days: date::EPOCH_DAY + day as i32 };
    match d.year() {
        Some(y) => y,
        None => 2024,
    }
}

/// What stands at the front of a bar file.
#[derive(Debug, Clone, Copy, PartialEq, Eq, Structural)]
pub struct BarFileHeader {
    /// Hash of the stem of the file's name.
    pub instrument_hash: u32,
    pub anchor_interval: u32,
    pub decimal_precision: u8,
    /// The year of the first bar.
    pub year: u64,
    pub timeframe_ns: u64,
}

impl BarIngester {
    /// The front of the file at a path whose first bar has a time.
    pub fn file_header(&self, file_path: &str, first_ts_ns: u64) -> (r: BarFileHeader)
        ensures
            r == (BarFileHeader {
                instrument_hash: instrument::fnv1a(
                    vstd::utf8::encode_utf8(path::stem(path::file_name(file_path@))),
                ),
                anchor_interval: self.anchor_interval,
                decimal_precision: self.decimal_precision,
                year: date::bits_of(year_at(first_ts_ns)),
                timeframe_ns: self.timeframe_ns,
            }),
    {
        let stem = stem_of(name_of(file_path).as_str());
        BarFileHeader {
            instrument_hash: fnv1a_hash(stem.as_str()),
            anchor_interval: self.anchor_interval,
            decimal_precision: self.decimal_precision,
            year: date::bits(year_of_bar(first_ts_ns) as i64),
            timeframe_ns: self.timeframe_ns,
        }
    }
}

// ---------------------------------------------------------------------------
// Ranges
// ---------------------------------------------------------------------------

/// A range that goes to the file of a year.
#[derive(Debug, Clone, Copy, PartialEq, Eq, Structural)]
pub struct YearChunk {
    pub year: i32,
    pub start_ms: u64,
    pub end_ms: u64,
}

/// The milliseconds from the epoch to a day.
pub open spec fn millis_at(d: Date) -> u64 {
    date::bits_of((d.days - date::EPOCH_DAY) * 86_400_000)
}

/// The first day of a range that is in a year: 1 January, or the first day of the range where that
/// is later.
pub open spec fn first_in_year(y: i32, start: Date) -> Date {
    let first = date::day_of_ymd(y, 1, 1)->0;
    if start.days > first {
        start
    } else {
        Date { days: first }
    }
}

/// The last day of a range that is in a year: 31 December, or the last day of the range where that
/// is earlier.
pub open spec fn last_in_year(y: i32, end: Date) -> Date {
    let last = date::day_of_ymd(y, 12, 31)->0;
    if end.days < last {
        end
    } else {
        Date { days: last }
    }
}

/// What goes to the file of a year: from the first millisecond of its first day to the last one of
/// its last day.
pub open spec fn year_chunk(y: i32, start: Date, end: Date) -> YearChunk {
    YearChunk {
        year: y,
        start_ms: millis_at(first_in_year(y, start)),
        end_ms: (millis_at(last_in_year(y, end)) + 86_399_999) as u64,
    }
}

/// The calendar holds the first and the last day of a year, and the end of its part of a range
/// fits.
pub open spec fn year_walks(y: i32, end: Date) -> bool {
    &&& date::day_of_ymd(y, 1, 1) is Some
    &&& date::day_of_ymd(y, 12, 31) is Some
    &&& millis_at(last_in_year(y, end)) + 86_399_999 <= u64::MAX
}

/// The calendar holds the years of a range.
pub open spec fn range_walks(start: Date, end: Date) -> bool {
    &&& date::year_of_day(start.days) is Some
    &&& date::year_of_day(end.days) is Some
    &&& forall|y: i32|
        date::year_of_day(start.days)->0 <= y <= date::year_of_day(end.days)->0
            ==> #[trigger] year_walks(y, end)
}

/// The ranges of the years from `first` to before `behind`.
pub open spec fn year_ranges(first: int, behind: int, start: Date, end: Date) -> Seq<YearChunk> {
    if first < behind {
        Seq::new((behind - first) as nat, |i: int| year_chunk((first + i) as i32, start, end))
    } else {
        seq![]
    }
}

/// The ranges that are fetched for the dates from `start` to `end`: one for the file of each year.
/// None where the calendar ends.
pub fn year_chunks(start: Date, end: Date) -> (r: Option<Vec<YearChunk>>)
    ensures
        match r {
            Some(v) => if start.days <= end.days {
                range_walks(start, end) && v@ == year_ranges(
                    date::year_of_day(start.days)->0 as int,
                    date::year_of_day(end.days)->0 + 1,
                    start,
                    end,
                )
            } else {
                v@ == Seq::<YearChunk>::empty()
            },
            None => start.days <= end.days && !range_walks(start, end),
        },
{
    let mut chunks: Vec<YearChunk> = Vec::new();
    if start.days > end.days {
        assert(chunks@ =~= Seq::<YearChunk>::empty());
        return Some(chunks);
    }
    let first: i32 = match start.year() {
        Some(y) => y,
        None => {
            return None;
        },
    };
    let last: i32 = match end.year() {
        Some(y) => y,
        None => {
            return None;
        },
    };
    let mut year: i64 = first as i64;
    while year <= last as i64
        invariant
            date::year_of_day(start.days) == Some(first),
            date::year_of_day(end.days) == Some(last),
            start.days <= end.days,
            first <= year,
            year <= last + 1 || year == first,
            forall|y: i32| first <= y < year ==> #[trigger] year_walks(y, end),
            chunks@ == year_ranges(first as int, year as int, start, end),
        decreases last + 1 - year,
    {
        let y: i32 = year as i32;
        let (january, december) = match (Date::from_ymd(y, 1, 1), Date::from_ymd(y, 12, 31)) {
            (Some(a), Some(b)) => (a, b),
            _ => {
                assert(!year_walks(y, end));
                return None;
            },
        };
        let from = if start.days > january.days {
            start
        } else {
            january
        };
        let to = if end.days < december.days {
            end
        } else {
            december
        };
        let end_ms: u64 = match to.utc_millis().checked_add(86_399_999) {
            Some(ms) => ms,
            None => {
                assert(!year_walks(y, end));
                return None;
            },
        };
        chunks.push(YearChunk { year: y, start_ms: from.utc_millis(), end_ms });
        assert(chunks@ =~= year_ranges(first as int, year + 1, start, end));
        year = year + 1;
    }
    assert(chunks@ =~= year_ranges(first as int, last + 1, start, end));
    Some(chunks)
}

/// Timeframes are as long as they say: five and fifteen minutes, an hour of sixty, four hours, and a day
/// of twenty-four.
pub proof fn timeframes_are_as_long_as_they_say()
    ensures
        ns_of("1m"@) == 60_000_000_000,
        ns_of("5m"@) == 5 * ns_of("1m"@),
        ns_of("15m"@) == 15 * ns_of("1m"@),
        ns_of("1h"@) == 60 * ns_of("1m"@),
        ns_of("4h"@) == 4 * ns_of("1h"@),
        ns_of("1d"@) == 24 * ns_of("1h"@),
{
    timeframe_reads_back("1m"@);
    timeframe_reads_back("5m"@);
    timeframe_reads_back("15m"@);
    timeframe_reads_back("1h"@);
    timeframe_reads_back("4h"@);
    timeframe_reads_back("1d"@);
    reveal_strlit("1m");
    reveal_strlit("5m");
    reveal_strlit("15m");
    reveal_strlit("1h");
    reveal_strlit("4h");
    reveal_strlit("1d");
    assert("1m"@[0] != "5m"@[0]);
    assert("1m"@[1] != "1h"@[1]);
    assert("1m"@[1] != "1d"@[1]);
    assert("1m"@[0] != "4h"@[0]);
    assert("5m"@[0] != "1h"@[0]);
    assert("5m"@[0] != "4h"@[0]);
    assert("5m"@[0] != "1d"@[0]);
    assert("1h"@[0] != "4h"@[0]);
    assert("1h"@[1] != "1d"@[1]);
    assert("4h"@[0] != "1d"@[0]);
}

/// A walk forwards asks next from one timeframe behind the last bar, and is over when that bar has
/// reached the end; a walk backwards asks next before the earliest bar, and is over when that bar has
/// reached the start. A batch without bars ends any walk.
pub proof fn walk_goes_on_behind_the_last_bar(f: YearFetch, count: int, last_ts_ns: u64)
    requires
        count > 0,
        f.wf(),
        !f.done,
    ensures
        ({
            let last = last_ts_ns / 1_000_000;
            let g = f.taken(count, last_ts_ns);
            &&& f.taken(0, last_ts_ns).done
            &&& g.got_bars
            &&& f.exchange is Okx ==> (g.done <==> last <= f.start_ms)
            &&& f.exchange is Okx && !g.done ==> g.cursor() == last
            &&& !(f.exchange is Okx) && last >= f.end_ms ==> g.done
            &&& !(f.exchange is Okx) && !g.done ==> g.cursor() == last + f.timeframe_ms
            &&& !(f.exchange is Okx) && last < f.end_ms && last + f.timeframe_ms > f.cursor()
                ==> !g.done
            &&& (g.start_ms, g.end_ms, g.timeframe_ms) == (f.start_ms, f.end_ms, f.timeframe_ms)
        }),
{
}

/// The part of a range that is in a year begins with the later one of the year's and the range's first
/// day and ends with the last millisecond of the earlier one of their last days.
pub proof fn chunk_is_the_common_part(y: i32, start: Date, end: Date)
    requires
        date::day_of_ymd(y, 1, 1) is Some,
        date::day_of_ymd(y, 12, 31) is Some,
        719_163 <= start.days,
        719_163 <= end.days < 5_000_000,
        start.days < 5_000_000,
        719_163 <= date::day_of_ymd(y, 1, 1)->0 < 5_000_000,
        719_163 <= date::day_of_ymd(y, 12, 31)->0 < 5_000_000,
    ensures
        ({
            let c = year_chunk(y, start, end);
            let first = date::day_of_ymd(y, 1, 1)->0;
            let last = date::day_of_ymd(y, 12, 31)->0;
            &&& c.year == y
            &&& c.start_ms == 86_400_000 * ((if start.days > first {
                start.days
            } else {
                first
            }) - 719_163)
            &&& c.end_ms == 86_400_000 * ((if end.days < last {
                end.days
            } else {
                last
            }) - 719_162) - 1
        }),
{
}

/// A row of candles gives the time of its first field; rows with too few fields are refused.
pub proof fn candle_has_the_time_of_its_row(row: Seq<Cell>, ms: u64)
    ensures
        row.len() < 10 ==> binance_candle(row, true) is None && binance_candle(row, false) is None,
        row.len() < 7 ==> bybit_candle(row) is None && okx_candle(row) is None,
        row.len() >= 7 && row[0] == Cell::Number(Some(ms)) ==> bybit_candle(row) == Some(ms)
            && okx_candle(row) is None,
        binance_candle(row, true) is Some ==> binance_candle(row, true) == binance_candle(row, false),
        binance_candle(row, false) matches Some((t, _)) ==> row[0] == Cell::Number(Some(t)),
{
}

/// A symbol in a known quote currency is parted before it, and one that has a dash stays as it is;
/// futures have their mark behind it.
pub proof fn symbol_is_parted_before_its_quote(base: Seq<char>)
    requires
        base.len() > 0,
        !base.contains('-'),
    ensures
        okx_symbol(base + "USDT"@) == Some(base + "-"@ + "USDT"@),
        okx_symbol(base + "USDC"@) == Some(base + "-"@ + "USDC"@),
        pair_name(base + "-"@ + "USDT"@) == Some(base + "-"@ + "USDT"@),
        inst_id(InstrumentType::Spot, base + "-"@ + "USDT"@) == Some(base + "-"@ + "USDT"@),
        inst_id(InstrumentType::Futures, base + "-"@ + "USDT"@) == Some(
            base + "-"@ + "USDT"@ + "-SWAP"@,
        ),
{
    reveal_strlit("USDT");
    reveal_strlit("USDC");
    reveal_strlit("-");
    let t = base + "USDT"@;
    assert(t.skip(t.len() - 4) =~= "USDT"@);
    assert(t.take(t.len() - 4) =~= base);
    let c = base + "USDC"@;
    assert(c.skip(c.len() - 4) =~= "USDC"@);
    assert(c.take(c.len() - 4) =~= base);
    assert("USDC"@[3] != "USDT"@[3]);
    let d = base + "-"@ + "USDT"@;
    assert(d[base.len() as int] == '-');
    assert(d.contains('-'));
}

/// The bars of a year stand in a file that is named after the year.
pub proof fn year_names_its_file(
    root: Seq<char>,
    exchange: Seq<char>,
    kind: Seq<char>,
    symbol: Seq<char>,
    timeframe: Seq<char>,
    year: nat,
)
    ensures
        path::file_name(tvcb_path(root, exchange, kind, symbol, timeframe, year as int))
            == text::decimal(year) + ".tvcb"@,
{
    reveal_strlit(".tvcb");
    text::decimal_lacks(year, '/');
    let name = text::decimal(year) + ".tvcb"@;
    assert(!name.contains('/')) by {
        if name.contains('/') {
            let i = choose|i: int| 0 <= i < name.len() && name[i] == '/';
            if i < text::decimal(year).len() {
                assert(text::decimal(year)[i] == '/');
            } else {
                assert(".tvcb"@[i - text::decimal(year).len()] == '/');
            }
        }
    }
    path::name_within_reads_back(
        path::joined4(root, exchange, kind, text::lower(symbol), timeframe),
        name,
    );
}

/// Bybit knows timeframes by their minutes, and a day by a letter; other exchanges by their names.
pub proof fn bybit_counts_minutes(tf: Seq<char>)
    ensures
        interval_of(ExchangeKind::Bybit, "1m"@) == "1"@,
        interval_of(ExchangeKind::Bybit, "5m"@) == "5"@,
        interval_of(ExchangeKind::Bybit, "15m"@) == "15"@,
        interval_of(ExchangeKind::Bybit, "1h"@) == "60"@,
        interval_of(ExchangeKind::Bybit, "4h"@) == "240"@,
        interval_of(ExchangeKind::Bybit, "1d"@) == "D"@,
        interval_of(ExchangeKind::Binance, tf) == tf,
        interval_of(ExchangeKind::Okx, tf) == tf,
{
    reveal_strlit("1m");
    reveal_strlit("5m");
    reveal_strlit("15m");
    reveal_strlit("1h");
    reveal_strlit("4h");
    reveal_strlit("1d");
    assert("1m"@[0] != "5m"@[0]);
    assert("1m"@[1] != "1h"@[1]);
    assert("1m"@[1] != "1d"@[1]);
    assert("1m"@[0] != "4h"@[0]);
    assert("5m"@[0] != "1h"@[0]);
    assert("5m"@[0] != "4h"@[0]);
    assert("5m"@[0] != "1d"@[0]);
    assert("1h"@[0] != "4h"@[0]);
    assert("1h"@[1] != "1d"@[1]);
    assert("4h"@[0] != "1d"@[0]);
}

} // verus!
