//! Trades of Binance: daily archives with one table each.

use crate::data_manager::downloader::DownloadError;
use crate::data_manager::downloader::RawTradeData;
use crate::data_manager::downloaders::parsers;
use crate::data_manager::downloaders::parsers::read_number;
use crate::data_manager::types::Exchange;
use crate::data_manager::types::Venue;
use crate::date;
use crate::date::Date;
use crate::decimals;
use crate::decimals::scale;
use crate::decimals::shorten;
use crate::text;
use crate::text::decimal_text;
use crate::text::lines_of;
use crate::text::parse_unsigned_text;
use crate::text::split_text;
use crate::text::trim_text;
use std::io::Read;
use vstd::prelude::*;
use vstd::string::*;
use zip::ZipArchive;

verus! {

/// A time in nanoseconds: numbers below ten to the sixteenth are microseconds.
pub open spec fn time_ns(ts: u64) -> u64 {
    if ts < 10_000_000_000_000_000 {
        (ts * 1000) as u64
    } else {
        ts
    }
}

/// A time in nanoseconds.
pub fn normalize_timestamp_ns(ts: u64) -> (r: u64)
    ensures
        r == time_ns(ts),
{
    if ts < 10_000_000_000_000_000 {
        ts * 1000
    } else {
        ts
    }
}

/// The digits of a decimal number behind the point; a number without a point has one zero.
pub open spec fn decimal_places(s: Seq<char>) -> Seq<char> {
    let parts = text::split(s, '.');
    if parts.len() > 1 {
        parts[1]
    } else {
        "0"@
    }
}

/// A decimal number as a whole number of units with `precision` digits behind the point: all its
/// digits are read as one number, which gets zeros or loses digits. None where there are more than
/// eighteen of these, or the number does not fit.
pub open spec fn price_units(s: Seq<char>, precision: u8) -> Option<int> {
    let places = decimal_places(s);
    let n = parsers::number_or_zero(text::split(s, '.')[0] + places);
    let diff = precision - vstd::utf8::encode_utf8(places).len();
    if diff > 18 || diff < -18 {
        None
    } else if diff >= 0 {
        if decimals::fits(decimals::scaled(n, diff)) {
            Some(decimals::scaled(n, diff))
        } else {
            None
        }
    } else {
        Some(decimals::shortened(n, -diff))
    }
}

/// Reads a decimal number as a whole number of units with `precision` digits behind the point.
/// None where it does not fit.
pub fn parse_price_to_int(s: &str, precision: u8) -> (r: Option<i64>)
    ensures
        match r {
            Some(n) => price_units(s@, precision) == Some(n as int),
            None => price_units(s@, precision) is None,
        },
{
    let parts = split_text(s, '.');
    let ghost all = text::texts(parts@);
    assert(all[0] == parts@[0]@);
    let places: String = if parts.len() > 1 {
        assert(all[1] == parts@[1]@);
        parts[1].clone()
    } else {
        "0".to_owned()
    };
    let mut digits = parts[0].clone();
    digits.append(places.as_str());
    let n: i64 = read_number(digits.as_str());
    let count: usize = places.as_str().as_bytes().len();
    let wanted: usize = precision as usize;
    if count <= wanted {
        let zeros: usize = wanted - count;
        if zeros > 18 {
            return None;
        }
        scale(n, zeros as u8)
    } else {
        let surplus: usize = count - wanted;
        if surplus > 18 {
            return None;
        }
        Some(shorten(n, surplus as u8))
    }
}

/// Reads a quantity in the same way.
pub fn parse_qty_to_int(s: &str, precision: u8) -> (r: Option<i64>)
    ensures
        match r {
            Some(n) => price_units(s@, precision) == Some(n as int),
            None => price_units(s@, precision) is None,
        },
{
    parse_price_to_int(s, precision)
}

// ---------------------------------------------------------------------------
// Tables
// ---------------------------------------------------------------------------

/// What a row of a table comes to.
pub enum Row {
    /// A row with fewer than six fields.
    Skipped,
    /// The time cannot be read.
    BadTime(Seq<char>),
    /// A price or a quantity does not fit.
    TooLarge,
    Trade(u64, i64, i64),
}

/// What a row comes to. Its fields are the number of the trade, price, quantity, value, time, and
/// two flags.
pub open spec fn row_of(line: Seq<char>, precision: u8) -> Row {
    let fields = text::split(line, ',');
    if fields.len() < 6 {
        Row::Skipped
    } else {
        let time = text::trim(fields[4]);
        match text::parse_unsigned(time, u64::MAX as nat) {
            None => Row::BadTime(time),
            Some(ts) => match (
                price_units(text::trim(fields[1]), precision),
                price_units(text::trim(fields[2]), precision),
            ) {
                (Some(p), Some(q)) => Row::Trade(time_ns(ts as u64), p as i64, q as i64),
                _ => Row::TooLarge,
            },
        }
    }
}

/// What a table comes to.
pub enum Table {
    Trades(Seq<(u64, i64, i64)>),
    /// The time in a line cannot be read.
    BadTime(int, Seq<char>),
    TooLarge,
}

/// What the header and the first `n` rows of a table come to. Rows are counted as lines.
pub open spec fn table_of(lines: Seq<Seq<char>>, precision: u8, n: int) -> Table
    decreases n,
{
    if n <= 0 {
        Table::Trades(seq![])
    } else {
        match table_of(lines, precision, n - 1) {
            Table::Trades(t) => match row_of(lines[n], precision) {
                Row::Skipped => Table::Trades(t),
                Row::BadTime(s) => Table::BadTime(n + 1, s),
                Row::TooLarge => Table::TooLarge,
                Row::Trade(ts, p, q) => Table::Trades(t.push((ts, p, q))),
            },
            other => other,
        }
    }
}

proof fn lemma_table_stops(lines: Seq<Seq<char>>, precision: u8, a: int, b: int)
    requires
        0 <= a <= b,
        !(table_of(lines, precision, a) is Trades),
    ensures
        table_of(lines, precision, b) == table_of(lines, precision, a),
    decreases b - a,
{
    if a < b {
        lemma_table_stops(lines, precision, a, b - 1);
    }
}

/// The trades of a day of a symbol.
pub open spec fn is_day(
    d: RawTradeData,
    symbol: Seq<char>,
    date: Date,
    trades: Seq<(u64, i64, i64)>,
) -> bool {
    &&& d.exchange is Binance
    &&& d.venue is Spot
    &&& d.symbol@ == symbol
    &&& d.date == date
    &&& d.trades@ == trades
}

/// What is made of a table: trades, an error, or nothing where a number does not fit.
pub open spec fn is_reading(
    r: Option<Result<RawTradeData, DownloadError>>,
    csv: Seq<char>,
    precision: u8,
    symbol: Seq<char>,
    date: Date,
) -> bool {
    let lines = text::lines(csv);
    if lines.len() == 0 {
        r matches Some(Err(e)) && e is Parse && e->Parse_0@ == "Empty CSV"@
    } else {
        match table_of(lines, precision, lines.len() - 1) {
            Table::Trades(t) => r matches Some(Ok(d)) && is_day(d, symbol, date, t),
            Table::BadTime(line, s) => r matches Some(Err(e)) && e is Parse && e->Parse_0@
                == "Invalid timestamp at line "@ + text::decimal(line as nat) + ": "@ + s,
            Table::TooLarge => r is None,
        }
    }
}

// ---------------------------------------------------------------------------
// Archives
// ---------------------------------------------------------------------------

/// The number of files in a ZIP archive, or the text of the error.
pub uninterp spec fn archive_size(bytes: Seq<u8>) -> Result<usize, Seq<char>>;

/// `zip::ZipArchive::new` on bytes, and `zip::ZipArchive::len`. Both depend on the bytes alone; the
/// error is taken by its text.
#[verifier::external_body]
fn zip_size(bytes: &[u8]) -> (r: Result<usize, String>)
    ensures
        match r {
            Ok(n) => archive_size(bytes@) == Ok::<usize, Seq<char>>(n),
            Err(e) => archive_size(bytes@) == Err::<usize, Seq<char>>(e@),
        },
{
    match ZipArchive::new(std::io::Cursor::new(bytes)) {
        Ok(archive) => Ok(archive.len()),
        Err(e) => Err(e.to_string()),
    }
}

/// What keeps the first file of an archive from being read.
#[derive(Debug)]
pub enum EntryError {
    /// The file cannot be opened.
    Open(String),
    /// Its contents are broken, or no text.
    Contents(String),
}

/// The text of the first file of a ZIP archive; an error with whether the file was opened, and its
/// text.
pub uninterp spec fn first_entry(bytes: Seq<u8>) -> Result<Seq<char>, (bool, Seq<char>)>;

/// `zip::ZipArchive::by_index` with 0, and `std::io::Read::read_to_string` on the file. The text
/// depends on the bytes alone; errors are taken by their texts.
#[verifier::external_body]
fn zip_text(bytes: &[u8]) -> (r: Result<String, EntryError>)
    ensures
        match r {
            Ok(s) => first_entry(bytes@) == Ok::<Seq<char>, (bool, Seq<char>)>(s@),
            Err(EntryError::Open(e)) => first_entry(bytes@) == Err::<
                Seq<char>,
                (bool, Seq<char>),
            >((false, e@)),
            Err(EntryError::Contents(e)) => first_entry(bytes@) == Err::<
                Seq<char>,
                (bool, Seq<char>),
            >((true, e@)),
        },
{
    let mut archive = ZipArchive::new(std::io::Cursor::new(bytes)).map_err(
        |e| EntryError::Open(e.to_string()),
    )?;
    let mut file = archive.by_index(0).map_err(|e| EntryError::Open(e.to_string()))?;
    let mut text = String::new();
    file.read_to_string(&mut text).map_err(|e| EntryError::Contents(e.to_string()))?;
    Ok(text)
}

/// The reading fails with a text.
pub open spec fn fails_with(
    r: Option<Result<RawTradeData, DownloadError>>,
    message: Seq<char>,
) -> bool {
    r matches Some(Err(e)) && e is Parse && e->Parse_0@ == message
}

/// Reads archives of Binance.
#[derive(Debug, Clone, Copy, PartialEq, Eq, Structural)]
pub struct BinanceDownloader {
    /// Digits of a unit behind the point.
    pub precision: u8,
}

fn failure(front: &str, e: &str) -> (r: Option<Result<RawTradeData, DownloadError>>)
    ensures
        fails_with(r, front@ + e@),
{
    Some(Err(DownloadError::Parse(front.to_owned().concat(e))))
}

impl BinanceDownloader {
    /// A reader with nine digits behind the point.
    pub fn new() -> (r: Self)
        ensures
            r.precision == 9,
    {
        BinanceDownloader { precision: 9 }
    }

    /// A reader with another precision.
    pub fn with_precision(self, precision: u8) -> (r: Self)
        ensures
            r.precision == precision,
    {
        BinanceDownloader { precision }
    }

    /// The name of the source.
    pub fn name(&self) -> (r: &str)
        ensures
            r@ == "Binance Historical Archive"@,
    {
        "Binance Historical Archive"
    }

    /// The address of the archive of a day; nothing for a day outside the calendar.
    pub fn url(&self, symbol: &str, day: Date) -> (r: Option<String>)
        ensures
            match (date::text_of_day(day.days), r) {
                (Some(t), Some(url)) => url@
                    == "https://data.binance.vision/data/spot/daily/trades/"@ + symbol@ + "/"@
                    + symbol@ + "-trades-"@ + t + ".zip"@,
                (None, None) => true,
                _ => false,
            },
    {
        match day.to_text() {
            Some(t) => {
                let mut url = "https://data.binance.vision/data/spot/daily/trades/".to_owned();
                url.append(symbol);
                url.append("/");
                url.append(symbol);
                url.append("-trades-");
                url.append(t.as_str());
                url.append(".zip");
                Some(url)
            },
            None => None,
        }
    }

    /// Reads an archive: it holds one file, which is a table of trades. None where a number does
    /// not fit.
    pub fn parse_zip(&self, zip_data: &[u8], date: Date) -> (r: Option<
        Result<RawTradeData, DownloadError>,
    >)
        ensures
            match archive_size(zip_data@) {
                Err(e) => fails_with(r, "Invalid ZIP: "@ + e),
                Ok(n) => if n != 1 {
                    fails_with(r, "Expected 1 file in ZIP, got "@ + text::decimal(n as nat))
                } else {
                    match first_entry(zip_data@) {
                        Ok(csv) => is_reading(r, csv, self.precision, "BTCUSDT"@, date),
                        Err((false, e)) => fails_with(r, "Failed to read ZIP entry: "@ + e),
                        Err((true, e)) => fails_with(r, "Failed to read CSV content: "@ + e),
                    }
                },
            },
    {
        let n: usize = match zip_size(zip_data) {
            Ok(n) => n,
            Err(e) => {
                return failure("Invalid ZIP: ", e.as_str());
            },
        };
        if n != 1 {
            return failure("Expected 1 file in ZIP, got ", decimal_text(n as u64).as_str());
        }
        match zip_text(zip_data) {
            Ok(csv) => self.parse_csv(csv.as_str(), date),
            Err(EntryError::Open(e)) => failure("Failed to read ZIP entry: ", e.as_str()),
            Err(EntryError::Contents(e)) => failure("Failed to read CSV content: ", e.as_str()),
        }
    }

    /// Reads a table of trades; its first line is a header. None where a number does not fit.
    pub fn parse_csv(&self, csv_data: &str, date: Date) -> (r: Option<
        Result<RawTradeData, DownloadError>,
    >)
        ensures
            is_reading(r, csv_data@, self.precision, "BTCUSDT"@, date),
    {
        let lines = lines_of(csv_data);
        let ghost all = text::lines(csv_data@);
        let count: usize = lines.len();
        if count == 0 {
            return Some(Err(DownloadError::Parse("Empty CSV".to_owned())));
        }
        let mut trades: Vec<(u64, i64, i64)> = Vec::new();
        let mut i: usize = 1;
        while i < count
            invariant
                1 <= i <= count,
                count == lines@.len() == all.len(),
                all == text::texts(lines@),
                all == text::lines(csv_data@),
                table_of(all, self.precision, i - 1) == Table::Trades(trades@),
            decreases count - i,
        {
            let ghost line = all[i as int];
            assert(line == lines@[i as int]@);
            let fields = split_text(lines[i].as_str(), ',');
            let ghost parts = text::texts(fields@);
            if fields.len() >= 6 {
                assert(parts[1] == fields@[1]@ && parts[2] == fields@[2]@ && parts[4]
                    == fields@[4]@);
                let price = trim_text(fields[1].as_str());
                let qty = trim_text(fields[2].as_str());
                let time = trim_text(fields[4].as_str());
                match parse_unsigned_text(time.as_str(), u64::MAX) {
                    Some(ts) => {
                        match (
                            parse_price_to_int(price.as_str(), self.precision),
                            parse_qty_to_int(qty.as_str(), self.precision),
                        ) {
                            (Some(p), Some(q)) => {
                                trades.push((normalize_timestamp_ns(ts), p, q));
                            },
                            _ => {
                                proof {
                                    assert(row_of(line, self.precision) == Row::TooLarge);
                                    lemma_table_stops(all, self.precision, i as int, count - 1);
                                }
                                return None;
                            },
                        }
                    },
                    None => {
                        let mut m = "Invalid timestamp at line ".to_owned();
                        m.append(decimal_text(i as u64 + 1).as_str());
                        m.append(": ");
                        m.append(time.as_str());
                        proof {
                            assert(row_of(line, self.precision) == Row::BadTime(time@));
                            lemma_table_stops(all, self.precision, i as int, count - 1);
                        }
                        return Some(Err(DownloadError::Parse(m)));
                    },
                }
            }
            i = i + 1;
        }
        Some(
            Ok(
                RawTradeData {
                    exchange: Exchange::Binance,
                    venue: Venue::Spot,
                    symbol: "BTCUSDT".to_owned(),
                    date,
                    trades,
                },
            ),
        )
    }

    /// The trades of a symbol in an archive. None where a number does not fit.
    pub fn read_archive(&self, symbol: &str, zip_data: &[u8], date: Date) -> (r: Option<
        Result<RawTradeData, DownloadError>,
    >)
        ensures
            match archive_size(zip_data@) {
                Err(e) => fails_with(r, "Invalid ZIP: "@ + e),
                Ok(n) => if n != 1 {
                    fails_with(r, "Expected 1 file in ZIP, got "@ + text::decimal(n as nat))
                } else {
                    match first_entry(zip_data@) {
                        Ok(csv) => is_reading(r, csv, self.precision, symbol@, date),
                        Err((false, e)) => fails_with(r, "Failed to read ZIP entry: "@ + e),
                        Err((true, e)) => fails_with(r, "Failed to read CSV content: "@ + e),
                    }
                },
            },
    {
        match self.parse_zip(zip_data, date) {
            Some(Ok(mut d)) => {
                d.symbol = symbol.to_owned();
                Some(Ok(d))
            },
            other => other,
        }
    }
}

/// An HTTP status is a success.
pub open spec fn is_success(status: u16) -> bool {
    200 <= status < 300
}

/// A status that is no success is an error.
pub fn check_status(status: u16, url: &str) -> (r: Result<(), DownloadError>)
    ensures
        match r {
            Ok(_) => is_success(status),
            Err(e) => !is_success(status) && e is Http && e->Http_0 == status && e->Http_1@
                == "Failed to fetch "@ + url@,
        },
{
    if 200 <= status && status < 300 {
        Ok(())
    } else {
        Err(DownloadError::Http(status, "Failed to fetch ".to_owned().concat(url)))
    }
}

/// There are no more trades than rows, and as many where every row is a trade.
pub proof fn no_more_trades_than_rows(lines: Seq<Seq<char>>, precision: u8, n: int)
    requires
        0 <= n < lines.len(),
        table_of(lines, precision, n) is Trades,
    ensures
        table_of(lines, precision, n)->Trades_0.len() <= n,
        (forall|i: int| 1 <= i <= n ==> row_of(#[trigger] lines[i], precision) is Trade)
            ==> table_of(lines, precision, n)->Trades_0.len() == n,
    decreases n,
{
    if n > 0 {
        no_more_trades_than_rows(lines, precision, n - 1);
    }
}

/// Times are nanoseconds; smaller numbers are microseconds and count a thousandfold, so that a time
/// never goes back.
pub proof fn times_are_nanoseconds(ts: u64)
    ensures
        ts < 10_000_000_000_000_000 ==> time_ns(ts) == 1000 * ts,
        ts >= 10_000_000_000_000_000 ==> time_ns(ts) == ts,
        time_ns(ts) >= ts,
{
}

/// A row gives the trade of its second, third and fifth field: price, quantity and time. A row with
/// fewer than six fields is passed over, and one whose time is no number is refused.
pub proof fn row_gives_its_trade(line: Seq<char>, precision: u8)
    ensures
        ({
            let f = text::split(line, ',');
            let ts = text::parse_unsigned(text::trim(f[4]), u64::MAX as nat);
            let p = price_units(text::trim(f[1]), precision);
            let q = price_units(text::trim(f[2]), precision);
            &&& f.len() < 6 ==> row_of(line, precision) is Skipped
            &&& f.len() >= 6 && ts is None ==> row_of(line, precision) is BadTime
            &&& f.len() >= 6 && ts is Some && p is Some && q is Some ==> row_of(line, precision)
                == Row::Trade(time_ns(ts->0 as u64), p->0 as i64, q->0 as i64)
            &&& f.len() >= 6 && ts is Some && (p is None || q is None) ==> row_of(line, precision)
                is TooLarge
        }),
{
}

/// Trades stand in the order of their rows: one more row adds its trade behind the others, or nothing.
pub proof fn trades_stand_in_the_order_of_rows(lines: Seq<Seq<char>>, precision: u8, n: int)
    requires
        0 < n < lines.len(),
        table_of(lines, precision, n) is Trades,
    ensures
        table_of(lines, precision, n - 1) is Trades,
        ({
            let before = table_of(lines, precision, n - 1)->Trades_0;
            let after = table_of(lines, precision, n)->Trades_0;
            match row_of(lines[n], precision) {
                Row::Trade(ts, p, q) => after == before.push((ts, p, q)),
                _ => after == before,
            }
        }),
{
}

/// A status is a success from 200 to 299.
pub proof fn two_hundreds_are_successes(status: u16)
    ensures
        is_success(status) <==> status / 100 == 2,
{
}

} // verus!
