//! Trades of Bybit: packed tables, of a day for futures and of a month for spot.

use crate::data_manager::downloader::DownloadError;
use crate::data_manager::downloader::RawTradeData;
use crate::data_manager::downloaders::parsers;
use crate::data_manager::downloaders::parsers::parse_price_to_int;
use crate::data_manager::downloaders::parsers::parse_qty_to_int;
use crate::data_manager::types::Exchange;
use crate::data_manager::types::Venue;
use crate::date;
use crate::date::Date;
use crate::text;
use crate::text::chars_of;
use crate::text::decimal_text;
use crate::text::text_of;
use csv::ReaderBuilder;
use flate2::read::GzDecoder;
use std::io::BufReader;
use std::io::Cursor;
use vstd::prelude::*;

verus! {

/// A row of a table: its fields, or the text of the error.
pub type TableRow = Result<Vec<String>, String>;

/// A row of a table as texts.
pub type RowText = Result<Seq<Seq<char>>, Seq<char>>;

/// A row of a table as texts.
pub open spec fn row_text(r: TableRow) -> RowText {
    match r {
        Ok(fields) => Ok(text::texts(fields@)),
        Err(e) => Err(e@),
    }
}

/// Rows of a table as texts.
pub open spec fn row_texts(rows: Seq<TableRow>) -> Seq<RowText> {
    Seq::new(rows.len(), |i: int| row_text(rows[i]))
}

/// The rows of a table packed with gzip, behind its header.
pub uninterp spec fn packed_rows(bytes: Seq<u8>) -> Seq<Result<Seq<Seq<char>>, Seq<char>>>;

/// `csv::Reader::into_records` of a reader built with headers and rows of any length, over
/// `flate2::read::GzDecoder`. The records depend on the bytes alone; errors are taken by their
/// texts.
#[verifier::external_body]
fn unpack_rows(gz_data: &[u8]) -> (r: Vec<TableRow>)
    ensures
        row_texts(r@) == packed_rows(gz_data@),
{
    let reader = BufReader::new(GzDecoder::new(Cursor::new(gz_data)));
    let table = ReaderBuilder::new().has_headers(true).flexible(true).from_reader(reader);
    table.into_records().map(
        |row|
            match row {
                Ok(record) => Ok(record.iter().map(|field| field.to_owned()).collect()),
                Err(e) => Err(e.to_string()),
            },
    ).collect()
}

/// The text starts with another.
pub open spec fn starts_with(s: Seq<char>, front: Seq<char>) -> bool {
    s.len() >= front.len() && s.take(front.len() as int) == front
}

fn text_starts_with(s: &str, front: &str) -> (r: bool)
    ensures
        r == starts_with(s@, front@),
{
    let v = chars_of(s);
    let w = chars_of(front);
    let n: usize = w.len();
    if v.len() < n {
        return false;
    }
    let head = text_of(&v, 0, n);
    assert(head@ =~= s@.take(n as int));
    text::same_text(head.as_str(), front)
}

/// What a row comes to.
pub enum Row {
    /// The row belongs to another day.
    Skipped,
    /// The row cannot be read.
    Broken(Seq<char>),
    /// The time cannot be read.
    BadTime(Seq<char>),
    /// The row has too few fields.
    TooShort,
    Trade(u64, i64, i64),
}

/// What a row comes to. Its fields are time, symbol, side, size, price, and more. `time` is the time
/// of the first field in nanoseconds, where it is one. Only rows whose time starts with `day` count,
/// where a day is given.
pub open spec fn row_of(
    row: RowText,
    time: Option<u64>,
    day: Option<Seq<char>>,
    precision: u8,
) -> Row {
    match row {
        Err(e) => Row::Broken(e),
        Ok(fields) => if fields.len() == 0 {
            Row::TooShort
        } else if day matches Some(d) && !starts_with(fields[0], d) {
            Row::Skipped
        } else if day is None && fields.len() < 5 {
            Row::TooShort
        } else {
            match time {
                None => Row::BadTime(fields[0]),
                Some(ns) => if fields.len() < 5 {
                    Row::TooShort
                } else {
                    Row::Trade(
                        ns,
                        parsers::price_units(fields[4], precision) as i64,
                        parsers::price_units(fields[3], precision) as i64,
                    )
                },
            }
        },
    }
}

/// What a table comes to.
pub enum Table {
    Trades(Seq<(u64, i64, i64)>),
    /// A row cannot be read.
    Broken(int, Seq<char>),
    /// The time of a row cannot be read.
    BadTime(int, Seq<char>),
    /// A row has too few fields.
    TooShort,
}

/// What the first `n` rows come to.
pub open spec fn table_of(
    rows: Seq<RowText>,
    times: Seq<Option<u64>>,
    day: Option<Seq<char>>,
    precision: u8,
    n: int,
) -> Table
    decreases n,
{
    if n <= 0 {
        Table::Trades(seq![])
    } else {
        match table_of(rows, times, day, precision, n - 1) {
            Table::Trades(t) => match row_of(rows[n - 1], times[n - 1], day, precision) {
                Row::Skipped => Table::Trades(t),
                Row::Broken(e) => Table::Broken(n - 1, e),
                Row::BadTime(s) => Table::BadTime(n - 1, s),
                Row::TooShort => Table::TooShort,
                Row::Trade(ts, p, q) => Table::Trades(t.push((ts, p, q))),
            },
            other => other,
        }
    }
}

proof fn lemma_table_stops(
    rows: Seq<RowText>,
    times: Seq<Option<u64>>,
    day: Option<Seq<char>>,
    precision: u8,
    a: int,
    b: int,
)
    requires
        0 <= a <= b,
        !(table_of(rows, times, day, precision, a) is Trades),
    ensures
        table_of(rows, times, day, precision, b) == table_of(rows, times, day, precision, a),
    decreases b - a,
{
    if a < b {
        lemma_table_stops(rows, times, day, precision, a, b - 1);
    }
}

/// What is made of a table: trades, an error, or nothing where a row has too few fields.
pub open spec fn is_reading(
    r: Option<Result<RawTradeData, DownloadError>>,
    table: Table,
    venue: Venue,
    symbol: Seq<char>,
    date: Date,
) -> bool {
    match table {
        Table::Trades(t) => r matches Some(Ok(d)) && d.exchange is Bybit && d.venue == venue
            && d.symbol@ == symbol && d.date == date && d.trades@ == t,
        Table::Broken(row, e) => r matches Some(Err(x)) && x is Parse && x->Parse_0@
            == "CSV error at row "@ + text::decimal(row as nat) + ": "@ + e,
        Table::BadTime(row, s) => r matches Some(Err(x)) && x is Parse && x->Parse_0@
            == "Invalid timestamp at row "@ + text::decimal(row as nat) + ": "@ + s,
        Table::TooShort => r is None,
    }
}

fn row_error(front: &str, row: usize, e: &str) -> (r: Option<Result<RawTradeData, DownloadError>>)
    ensures
        r matches Some(Err(x)) && x is Parse && x->Parse_0@ == front@ + text::decimal(row as nat)
            + ": "@ + e@,
{
    let mut m = front.to_owned();
    m.append(decimal_text(row as u64).as_str());
    m.append(": ");
    m.append(e);
    Some(Err(DownloadError::Parse(m)))
}

/// Reads tables of Bybit.
#[derive(Debug, Clone, Copy, PartialEq, Eq, Structural)]
pub struct BybitDownloader {
    /// Digits of a unit behind the point.
    pub precision: u8,
}

impl BybitDownloader {
    /// A reader with nine digits behind the point.
    pub fn new() -> (r: Self)
        ensures
            r.precision == 9,
    {
        BybitDownloader { precision: 9 }
    }

    /// A reader with another precision.
    pub fn with_precision(self, precision: u8) -> (r: Self)
        ensures
            r.precision == precision,
    {
        BybitDownloader { precision }
    }

    /// The name of the source.
    pub fn name(&self) -> (r: &str)
        ensures
            r@ == "Bybit Public Data Archive"@,
    {
        "Bybit Public Data Archive"
    }

    /// The address of the futures trades of a day; nothing for a day outside the calendar.
    pub fn trading_url(&self, symbol: &str, day: Date) -> (r: Option<String>)
        ensures
            match (date::text_of_day(day.days), r) {
                (Some(t), Some(url)) => url@ == "https://public.bybit.com/trading/"@ + symbol@
                    + "/"@ + symbol@ + t + ".csv.gz"@,
                (None, None) => true,
                _ => false,
            },
    {
        match day.to_text() {
            Some(t) => {
                let mut url = "https://public.bybit.com/trading/".to_owned();
                url.append(symbol);
                url.append("/");
                url.append(symbol);
                url.append(t.as_str());
                url.append(".csv.gz");
                Some(url)
            },
            None => None,
        }
    }

    /// The address of the spot trades of the month of a day; nothing for a day outside the
    /// calendar. A month is written as a day without its last part.
    pub fn spot_url(&self, symbol: &str, day: Date) -> (r: Option<String>)
        ensures
            match (date::text_of_day(day.days), r) {
                (Some(t), Some(url)) => t.len() >= 3 && url@ == "https://public.bybit.com/spot/"@
                    + symbol@ + "/"@ + symbol@ + "-"@ + t.take(t.len() - 3) + ".csv.gz"@,
                (Some(t), None) => t.len() < 3,
                (None, None) => true,
                _ => false,
            },
    {
        let t = match day.to_text() {
            Some(t) => t,
            None => {
                return None;
            },
        };
        let v = chars_of(t.as_str());
        let n: usize = v.len();
        if n < 3 {
            return None;
        }
        let month = text_of(&v, 0, n - 3);
        assert(month@ =~= t@.take(n - 3));
        let mut url = "https://public.bybit.com/spot/".to_owned();
        url.append(symbol);
        url.append("/");
        url.append(symbol);
        url.append("-");
        url.append(month.as_str());
        url.append(".csv.gz");
        Some(url)
    }

    /// The rows of a packed table.
    pub fn rows(&self, gz_data: &[u8]) -> (r: Vec<TableRow>)
        ensures
            row_texts(r@) == packed_rows(gz_data@),
    {
        unpack_rows(gz_data)
    }

    fn read(
        &self,
        rows: &Vec<TableRow>,
        times: &Vec<Option<u64>>,
        day: Option<&str>,
        venue: Venue,
        symbol: &str,
        date: Date,
    ) -> (r: Option<Result<RawTradeData, DownloadError>>)
        requires
            self.precision <= 18,
            times@.len() == rows@.len(),
        ensures
            is_reading(
                r,
                table_of(
                    row_texts(rows@),
                    times@,
                    match day {
                        Some(d) => Some(d@),
                        None => None,
                    },
                    self.precision,
                    rows@.len() as int,
                ),
                venue,
                symbol@,
                date,
            ),
    {
        let ghost texts = row_texts(rows@);
        let ghost d: Option<Seq<char>> = match day {
            Some(d) => Some(d@),
            None => None,
        };
        let mut trades: Vec<(u64, i64, i64)> = Vec::new();
        let count: usize = rows.len();
        let mut i: usize = 0;
        while i < count
            invariant
                self.precision <= 18,
                i <= count,
                count == rows@.len() == times@.len(),
                texts == row_texts(rows@),
                d == (match day {
                    Some(d) => Some(d@),
                    None => None,
                }),
                table_of(texts, times@, d, self.precision, i as int) == Table::Trades(trades@),
            decreases count - i,
        {
            let ghost row = texts[i as int];
            assert(row == row_text(rows@[i as int]));
            let ghost fate = row_of(row, times@[i as int], d, self.precision);
            proof {
                if !(table_of(texts, times@, d, self.precision, i + 1) is Trades) {
                    lemma_table_stops(texts, times@, d, self.precision, i + 1, count as int);
                }
            }
            let fields: &Vec<String> = match &rows[i] {
                Ok(fields) => fields,
                Err(e) => {
                    assert(fate == Row::Broken(e@));
                    return row_error("CSV error at row ", i, e.as_str());
                },
            };
            let ghost parts = text::texts(fields@);
            let n: usize = fields.len();
            if n == 0 {
                assert(fate == Row::TooShort);
                return None;
            }
            assert(parts[0] == fields@[0]@);
            let wanted = match day {
                Some(d) => text_starts_with(fields[0].as_str(), d),
                None => true,
            };
            if wanted {
                if day.is_none() && n < 5 {
                    assert(fate == Row::TooShort);
                    return None;
                }
                let ns: u64 = match times[i] {
                    Some(ns) => ns,
                    None => {
                        assert(fate == Row::BadTime(parts[0]));
                        return row_error("Invalid timestamp at row ", i, fields[0].as_str());
                    },
                };
                if n < 5 {
                    assert(fate == Row::TooShort);
                    return None;
                }
                assert(parts[3] == fields@[3]@ && parts[4] == fields@[4]@);
                let price: i64 = parse_price_to_int(fields[4].as_str(), self.precision);
                let size: i64 = parse_qty_to_int(fields[3].as_str(), self.precision);
                assert(fate == Row::Trade(ns, price, size));
                trades.push((ns, price, size));
            } else {
                assert(fate == Row::Skipped);
            }
            i = i + 1;
        }
        Some(
            Ok(
                RawTradeData {
                    exchange: Exchange::Bybit,
                    venue,
                    symbol: symbol.to_owned(),
                    date,
                    trades,
                },
            ),
        )
    }

    /// The futures trades of a symbol in a table. `times` holds the time of the first field of each
    /// row in nanoseconds, where it is one. None where a row has too few fields.
    pub fn read_trading(
        &self,
        symbol: &str,
        rows: &Vec<TableRow>,
        times: &Vec<Option<u64>>,
        date: Date,
    ) -> (r: Option<Result<RawTradeData, DownloadError>>)
        requires
            self.precision <= 18,
            times@.len() == rows@.len(),
        ensures
            is_reading(
                r,
                table_of(row_texts(rows@), times@, None, self.precision, rows@.len() as int),
                Venue::Linear,
                symbol@,
                date,
            ),
    {
        self.read(rows, times, None, Venue::Linear, symbol, date)
    }

    /// The spot trades of a symbol on a day, in a table of its month. Rows whose first field does
    /// not start with the day are passed over. None where a row has too few fields, or the day is
    /// outside the calendar.
    pub fn read_spot(
        &self,
        symbol: &str,
        rows: &Vec<TableRow>,
        times: &Vec<Option<u64>>,
        day: Date,
    ) -> (r: Option<Result<RawTradeData, DownloadError>>)
        requires
            self.precision <= 18,
            times@.len() == rows@.len(),
        ensures
            match date::text_of_day(day.days) {
                Some(t) => is_reading(
                    r,
                    table_of(
                        row_texts(rows@),
                        times@,
                        Some(t),
                        self.precision,
                        rows@.len() as int,
                    ),
                    Venue::Spot,
                    symbol@,
                    day,
                ),
                None => r is None,
            },
    {
        match day.to_text() {
            Some(t) => self.read(rows, times, Some(t.as_str()), Venue::Spot, symbol, day),
            None => None,
        }
    }
}

/// A row gives the trade of its time, of its fifth field, the price, and of its fourth, the size. Where
/// a day is given, rows of other days are passed over.
pub proof fn row_gives_its_trade(
    fields: Seq<Seq<char>>,
    ns: u64,
    day: Option<Seq<char>>,
    precision: u8,
)
    requires
        fields.len() >= 5,
    ensures
        ({
            let r = row_of(Ok(fields), Some(ns), day, precision);
            let other = day is Some && !(fields[0].len() >= day->0.len() && fields[0].take(
                day->0.len() as int,
            ) == day->0);
            &&& other ==> r is Skipped
            &&& !other ==> r == Row::Trade(
                ns,
                parsers::price_units(fields[4], precision) as i64,
                parsers::price_units(fields[3], precision) as i64,
            )
        }),
{
}

/// Trades stand in the order of their rows.
pub proof fn trades_stand_in_the_order_of_rows(
    rows: Seq<RowText>,
    times: Seq<Option<u64>>,
    day: Option<Seq<char>>,
    precision: u8,
    n: int,
)
    requires
        0 < n <= rows.len(),
        table_of(rows, times, day, precision, n) is Trades,
    ensures
        table_of(rows, times, day, precision, n - 1) is Trades,
        ({
            let before = table_of(rows, times, day, precision, n - 1)->Trades_0;
            let after = table_of(rows, times, day, precision, n)->Trades_0;
            match row_of(rows[n - 1], times[n - 1], day, precision) {
                Row::Trade(ts, p, q) => after == before.push((ts, p, q)),
                _ => after == before,
            }
        }),
{
}

} // verus!
