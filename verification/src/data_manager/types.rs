//! Exchanges, venues, and the files of a symbol.

use crate::date;
use crate::date::dates_between;
use crate::date::Date;
use crate::path;
use crate::path::join4;
use crate::text;
use crate::text::same_text;
use crate::text::to_lower;
use vstd::prelude::*;

verus! {

/// An exchange.
#[derive(Debug, Clone, Copy, PartialEq, Eq, Hash, Structural)]
pub enum Exchange {
    Binance,
    Bybit,
    Okx,
    Coinbase,
}

impl Exchange {
    /// The name of the exchange.
    pub open spec fn name(self) -> Seq<char> {
        match self {
            Exchange::Binance => "binance"@,
            Exchange::Bybit => "bybit"@,
            Exchange::Okx => "okx"@,
            Exchange::Coinbase => "coinbase"@,
        }
    }

    /// The name of the exchange.
    pub fn as_str(&self) -> (r: &'static str)
        ensures
            r@ == self.name(),
    {
        match self {
            Exchange::Binance => "binance",
            Exchange::Bybit => "bybit",
            Exchange::Okx => "okx",
            Exchange::Coinbase => "coinbase",
        }
    }

    /// The exchange of a name in lower case.
    pub open spec fn named(s: Seq<char>) -> Option<Exchange> {
        if s == "binance"@ {
            Some(Exchange::Binance)
        } else if s == "bybit"@ {
            Some(Exchange::Bybit)
        } else if s == "okx"@ {
            Some(Exchange::Okx)
        } else if s == "coinbase"@ {
            Some(Exchange::Coinbase)
        } else {
            None
        }
    }

    /// Reads the name of an exchange, in any case; `okex` is another name of `okx`.
    pub fn from_str(s: &str) -> (r: Result<Self, String>)
        ensures
            ({
                let lower = text::lower(s@);
                match r {
                    Ok(e) => Self::named(lower) == Some(e) || (lower == "okex"@ && e
                        == Exchange::Okx),
                    Err(m) => Self::named(lower) is None && lower != "okex"@ && m@
                        == "unknown exchange: "@ + lower,
                }
            }),
    {
        let lower = to_lower(s);
        match match_exchange(lower.as_str()) {
            Some(e) => Ok(e),
            None => {
                if same_text(lower.as_str(), "okex") {
                    Ok(Exchange::Okx)
                } else {
                    let mut m = "unknown exchange: ".to_owned();
                    m.append(lower.as_str());
                    Err(m)
                }
            },
        }
    }
}

/// The exchange of a directory.
pub fn match_exchange(name: &str) -> (r: Option<Exchange>)
    ensures
        r == Exchange::named(name@),
{
    if same_text(name, "binance") {
        Some(Exchange::Binance)
    } else if same_text(name, "bybit") {
        Some(Exchange::Bybit)
    } else if same_text(name, "okx") {
        Some(Exchange::Okx)
    } else if same_text(name, "coinbase") {
        Some(Exchange::Coinbase)
    } else {
        None
    }
}

/// The directory of an exchange names the exchange.
pub proof fn exchange_name_reads_back(e: Exchange)
    ensures
        Exchange::named(e.name()) == Some(e),
{
    reveal_strlit("binance");
    reveal_strlit("bybit");
    reveal_strlit("okx");
    reveal_strlit("coinbase");
    assert("binance"@.len() == 7 && "bybit"@.len() == 5 && "okx"@.len() == 3 && "coinbase"@.len()
        == 8);
}

/// A kind of market on an exchange.
#[derive(Debug, Clone, Copy, PartialEq, Eq, Hash, Structural)]
pub enum Venue {
    Spot,
    Futures,
    /// Perpetuals in USDT.
    Linear,
    /// Perpetuals in coins.
    Swap,
}

impl Venue {
    /// The name of the venue.
    pub open spec fn name(self) -> Seq<char> {
        match self {
            Venue::Spot => "spot"@,
            Venue::Futures => "futures"@,
            Venue::Linear => "linear"@,
            Venue::Swap => "swap"@,
        }
    }

    /// The name of the venue.
    pub fn as_str(&self) -> (r: &'static str)
        ensures
            r@ == self.name(),
    {
        match self {
            Venue::Spot => "spot",
            Venue::Futures => "futures",
            Venue::Linear => "linear",
            Venue::Swap => "swap",
        }
    }

    /// The venue of a name.
    pub open spec fn named(s: Seq<char>) -> Option<Venue> {
        if s == "spot"@ {
            Some(Venue::Spot)
        } else if s == "futures"@ {
            Some(Venue::Futures)
        } else if s == "linear"@ {
            Some(Venue::Linear)
        } else if s == "swap"@ {
            Some(Venue::Swap)
        } else {
            None
        }
    }
}

/// The venue of a directory.
pub fn match_venue(name: &str) -> (r: Option<Venue>)
    ensures
        r == Venue::named(name@),
{
    if same_text(name, "spot") {
        Some(Venue::Spot)
    } else if same_text(name, "futures") {
        Some(Venue::Futures)
    } else if same_text(name, "linear") {
        Some(Venue::Linear)
    } else if same_text(name, "swap") {
        Some(Venue::Swap)
    } else {
        None
    }
}

/// The directory of a venue names the venue.
pub proof fn venue_name_reads_back(v: Venue)
    ensures
        Venue::named(v.name()) == Some(v),
{
    reveal_strlit("spot");
    reveal_strlit("futures");
    reveal_strlit("linear");
    reveal_strlit("swap");
    assert("spot"@.len() == 4 && "futures"@.len() == 7 && "linear"@.len() == 6 && "swap"@.len()
        == 4);
    assert("spot"@[1] == 'p' && "swap"@[1] == 'w');
}

/// A file with the ticks of a day.
#[derive(Debug)]
pub struct TvcFile {
    pub exchange: Exchange,
    pub venue: Venue,
    pub symbol: String,
    pub date: Date,
    pub path: String,
    pub size_bytes: u64,
}

impl Clone for TvcFile {
    fn clone(&self) -> (r: Self)
        ensures
            r == *self,
    {
        TvcFile {
            exchange: self.exchange,
            venue: self.venue,
            symbol: self.symbol.clone(),
            date: self.date,
            path: self.path.clone(),
            size_bytes: self.size_bytes,
        }
    }
}

/// What a backtest loads.
#[derive(Debug)]
pub struct DataManagerConfig {
    pub data_root: String,
    pub exchange: Exchange,
    pub venue: Venue,
    pub symbol: String,
    /// First day.
    pub start_date: Date,
    /// Last day.
    pub end_date: Date,
    /// Files that are not there are downloaded.
    pub download_on_miss: bool,
}

/// The file of a day: `{root}/{exchange}/{venue}/{symbol}/{date}.tvc`.
pub open spec fn tvc_path(
    root: Seq<char>,
    exchange: Exchange,
    venue: Venue,
    symbol: Seq<char>,
    date: Seq<char>,
) -> Seq<char> {
    path::joined4(root, exchange.name(), venue.name(), symbol, date + ".tvc"@)
}

/// The file of a day.
pub fn tvc_path_of(root: &str, exchange: Exchange, venue: Venue, symbol: &str, date: &str) -> (r:
    String)
    ensures
        r@ == tvc_path(root@, exchange, venue, symbol@, date@),
{
    let mut name = date.to_owned();
    name.append(".tvc");
    join4(root, exchange.as_str(), venue.as_str(), symbol, name.as_str())
}

/// The texts of the first `n` dates, where all of them have one.
pub open spec fn date_texts(dates: Seq<Date>, n: int) -> Option<Seq<Seq<char>>>
    decreases n,
{
    if n <= 0 {
        Some(seq![])
    } else {
        match (date_texts(dates, n - 1), date::text_of_day(dates[n - 1].days)) {
            (Some(front), Some(t)) => Some(front.push(t)),
            _ => None,
        }
    }
}

/// The texts of the dates of years with no more than four digits read back.
pub open spec fn texts_read_back(dates: Seq<Date>, texts: Seq<Seq<char>>) -> bool {
    forall|i: int|
        0 <= i < texts.len() && date::has_four_digit_year((#[trigger] dates[i]).days)
            ==> date::reads_back(dates[i].days, texts[i])
}

impl DataManagerConfig {
    /// The files of days with these texts.
    pub open spec fn paths(&self, dates: Seq<Seq<char>>) -> Seq<Seq<char>> {
        Seq::new(
            dates.len(),
            |i: int|
                tvc_path(self.data_root@, self.exchange, self.venue, self.symbol@, dates[i]),
        )
    }

    /// The file of a day; nothing for a day outside the calendar.
    pub fn tvc_path(&self, date: Date) -> (r: Option<String>)
        ensures
            match r {
                Some(p) => date::text_of_day(date.days) is Some && p@ == tvc_path(
                    self.data_root@,
                    self.exchange,
                    self.venue,
                    self.symbol@,
                    date::text_of_day(date.days)->0,
                ),
                None => date::text_of_day(date.days) is None,
            },
            r is Some && date::has_four_digit_year(date.days) ==> date::reads_back(
                date.days,
                date::text_of_day(date.days)->0,
            ),
    {
        match date.to_text() {
            Some(t) => Some(
                tvc_path_of(
                    self.data_root.as_str(),
                    self.exchange,
                    self.venue,
                    self.symbol.as_str(),
                    t.as_str(),
                ),
            ),
            None => None,
        }
    }

    /// The files of all days of the range; nothing where a day is outside the calendar.
    pub fn all_tvc_paths(&self) -> (r: Option<Vec<String>>)
        requires
            self.end_date.days < i32::MAX,
        ensures
            ({
                let dates = date::days_between(self.start_date, self.end_date);
                match r {
                    Some(v) => date_texts(dates, dates.len() as int) is Some && text::texts(v@)
                        == self.paths(date_texts(dates, dates.len() as int)->0)
                        && texts_read_back(dates, date_texts(dates, dates.len() as int)->0),
                    None => date_texts(dates, dates.len() as int) is None,
                }
            }),
    {
        let dates = dates_between(self.start_date, self.end_date);
        let mut paths: Vec<String> = Vec::new();
        let mut i: usize = 0;
        assert(text::texts(paths@) =~= self.paths(seq![]));
        while i < dates.len()
            invariant
                dates@ == date::days_between(self.start_date, self.end_date),
                i <= dates@.len(),
                date_texts(dates@, i as int) is Some,
                text::texts(paths@) == self.paths(date_texts(dates@, i as int)->0),
                date_texts(dates@, i as int)->0.len() == i,
                texts_read_back(dates@, date_texts(dates@, i as int)->0),
            decreases dates@.len() - i,
        {
            let ghost before = text::texts(paths@);
            match self.tvc_path(dates[i]) {
                Some(p) => {
                    paths.push(p);
                    assert(text::texts(paths@) =~= before.push(p@));
                },
                None => {
                    proof {
                        assert(date_texts(dates@, i + 1) is None);
                        lemma_no_texts(dates@, i + 1, dates@.len() as int);
                    }
                    return None;
                },
            }
            i = i + 1;
            assert(text::texts(paths@) =~= self.paths(date_texts(dates@, i as int)->0));
        }
        Some(paths)
    }
}

/// The file of a day reads back: its stem is the text of the day, and its extension is `tvc`.
pub proof fn tvc_path_reads_back(
    root: Seq<char>,
    exchange: Exchange,
    venue: Venue,
    symbol: Seq<char>,
    day: Seq<char>,
)
    requires
        date::is_day_text(day),
    ensures
        path::stem(path::file_name(tvc_path(root, exchange, venue, symbol, day))) == day,
        path::extension(path::file_name(tvc_path(root, exchange, venue, symbol, day))) == Some(
            "tvc"@,
        ),
{
    let dir = path::joined(path::joined(path::joined(root, exchange.name()), venue.name()), symbol);
    let ext = "tvc"@;
    reveal_strlit(".tvc");
    reveal_strlit("tvc");
    assert(".tvc"@ =~= seq!['.'] + ext);
    assert(day + ".tvc"@ =~= day + seq!['.'] + ext);
    assert forall|i: int| 0 <= i < ext.len() implies #[trigger] ext[i] != '.' && ext[i] != '/' by {}
    assert forall|i: int| 0 <= i < day.len() implies #[trigger] day[i] != '/' by {
        if i != 4 && i != 7 {
            assert('0' <= day[i] <= '9');
        }
    }
    let name = day + ".tvc"@;
    assert(!name.contains('/')) by {
        if name.contains('/') {
            let i = choose|i: int| 0 <= i < name.len() && name[i] == '/';
            if i < day.len() {
                assert(day[i] == '/');
            } else if i > day.len() {
                assert(ext[i - day.len() - 1] == '/');
            }
        }
    }
    path::name_within_reads_back(dir, name);
    path::extended_name_parts(day, ext);
}

proof fn lemma_no_texts(dates: Seq<Date>, a: int, b: int)
    requires
        0 <= a <= b,
        date_texts(dates, a) is None,
    ensures
        date_texts(dates, b) is None,
    decreases b - a,
{
    if a < b {
        lemma_no_texts(dates, a, b - 1);
    }
}

/// The file of a day stands at the place of its day.
pub proof fn each_day_has_its_file(c: &DataManagerConfig, dates: Seq<Seq<char>>, i: int)
    requires
        0 <= i < dates.len(),
    ensures
        c.paths(dates).len() == dates.len(),
        c.paths(dates)[i] == tvc_path(c.data_root@, c.exchange, c.venue, c.symbol@, dates[i]),
{
}

/// Each date has its text, in its place; where one has none, there are no texts at all.
pub proof fn each_date_has_its_text(dates: Seq<Date>, n: int, i: int)
    requires
        0 <= i < n <= dates.len(),
    ensures
        date_texts(dates, n) matches Some(t) ==> t.len() == n && date::text_of_day(dates[i].days)
            == Some(t[i]),
        date::text_of_day(dates[i].days) is None ==> date_texts(dates, n) is None,
    decreases n,
{
    if i < n - 1 {
        each_date_has_its_text(dates, n - 1, i);
    } else if n > 1 {
        each_date_has_its_text(dates, n - 1, 0);
    } else {
        assert(date_texts(dates, 0) == Some(Seq::<Seq<char>>::empty()));
    }
}

} // verus!
