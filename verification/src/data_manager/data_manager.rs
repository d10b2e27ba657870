//! What is loaded for a backtest: which files are wanted, what is done about those that are not
//! there, and in which order they are read.

use crate::data_manager::bar_ingester;
use crate::data_manager::bar_ingester::timeframe_to_ns;
use crate::data_manager::bar_ingester::tvcb_path_of;
use crate::data_manager::bar_ingester::BarIngester;
use crate::data_manager::bar_ingester::ExchangeKind;
use crate::data_manager::bar_ingester::InstrumentType;
use crate::data_manager::catalog;
use crate::data_manager::catalog::Catalog;
use crate::data_manager::downloader;
use crate::data_manager::downloader::DownloadSource;
use crate::data_manager::downloader::DownloadError;
use crate::data_manager::downloader::Downloader;
use crate::data_manager::downloader::RawTradeData;
use crate::data_manager::types;
use crate::data_manager::types::tvc_path_of;
use crate::data_manager::types::DataManagerConfig;
use crate::data_manager::types::Exchange;
use crate::data_manager::types::Venue;
use crate::date;
use crate::date::dates_between;
use crate::date::Date;
use crate::instrument::InstrumentId;
use crate::path;
use crate::path::name_of;
use crate::path::stem_of;
use crate::text;
use vstd::prelude::*;

verus! {

// ---------------------------------------------------------------------------
// Errors
// ---------------------------------------------------------------------------

/// How a path is written in messages: in quotes, with special characters written out.
pub uninterp spec fn shown_path(path: Seq<char>) -> Seq<char>;

/// The `Debug` text of a `std::path::Path`, which depends on the path alone.
#[verifier::external_body]
fn show_path(path: &str) -> (r: String)
    ensures
        r@ == shown_path(path@),
{
    format!("{:?}", std::path::Path::new(path))
}

/// Errors of the data manager.
#[derive(Debug)]
pub enum DataManagerError {
    FileNotFound(String),
    NoData,
    NoDownloader,
    DownloadFailed(String),
    BuildFailed(String),
    LoadFailed(String),
    TvcbFileNotFound(String),
}

impl DataManagerError {
    /// The message of the error.
    pub open spec fn text(self) -> Seq<char> {
        match self {
            DataManagerError::FileNotFound(p) => "TVC3 file not found: "@ + shown_path(p@),
            DataManagerError::NoData => "No TVC3 data available"@,
            DataManagerError::NoDownloader =>
                "No downloader configured — set download_on_miss=false or provide a downloader"@,
            DataManagerError::DownloadFailed(m) => "Download failed: "@ + m@,
            DataManagerError::BuildFailed(m) => "TVC3 build failed: "@ + m@,
            DataManagerError::LoadFailed(m) => "Load failed: "@ + m@,
            DataManagerError::TvcbFileNotFound(m) => "TVCB file not found: "@ + m@,
        }
    }

    /// The message of the error.
    pub fn message(&self) -> (r: String)
        ensures
            r@ == self.text(),
    {
        match self {
            DataManagerError::FileNotFound(p) => "TVC3 file not found: ".to_owned().concat(
                show_path(p.as_str()).as_str(),
            ),
            DataManagerError::NoData => "No TVC3 data available".to_owned(),
            DataManagerError::NoDownloader =>
                "No downloader configured — set download_on_miss=false or provide a downloader".to_owned(),
            DataManagerError::DownloadFailed(m) => "Download failed: ".to_owned().concat(
                m.as_str(),
            ),
            DataManagerError::BuildFailed(m) => "TVC3 build failed: ".to_owned().concat(m.as_str()),
            DataManagerError::LoadFailed(m) => "Load failed: ".to_owned().concat(m.as_str()),
            DataManagerError::TvcbFileNotFound(m) => "TVCB file not found: ".to_owned().concat(
                m.as_str(),
            ),
        }
    }
}

// ---------------------------------------------------------------------------
// Tick files of one symbol
// ---------------------------------------------------------------------------

/// The day that a missing file is downloaded for: the day in its name, or the first day of the
/// range.
pub open spec fn day_of_path(file: Seq<char>, start_date: Date) -> Date {
    match date::day_of_text(path::stem(path::file_name(file))) {
        Some(days) => Date { days },
        None => start_date,
    }
}

/// The walk over the files of a range: each is asked for, and downloaded where it is not there.
#[derive(Debug)]
pub struct RingLoad {
    paths: Vec<String>,
    next: usize,
    download_on_miss: bool,
    start_date: Date,
    symbol: String,
    exchange: Exchange,
}

/// The state of a walk over files.
pub struct LoadState {
    pub paths: Seq<Seq<char>>,
    pub next: int,
    pub download_on_miss: bool,
    pub start_date: Date,
    pub symbol: Seq<char>,
    pub exchange: Exchange,
}

impl View for RingLoad {
    type V = LoadState;

    closed spec fn view(&self) -> LoadState {
        LoadState {
            paths: text::texts(self.paths@),
            next: self.next as int,
            download_on_miss: self.download_on_miss,
            start_date: self.start_date,
            symbol: self.symbol@,
            exchange: self.exchange,
        }
    }
}

impl LoadState {
    /// The walk is within its files.
    pub open spec fn wf(self) -> bool {
        0 <= self.next <= self.paths.len()
    }

    /// The next file is asked for.
    pub open spec fn moved(self) -> LoadState {
        LoadState { next: self.next + 1, ..self }
    }
}

/// The days of files in years with no more than four digits are these dates.
pub open spec fn days_are_known(s: LoadState, dates: Seq<Date>) -> bool {
    forall|i: int|
        0 <= i < s.paths.len() && date::has_four_digit_year((#[trigger] dates[i]).days)
            ==> day_of_path(s.paths[i], s.start_date) == dates[i]
}

/// Every path stands with its instrument.
pub open spec fn are_files(
    files: Seq<(String, InstrumentId)>,
    paths: Seq<Seq<char>>,
    symbol: Seq<char>,
    exchange: Seq<char>,
) -> bool {
    &&& files.len() == paths.len()
    &&& forall|i: int|
        0 <= i < files.len() ==> (#[trigger] files[i]).0@ == paths[i] && files[i].1@ == (
            symbol,
            exchange,
        ) && files[i].1.wf()
}

impl RingLoad {
    /// Starts the walk over the files of a range; nothing where a day is outside the calendar. In
    /// the years 0 to 9999, the day of each file is the day whose file it is.
    pub fn start(config: &DataManagerConfig) -> (r: Option<RingLoad>)
        requires
            config.end_date.days < i32::MAX,
        ensures
            ({
                let dates = date::days_between(config.start_date, config.end_date);
                match (types::date_texts(dates, dates.len() as int), r) {
                    (Some(t), Some(w)) => w@ == (LoadState {
                        paths: config.paths(t),
                        next: 0,
                        download_on_miss: config.download_on_miss,
                        start_date: config.start_date,
                        symbol: config.symbol@,
                        exchange: config.exchange,
                    }) && days_are_known(w@, dates),
                    (None, None) => true,
                    _ => false,
                }
            }),
    {
        let ghost dates = date::days_between(config.start_date, config.end_date);
        match config.all_tvc_paths() {
            Some(paths) => {
                let walk = RingLoad {
                    paths,
                    next: 0,
                    download_on_miss: config.download_on_miss,
                    start_date: config.start_date,
                    symbol: config.symbol.clone(),
                    exchange: config.exchange,
                };
                proof {
                    let t = types::date_texts(dates, dates.len() as int)->0;
                    assert forall|i: int|
                        0 <= i < walk@.paths.len() && date::has_four_digit_year(
                            (#[trigger] dates[i]).days,
                        ) implies day_of_path(walk@.paths[i], walk@.start_date) == dates[i] by {
                        assert(date::reads_back(dates[i].days, t[i]));
                        types::tvc_path_reads_back(
                            config.data_root@,
                            config.exchange,
                            config.venue,
                            config.symbol@,
                            t[i],
                        );
                        assert(walk@.paths[i] == types::tvc_path(
                            config.data_root@,
                            config.exchange,
                            config.venue,
                            config.symbol@,
                            t[i],
                        ));
                    }
                }
                Some(walk)
            },
            None => None,
        }
    }

    /// The file that is asked for; none where all were.
    pub fn pending(&self) -> (r: Option<&String>)
        requires
            self@.wf(),
        ensures
            match r {
                Some(p) => self@.next < self@.paths.len() && p@ == self@.paths[self@.next],
                None => self@.next == self@.paths.len(),
            },
    {
        if self.next < self.paths.len() {
            assert(self@.paths[self@.next] == self.paths@[self.next as int]@);
            Some(&self.paths[self.next])
        } else {
            None
        }
    }

    /// Takes whether the file that was asked for is there. A file that is not there is an error, or
    /// its day is to be downloaded before it is read.
    pub fn take(&mut self, is_there: bool) -> (r: Result<Option<Date>, DataManagerError>)
        requires
            old(self)@.wf(),
            old(self)@.next < old(self)@.paths.len(),
        ensures
            ({
                let s = old(self)@;
                let file = s.paths[s.next];
                if is_there {
                    r == Ok::<Option<Date>, DataManagerError>(None) && final(self)@ == s.moved()
                } else if s.download_on_miss {
                    r == Ok::<Option<Date>, DataManagerError>(Some(day_of_path(file, s.start_date)))
                        && final(self)@ == s.moved()
                } else {
                    &&& r matches Err(DataManagerError::FileNotFound(p)) && p@ == file
                    &&& final(self)@ == s
                }
            }),
            final(self)@.wf(),
    {
        let i: usize = self.next;
        let n: usize = self.paths.len();
        assert(i < n);
        assert(self@.paths[i as int] == self.paths@[i as int]@);
        if is_there {
            self.next = i + 1;
            return Ok(None);
        }
        if !self.download_on_miss {
            return Err(DataManagerError::FileNotFound(self.paths[i].clone()));
        }
        let stem = stem_of(name_of(self.paths[i].as_str()).as_str());
        let day = match Date::parse(stem.as_str()) {
            Some(d) => d,
            None => self.start_date,
        };
        self.next = i + 1;
        Ok(Some(day))
    }

    /// The files to be read, in order of their days, once all were asked for. Without any there is
    /// no data.
    pub fn files(&self) -> (r: Result<Vec<(String, InstrumentId)>, DataManagerError>)
        requires
            self@.wf(),
            self@.next == self@.paths.len(),
        ensures
            match r {
                Ok(v) => self@.paths.len() > 0 && are_files(
                    v@,
                    self@.paths,
                    self@.symbol,
                    self@.exchange.name(),
                ),
                Err(e) => self@.paths.len() == 0 && e is NoData,
            },
    {
        if self.paths.len() == 0 {
            return Err(DataManagerError::NoData);
        }
        let id = InstrumentId::new(self.symbol.as_str(), self.exchange.as_str());
        let mut files: Vec<(String, InstrumentId)> = Vec::new();
        let mut i: usize = 0;
        while i < self.paths.len()
            invariant
                i <= self.paths@.len(),
                id@ == (self@.symbol, self@.exchange.name()),
                id.wf(),
                files@.len() == i,
                forall|j: int|
                    0 <= j < i ==> (#[trigger] files@[j]).0@ == self@.paths[j] && files@[j].1@ == (
                        self@.symbol,
                        self@.exchange.name(),
                    ) && files@[j].1.wf(),
            decreases self.paths@.len() - i,
        {
            assert(self@.paths[i as int] == self.paths@[i as int]@);
            files.push((self.paths[i].clone(), id.clone()));
            i = i + 1;
        }
        Ok(files)
    }
}

// ---------------------------------------------------------------------------
// Files that are there
// ---------------------------------------------------------------------------

/// Those of the first `n` that are there.
pub open spec fn present<A>(all: Seq<A>, there: Seq<bool>, n: int) -> Seq<A>
    decreases n,
{
    if n <= 0 {
        seq![]
    } else if there[n - 1] {
        present(all, there, n - 1).push(all[n - 1])
    } else {
        present(all, there, n - 1)
    }
}

/// The files of symbols that are there.
pub fn present_files(all: Vec<(String, InstrumentId)>, there: &Vec<bool>) -> (r: Result<
    Vec<(String, InstrumentId)>,
    DataManagerError,
>)
    requires
        there@.len() == all@.len(),
    ensures
        ({
            let kept = present(all@, there@, all@.len() as int);
            match r {
                Ok(v) => kept.len() > 0 && v@ == kept,
                Err(e) => kept.len() == 0 && e is NoData,
            }
        }),
{
    let mut kept: Vec<(String, InstrumentId)> = Vec::new();
    let mut i: usize = 0;
    while i < all.len()
        invariant
            i <= all@.len() == there@.len(),
            kept@ == present(all@, there@, i as int),
        decreases all@.len() - i,
    {
        if there[i] {
            let f = (all[i].0.clone(), all[i].1.clone());
            assert(f == all@[i as int]);
            kept.push(f);
        }
        i = i + 1;
    }
    if kept.len() == 0 {
        Err(DataManagerError::NoData)
    } else {
        Ok(kept)
    }
}

/// The file of a symbol on a day.
pub open spec fn is_candidate(
    f: (String, InstrumentId),
    root: Seq<char>,
    symbol: Seq<char>,
    exchange: Exchange,
    day: Seq<char>,
) -> bool {
    &&& f.0@ == types::tvc_path(root, exchange, Venue::Spot, symbol, day)
    &&& f.1@ == (symbol, exchange.name())
    &&& f.1.wf()
}

/// The candidates are the spot files of the instruments, one instrument behind the other, each with
/// all days of a range.
pub open spec fn are_candidates(
    files: Seq<(String, InstrumentId)>,
    root: Seq<char>,
    instruments: Seq<(String, Exchange)>,
    days: Seq<Seq<char>>,
) -> bool {
    &&& files.len() == instruments.len() * days.len()
    &&& forall|k: int, d: int|
        0 <= k < instruments.len() && 0 <= d < days.len() ==> is_candidate(
            #[trigger] files[k * days.len() + d],
            root,
            instruments[k].0@,
            instruments[k].1,
            days[d],
        )
}

/// The texts of days; nothing where one is outside the calendar.
fn day_texts(start: Date, end: Date) -> (r: Option<Vec<String>>)
    requires
        end.days < i32::MAX,
    ensures
        ({
            let dates = date::days_between(start, end);
            match (types::date_texts(dates, dates.len() as int), r) {
                (Some(t), Some(v)) => text::texts(v@) == t,
                (None, None) => true,
                _ => false,
            }
        }),
{
    let dates = dates_between(start, end);
    let mut v: Vec<String> = Vec::new();
    let mut i: usize = 0;
    assert(text::texts(v@) =~= seq![]);
    while i < dates.len()
        invariant
            i <= dates@.len(),
            dates@ == date::days_between(start, end),
            types::date_texts(dates@, i as int) == Some(text::texts(v@)),
        decreases dates@.len() - i,
    {
        let ghost before = text::texts(v@);
        match dates[i].to_text() {
            Some(t) => {
                v.push(t);
                assert(text::texts(v@) =~= before.push(t@));
            },
            None => {
                proof {
                    assert(types::date_texts(dates@, i + 1) is None);
                    lemma_no_texts(dates@, i + 1, dates@.len() as int);
                }
                return None;
            },
        }
        i = i + 1;
    }
    Some(v)
}

proof fn lemma_no_texts(dates: Seq<Date>, a: int, b: int)
    requires
        0 <= a <= b,
        types::date_texts(dates, a) is None,
    ensures
        types::date_texts(dates, b) is None,
    decreases b - a,
{
    if a < b {
        lemma_no_texts(dates, a, b - 1);
    }
}

// ---------------------------------------------------------------------------
// Bar files
// ---------------------------------------------------------------------------

/// The years of the first `n` days, each once; none where a day is outside the calendar.
pub open spec fn years_of(days: Seq<Date>, n: int) -> Option<Seq<i32>>
    decreases n,
{
    if n <= 0 {
        Some(seq![])
    } else {
        match (years_of(days, n - 1), date::year_of_day(days[n - 1].days)) {
            (Some(front), Some(y)) => if front.len() > 0 && front.last() == y {
                Some(front)
            } else {
                Some(front.push(y))
            },
            _ => None,
        }
    }
}

proof fn lemma_no_years(days: Seq<Date>, a: int, b: int)
    requires
        0 <= a <= b,
        years_of(days, a) is None,
    ensures
        years_of(days, b) is None,
    decreases b - a,
{
    if a < b {
        lemma_no_years(days, a, b - 1);
    }
}

/// The bar files of years.
pub open spec fn year_files(
    root: Seq<char>,
    exchange: Seq<char>,
    kind: Seq<char>,
    symbol: Seq<char>,
    timeframe: Seq<char>,
    years: Seq<i32>,
) -> Seq<Seq<char>> {
    Seq::new(
        years.len(),
        |i: int|
            bar_ingester::tvcb_path(root, exchange, kind, symbol, timeframe, years[i] as int),
    )
}

/// What is asked of bars.
#[derive(Debug)]
pub struct BarRequest {
    pub exchange: Exchange,
    pub instrument_type: InstrumentType,
    pub symbol: String,
    pub timeframe: String,
    pub start_date: Date,
    pub end_date: Date,
    pub download_on_miss: bool,
}

/// What is done about bars.
#[derive(Debug)]
pub enum BarStep {
    /// The files are read, for times from `start_ns` to before `end_ns`.
    Read { files: Vec<String>, start_ns: u64, end_ns: u64 },
    /// Bars are fetched from the exchange, and the files are looked for again.
    Fetch,
}

impl BarRequest {
    /// The message where no file is there.
    pub open spec fn not_found_text(
        self,
        start: Seq<char>,
        end: Seq<char>,
        fetched: bool,
    ) -> Seq<char> {
        "no TVCB files for "@ + self.exchange.name() + " "@ + self.instrument_type.name() + " "@
            + self.symbol@ + " ["@ + start + " to "@ + end + "]"@ + if fetched {
            " after auto-ingestion"@
        } else {
            ""@
        }
    }

    /// The bar files that cover the range, in order of their years; nothing where a day is outside
    /// the calendar.
    pub fn candidates(&self, root: &str) -> (r: Option<Vec<String>>)
        requires
            self.end_date.days < i32::MAX,
        ensures
            ({
                let days = date::days_between(self.start_date, self.end_date);
                match (years_of(days, days.len() as int), r) {
                    (Some(years), Some(v)) => text::texts(v@) == year_files(
                        root@,
                        self.exchange.name(),
                        self.instrument_type.name(),
                        self.symbol@,
                        self.timeframe@,
                        years,
                    ),
                    (None, None) => true,
                    _ => false,
                }
            }),
    {
        let days = dates_between(self.start_date, self.end_date);
        let mut years: Vec<i32> = Vec::new();
        let mut files: Vec<String> = Vec::new();
        let mut i: usize = 0;
        assert(text::texts(files@) =~= year_files(
            root@,
            self.exchange.name(),
            self.instrument_type.name(),
            self.symbol@,
            self.timeframe@,
            years@,
        ));
        while i < days.len()
            invariant
                i <= days@.len(),
                days@ == date::days_between(self.start_date, self.end_date),
                years_of(days@, i as int) == Some(years@),
                text::texts(files@) == year_files(
                    root@,
                    self.exchange.name(),
                    self.instrument_type.name(),
                    self.symbol@,
                    self.timeframe@,
                    years@,
                ),
            decreases days@.len() - i,
        {
            let year: i32 = match days[i].year() {
                Some(y) => y,
                None => {
                    proof {
                        assert(years_of(days@, i + 1) is None);
                        lemma_no_years(days@, i + 1, days@.len() as int);
                    }
                    return None;
                },
            };
            let n: usize = years.len();
            if n == 0 || years[n - 1] != year {
                let ghost before = text::texts(files@);
                years.push(year);
                let file = tvcb_path_of(
                    root,
                    self.exchange.as_str(),
                    self.instrument_type.as_str(),
                    self.symbol.as_str(),
                    self.timeframe.as_str(),
                    year,
                );
                files.push(file);
                assert(text::texts(files@) =~= before.push(file@));
                assert(text::texts(files@) =~= year_files(
                    root@,
                    self.exchange.name(),
                    self.instrument_type.name(),
                    self.symbol@,
                    self.timeframe@,
                    years@,
                ));
            }
            i = i + 1;
        }
        Some(files)
    }

    /// What is done with the files that are there: they are read, from the first day of the range to
    /// before the day behind the last one; without any, bars are fetched where that is wanted and was
    /// not done yet, and otherwise there is nothing.
    pub open spec fn is_step(
        self,
        kept: Seq<Seq<char>>,
        fetched: bool,
        r: Option<Result<BarStep, DataManagerError>>,
    ) -> bool {
        let after = (self.end_date.days + 1) as i32;
        if kept.len() > 0 {
            r matches Some(Ok(BarStep::Read { files: v, start_ns, end_ns })) && text::texts(v@)
                == kept && start_ns == date::bits_or_zero(date::nanos_at(self.start_date.days, 0))
                && end_ns == date::bits_or_zero(date::nanos_at(after, 0))
        } else if self.download_on_miss && !fetched {
            r matches Some(Ok(BarStep::Fetch))
        } else {
            match (date::text_of_day(self.start_date.days), date::text_of_day(self.end_date.days)) {
                (Some(s), Some(e)) => r matches Some(Err(DataManagerError::TvcbFileNotFound(m)))
                    && m@ == self.not_found_text(s, e, fetched),
                _ => r is None,
            }
        }
    }

    /// What is done once it is known which files are there: they are read, or bars are fetched, once
    /// and where that is wanted. None where a day is outside the calendar and has to be named.
    pub fn decide(&self, files: Vec<String>, there: &Vec<bool>, fetched: bool) -> (r: Option<
        Result<BarStep, DataManagerError>,
    >)
        requires
            there@.len() == files@.len(),
            self.end_date.days < i32::MAX,
        ensures
            self.is_step(
                present(text::texts(files@), there@, files@.len() as int),
                fetched,
                r,
            ),
    {
        let ghost all = text::texts(files@);
        let mut kept: Vec<String> = Vec::new();
        let mut i: usize = 0;
        assert(text::texts(kept@) =~= seq![]);
        while i < files.len()
            invariant
                i <= files@.len() == there@.len(),
                all == text::texts(files@),
                text::texts(kept@) == present(all, there@, i as int),
            decreases files@.len() - i,
        {
            if there[i] {
                let ghost before = text::texts(kept@);
                let f = files[i].clone();
                assert(f@ == all[i as int]);
                kept.push(f);
                assert(text::texts(kept@) =~= before.push(f@));
            }
            i = i + 1;
        }
        assert(kept@.len() == text::texts(kept@).len());
        if kept.len() > 0 {
            let after = Date { days: self.end_date.days + 1 };
            return Some(
                Ok(
                    BarStep::Read {
                        files: kept,
                        start_ns: self.start_date.utc_ns(),
                        end_ns: after.utc_ns(),
                    },
                ),
            );
        }
        if self.download_on_miss && !fetched {
            return Some(Ok(BarStep::Fetch));
        }
        match (self.start_date.to_text(), self.end_date.to_text()) {
            (Some(s), Some(e)) => {
                let mut m = "no TVCB files for ".to_owned();
                m.append(self.exchange.as_str());
                m.append(" ");
                m.append(self.instrument_type.as_str());
                m.append(" ");
                m.append(self.symbol.as_str());
                m.append(" [");
                m.append(s.as_str());
                m.append(" to ");
                m.append(e.as_str());
                m.append("]");
                if fetched {
                    m.append(" after auto-ingestion");
                } else {
                    m.append("");
                }
                assert(m@ =~= self.not_found_text(s@, e@, fetched));
                Some(Err(DataManagerError::TvcbFileNotFound(m)))
            },
            _ => None,
        }
    }

    /// What fetches the bars; Coinbase hands out none.
    pub fn ingester(&self) -> (r: Result<BarIngester, DataManagerError>)
        ensures
            match self.exchange {
                Exchange::Binance => r == Ok::<BarIngester, DataManagerError>(
                    bar_ingester::ingester(
                        ExchangeKind::Binance,
                        self.instrument_type,
                        bar_ingester::ns_of(self.timeframe@),
                    ),
                ),
                Exchange::Bybit => r == Ok::<BarIngester, DataManagerError>(
                    bar_ingester::ingester(
                        ExchangeKind::Bybit,
                        self.instrument_type,
                        bar_ingester::ns_of(self.timeframe@),
                    ),
                ),
                Exchange::Okx => r == Ok::<BarIngester, DataManagerError>(
                    bar_ingester::ingester(
                        ExchangeKind::Okx,
                        self.instrument_type,
                        bar_ingester::ns_of(self.timeframe@),
                    ),
                ),
                Exchange::Coinbase => r matches Err(DataManagerError::LoadFailed(m)) && m@
                    == "Coinbase not yet supported"@,
            },
    {
        let kind = match self.exchange {
            Exchange::Binance => ExchangeKind::Binance,
            Exchange::Bybit => ExchangeKind::Bybit,
            Exchange::Okx => ExchangeKind::Okx,
            Exchange::Coinbase => {
                return Err(
                    DataManagerError::LoadFailed("Coinbase not yet supported".to_owned()),
                );
            },
        };
        Ok(
            BarIngester::new(
                kind,
                self.instrument_type,
                timeframe_to_ns(self.timeframe.as_str()),
            ),
        )
    }
}

/// Each year of a range is listed once: neighbours in the list of years differ.
pub proof fn years_are_listed_once(days: Seq<Date>, n: int)
    requires
        0 <= n <= days.len(),
        years_of(days, n) is Some,
    ensures
        forall|i: int|
            0 < i < years_of(days, n)->0.len() ==> (#[trigger] years_of(days, n)->0[i]) != years_of(
                days,
                n,
            )->0[i - 1],
    decreases n,
{
    if n > 0 {
        years_are_listed_once(days, n - 1);
        let front = years_of(days, n - 1)->0;
        let all = years_of(days, n)->0;
        assert forall|i: int| 0 < i < all.len() implies (#[trigger] all[i]) != all[i - 1] by {
            if i < front.len() {
                assert(all[i] == front[i] && all[i - 1] == front[i - 1]);
            }
        }
    }
}

// ---------------------------------------------------------------------------
// Data manager
// ---------------------------------------------------------------------------

/// What was downloaded, or why not.
pub open spec fn fetched(
    raw: Result<RawTradeData, DownloadError>,
    r: Result<RawTradeData, DataManagerError>,
) -> bool {
    match raw {
        Ok(d) => r == Ok::<RawTradeData, DataManagerError>(d),
        Err(e) => r matches Err(DataManagerError::DownloadFailed(m)) && m@ == e.text(),
    }
}

/// What was downloaded, or why not.
pub fn take_download(raw: Result<RawTradeData, DownloadError>) -> (r: Result<
    RawTradeData,
    DataManagerError,
>)
    ensures
        fetched(raw, r),
{
    match raw {
        Ok(d) => Ok(d),
        Err(e) => Err(DataManagerError::DownloadFailed(e.message())),
    }
}

/// A directory of data, what is in it, and where missing data comes from.
pub struct DataManager<S> {
    data_root: String,
    catalog: Catalog,
    downloader: Option<Downloader<S>>,
}

impl<S: DownloadSource> DataManager<S> {
    /// The directory.
    pub closed spec fn root(&self) -> Seq<char> {
        self.data_root@
    }

    /// What is in the directory.
    pub closed spec fn contents(&self) -> Catalog {
        self.catalog
    }

    /// Where missing data comes from.
    pub closed spec fn sources(&self) -> Option<Downloader<S>> {
        self.downloader
    }

    /// A manager that downloads nothing.
    pub fn new(data_root: &str, catalog: Catalog) -> (r: Self)
        ensures
            r.root() == data_root@,
            r.contents() == catalog,
            r.sources() is None,
    {
        DataManager { data_root: data_root.to_owned(), catalog, downloader: None }
    }

    /// A manager that downloads what is missing.
    pub fn with_downloader(data_root: &str, catalog: Catalog, downloader: Downloader<S>) -> (r: Self)
        ensures
            r.root() == data_root@,
            r.contents() == catalog,
            r.sources() == Some(downloader),
    {
        DataManager { data_root: data_root.to_owned(), catalog, downloader: Some(downloader) }
    }

    /// Takes what is now in the directory.
    pub fn rescan(&mut self, catalog: Catalog)
        ensures
            final(self).contents() == catalog,
            final(self).root() == old(self).root(),
            final(self).sources() == old(self).sources(),
    {
        self.catalog = catalog;
    }

    /// The file of a symbol and a day is there.
    pub fn has_file(&self, exchange: Exchange, venue: Venue, symbol: &str, date: Date) -> (r: bool)
        ensures
            r == catalog::has_key(
                self.contents()@,
                catalog::key_of(exchange, venue, symbol@, date),
            ),
    {
        self.catalog.contains(exchange, venue, symbol, date)
    }

    /// The days of a range without a file.
    pub fn missing_dates(&self, config: &DataManagerConfig) -> (r: Vec<Date>)
        requires
            config.end_date.days < i32::MAX,
        ensures
            r@ == catalog::missing(
                self.contents()@,
                config.exchange,
                config.venue,
                config.symbol@,
                config.start_date,
                config.end_date,
            ),
    {
        self.catalog.missing_dates(
            config.exchange,
            config.venue,
            config.symbol.as_str(),
            config.start_date,
            config.end_date,
        )
    }

    /// Downloads the trades of a symbol and a day.
    pub fn download(&self, exchange: Exchange, venue: Venue, symbol: &str, date: Date) -> (r: Result<
        RawTradeData,
        DataManagerError,
    >)
        ensures
            match self.sources() {
                None => r matches Err(e) && e is NoDownloader,
                Some(d) => if downloader::no_source(d@, exchange) {
                    r matches Err(DataManagerError::DownloadFailed(m)) && m@
                        == "Unsupported: No download source for "@ + downloader::variant_name(
                        exchange,
                    )
                } else {
                    exists|i: int, raw: Result<RawTradeData, DownloadError>|
                        downloader::first_source(d@, exchange, i) && #[trigger] call_ensures(
                            S::download,
                            (&d@[i], symbol, date),
                            raw,
                        ) && fetched(downloader::for_venue(raw, venue), r)
                },
            },
    {
        match &self.downloader {
            Some(d) => {
                let raw = d.download(exchange, venue, symbol, date);
                proof {
                    reveal_strlit("Unsupported: ");
                    reveal_strlit("No download source for ");
                    reveal_strlit("Unsupported: No download source for ");
                    assert("Unsupported: "@ + "No download source for "@
                        =~= "Unsupported: No download source for "@);
                    assert("Unsupported: "@ + ("No download source for "@ + downloader::variant_name(
                        exchange,
                    )) =~= "Unsupported: No download source for "@ + downloader::variant_name(
                        exchange,
                    ));
                }
                take_download(raw)
            },
            None => Err(DataManagerError::NoDownloader),
        }
    }

    /// The files of instruments on all days of a range; nothing where a day is outside the calendar.
    pub fn tick_files(&self, instruments: &Vec<(String, Exchange)>, start: Date, end: Date) -> (r:
        Option<Vec<(String, InstrumentId)>>)
        requires
            end.days < i32::MAX,
        ensures
            ({
                let dates = date::days_between(start, end);
                match (types::date_texts(dates, dates.len() as int), r) {
                    (Some(days), Some(v)) => are_candidates(
                        v@,
                        self.root(),
                        instruments@,
                        days,
                    ),
                    (None, None) => true,
                    _ => false,
                }
            }),
    {
        let days = match day_texts(start, end) {
            Some(v) => v,
            None => {
                return None;
            },
        };
        let ghost texts = text::texts(days@);
        let ghost m = texts.len() as int;
        let mut files: Vec<(String, InstrumentId)> = Vec::new();
        let mut k: usize = 0;
        while k < instruments.len()
            invariant
                k <= instruments@.len(),
                texts == text::texts(days@),
                m == texts.len(),
                files@.len() == k * m,
                forall|a: int, d: int|
                    0 <= a < k && 0 <= d < m ==> is_candidate(
                        #[trigger] files@[a * m + d],
                        self.root(),
                        instruments@[a].0@,
                        instruments@[a].1,
                        texts[d],
                    ),
            decreases instruments@.len() - k,
        {
            let symbol: &String = &instruments[k].0;
            let exchange: Exchange = instruments[k].1;
            let id = InstrumentId::new(symbol.as_str(), exchange.as_str());
            let ghost base = files@;
            let mut d: usize = 0;
            while d < days.len()
                invariant
                    d <= days@.len(),
                    texts == text::texts(days@),
                    m == texts.len() == days@.len(),
                    base.len() == k * m,
                    k < instruments@.len(),
                    *symbol == instruments@[k as int].0,
                    exchange == instruments@[k as int].1,
                    id@ == (symbol@, exchange.name()),
                    id.wf(),
                    files@.len() == base.len() + d,
                    forall|i: int| 0 <= i < base.len() ==> #[trigger] files@[i] == base[i],
                    forall|j: int|
                        0 <= j < d ==> is_candidate(
                            #[trigger] files@[base.len() + j],
                            self.root(),
                            instruments@[k as int].0@,
                            instruments@[k as int].1,
                            texts[j],
                        ),
                decreases days@.len() - d,
            {
                let file = tvc_path_of(
                    self.data_root.as_str(),
                    exchange,
                    Venue::Spot,
                    symbol.as_str(),
                    days[d].as_str(),
                );
                files.push((file, id.clone()));
                d = d + 1;
            }
            assert forall|a: int, e: int| 0 <= a < k + 1 && 0 <= e < m implies is_candidate(
                #[trigger] files@[a * m + e],
                self.root(),
                instruments@[a].0@,
                instruments@[a].1,
                texts[e],
            ) by {
                if a < k {
                    assert(0 <= a * m + e < k * m) by (nonlinear_arith)
                        requires
                            0 <= a < k,
                            0 <= e < m,
                    ;
                    assert(files@[a * m + e] == base[a * m + e]);
                } else {
                    assert(a * m + e == base.len() + e);
                    assert(is_candidate(
                        files@[base.len() + e],
                        self.root(),
                        instruments@[k as int].0@,
                        instruments@[k as int].1,
                        texts[e],
                    ));
                }
            }
            assert((k + 1) * m == k * m + m) by (nonlinear_arith);
            k = k + 1;
        }
        Some(files)
    }
}

/// Of a list of things those are left that are there, in their order.
pub proof fn what_is_there_is_left<A>(all: Seq<A>, there: Seq<bool>, n: int)
    requires
        0 <= n <= all.len(),
        all.len() == there.len(),
    ensures
        present(all, there, n).len() <= n,
        n > 0 && there[n - 1] ==> present(all, there, n) == present(all, there, n - 1).push(
            all[n - 1],
        ),
        n > 0 && !there[n - 1] ==> present(all, there, n) == present(all, there, n - 1),
        present(all, there, 0).len() == 0,
        (forall|i: int| 0 <= i < n ==> #[trigger] there[i]) ==> present(all, there, n) == all.take(n),
    decreases n,
{
    if n > 0 {
        what_is_there_is_left(all, there, n - 1);
        assert(all.take(n) =~= all.take(n - 1).push(all[n - 1]));
        if forall|i: int| 0 <= i < n ==> #[trigger] there[i] {
            assert(there[n - 1]);
        }
    } else {
        assert(all.take(0) =~= seq![]);
    }
}

/// Every year that has a day of a range is listed.
pub proof fn every_year_is_listed(days: Seq<Date>, n: int, i: int)
    requires
        0 <= i < n <= days.len(),
        years_of(days, n) is Some,
    ensures
        date::year_of_day(days[i].days) matches Some(y) && years_of(days, n)->0.contains(y),
    decreases n,
{
    let front = years_of(days, n - 1)->0;
    let all = years_of(days, n)->0;
    let y = date::year_of_day(days[n - 1].days)->0;
    if i < n - 1 {
        every_year_is_listed(days, n - 1, i);
        let z = date::year_of_day(days[i].days)->0;
        let k = choose|k: int| 0 <= k < front.len() && front[k] == z;
        assert(all[k] == z);
    } else {
        assert(all[all.len() - 1] == y);
    }
}

/// Files that are there are read, all of them, for the whole days of the range, its last day included.
/// Bars are fetched at most once, and only where no file is there and fetching is wanted.
pub proof fn bars_are_read_or_fetched_once(
    q: BarRequest,
    kept: Seq<Seq<char>>,
    fetched: bool,
    r: Option<Result<BarStep, DataManagerError>>,
)
    requires
        q.is_step(kept, fetched, r),
        q.start_date.days <= q.end_date.days < i32::MAX,
        0 <= date::nanos_at(q.start_date.days, 0),
        date::nanos_at((q.end_date.days + 1) as i32, 0) <= i64::MAX,
    ensures
        kept.len() > 0 ==> (r matches Some(Ok(BarStep::Read { files: v, start_ns, end_ns }))
            && text::texts(v@) == kept && start_ns == (q.start_date.days - 719_163)
            * 86_400_000_000_000 && end_ns - start_ns == (q.end_date.days - q.start_date.days + 1)
            * 86_400_000_000_000),
        r matches Some(Ok(BarStep::Fetch)) <==> (kept.len() == 0 && q.download_on_miss && !fetched),
        kept.len() == 0 && (fetched || !q.download_on_miss) ==> !(r matches Some(Ok(_))),
{
}

} // verus!
