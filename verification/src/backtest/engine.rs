//! The configuration of a backtest, and what is run for it.

use crate::backtest::capital;
use crate::backtest::capital::CapitalSpread;
use crate::backtest::play;
use crate::backtest::play::run_backtest_loop;
use crate::backtest::play::run_sweep_loop;
use crate::backtest::play::Pass;
use crate::backtest::play::run_bar_backtest;
use crate::backtest::play::Answer;
use crate::backtest::play::Heard;
use crate::backtest::play::NoRisk;
use crate::backtest::play::PlayResult;
use crate::backtest::play::RiskCheck;
use crate::backtest::play::Strategy;
use crate::backtest::signal::InstrumentState;
use crate::buffer::bar_builder::Bar;
use crate::buffer::buffer_set::RingBufferSet;
use crate::buffer::buffer_set::TickBufferSet;
use crate::data_manager::bar_ingester::InstrumentType;
use crate::data_manager::data_manager::BarRequest;
use crate::data_manager::data_manager::DataManagerError;
use crate::data_manager::types::DataManagerConfig;
use crate::data_manager::types::Exchange;
use crate::data_manager::types::Venue;
use crate::date;
use crate::date::Date;
use crate::instrument::InstrumentId;
use crate::text;
use vstd::prelude::*;

verus! {

// ---------------------------------------------------------------------------
// Errors
// ---------------------------------------------------------------------------

/// Errors of backtests.
#[derive(Debug)]
pub enum BacktestError {
    NoInstrument,
    NoDataDir,
    NoDateRange,
    DataDirNotFound(String),
    InvalidConfig(String),
    NoFilesFound { symbol: String, start: String, end: String },
    BufferSetOpen(String),
    StrategyError(String),
    PortfolioError(String),
    IoError(String),
}

impl BacktestError {
    /// The message of the error.
    pub open spec fn text(self) -> Seq<char> {
        match self {
            BacktestError::NoInstrument => "no instrument configured — call .with_instrument()"@,
            BacktestError::NoDataDir => "no data directory configured — call .with_data_dir()"@,
            BacktestError::NoDateRange => "no date range configured — call .with_date_range()"@,
            BacktestError::DataDirNotFound(p) => "data directory does not exist: "@ + p@,
            BacktestError::InvalidConfig(m) => "invalid configuration: "@ + m@,
            BacktestError::NoFilesFound { symbol, start, end } => "no TVC files found for "@
                + symbol@ + " between "@ + start@ + " and "@ + end@,
            BacktestError::BufferSetOpen(m) => "failed to open RingBufferSet: "@ + m@,
            BacktestError::StrategyError(m) => "strategy error during tick processing: "@ + m@,
            BacktestError::PortfolioError(m) => "portfolio error: "@ + m@,
            BacktestError::IoError(m) => "IO error: "@ + m@,
        }
    }

    /// The message of the error.
    pub fn message(&self) -> (r: String)
        ensures
            r@ == self.text(),
    {
        match self {
            BacktestError::NoInstrument =>
                "no instrument configured — call .with_instrument()".to_owned(),
            BacktestError::NoDataDir =>
                "no data directory configured — call .with_data_dir()".to_owned(),
            BacktestError::NoDateRange =>
                "no date range configured — call .with_date_range()".to_owned(),
            BacktestError::DataDirNotFound(p) => "data directory does not exist: ".to_owned().concat(
                p.as_str(),
            ),
            BacktestError::InvalidConfig(m) => "invalid configuration: ".to_owned().concat(
                m.as_str(),
            ),
            BacktestError::NoFilesFound { symbol, start, end } => {
                let mut s = "no TVC files found for ".to_owned();
                s.append(symbol.as_str());
                s.append(" between ");
                s.append(start.as_str());
                s.append(" and ");
                s.append(end.as_str());
                s
            },
            BacktestError::BufferSetOpen(m) => "failed to open RingBufferSet: ".to_owned().concat(
                m.as_str(),
            ),
            BacktestError::StrategyError(m) =>
                "strategy error during tick processing: ".to_owned().concat(m.as_str()),
            BacktestError::PortfolioError(m) => "portfolio error: ".to_owned().concat(m.as_str()),
            BacktestError::IoError(m) => "IO error: ".to_owned().concat(m.as_str()),
        }
    }

    /// The error of a read that failed.
    pub fn from_io(text: &str) -> (r: BacktestError)
        ensures
            r matches BacktestError::IoError(m) && m@ == text@,
    {
        BacktestError::IoError(text.to_owned())
    }

    /// The error of data that cannot be had.
    pub fn from_data(e: &DataManagerError) -> (r: BacktestError)
        ensures
            r matches BacktestError::BufferSetOpen(m) && m@ == e.text(),
    {
        BacktestError::BufferSetOpen(e.message())
    }
}

// ---------------------------------------------------------------------------
// Configuration
// ---------------------------------------------------------------------------

/// How a strategy is run.
#[derive(Debug, Clone, Copy, PartialEq, Eq, Structural)]
pub enum BacktestMode {
    Backtest,
    Live,
    Paper,
}

/// Where bars come from.
pub enum BarSource {
    /// Ticks that are put together.
    TickBuffer(TickBufferSet),
    /// Bars of bar files; nothing stands for a bar that cannot be read.
    BarIter(Vec<Option<Bar>>),
}

/// The configuration of a backtest.
pub struct BacktestEngine {
    pub instrument: Option<InstrumentId>,
    pub instruments: Option<Vec<InstrumentId>>,
    pub capital_spread: Option<CapitalSpread>,
    pub data_dir: Option<String>,
    pub start_date: Option<Date>,
    pub end_date: Option<Date>,
    pub exchange: Option<Exchange>,
    pub venue: Option<Venue>,
    pub mode: BacktestMode,
    pub bar_source: Option<BarSource>,
    pub instrument_type: Option<InstrumentType>,
    pub timeframe: Option<String>,
    /// Orders are looked at before they are carried out.
    pub risk_engine: bool,
}

impl BacktestEngine {
    /// An empty configuration, for a backtest with orders looked at.
    pub fn new() -> (r: Self)
        ensures
            r == (BacktestEngine {
                instrument: None,
                instruments: None,
                capital_spread: None,
                data_dir: None,
                start_date: None,
                end_date: None,
                exchange: None,
                venue: None,
                mode: BacktestMode::Backtest,
                bar_source: None,
                instrument_type: None,
                timeframe: None,
                risk_engine: true,
            }),
    {
        BacktestEngine {
            instrument: None,
            instruments: None,
            capital_spread: None,
            data_dir: None,
            start_date: None,
            end_date: None,
            exchange: None,
            venue: None,
            mode: BacktestMode::Backtest,
            bar_source: None,
            instrument_type: None,
            timeframe: None,
            risk_engine: true,
        }
    }

    /// Sets the mode.
    pub fn with_mode(self, mode: BacktestMode) -> (r: Self)
        ensures
            r == (BacktestEngine { mode, ..self }),
    {
        let mut r = self;
        r.mode = mode;
        r
    }

    /// Sets the instrument and its exchange, whose name is read in any case.
    pub fn with_instrument(self, symbol: &str, exchange: &str) -> (r: Result<Self, BacktestError>)
        ensures
            ({
                let lower = text::lower(exchange@);
                let known = Exchange::named(lower) is Some || lower == "okex"@;
                match r {
                    Ok(e) => {
                        &&& known
                        &&& e == (BacktestEngine {
                            instrument: e.instrument,
                            exchange: e.exchange,
                            ..self
                        })
                        &&& e.instrument matches Some(id) && id@ == (symbol@, exchange@) && id.wf()
                        &&& e.exchange == (if lower == "okex"@ {
                            Some(Exchange::Okx)
                        } else {
                            Exchange::named(lower)
                        })
                    },
                    Err(x) => !known && (x matches BacktestError::InvalidConfig(m) && m@
                        == "unknown exchange: "@ + lower),
                }
            }),
    {
        proof {
            reveal_strlit("okex");
            reveal_strlit("binance");
            reveal_strlit("bybit");
            reveal_strlit("okx");
            reveal_strlit("coinbase");
            assert("okex"@.len() == 4 && "binance"@.len() == 7 && "bybit"@.len() == 5
                && "okx"@.len() == 3 && "coinbase"@.len() == 8);
        }
        let parsed = match Exchange::from_str(exchange) {
            Ok(e) => e,
            Err(m) => {
                return Err(BacktestError::InvalidConfig(m));
            },
        };
        let mut r = self;
        r.instrument = Some(InstrumentId::new(symbol, exchange));
        r.exchange = Some(parsed);
        Ok(r)
    }

    /// Sets the first and the last day. A last day before the first is no range.
    pub fn with_date_range(self, start: Date, end: Date) -> (r: Result<Self, BacktestError>)
        ensures
            match r {
                Ok(e) => start.days <= end.days && e == (BacktestEngine {
                    start_date: Some(start),
                    end_date: Some(end),
                    ..self
                }),
                Err(x) => end.days < start.days && x is NoDateRange,
            },
    {
        if end.days < start.days {
            return Err(BacktestError::NoDateRange);
        }
        let mut r = self;
        r.start_date = Some(start);
        r.end_date = Some(end);
        Ok(r)
    }

    /// Sets the directory of the data, which has to be there.
    pub fn with_data_dir(self, dir: &str, is_there: bool) -> (r: Result<Self, BacktestError>)
        ensures
            match r {
                Ok(e) => {
                    &&& is_there
                    &&& e == (BacktestEngine { data_dir: e.data_dir, ..self })
                    &&& e.data_dir matches Some(d) && d@ == dir@
                },
                Err(x) => !is_there && (x matches BacktestError::DataDirNotFound(d) && d@ == dir@),
            },
    {
        if !is_there {
            return Err(BacktestError::DataDirNotFound(dir.to_owned()));
        }
        let mut r = self;
        r.data_dir = Some(dir.to_owned());
        Ok(r)
    }

    /// Sets the exchange and the venue.
    pub fn with_exchange_venue(self, exchange: Exchange, venue: Venue) -> (r: Self)
        ensures
            r == (BacktestEngine { exchange: Some(exchange), venue: Some(venue), ..self }),
    {
        let mut r = self;
        r.exchange = Some(exchange);
        r.venue = Some(venue);
        r
    }

    /// Sets several instruments.
    pub fn with_instruments(self, instruments: Vec<InstrumentId>) -> (r: Self)
        ensures
            r == (BacktestEngine { instruments: Some(instruments), ..self }),
    {
        let mut r = self;
        r.instruments = Some(instruments);
        r
    }

    /// Sets how capital is spread over several instruments.
    pub fn with_capital_spread(self, spread: CapitalSpread) -> (r: Self)
        ensures
            r == (BacktestEngine { capital_spread: Some(spread), ..self }),
    {
        let mut r = self;
        r.capital_spread = Some(spread);
        r
    }

    /// Sets whether orders are looked at before they are carried out.
    pub fn with_risk_engine(self, risk: bool) -> (r: Self)
        ensures
            r == (BacktestEngine { risk_engine: risk, ..self }),
    {
        let mut r = self;
        r.risk_engine = risk;
        r
    }

    /// Sets where bars come from.
    pub fn with_bar_source(self, source: BarSource) -> (r: Self)
        ensures
            r == (BacktestEngine { bar_source: Some(source), ..self }),
    {
        let mut r = self;
        r.bar_source = Some(source);
        r
    }

    /// Sets the kind of the instrument.
    pub fn with_instrument_type(self, itype: InstrumentType) -> (r: Self)
        ensures
            r == (BacktestEngine { instrument_type: Some(itype), ..self }),
    {
        let mut r = self;
        r.instrument_type = Some(itype);
        r
    }

    /// Sets the timeframe of bars that are loaded.
    pub fn with_timeframe(self, tf: &str) -> (r: Self)
        ensures
            r == (BacktestEngine { timeframe: r.timeframe, ..self }),
            r.timeframe matches Some(t) && t@ == tf@,
    {
        let mut r = self;
        r.timeframe = Some(tf.to_owned());
        r
    }
}

// ---------------------------------------------------------------------------
// Plans
// ---------------------------------------------------------------------------

/// A run over ticks: what is loaded, and the times that are played.
pub struct TickPlan {
    pub instrument: InstrumentId,
    pub config: DataManagerConfig,
    pub start_ns: u64,
    pub end_ns: u64,
}

/// What is run.
pub enum RunPlan {
    /// Bars that are there.
    Bars { instrument: InstrumentId, bars: Vec<Option<Bar>> },
    /// Bars that are loaded.
    LoadBars { instrument: InstrumentId, request: BarRequest },
    /// Ticks that are loaded.
    Ticks(TickPlan),
}

/// The time at which a trading day starts.
pub open spec fn day_start(d: Date) -> u64 {
    date::bits_or_zero(date::nanos_at(d.days, -7_200))
}

/// The dates have a day before and a day behind them.
pub open spec fn within_calendar(d: Option<Date>) -> bool {
    d matches Some(d) ==> i32::MIN < d.days < i32::MAX
}

/// The plan is the run over ticks of a configuration: the days of its range, from the start of the
/// first trading day to the start of the one behind the last. Missing files are downloaded.
pub open spec fn is_tick_plan(p: TickPlan, e: BacktestEngine) -> bool {
    &&& Some(p.instrument) == e.instrument
    &&& p.config.data_root@ == e.data_dir->0@
    &&& p.config.exchange == (match e.exchange {
        Some(x) => x,
        None => Exchange::Binance,
    })
    &&& p.config.venue == (match e.venue {
        Some(v) => v,
        None => Venue::Spot,
    })
    &&& p.config.symbol@ == p.instrument.symbol@
    &&& Some(p.config.start_date) == e.start_date
    &&& Some(p.config.end_date) == e.end_date
    &&& p.config.download_on_miss
    &&& p.start_ns == day_start(p.config.start_date)
    &&& p.end_ns == day_start(Date { days: (p.config.end_date.days + 1) as i32 })
}

/// The message where several instruments are run as one.
pub open spec fn several_text() -> Seq<char> {
    "multi-instrument backtest requires BacktestEngine::run_multi() with a PortfolioStrategy factory (not a Strategy factory). For bar-mode single-instrument, use .with_instrument() instead."@
}

/// What a configuration asks to be run: bars that are there, bars of a timeframe, or ticks; of
/// several instruments none of these.
pub open spec fn is_plan(r: Result<RunPlan, BacktestError>, e: BacktestEngine) -> bool {
    match e.bar_source {
        Some(BarSource::BarIter(bars)) => match e.instrument {
            Some(id) => r matches Ok(RunPlan::Bars { instrument, bars: b }) && instrument == id && b
                == bars,
            None => r matches Err(x) && x is NoInstrument,
        },
        _ => is_loading_plan(r, e),
    }
}

/// What a configuration without bars asks to be run.
pub open spec fn is_loading_plan(r: Result<RunPlan, BacktestError>, e: BacktestEngine) -> bool {
    if e.timeframe is Some && e.data_dir is Some && e.start_date is Some && e.end_date
        is Some {
        match e.instrument {
            Some(id) => r matches Ok(RunPlan::LoadBars { instrument, request }) && instrument == id
                && is_bar_request(request, e),
            None => r matches Err(x) && x is NoInstrument,
        }
    } else if e.instruments is Some {
        r matches Err(BacktestError::InvalidConfig(m)) && m@ == several_text()
    } else if e.instrument is None {
        r matches Err(x) && x is NoInstrument
    } else if e.start_date is None || e.end_date is None {
        r matches Err(x) && x is NoDateRange
    } else if e.data_dir is None {
        r matches Err(x) && x is NoDataDir
    } else {
        r matches Ok(RunPlan::Ticks(p)) && is_tick_plan(p, e)
    }
}

/// The bars of a configuration; missing ones are fetched.
pub open spec fn is_bar_request(q: BarRequest, e: BacktestEngine) -> bool {
    &&& q.exchange == (match e.exchange {
        Some(x) => x,
        None => Exchange::Binance,
    })
    &&& q.instrument_type == (match e.instrument_type {
        Some(t) => t,
        None => InstrumentType::Spot,
    })
    &&& q.symbol@ == e.instrument->0.symbol@
    &&& q.timeframe == e.timeframe->0
    &&& Some(q.start_date) == e.start_date
    &&& Some(q.end_date) == e.end_date
    &&& q.download_on_miss
}

/// The run over ticks of an instrument.
fn tick_plan(
    instrument: InstrumentId,
    data_root: String,
    exchange: Option<Exchange>,
    venue: Option<Venue>,
    start_date: Date,
    end_date: Date,
) -> (r: TickPlan)
    requires
        i32::MIN < start_date.days,
        i32::MIN < end_date.days < i32::MAX,
    ensures
        r.instrument == instrument,
        r.config.data_root == data_root,
        r.config.exchange == (match exchange {
            Some(x) => x,
            None => Exchange::Binance,
        }),
        r.config.venue == (match venue {
            Some(v) => v,
            None => Venue::Spot,
        }),
        r.config.symbol@ == instrument.symbol@,
        r.config.start_date == start_date,
        r.config.end_date == end_date,
        r.config.download_on_miss,
        r.start_ns == day_start(start_date),
        r.end_ns == day_start(Date { days: (end_date.days + 1) as i32 }),
{
    let symbol = instrument.symbol.clone();
    let behind = Date { days: end_date.days + 1 };
    TickPlan {
        instrument,
        config: DataManagerConfig {
            data_root,
            exchange: match exchange {
                Some(x) => x,
                None => Exchange::Binance,
            },
            venue: match venue {
                Some(v) => v,
                None => Venue::Spot,
            },
            symbol,
            start_date,
            end_date,
            download_on_miss: true,
        },
        start_ns: start_date.trading_day_start_ns(),
        end_ns: behind.trading_day_start_ns(),
    }
}

/// A run over several instruments: what is loaded for them.
pub struct MultiPlan {
    pub data_root: String,
    /// Symbols and the exchange of each.
    pub pairs: Vec<(String, Exchange)>,
    pub start_date: Date,
    pub end_date: Date,
}

/// Every instrument's symbol stands with the exchange.
pub open spec fn are_pairs(
    pairs: Seq<(String, Exchange)>,
    instruments: Seq<InstrumentId>,
    exchange: Exchange,
) -> bool {
    &&& pairs.len() == instruments.len()
    &&& forall|i: int|
        0 <= i < pairs.len() ==> (#[trigger] pairs[i]).0@ == instruments[i].symbol@ && pairs[i].1
            == exchange
}

/// Why a spread of capital cannot be used.
pub open spec fn spread_fault(spread: Option<CapitalSpread>) -> Option<
    capital::CapitalSpreadError,
> {
    match spread {
        Some(CapitalSpread::Weighted(w)) => capital::weights_fault(w@),
        _ => None,
    }
}

impl BacktestEngine {
    /// What is run for one instrument.
    pub fn run_plan(self) -> (r: Result<RunPlan, BacktestError>)
        requires
            within_calendar(self.start_date),
            within_calendar(self.end_date),
        ensures
            is_plan(r, self),
    {
        match self.bar_source {
            Some(BarSource::BarIter(bars)) => {
                return match self.instrument {
                    Some(instrument) => Ok(RunPlan::Bars { instrument, bars }),
                    None => Err(BacktestError::NoInstrument),
                };
            },
            _ => {},
        }
        if self.timeframe.is_some() && self.data_dir.is_some() {
            match (self.timeframe, self.start_date, self.end_date) {
                (Some(timeframe), Some(start_date), Some(end_date)) => {
                    return match self.instrument {
                        Some(instrument) => {
                            let symbol = instrument.symbol.clone();
                            let request = BarRequest {
                                exchange: match self.exchange {
                                    Some(x) => x,
                                    None => Exchange::Binance,
                                },
                                instrument_type: match self.instrument_type {
                                    Some(t) => t,
                                    None => InstrumentType::Spot,
                                },
                                symbol,
                                timeframe,
                                start_date,
                                end_date,
                                download_on_miss: true,
                            };
                            Ok(RunPlan::LoadBars { instrument, request })
                        },
                        None => Err(BacktestError::NoInstrument),
                    };
                },
                _ => {},
            }
        }
        if self.instruments.is_some() {
            return Err(
                BacktestError::InvalidConfig(
                    "multi-instrument backtest requires BacktestEngine::run_multi() with a PortfolioStrategy factory (not a Strategy factory). For bar-mode single-instrument, use .with_instrument() instead.".to_owned(),
                ),
            );
        }
        let instrument = match self.instrument {
            Some(id) => id,
            None => {
                return Err(BacktestError::NoInstrument);
            },
        };
        match (self.start_date, self.end_date) {
            (Some(start), Some(end)) => match self.data_dir {
                Some(dir) => Ok(
                    RunPlan::Ticks(
                        tick_plan(instrument, dir, self.exchange, self.venue, start, end),
                    ),
                ),
                None => Err(BacktestError::NoDataDir),
            },
            _ => Err(BacktestError::NoDateRange),
        }
    }

    /// What is loaded for a sweep over parameters, and whether orders are looked at.
    pub fn sweep_plan(self) -> (r: Result<(TickPlan, bool), BacktestError>)
        requires
            within_calendar(self.start_date),
            within_calendar(self.end_date),
        ensures
            if self.instrument is None {
                r matches Err(x) && x is NoInstrument
            } else if self.data_dir is None {
                r matches Err(x) && x is NoDataDir
            } else if self.start_date is None || self.end_date is None {
                r matches Err(x) && x is NoDateRange
            } else if self.instruments is Some {
                r matches Err(BacktestError::InvalidConfig(m)) && m@
                    == "run_sweep: multi-instrument not yet supported"@
            } else {
                r matches Ok((p, risk)) && is_tick_plan(p, self) && risk == self.risk_engine
            },
    {
        let instrument = match self.instrument {
            Some(id) => id,
            None => {
                return Err(BacktestError::NoInstrument);
            },
        };
        let dir = match self.data_dir {
            Some(d) => d,
            None => {
                return Err(BacktestError::NoDataDir);
            },
        };
        match (self.start_date, self.end_date) {
            (Some(start), Some(end)) => {
                if self.instruments.is_some() {
                    return Err(
                        BacktestError::InvalidConfig(
                            "run_sweep: multi-instrument not yet supported".to_owned(),
                        ),
                    );
                }
                let plan = tick_plan(instrument, dir, self.exchange, self.venue, start, end);
                Ok((plan, self.risk_engine))
            },
            _ => Err(BacktestError::NoDateRange),
        }
    }

    /// What is loaded for several instruments.
    pub fn multi_plan(self, instruments: &Vec<InstrumentId>) -> (r: Result<
        MultiPlan,
        BacktestError,
    >)
        ensures
            if self.data_dir is None {
                r matches Err(x) && x is NoDataDir
            } else if self.start_date is None || self.end_date is None {
                r matches Err(x) && x is NoDateRange
            } else {
                match spread_fault(self.capital_spread) {
                    Some(f) => r matches Err(BacktestError::InvalidConfig(m)) && m@
                        == "capital spread: "@ + f.text(),
                    None => {
                        &&& r matches Ok(p)
                        &&& Some(p.data_root) == self.data_dir
                        &&& are_pairs(
                            p.pairs@,
                            instruments@,
                            match self.exchange {
                                Some(x) => x,
                                None => Exchange::Binance,
                            },
                        )
                        &&& Some(p.start_date) == self.start_date
                        &&& Some(p.end_date) == self.end_date
                    },
                }
            },
    {
        let data_root = match self.data_dir {
            Some(d) => d,
            None => {
                return Err(BacktestError::NoDataDir);
            },
        };
        let (start_date, end_date): (Date, Date) = match (self.start_date, self.end_date) {
            (Some(s), Some(e)) => (s, e),
            _ => {
                return Err(BacktestError::NoDateRange);
            },
        };
        match &self.capital_spread {
            Some(spread) => match spread.validate() {
                Ok(_) => {},
                Err(f) => {
                    return Err(
                        BacktestError::InvalidConfig(
                            "capital spread: ".to_owned().concat(f.message()),
                        ),
                    );
                },
            },
            None => {},
        }
        let exchange: Exchange = match self.exchange {
            Some(x) => x,
            None => Exchange::Binance,
        };
        let mut pairs: Vec<(String, Exchange)> = Vec::new();
        let mut i: usize = 0;
        while i < instruments.len()
            invariant
                i <= instruments@.len(),
                pairs@.len() == i,
                forall|j: int|
                    0 <= j < i ==> (#[trigger] pairs@[j]).0@ == instruments@[j].symbol@
                        && pairs@[j].1 == exchange,
            decreases instruments@.len() - i,
        {
            pairs.push((instruments[i].symbol.clone(), exchange));
            i = i + 1;
        }
        Ok(MultiPlan { data_root, pairs, start_date, end_date })
    }
}

// ---------------------------------------------------------------------------
// Runs
// ---------------------------------------------------------------------------

/// A run of a plan over loaded files: to its end, or up to an account that does not fit. `told` is
/// what the strategy was told.
pub open spec fn is_tick_run<R: RiskCheck>(
    pass: Pass,
    p: TickPlan,
    set: RingBufferSet,
    start: InstrumentState,
    risk: Option<&R>,
    told: Seq<Heard>,
    r: Result<PlayResult, BacktestError>,
) -> bool {
    exists|res: Result<PlayResult, String>| #[trigger]
        play::is_set_play(
            pass,
            start,
            risk,
            p.instrument@,
            set@.files,
            p.start_ns,
            p.end_ns,
            told,
            res,
        ) && match (res, r) {
            (Ok(a), Ok(b)) => a == b,
            (Err(a), Err(BacktestError::PortfolioError(b))) => a == b,
            _ => false,
        }
}

/// The result of a play as that of a run.
fn as_run(res: Result<PlayResult, String>) -> (r: Result<PlayResult, BacktestError>)
    ensures
        match (res, r) {
            (Ok(a), Ok(b)) => a == b,
            (Err(a), Err(BacktestError::PortfolioError(b))) => a == b,
            _ => false,
        },
{
    match res {
        Ok(p) => Ok(p),
        Err(m) => Err(BacktestError::PortfolioError(m)),
    }
}

impl TickPlan {
    /// Runs a strategy over the loaded files; orders are not looked at.
    pub fn run<S: Strategy>(&self, set: &RingBufferSet, start: InstrumentState, strategy: &mut S) -> (
    r: Result<PlayResult, BacktestError>)
        requires
            play::files_play(set@.files),
        ensures
            exists|told: Seq<Heard>| #[trigger]
                is_tick_run(Pass::Single, *self, *set, start, None::<&NoRisk>, told, r)
                    && final(strategy).heard().events == old(strategy).heard().events + told,
    {
        let ghost log = strategy.heard().events;
        let res = run_backtest_loop(
            set,
            &self.instrument,
            self.start_ns,
            self.end_ns,
            start,
            strategy,
            None::<&NoRisk>,
        );
        let ghost heard = strategy.heard().events;
        let ghost told = choose|told: Seq<Heard>| #[trigger]
            play::is_set_play(
                Pass::Single,
                start,
                None::<&NoRisk>,
                self.instrument@,
                set@.files,
                self.start_ns,
                self.end_ns,
                told,
                res,
            ) && heard == log + told;
        let r = as_run(res);
        assert(is_tick_run(Pass::Single, *self, *set, start, None::<&NoRisk>, told, r));
        r
    }

    /// Runs one strategy of a sweep over the loaded files: it is reset first.
    pub fn run_one<S: Strategy, R: RiskCheck>(
        &self,
        set: &RingBufferSet,
        start: InstrumentState,
        strategy: &mut S,
        risk: Option<&R>,
    ) -> (r: Result<PlayResult, BacktestError>)
        requires
            play::files_play(set@.files),
        ensures
            exists|told: Seq<Heard>| #[trigger]
                is_tick_run(Pass::Sweep, *self, *set, start, risk, told, r)
                    && final(strategy).heard().events == old(strategy).heard().events.push(
                    Heard::Reset,
                ) + told,
    {
        strategy.on_reset();
        let ghost log = strategy.heard().events;
        let res = run_sweep_loop(
            set,
            &self.instrument,
            self.start_ns,
            self.end_ns,
            start,
            strategy,
            risk,
        );
        let ghost heard = strategy.heard().events;
        let ghost told = choose|told: Seq<Heard>| #[trigger]
            play::is_set_play(
                Pass::Sweep,
                start,
                risk,
                self.instrument@,
                set@.files,
                self.start_ns,
                self.end_ns,
                told,
                res,
            ) && heard == log + told;
        let r = as_run(res);
        assert(is_tick_run(Pass::Sweep, *self, *set, start, risk, told, r));
        r
    }
}

/// Runs a strategy over bars.
pub fn run_bars<S: Strategy>(
    instrument: &InstrumentId,
    bars: &Vec<Option<Bar>>,
    start: InstrumentState,
    strategy: &mut S,
) -> (r: Result<PlayResult, BacktestError>)
    ensures
        match r {
            Ok(res) => res.started && res.unit == 9 && exists|
                answers: Seq<Answer>,
                told: Seq<Heard>,
            | #[trigger]
                play::is_bar_play(start, bars@, instrument@, answers, told, res.trail@)
                    && final(strategy).heard().events == old(strategy).heard().events + told,
            Err(BacktestError::PortfolioError(m)) => m@ == play::overflow_text() && exists|
                answers: Seq<Answer>,
                told: Seq<Heard>,
            | #[trigger]
                play::is_bar_stop(start, bars@, instrument@, answers, told)
                    && final(strategy).heard().events == old(strategy).heard().events + told,
            Err(_) => false,
        },
{
    match run_bar_backtest(bars, instrument, start, strategy) {
        Ok(res) => Ok(res),
        Err(m) => Err(BacktestError::PortfolioError(m)),
    }
}

/// A trading day starts at ten in the evening of the day before, and lasts a day.
pub proof fn trading_day_starts_the_evening_before(d: Date)
    requires
        i32::MIN < d.days < i32::MAX,
        0 <= date::nanos_at(d.days, -7_200),
        date::nanos_at((d.days + 1) as i32, -7_200) <= i64::MAX,
    ensures
        day_start(d) == date::nanos_at((d.days - 1) as i32, 79_200),
        day_start(Date { days: (d.days + 1) as i32 }) == day_start(d) + 86_400_000_000_000,
{
}

/// A plan covers each trading day of its range, the last one included, and nothing else.
pub proof fn plan_covers_its_days(p: TickPlan, e: BacktestEngine)
    requires
        is_tick_plan(p, e),
        e.start_date matches Some(first) && e.end_date matches Some(last) && first.days <= last.days
            && i32::MIN < first.days && last.days < i32::MAX && 0 <= date::nanos_at(
            first.days,
            -7_200,
        ) && date::nanos_at((last.days + 1) as i32, -7_200) <= i64::MAX,
    ensures
        p.start_ns == date::nanos_at((e.start_date->0.days - 1) as i32, 79_200),
        p.end_ns - p.start_ns == (e.end_date->0.days - e.start_date->0.days + 1)
            * 86_400_000_000_000,
        e.instrument == Some(p.instrument),
        p.config.symbol@ == p.instrument.symbol@,
        p.config.start_date == e.start_date->0,
        p.config.end_date == e.end_date->0,
        e.exchange is None ==> p.config.exchange is Binance,
        e.venue is None ==> p.config.venue is Spot,
        e.exchange matches Some(x) ==> p.config.exchange == x,
        e.venue matches Some(v) ==> p.config.venue == v,
{
}

/// Bars that are given are run before anything else; a timeframe with its data is run before ticks;
/// several instruments are refused; ticks need an instrument, a range of dates and a directory, and
/// what is missing first, in this order, is named.
pub proof fn plan_is_what_was_asked(r: Result<RunPlan, BacktestError>, e: BacktestEngine)
    requires
        is_plan(r, e),
    ensures
        r matches Ok(RunPlan::Bars { .. }) <==> (e.bar_source matches Some(BarSource::BarIter(b))
            && e.instrument is Some),
        r matches Ok(RunPlan::LoadBars { .. }) ==> e.timeframe is Some && e.instrument is Some
            && e.data_dir is Some && e.start_date is Some && e.end_date is Some,
        r matches Ok(RunPlan::Ticks(_)) ==> e.instrument is Some && e.data_dir is Some
            && e.start_date is Some && e.end_date is Some && e.instruments is None && e.timeframe
            is None,
        e.bar_source is None && e.timeframe is None && e.instruments is None && e.instrument is Some
            && e.data_dir is Some && e.start_date is Some && e.end_date is Some ==> r matches Ok(
            RunPlan::Ticks(_),
        ),
        e.bar_source is None && e.instruments is None && e.instrument is None ==> (r matches Err(x)
            && x is NoInstrument),
        e.bar_source is None && e.timeframe is None && e.instruments is None && e.instrument is Some
            && (e.start_date is None || e.end_date is None) ==> (r matches Err(x) && x is NoDateRange),
        e.bar_source is None && e.timeframe is None && e.instruments is None && e.instrument is Some
            && e.start_date is Some && e.end_date is Some && e.data_dir is None ==> (r matches Err(x)
            && x is NoDataDir),
{
}

/// Bars are asked for as they are configured: spot bars of Binance where nothing else is said, and
/// missing ones are fetched.
pub proof fn bars_are_asked_for_as_configured(q: BarRequest, e: BacktestEngine)
    requires
        is_bar_request(q, e),
    ensures
        e.exchange is None ==> q.exchange is Binance,
        e.exchange matches Some(x) ==> q.exchange == x,
        e.instrument_type is None ==> q.instrument_type is Spot,
        e.instrument_type matches Some(t) ==> q.instrument_type == t,
        e.start_date == Some(q.start_date),
        e.end_date == Some(q.end_date),
        q.symbol@ == e.instrument->0.symbol@,
        q.timeframe == e.timeframe->0,
        q.download_on_miss,
{
}

} // verus!
