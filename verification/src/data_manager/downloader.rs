//! Sources of trades, and the choice among them.

use crate::data_manager::types::Exchange;
use crate::data_manager::types::Venue;
use crate::date::Date;
use crate::text;
use crate::text::decimal_text;
use vstd::prelude::*;

verus! {

/// Trades of a day.
#[derive(Debug)]
pub struct RawTradeData {
    pub exchange: Exchange,
    pub venue: Venue,
    pub symbol: String,
    pub date: Date,
    /// Times in nanoseconds, prices and sizes in units.
    pub trades: Vec<(u64, i64, i64)>,
}

/// Errors of downloads.
#[derive(Debug)]
pub enum DownloadError {
    /// An HTTP status that is no success.
    Http(u16, String),
    /// Too many requests; milliseconds to wait.
    RateLimited(u64),
    /// The exchange has no such data.
    Unsupported(String),
    Network(String),
    /// The answer cannot be read.
    Parse(String),
}

impl DownloadError {
    /// The message of the error.
    pub open spec fn text(self) -> Seq<char> {
        match self {
            DownloadError::Http(code, msg) => "HTTP "@ + text::decimal(code as nat) + ": "@ + msg@,
            DownloadError::RateLimited(ms) => "Rate limited, retry after "@ + text::decimal(
                ms as nat,
            ) + "ms"@,
            DownloadError::Unsupported(msg) => "Unsupported: "@ + msg@,
            DownloadError::Network(msg) => "Network error: "@ + msg@,
            DownloadError::Parse(msg) => "Parse error: "@ + msg@,
        }
    }

    /// The message of the error.
    pub fn message(&self) -> (r: String)
        ensures
            r@ == self.text(),
    {
        match self {
            DownloadError::Http(code, msg) => {
                let mut s = "HTTP ".to_owned();
                s.append(decimal_text(*code as u64).as_str());
                s.append(": ");
                s.append(msg.as_str());
                s
            },
            DownloadError::RateLimited(ms) => {
                let mut s = "Rate limited, retry after ".to_owned();
                s.append(decimal_text(*ms).as_str());
                s.append("ms");
                s
            },
            DownloadError::Unsupported(msg) => "Unsupported: ".to_owned().concat(msg.as_str()),
            DownloadError::Network(msg) => "Network error: ".to_owned().concat(msg.as_str()),
            DownloadError::Parse(msg) => "Parse error: ".to_owned().concat(msg.as_str()),
        }
    }
}

/// A source of trades of an exchange.
pub trait DownloadSource {
    /// The exchange of the source.
    spec fn source_exchange(&self) -> Exchange;

    /// The name of the source.
    fn name(&self) -> &str;

    /// The exchange of the source.
    fn exchange(&self) -> (r: Exchange)
        ensures
            r == self.source_exchange(),
    ;

    /// Gets the trades of a symbol and a day.
    fn download(&self, symbol: &str, date: Date) -> Result<RawTradeData, DownloadError>;
}

/// Source `i` is the first one of an exchange.
pub open spec fn first_source<S: DownloadSource>(
    sources: Seq<S>,
    exchange: Exchange,
    i: int,
) -> bool {
    &&& 0 <= i < sources.len()
    &&& sources[i].source_exchange() == exchange
    &&& forall|j: int| 0 <= j < i ==> (#[trigger] sources[j]).source_exchange() != exchange
}

/// No source is one of an exchange.
pub open spec fn no_source<S: DownloadSource>(sources: Seq<S>, exchange: Exchange) -> bool {
    forall|j: int| 0 <= j < sources.len() ==> (#[trigger] sources[j]).source_exchange() != exchange
}

/// The name of an exchange in messages.
pub open spec fn variant_name(exchange: Exchange) -> Seq<char> {
    match exchange {
        Exchange::Binance => "Binance"@,
        Exchange::Bybit => "Bybit"@,
        Exchange::Okx => "Okx"@,
        Exchange::Coinbase => "Coinbase"@,
    }
}

/// What a source gave, for a venue.
pub open spec fn for_venue(
    raw: Result<RawTradeData, DownloadError>,
    venue: Venue,
) -> Result<RawTradeData, DownloadError> {
    match raw {
        Ok(d) => Ok(
            RawTradeData {
                exchange: d.exchange,
                venue,
                symbol: d.symbol,
                date: d.date,
                trades: d.trades,
            },
        ),
        Err(e) => Err(e),
    }
}

/// What a source gave, for a venue.
pub fn set_venue(raw: Result<RawTradeData, DownloadError>, venue: Venue) -> (r: Result<
    RawTradeData,
    DownloadError,
>)
    ensures
        r == for_venue(raw, venue),
{
    match raw {
        Ok(mut d) => {
            d.venue = venue;
            Ok(d)
        },
        Err(e) => Err(e),
    }
}

/// Sources of trades.
pub struct Downloader<S> {
    sources: Vec<S>,
}

impl<S: DownloadSource> View for Downloader<S> {
    type V = Seq<S>;

    closed spec fn view(&self) -> Seq<S> {
        self.sources@
    }
}

impl<S: DownloadSource> Downloader<S> {
    /// No sources.
    pub fn new() -> (r: Self)
        ensures
            r@ == Seq::<S>::empty(),
    {
        Downloader { sources: Vec::new() }
    }

    /// Adds a source, behind the others.
    pub fn register(&mut self, source: S)
        ensures
            final(self)@ == old(self)@.push(source),
    {
        self.sources.push(source);
    }

    fn find(&self, exchange: Exchange) -> (r: Option<usize>)
        ensures
            match r {
                Some(i) => first_source(self@, exchange, i as int),
                None => no_source(self@, exchange),
            },
    {
        let mut i: usize = 0;
        while i < self.sources.len()
            invariant
                i <= self.sources@.len(),
                forall|j: int|
                    0 <= j < i ==> (#[trigger] self@[j]).source_exchange() != exchange,
            decreases self.sources@.len() - i,
        {
            if self.sources[i].exchange() == exchange {
                return Some(i);
            }
            i = i + 1;
        }
        None
    }

    /// Gets trades from the first source of an exchange, for a venue.
    pub fn download(&self, exchange: Exchange, venue: Venue, symbol: &str, date: Date) -> (r: Result<
        RawTradeData,
        DownloadError,
    >)
        ensures
            if no_source(self@, exchange) {
                r matches Err(e) && e is Unsupported && e->Unsupported_0@
                    == "No download source for "@ + variant_name(exchange)
            } else {
                exists|i: int, raw: Result<RawTradeData, DownloadError>|
                    first_source(self@, exchange, i) && #[trigger] call_ensures(
                        S::download,
                        (&self@[i], symbol, date),
                        raw,
                    ) && r == for_venue(raw, venue)
            },
    {
        match self.find(exchange) {
            Some(i) => {
                let raw = self.sources[i].download(symbol, date);
                assert(call_ensures(S::download, (&self@[i as int], symbol, date), raw));
                set_venue(raw, venue)
            },
            None => {
                let name = match exchange {
                    Exchange::Binance => "Binance",
                    Exchange::Bybit => "Bybit",
                    Exchange::Okx => "Okx",
                    Exchange::Coinbase => "Coinbase",
                };
                Err(
                    DownloadError::Unsupported(
                        "No download source for ".to_owned().concat(name),
                    ),
                )
            },
        }
    }

    /// A source of an exchange is there.
    pub fn has_source(&self, exchange: Exchange) -> (r: bool)
        ensures
            r == !no_source(self@, exchange),
    {
        self.find(exchange).is_some()
    }
}

/// What a source gave is for the venue that was asked for, and otherwise as it came.
pub proof fn trades_are_for_the_venue(d: RawTradeData, e: DownloadError, venue: Venue)
    ensures
        for_venue(Ok(d), venue) matches Ok(t) && t.venue == venue && t.exchange == d.exchange
            && t.symbol == d.symbol && t.date == d.date && t.trades == d.trades,
        for_venue(Err(e), venue) == Err::<RawTradeData, DownloadError>(e),
{
}

} // verus!
