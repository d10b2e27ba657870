//! Tick files made of raw trades.

use crate::buffer::tvc::TradeTick;
use crate::data_manager::downloader::RawTradeData;
use crate::data_manager::types;
use crate::data_manager::types::tvc_path_of;
use crate::data_manager::types::Exchange;
use crate::data_manager::types::Venue;
use crate::date;
use crate::date::Date;
use crate::instrument;
use crate::instrument::fnv1a_hash;
use crate::instrument::InstrumentId;
use vstd::prelude::*;
use vstd::string::*;

verus! {

/// A file that was made.
#[derive(Debug)]
pub struct BuildResult {
    pub path: String,
    pub num_trades: usize,
    pub size_bytes: u64,
}

/// Errors of making a file.
#[derive(Debug)]
pub enum BuildError {
    Io(String),
    TvcWrite(String),
    InvalidData(String),
}

/// The number of a tick: its place among the trades, as far as it fits.
pub open spec fn sequence_at(i: int) -> u32 {
    (i % 0x1_0000_0000) as u32
}

/// The tick of a trade: the side is not known, and counts as a buy.
pub open spec fn tick_of(trade: (u64, i64, i64), i: int) -> TradeTick {
    TradeTick {
        timestamp_ns: trade.0,
        price_int: trade.1,
        size_int: trade.2,
        side: 0,
        flags: 1,
        sequence: sequence_at(i),
    }
}

/// The ticks of trades.
pub open spec fn ticks_of(trades: Seq<(u64, i64, i64)>) -> Seq<TradeTick> {
    Seq::new(trades.len(), |i: int| tick_of(trades[i], i))
}

/// The ticks of trades.
pub fn make_ticks(trades: &Vec<(u64, i64, i64)>) -> (r: Vec<TradeTick>)
    ensures
        r@ == ticks_of(trades@),
{
    let mut r: Vec<TradeTick> = Vec::new();
    let mut i: usize = 0;
    while i < trades.len()
        invariant
            i <= trades@.len(),
            r@.len() == i,
            forall|j: int| 0 <= j < i ==> #[trigger] r@[j] == tick_of(trades@[j], j),
        decreases trades@.len() - i,
    {
        let (timestamp_ns, price_int, size_int): (u64, i64, i64) = trades[i];
        let sequence: u32 = (i as u64 % 0x1_0000_0000) as u32;
        r.push(TradeTick { timestamp_ns, price_int, size_int, side: 0, flags: 1, sequence });
        i = i + 1;
    }
    assert(r@ =~= ticks_of(trades@));
    r
}

/// A file to be written.
#[derive(Debug)]
pub struct BuildPlan {
    pub path: String,
    pub id_hash: u32,
    pub anchor_interval: u32,
    pub decimal_precision: u8,
    pub ticks: Vec<TradeTick>,
}

/// Makes tick files below a directory.
#[derive(Debug)]
pub struct TvcBuilder {
    pub output_dir: String,
    /// Ticks from one full record to the next.
    pub anchor_interval: u32,
    /// Digits of a price behind the point.
    pub decimal_precision: u8,
}

impl TvcBuilder {
    /// A full record every hundred ticks, and nine digits behind the point.
    pub fn new(output_dir: &str) -> (r: Self)
        ensures
            r.output_dir@ == output_dir@,
            r.anchor_interval == 100,
            r.decimal_precision == 9,
    {
        TvcBuilder {
            output_dir: output_dir.to_owned(),
            anchor_interval: 100,
            decimal_precision: 9,
        }
    }

    /// Another number of ticks from one full record to the next.
    pub fn with_anchor_interval(self, interval: u32) -> (r: Self)
        ensures
            r == (TvcBuilder { anchor_interval: interval, ..self }),
    {
        TvcBuilder {
            output_dir: self.output_dir,
            anchor_interval: interval,
            decimal_precision: self.decimal_precision,
        }
    }

    /// Another number of digits behind the point.
    pub fn with_precision(self, precision: u8) -> (r: Self)
        ensures
            r == (TvcBuilder { decimal_precision: precision, ..self }),
    {
        TvcBuilder {
            output_dir: self.output_dir,
            anchor_interval: self.anchor_interval,
            decimal_precision: precision,
        }
    }

    /// What is written for trades: a file `{dir}/{exchange}/{venue}/{symbol}/{date}.tvc`; nothing
    /// for a day outside the calendar.
    pub fn build(&self, data: &RawTradeData) -> (r: Option<BuildPlan>)
        ensures
            match (date::text_of_day(data.date.days), r) {
                (Some(t), Some(p)) => {
                    &&& p.path@ == types::tvc_path(
                        self.output_dir@,
                        data.exchange,
                        data.venue,
                        data.symbol@,
                        t,
                    )
                    &&& p.id_hash == instrument::instrument_hash(
                        data.symbol@,
                        data.exchange.name(),
                    )
                    &&& p.anchor_interval == self.anchor_interval
                    &&& p.decimal_precision == self.decimal_precision
                    &&& p.ticks@ == ticks_of(data.trades@)
                },
                (None, None) => true,
                _ => false,
            },
    {
        let day = match data.date.to_text() {
            Some(t) => t,
            None => {
                return None;
            },
        };
        let path = tvc_path_of(
            self.output_dir.as_str(),
            data.exchange,
            data.venue,
            data.symbol.as_str(),
            day.as_str(),
        );
        let id = InstrumentId::new(data.symbol.as_str(), data.exchange.as_str());
        let name = id.to_text();
        Some(
            BuildPlan {
                path,
                id_hash: fnv1a_hash(name.as_str().as_bytes()),
                anchor_interval: self.anchor_interval,
                decimal_precision: self.decimal_precision,
                ticks: make_ticks(&data.trades),
            },
        )
    }

    /// What is written for trades of a symbol and a day.
    pub fn build_from_trades(
        &self,
        exchange: Exchange,
        venue: Venue,
        symbol: &str,
        date: Date,
        trades: Vec<(u64, i64, i64)>,
    ) -> (r: Option<BuildPlan>)
        ensures
            match (date::text_of_day(date.days), r) {
                (Some(t), Some(p)) => {
                    &&& p.path@ == types::tvc_path(
                        self.output_dir@,
                        exchange,
                        venue,
                        symbol@,
                        t,
                    )
                    &&& p.id_hash == instrument::instrument_hash(symbol@, exchange.name())
                    &&& p.anchor_interval == self.anchor_interval
                    &&& p.decimal_precision == self.decimal_precision
                    &&& p.ticks@ == ticks_of(trades@)
                },
                (None, None) => true,
                _ => false,
            },
    {
        let data = RawTradeData { exchange, venue, symbol: symbol.to_owned(), date, trades };
        self.build(&data)
    }
}

impl BuildPlan {
    /// The file that was written, with its size.
    pub fn result(self, size_bytes: u64) -> (r: BuildResult)
        ensures
            r.path == self.path,
            r.num_trades == self.ticks@.len(),
            r.size_bytes == size_bytes,
    {
        let num_trades: usize = self.ticks.len();
        BuildResult { path: self.path, num_trades, size_bytes }
    }
}

/// A trade becomes the tick of its place: its time, price and size are kept, and its side, which is not
/// known, counts as a buy.
pub proof fn trade_becomes_a_tick(trades: Seq<(u64, i64, i64)>, i: int)
    requires
        0 <= i < trades.len() <= u32::MAX,
    ensures
        ticks_of(trades).len() == trades.len(),
        ticks_of(trades)[i].timestamp_ns == trades[i].0,
        ticks_of(trades)[i].price_int == trades[i].1,
        ticks_of(trades)[i].size_int == trades[i].2,
        ticks_of(trades)[i].side == 0,
        ticks_of(trades)[i].sequence == i,
{
}

} // verus!
