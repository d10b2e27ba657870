//! Tick files loaded for backtests.

use crate::buffer::buffer_set;
use crate::buffer::buffer_set::TickBufferSet;
use crate::buffer::ring_buffer::RingBuffer;
use crate::buffer::ring_buffer::RingBufferError;
use crate::data_manager::types::Exchange;
use crate::instrument::InstrumentId;
use vstd::prelude::*;

verus! {

/// Errors of loading.
#[derive(Debug)]
pub enum LoadError {
    Io(String),
    TvcFormat(String),
    NoData,
}

impl LoadError {
    /// The error of a file that cannot be decoded.
    pub fn from_ring_buffer_error(e: RingBufferError) -> (r: LoadError)
        ensures
            r matches LoadError::TvcFormat(s) && s@ == e@.message(),
    {
        LoadError::TvcFormat(e.message())
    }
}

/// The message for a file without ticks.
pub open spec fn no_ticks_text() -> Seq<char> {
    "Invalid header: "@ + "Buffer has no ticks"@
}

/// The number of buckets into which a file is divided.
pub const NUM_BUCKETS: u32 = 50;

/// Every path stands with the instrument.
pub open spec fn with_instrument(
    files: Seq<(String, InstrumentId)>,
    paths: Seq<String>,
    symbol: Seq<char>,
    exchange: Seq<char>,
) -> bool {
    &&& files.len() == paths.len()
    &&& forall|i: int|
        0 <= i < files.len() ==> (#[trigger] files[i]).0@ == paths[i]@ && files[i].1@ == (
            symbol,
            exchange,
        ) && files[i].1.wf()
}

/// Loads tick files.
#[derive(Debug)]
pub struct DataLoader;

impl DataLoader {
    /// The files of one symbol, each with its instrument. Without files there is no data.
    pub fn files_in_range(paths: &Vec<String>, exchange: Exchange, symbol: &str) -> (r: Result<
        Vec<(String, InstrumentId)>,
        LoadError,
    >)
        ensures
            match r {
                Ok(v) => paths@.len() > 0 && with_instrument(v@, paths@, symbol@, exchange.name()),
                Err(e) => paths@.len() == 0 && e is NoData,
            },
    {
        if paths.len() == 0 {
            return Err(LoadError::NoData);
        }
        let id = InstrumentId::new(symbol, exchange.as_str());
        let mut files: Vec<(String, InstrumentId)> = Vec::new();
        let mut i: usize = 0;
        while i < paths.len()
            invariant
                i <= paths@.len(),
                id@ == (symbol@, exchange.name()),
                id.wf(),
                files@.len() == i,
                forall|j: int|
                    0 <= j < i ==> (#[trigger] files@[j]).0@ == paths@[j]@ && files@[j].1@ == (
                        symbol@,
                        exchange.name(),
                    ) && files@[j].1.wf(),
            decreases paths@.len() - i,
        {
            files.push((paths[i].clone(), id.clone()));
            i = i + 1;
        }
        Ok(files)
    }

    /// Decodes opened files of a range. A file without ticks is refused.
    pub fn load_range(files: Vec<(InstrumentId, RingBuffer)>) -> (r: Result<
        TickBufferSet,
        LoadError,
    >)
        requires
            buffer_set::files_decode(files@, NUM_BUCKETS),
        ensures
            match r {
                Ok(set) => {
                    &&& files@.len() > 0
                    &&& set.wf()
                    &&& set@.len() == files@.len()
                    &&& forall|i: int|
                        0 <= i < files@.len() ==> {
                            &&& (#[trigger] files@[i]).1@.header.num_ticks > 0
                            &&& set@[i].0 == files@[i].0
                            &&& set@[i].1@ == buffer_set::decoded(files@, i, NUM_BUCKETS)
                        }
                },
                Err(LoadError::NoData) => files@.len() == 0,
                Err(LoadError::TvcFormat(s)) => files@.len() > 0 && s@ == no_ticks_text()
                    && exists|i: int|
                    0 <= i < files@.len() && (#[trigger] files@[i]).1@.header.num_ticks == 0,
                Err(LoadError::Io(_)) => false,
            },
    {
        if files.len() == 0 {
            return Err(LoadError::NoData);
        }
        match TickBufferSet::from_ring_buffers(files, NUM_BUCKETS) {
            Ok(set) => Ok(set),
            Err(e) => Err(LoadError::from_ring_buffer_error(e)),
        }
    }

    /// Decodes one opened file.
    pub fn load_file(buffer: RingBuffer, instrument_id: InstrumentId) -> (r: Result<
        TickBufferSet,
        LoadError,
    >)
        requires
            buffer_set::files_decode(seq![(instrument_id, buffer)], NUM_BUCKETS),
        ensures
            match r {
                Ok(set) => {
                    &&& buffer@.header.num_ticks > 0
                    &&& set.wf()
                    &&& set@.len() == 1
                    &&& set@[0].0 == instrument_id
                    &&& set@[0].1@ == buffer_set::decoded(
                        seq![(instrument_id, buffer)],
                        0,
                        NUM_BUCKETS,
                    )
                },
                Err(e) => buffer@.header.num_ticks == 0 && e is TvcFormat && e->TvcFormat_0@
                    == no_ticks_text(),
            },
    {
        let ghost one = seq![(instrument_id, buffer)];
        let mut files: Vec<(InstrumentId, RingBuffer)> = Vec::new();
        files.push((instrument_id, buffer));
        assert(files@ =~= one);
        let r = Self::load_range(files);
        assert(one[0].1 == buffer);
        r
    }
}

} // verus!
