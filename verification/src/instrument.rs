//! Instrument identity: a symbol on an exchange and its 32-bit hash.

use crate::text;
use crate::text::{same_text, split_text};
use vstd::prelude::*;
use vstd::string::*;

verus! {

/// One round of 32-bit FNV-1a.
pub open spec fn fnv1a_step(h: u32, b: u8) -> u32 {
    (((h ^ (b as u32)) as nat * 0x0100_0193) % 0x1_0000_0000) as u32
}

/// 32-bit FNV-1a of a byte sequence.
pub open spec fn fnv1a(data: Seq<u8>) -> u32
    decreases data.len(),
{
    if data.len() == 0 {
        0x811c_9dc5
    } else {
        fnv1a_step(fnv1a(data.drop_last()), data.last())
    }
}

/// 32-bit FNV-1a of a byte slice.
pub fn fnv1a_hash(data: &[u8]) -> (h: u32)
    ensures
        h == fnv1a(data@),
{
    let mut hash: u32 = 0x811c_9dc5;
    let mut i: usize = 0;
    assert(data@.take(0) =~= Seq::<u8>::empty());
    while i < data.len()
        invariant
            i <= data@.len(),
            hash == fnv1a(data@.take(i as int)),
        decreases data@.len() - i,
    {
        let ghost next = data@.take(i + 1);
        assert(next.drop_last() =~= data@.take(i as int));
        hash = (hash ^ (data[i] as u32)).wrapping_mul(0x0100_0193);
        i = i + 1;
    }
    assert(data@.take(data@.len() as int) =~= data@);
    hash
}

/// The text `SYMBOL.EXCHANGE`.
pub open spec fn instrument_text(symbol: Seq<char>, exchange: Seq<char>) -> Seq<char> {
    symbol + seq!['.'] + exchange
}

/// The hash by which an instrument is known.
pub open spec fn instrument_hash(symbol: Seq<char>, exchange: Seq<char>) -> u32 {
    fnv1a(vstd::utf8::encode_utf8(instrument_text(symbol, exchange)))
}

/// An instrument: a symbol on an exchange.
#[derive(Debug, PartialEq, Eq, Hash)]
pub struct InstrumentId {
    /// FNV-1a hash of `SYMBOL.EXCHANGE`.
    pub id: u32,
    /// Symbol, as the exchange writes it.
    pub symbol: String,
    /// Exchange name.
    pub exchange: String,
}

impl View for InstrumentId {
    type V = (Seq<char>, Seq<char>);

    open spec fn view(&self) -> (Seq<char>, Seq<char>) {
        (self.symbol@, self.exchange@)
    }
}

impl Clone for InstrumentId {
    fn clone(&self) -> (r: Self)
        ensures
            r == *self,
    {
        InstrumentId { id: self.id, symbol: self.symbol.clone(), exchange: self.exchange.clone() }
    }
}

impl InstrumentId {
    /// The hash is the one of the symbol and exchange.
    pub open spec fn wf(self) -> bool {
        self.id == instrument_hash(self.symbol@, self.exchange@)
    }

    /// The instrument `symbol` on `exchange`.
    pub fn new(symbol: &str, exchange: &str) -> (r: Self)
        ensures
            r.wf(),
            r@ == (symbol@, exchange@),
    {
        let mut name: String = symbol.to_owned();
        name.push('.');
        name.append(exchange);
        assert(name@ =~= instrument_text(symbol@, exchange@));
        InstrumentId {
            id: fnv1a_hash(name.as_str().as_bytes()),
            symbol: symbol.to_owned(),
            exchange: exchange.to_owned(),
        }
    }

    /// Reads `SYMBOL.EXCHANGE`: two pieces around a single dot.
    pub fn parse(s: &str) -> (r: Option<Self>)
        ensures
            match r {
                Some(id) => text::split(s@, '.').len() == 2 && id.wf() && id@ == (
                    text::split(s@, '.')[0],
                    text::split(s@, '.')[1],
                ),
                None => text::split(s@, '.').len() != 2,
            },
    {
        let parts = split_text(s, '.');
        assert(text::texts(parts@).len() == parts@.len());
        if parts.len() == 2 {
            assert(text::texts(parts@)[0] == parts@[0]@);
            assert(text::texts(parts@)[1] == parts@[1]@);
            Some(InstrumentId::new(parts[0].as_str(), parts[1].as_str()))
        } else {
            None
        }
    }

    /// The text `SYMBOL.EXCHANGE`.
    pub fn to_text(&self) -> (s: String)
        ensures
            s@ == instrument_text(self.symbol@, self.exchange@),
    {
        let mut name: String = self.symbol.clone();
        name.push('.');
        name.append(self.exchange.as_str());
        assert(name@ =~= instrument_text(self.symbol@, self.exchange@));
        name
    }

    /// Whether both name the same symbol on the same exchange.
    pub fn same(&self, other: &InstrumentId) -> (r: bool)
        ensures
            r == (self@ == other@),
    {
        same_text(self.symbol.as_str(), other.symbol.as_str()) && same_text(
            self.exchange.as_str(),
            other.exchange.as_str(),
        )
    }
}

/// Instruments with the same symbol and exchange have the same hash.
pub proof fn same_name_same_hash(a: InstrumentId, b: InstrumentId)
    requires
        a.wf(),
        b.wf(),
        a@ == b@,
    ensures
        a.id == b.id,
{
}

/// The hash starts from the offset basis; each byte is mixed in and the sum spread by the prime.
pub proof fn hash_mixes_each_byte(data: Seq<u8>, b: u8)
    ensures
        fnv1a(seq![]) == 2_166_136_261,
        fnv1a(data.push(b)) == ((fnv1a(data) ^ (b as u32)) * 16_777_619) % 4_294_967_296,
{
    assert(data.push(b).drop_last() =~= data);
}

/// The text of an instrument is its symbol, a dot and its exchange; where the exchange holds no dot,
/// the text tells both.
pub proof fn text_tells_symbol_and_exchange(symbol: Seq<char>, exchange: Seq<char>)
    ensures
        instrument_text(symbol, exchange).len() == symbol.len() + 1 + exchange.len(),
        instrument_text(symbol, exchange)[symbol.len() as int] == '.',
        instrument_text(symbol, exchange).take(symbol.len() as int) == symbol,
        instrument_text(symbol, exchange).skip(symbol.len() as int + 1) == exchange,
{
    let t = instrument_text(symbol, exchange);
    assert(t.take(symbol.len() as int) =~= symbol);
    assert(t.skip(symbol.len() as int + 1) =~= exchange);
}

} // verus!
