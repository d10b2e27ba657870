//! TickBuffer: decoded ticks with running volumes and VPIN buckets.
//!
//! VPIN = |cum_buy - cum_sell| / (cum_buy + cum_sell), taken at each tick and, for a bucket, at
//! the tick that closes it.

use crate::buffer::ring_buffer::{RingBuffer, RingBufferError};
use crate::buffer::tvc::TradeTick;
use crate::instrument;
use vstd::prelude::*;

verus! {

/// The number by which a decoded buffer knows its instrument.
pub type InstrumentId = u64;

/// A ratio of two volumes.
#[derive(Debug, Clone, Copy, PartialEq, Eq, Structural)]
pub struct Vpin {
    pub num: i64,
    pub den: i64,
}

/// A decoded tick with running volumes.
#[derive(Debug, Clone, Copy, PartialEq, Eq, Structural)]
pub struct TradeFlowStats {
    pub timestamp_ns: u64,
    pub price_int: i64,
    pub size_int: i64,
    pub side: u8,
    pub cum_buy_volume: i64,
    pub cum_sell_volume: i64,
    pub vpin: Vpin,
    pub bucket_index: u32,
}

/// Errors of `TickBuffer` operations.
#[derive(Debug)]
pub enum TickBufferError {
    RingBuffer(String),
    EmptyBuffer,
}

impl TickBufferError {
    /// The message of the error.
    pub open spec fn spec_message(self) -> Seq<char> {
        match self {
            TickBufferError::RingBuffer(s) => "RingBuffer error: "@ + s@,
            TickBufferError::EmptyBuffer => "Buffer has no ticks"@,
        }
    }

    /// The message of the error.
    pub fn message(&self) -> (s: String)
        ensures
            s@ == self.spec_message(),
    {
        match self {
            TickBufferError::RingBuffer(e) => "RingBuffer error: ".to_owned().concat(e.as_str()),
            TickBufferError::EmptyBuffer => "Buffer has no ticks".to_owned(),
        }
    }

    /// The error that a failure of the source makes.
    pub fn from_ring_buffer_error(e: RingBufferError) -> (r: TickBufferError)
        ensures
            r matches TickBufferError::RingBuffer(s) && s@ == e@.message(),
    {
        TickBufferError::RingBuffer(e.message())
    }
}

/// The volume that was bought in the first `n` ticks.
pub open spec fn buy_volume(ticks: Seq<TradeTick>, n: int) -> int
    decreases n,
{
    if n <= 0 {
        0
    } else {
        buy_volume(ticks, n - 1) + if ticks[n - 1].side == 0 {
            ticks[n - 1].size_int as int
        } else {
            0
        }
    }
}

/// The volume that was sold in the first `n` ticks.
pub open spec fn sell_volume(ticks: Seq<TradeTick>, n: int) -> int
    decreases n,
{
    if n <= 0 {
        0
    } else {
        sell_volume(ticks, n - 1) + if ticks[n - 1].side == 0 {
            0
        } else {
            ticks[n - 1].size_int as int
        }
    }
}

/// The volume of the first `n` ticks.
pub open spec fn volume(ticks: Seq<TradeTick>, n: int) -> int
    decreases n,
{
    if n <= 0 {
        0
    } else {
        volume(ticks, n - 1) + ticks[n - 1].size_int
    }
}

/// The running volumes, their sum and their difference are within `i64`.
pub open spec fn volumes_fit_at(ticks: Seq<TradeTick>, n: int) -> bool {
    let b = buy_volume(ticks, n);
    let s = sell_volume(ticks, n);
    &&& i64::MIN <= b <= i64::MAX
    &&& i64::MIN <= s <= i64::MAX
    &&& i64::MIN <= b + s <= i64::MAX
    &&& i64::MIN < b - s <= i64::MAX
}

/// `volumes_fit_at` holds behind each tick.
pub open spec fn volumes_fit(ticks: Seq<TradeTick>) -> bool {
    forall|n: int| 0 <= n <= ticks.len() ==> #[trigger] volumes_fit_at(ticks, n)
}

/// The VPIN of a pair of running volumes; 0 where nothing was traded.
pub open spec fn vpin_of(buy: int, sell: int) -> Vpin {
    if buy + sell > 0 {
        Vpin {
            num: (if buy >= sell {
                buy - sell
            } else {
                sell - buy
            }) as i64,
            den: (buy + sell) as i64,
        }
    } else {
        Vpin { num: 0, den: 1 }
    }
}

/// What is kept of tick `i`.
pub open spec fn flow_stats(ticks: Seq<TradeTick>, i: int, bucket_size: int) -> TradeFlowStats {
    TradeFlowStats {
        timestamp_ns: ticks[i].timestamp_ns,
        price_int: ticks[i].price_int,
        size_int: ticks[i].size_int,
        side: ticks[i].side,
        cum_buy_volume: buy_volume(ticks, i + 1) as i64,
        cum_sell_volume: sell_volume(ticks, i + 1) as i64,
        vpin: vpin_of(buy_volume(ticks, i + 1), sell_volume(ticks, i + 1)),
        bucket_index: (i / bucket_size) as u32,
    }
}

/// What is kept of all ticks.
pub open spec fn all_stats(ticks: Seq<TradeTick>, bucket_size: int) -> Seq<TradeFlowStats> {
    Seq::new(ticks.len(), |i: int| flow_stats(ticks, i, bucket_size))
}

/// The VPIN of each bucket that the ticks fill, at its last tick.
pub open spec fn bucket_vpins(ticks: Seq<TradeTick>, bucket_size: int) -> Seq<Vpin> {
    Seq::new(
        (ticks.len() as int / bucket_size) as nat,
        |k: int|
            vpin_of(
                buy_volume(ticks, (k + 1) * bucket_size),
                sell_volume(ticks, (k + 1) * bucket_size),
            ),
    )
}

/// Ticks per bucket: the share of one bucket, at least one tick.
pub open spec fn bucket_size_of(total: int, num_buckets: int) -> int {
    if total / num_buckets > 1 {
        total / num_buckets
    } else {
        1
    }
}

/// Bought and sold volume add up to the volume.
pub proof fn volume_is_bought_or_sold(ticks: Seq<TradeTick>, n: int)
    requires
        0 <= n <= ticks.len(),
    ensures
        buy_volume(ticks, n) + sell_volume(ticks, n) == volume(ticks, n),
    decreases n,
{
    if n > 0 {
        volume_is_bought_or_sold(ticks, n - 1);
    }
}

proof fn lemma_volumes_not_negative(ticks: Seq<TradeTick>, n: int)
    requires
        0 <= n <= ticks.len(),
        forall|i: int| 0 <= i < ticks.len() ==> (#[trigger] ticks[i]).size_int >= 0,
    ensures
        buy_volume(ticks, n) >= 0,
        sell_volume(ticks, n) >= 0,
    decreases n,
{
    if n > 0 {
        lemma_volumes_not_negative(ticks, n - 1);
    }
}

/// Of trades with sizes that are not negative VPIN is a number from 0 to 1.
pub proof fn vpin_is_a_share(ticks: Seq<TradeTick>, n: int)
    requires
        0 <= n <= ticks.len(),
        volumes_fit(ticks),
        forall|i: int| 0 <= i < ticks.len() ==> (#[trigger] ticks[i]).size_int >= 0,
    ensures
        ({
            let v = vpin_of(buy_volume(ticks, n), sell_volume(ticks, n));
            0 <= v.num <= v.den && v.den > 0
        }),
{
    lemma_volumes_not_negative(ticks, n);
    assert(volumes_fit_at(ticks, n));
}

/// VPIN is the difference of bought and sold volume over their sum: it is the same with the sides
/// changed, 0 exactly where both are equal, and 1 where all was bought or all was sold. Where nothing
/// was traded it is 0.
pub proof fn vpin_is_the_imbalance(buy: int, sell: int)
    requires
        i64::MIN <= buy + sell <= i64::MAX,
        i64::MIN < buy - sell <= i64::MAX,
    ensures
        ({
            let v = vpin_of(buy, sell);
            let w = vpin_of(sell, buy);
            &&& v == w
            &&& v.den > 0
            &&& v.num >= 0
            &&& buy + sell > 0 ==> v.den == buy + sell
            &&& buy + sell > 0 ==> v.num == buy - sell || v.num == sell - buy
            &&& buy + sell > 0 ==> (v.num == 0 <==> buy == sell)
            &&& buy + sell > 0 && sell == 0 ==> v.num == v.den
            &&& buy + sell > 0 && buy == 0 ==> v.num == v.den
            &&& buy > 0 && sell > 0 ==> v.num < v.den
            &&& buy + sell <= 0 ==> v.num == 0
        }),
{
}

/// What is kept of a tick are the tick itself and the volumes up to it: a tick that was bought adds
/// its size to the bought volume and leaves the sold one, any other adds it to the sold one. VPIN
/// times the whole volume is the difference of the two. Each bucket holds the same number of ticks.
pub proof fn stats_follow_the_ticks(ticks: Seq<TradeTick>, bucket_size: int, i: int)
    requires
        0 <= i < ticks.len() <= u32::MAX,
        volumes_fit(ticks),
        bucket_size > 0,
    ensures
        ({
            let stats = all_stats(ticks, bucket_size);
            let st = stats[i];
            let bought = if i == 0 {
                0
            } else {
                stats[i - 1].cum_buy_volume as int
            };
            let sold = if i == 0 {
                0
            } else {
                stats[i - 1].cum_sell_volume as int
            };
            &&& stats.len() == ticks.len()
            &&& st.timestamp_ns == ticks[i].timestamp_ns
            &&& st.price_int == ticks[i].price_int
            &&& st.size_int == ticks[i].size_int
            &&& st.side == ticks[i].side
            &&& ticks[i].side == 0 ==> st.cum_buy_volume == bought + ticks[i].size_int
                && st.cum_sell_volume == sold
            &&& ticks[i].side != 0 ==> st.cum_buy_volume == bought && st.cum_sell_volume == sold
                + ticks[i].size_int
            &&& st.cum_buy_volume + st.cum_sell_volume > 0 ==> st.vpin.den == st.cum_buy_volume
                + st.cum_sell_volume
            &&& st.cum_buy_volume + st.cum_sell_volume > 0 && st.cum_buy_volume
                >= st.cum_sell_volume ==> st.vpin.num == st.cum_buy_volume - st.cum_sell_volume
            &&& st.cum_buy_volume + st.cum_sell_volume > 0 && st.cum_buy_volume
                <= st.cum_sell_volume ==> st.vpin.num == st.cum_sell_volume - st.cum_buy_volume
            &&& st.cum_buy_volume + st.cum_sell_volume <= 0 ==> st.vpin.num == 0 && st.vpin.den == 1
            &&& st.bucket_index * bucket_size <= i < (st.bucket_index + 1) * bucket_size
        }),
{
    assert(volumes_fit_at(ticks, i));
    assert(volumes_fit_at(ticks, i + 1));
    assert(buy_volume(ticks, 0) == 0 && sell_volume(ticks, 0) == 0);
    assert(0 <= i / bucket_size <= i && i / bucket_size * bucket_size <= i < (i / bucket_size + 1)
        * bucket_size) by (nonlinear_arith)
        requires
            i >= 0,
            bucket_size > 0,
    ;
}

/// With all sides changed, bought and sold volume change places and VPIN stays.
pub proof fn vpin_knows_no_side(ticks: Seq<TradeTick>, others: Seq<TradeTick>, bucket_size: int, i: int)
    requires
        0 <= i < ticks.len(),
        others.len() == ticks.len(),
        volumes_fit(ticks),
        volumes_fit(others),
        forall|j: int|
            0 <= j < ticks.len() ==> (#[trigger] ticks[j]).size_int == others[j].size_int && (
            ticks[j].side == 0 <==> others[j].side != 0),
    ensures
        all_stats(others, bucket_size)[i].vpin == all_stats(ticks, bucket_size)[i].vpin,
        all_stats(others, bucket_size)[i].cum_buy_volume == all_stats(
            ticks,
            bucket_size,
        )[i].cum_sell_volume,
{
    lemma_volumes_change_places(ticks, others, i + 1);
    assert(volumes_fit_at(ticks, i + 1));
}

proof fn lemma_volumes_change_places(ticks: Seq<TradeTick>, others: Seq<TradeTick>, n: int)
    requires
        0 <= n <= ticks.len(),
        others.len() == ticks.len(),
        forall|j: int|
            0 <= j < ticks.len() ==> (#[trigger] ticks[j]).size_int == others[j].size_int && (
            ticks[j].side == 0 <==> others[j].side != 0),
    ensures
        buy_volume(others, n) == sell_volume(ticks, n),
        sell_volume(others, n) == buy_volume(ticks, n),
    decreases n,
{
    if n > 0 {
        lemma_volumes_change_places(ticks, others, n - 1);
        assert(ticks[n - 1].size_int == others[n - 1].size_int);
    }
}

/// A bucket is closed at its last tick, with the VPIN of that tick; only buckets that the ticks fill
/// are closed.
pub proof fn bucket_closes_at_its_last_tick(ticks: Seq<TradeTick>, bucket_size: int, k: int)
    requires
        bucket_size > 0,
        0 <= k < bucket_vpins(ticks, bucket_size).len(),
    ensures
        (k + 1) * bucket_size <= ticks.len(),
        bucket_vpins(ticks, bucket_size)[k] == all_stats(ticks, bucket_size)[(k + 1) * bucket_size
            - 1].vpin,
        ticks.len() < (bucket_vpins(ticks, bucket_size).len() + 1) * bucket_size,
{
    let n = ticks.len() as int;
    assert((k + 1) * bucket_size <= n && (k + 1) * bucket_size >= 1) by (nonlinear_arith)
        requires
            bucket_size > 0,
            0 <= k < n / bucket_size,
    ;
    assert(n < (n / bucket_size + 1) * bucket_size && n / bucket_size >= 0) by (nonlinear_arith)
        requires
            bucket_size > 0,
            n >= 0,
    ;
}

/// Buckets share the ticks evenly: as many ticks in each as the number of buckets allows, and at
/// least one.
pub proof fn buckets_share_evenly(total: int, num_buckets: int)
    requires
        total > 0,
        num_buckets > 0,
    ensures
        bucket_size_of(total, num_buckets) >= 1,
        total >= num_buckets ==> bucket_size_of(total, num_buckets) * num_buckets <= total,
        total < (bucket_size_of(total, num_buckets) + 1) * num_buckets,
        total < num_buckets ==> bucket_size_of(total, num_buckets) == 1,
{
    let q = total / num_buckets;
    assert(q * num_buckets <= total < (q + 1) * num_buckets && q >= 0 && (total >= num_buckets ==> q
        >= 1) && (total < num_buckets ==> q == 0)) by (nonlinear_arith)
        requires
            total > 0,
            num_buckets > 0,
            q == total / num_buckets,
    ;
    assert((1 + 1) * num_buckets == 2 * num_buckets);
    if q == 0 {
        assert((q + 1) * num_buckets == num_buckets) by (nonlinear_arith)
            requires
                q == 0,
        ;
    }
}

/// The VPIN of a bucket is that of its last tick, whether the ticks fill the bucket or not.
pub proof fn bucket_has_the_vpin_of_its_last_tick(
    ticks: Seq<TradeTick>,
    bucket_size: int,
    id: instrument::InstrumentId,
    i: int,
)
    requires
        bucket_size > 0,
        0 <= i < ticks.len() <= u32::MAX,
    ensures
        ({
            let v = tick_view(ticks, bucket_size, id);
            let bucket = v.stats[i].bucket_index;
            exists|j: int|
                {
                    &&& i <= j < v.stats.len()
                    &&& v.value_of_bucket(bucket as int) == v.stats[j].vpin
                    &&& (#[trigger] v.stats[j]).bucket_index == bucket
                    &&& j + 1 == v.stats.len() || v.stats[j + 1].bucket_index != bucket
                }
        }),
{
    let v = tick_view(ticks, bucket_size, id);
    let n = ticks.len() as int;
    let b = i / bucket_size;
    assert(0 <= b <= i && b * bucket_size <= i < (b + 1) * bucket_size) by (nonlinear_arith)
        requires
            bucket_size > 0,
            i >= 0,
            b == i / bucket_size,
    ;
    if b < n / bucket_size {
        let j = (b + 1) * bucket_size - 1;
        assert(j < n && j >= i) by (nonlinear_arith)
            requires
                bucket_size > 0,
                b < n / bucket_size,
                i < (b + 1) * bucket_size,
                j == (b + 1) * bucket_size - 1,
        ;
        assert(j == b * bucket_size + (bucket_size - 1)) by (nonlinear_arith)
            requires
                j == (b + 1) * bucket_size - 1,
        ;
        vstd::arithmetic::div_mod::lemma_fundamental_div_mod_converse(
            j,
            bucket_size,
            b,
            bucket_size - 1,
        );
        if j + 1 < n {
            assert((b + 1) * bucket_size == j + 1);
            vstd::arithmetic::div_mod::lemma_fundamental_div_mod_converse(
                j + 1,
                bucket_size,
                b + 1,
                0,
            );
            assert(b + 1 <= j + 1) by (nonlinear_arith)
                requires
                    bucket_size > 0,
                    b >= 0,
                    (b + 1) * bucket_size == j + 1,
            ;
        }
        assert(v.stats[j].bucket_index == v.stats[i].bucket_index);
    } else {
        let j = n - 1;
        assert(j / bucket_size == b) by (nonlinear_arith)
            requires
                bucket_size > 0,
                b >= n / bucket_size,
                b == i / bucket_size,
                i <= j,
                j == n - 1,
                i >= 0,
        ;
        assert(v.stats[j].bucket_index == v.stats[i].bucket_index);
        assert(v.stats.last() == v.stats[j]);
    }
}

/// On ticks in time order a time is in the bucket of the last tick until it exactly where the bucket
/// has a tick at or before the time and one at or behind it.
pub proof fn bucket_spans_its_ticks(stats: Seq<TradeFlowStats>, ts: u64, i: int)
    requires
        in_time_order(stats),
        forall|a: int, b: int|
            0 <= a <= b < stats.len() ==> (#[trigger] stats[a]).bucket_index <= (
            #[trigger] stats[b]).bucket_index,
        0 <= i < stats.len(),
        stats[i].timestamp_ns <= ts,
        forall|j: int| i < j < stats.len() ==> (#[trigger] stats[j]).timestamp_ns > ts,
    ensures
        last_until(stats, ts, i),
        in_bucket_of(stats, ts, i) <==> exists|a: int, b: int|
            {
                &&& 0 <= a <= b < stats.len()
                &&& (#[trigger] stats[a]).bucket_index == (#[trigger] stats[b]).bucket_index
                &&& stats[a].timestamp_ns <= ts <= stats[b].timestamp_ns
            },
{
    if in_bucket_of(stats, ts, i) {
        if stats[i].timestamp_ns == ts {
            assert(stats[i].bucket_index == stats[i].bucket_index);
        } else {
            assert(stats[i].bucket_index == stats[i + 1].bucket_index);
        }
    }
    if exists|a: int, b: int|
        {
            &&& 0 <= a <= b < stats.len()
            &&& (#[trigger] stats[a]).bucket_index == (#[trigger] stats[b]).bucket_index
            &&& stats[a].timestamp_ns <= ts <= stats[b].timestamp_ns
        } {
        let (a, b) = choose|a: int, b: int|
            {
                &&& 0 <= a <= b < stats.len()
                &&& (#[trigger] stats[a]).bucket_index == (#[trigger] stats[b]).bucket_index
                &&& stats[a].timestamp_ns <= ts <= stats[b].timestamp_ns
            };
        if b > i {
            assert(stats[a].bucket_index <= stats[i].bucket_index <= stats[i + 1].bucket_index
                <= stats[b].bucket_index);
        } else {
            assert(stats[b].timestamp_ns <= stats[i].timestamp_ns);
        }
    }
}

/// The decoded ticks of one file.
#[derive(Debug)]
pub struct TickBuffer {
    stats: Vec<TradeFlowStats>,
    bucket_vpins: Vec<Vpin>,
    bucket_size: usize,
    num_buckets: u32,
    instrument: instrument::InstrumentId,
}

/// The contents of a `TickBuffer`.
pub struct TickView {
    pub stats: Seq<TradeFlowStats>,
    pub vpins: Seq<Vpin>,
    pub bucket_size: int,
    pub num_buckets: u32,
    pub id: instrument::InstrumentId,
}

impl TickView {
    /// The VPIN of a bucket: the value at which it was closed, or for one that the ticks do not fill
    /// the value at the last tick.
    pub open spec fn value_of_bucket(self, bucket: int) -> Vpin {
        if bucket < self.vpins.len() {
            self.vpins[bucket]
        } else {
            self.stats.last().vpin
        }
    }
}

/// Ticks in time order.
pub open spec fn in_time_order(stats: Seq<TradeFlowStats>) -> bool {
    forall|i: int, j: int|
        0 <= i <= j < stats.len() ==> (#[trigger] stats[i]).timestamp_ns <= (
        #[trigger] stats[j]).timestamp_ns
}

/// Tick `i` is the last one that is not behind a time.
pub open spec fn last_until(stats: Seq<TradeFlowStats>, ts: u64, i: int) -> bool {
    &&& 0 <= i < stats.len()
    &&& stats[i].timestamp_ns <= ts
    &&& forall|j: int| i < j < stats.len() ==> (#[trigger] stats[j]).timestamp_ns > ts
}

/// The bucket of the last tick until a time contains the time: the tick is at the time, or the
/// bucket goes on behind it.
pub open spec fn in_bucket_of(stats: Seq<TradeFlowStats>, ts: u64, i: int) -> bool {
    stats[i].timestamp_ns == ts || (i + 1 < stats.len() && stats[i + 1].bucket_index
        == stats[i].bucket_index)
}

impl View for TickBuffer {
    type V = TickView;

    closed spec fn view(&self) -> TickView {
        TickView {
            stats: self.stats@,
            vpins: self.bucket_vpins@,
            bucket_size: self.bucket_size as int,
            num_buckets: self.num_buckets,
            id: self.instrument,
        }
    }
}

/// The buffer that a stream of ticks makes.
pub open spec fn tick_view(
    ticks: Seq<TradeTick>,
    bucket_size: int,
    id: instrument::InstrumentId,
) -> TickView {
    TickView {
        stats: all_stats(ticks, bucket_size),
        vpins: bucket_vpins(ticks, bucket_size),
        bucket_size,
        num_buckets: bucket_vpins(ticks, bucket_size).len() as u32,
        id,
    }
}

/// Whether the running volumes of the ticks fit.
pub fn check_volumes(ticks: &Vec<TradeTick>) -> (r: bool)
    ensures
        r == volumes_fit(ticks@),
{
    let mut buy: i64 = 0;
    let mut sell: i64 = 0;
    let mut i: usize = 0;
    while i < ticks.len()
        invariant
            i <= ticks@.len(),
            buy == buy_volume(ticks@, i as int),
            sell == sell_volume(ticks@, i as int),
            forall|n: int| 0 <= n <= i ==> #[trigger] volumes_fit_at(ticks@, n),
        decreases ticks@.len() - i,
    {
        let size: i64 = ticks[i].size_int;
        let (b, s): (i128, i128) = if ticks[i].side == 0 {
            (buy as i128 + size as i128, sell as i128)
        } else {
            (buy as i128, sell as i128 + size as i128)
        };
        let lo: i128 = -0x8000_0000_0000_0000;
        let hi: i128 = 0x7fff_ffff_ffff_ffff;
        assert(b == buy_volume(ticks@, i + 1));
        assert(s == sell_volume(ticks@, i + 1));
        if !(lo <= b && b <= hi && lo <= s && s <= hi && lo <= b + s && b + s <= hi && lo < b - s
            && b - s <= hi) {
            assert(!volumes_fit_at(ticks@, i + 1));
            return false;
        }
        buy = b as i64;
        sell = s as i64;
        i = i + 1;
        assert(volumes_fit_at(ticks@, i as int));
    }
    true
}

impl TickBuffer {
    /// The buffer of a stream of ticks of which `total_ticks` were announced.
    pub fn from_ticks(
        ticks: &Vec<TradeTick>,
        total_ticks: u64,
        num_buckets: u32,
        instrument_id: instrument::InstrumentId,
    ) -> (r: Result<Self, TickBufferError>)
        requires
            total_ticks > 0 ==> num_buckets > 0,
            total_ticks <= usize::MAX,
            volumes_fit(ticks@),
        ensures
            match r {
                Ok(tb) => total_ticks > 0 && tb@ == tick_view(
                    ticks@,
                    bucket_size_of(total_ticks as int, num_buckets as int),
                    instrument_id,
                ),
                Err(e) => total_ticks == 0 && e is EmptyBuffer,
            },
    {
        if total_ticks == 0 {
            return Err(TickBufferError::EmptyBuffer);
        }
        let share: u64 = total_ticks / num_buckets as u64;
        let bucket_size: usize = if share > 1 {
            share as usize
        } else {
            1
        };
        let mut stats: Vec<TradeFlowStats> = Vec::new();
        let mut vpins: Vec<Vpin> = Vec::new();
        let mut cum_buy: i64 = 0;
        let mut cum_sell: i64 = 0;
        let mut i: usize = 0;
        // Ticks in the open bucket, and the number of the bucket.
        let mut filled: usize = 0;
        let mut bucket: usize = 0;
        proof {
            vstd::arithmetic::div_mod::lemma_basic_div(0, bucket_size as int);
        }
        while i < ticks.len()
            invariant
                i <= ticks@.len(),
                volumes_fit(ticks@),
                bucket_size > 0,
                cum_buy == buy_volume(ticks@, i as int),
                cum_sell == sell_volume(ticks@, i as int),
                filled < bucket_size,
                i == bucket * bucket_size + filled,
                vpins@.len() == bucket,
                stats@.len() == i,
                forall|j: int|
                    0 <= j < i ==> #[trigger] stats@[j] == flow_stats(ticks@, j, bucket_size as int),
                forall|k: int|
                    0 <= k < bucket ==> #[trigger] vpins@[k] == vpin_of(
                        buy_volume(ticks@, (k + 1) * bucket_size),
                        sell_volume(ticks@, (k + 1) * bucket_size),
                    ),
            decreases ticks@.len() - i,
        {
            let tick = &ticks[i];
            assert(volumes_fit_at(ticks@, i + 1));
            if tick.side == 0 {
                cum_buy = cum_buy + tick.size_int;
            } else {
                cum_sell = cum_sell + tick.size_int;
            }
            proof {
                vstd::arithmetic::div_mod::lemma_fundamental_div_mod_converse(
                    i as int,
                    bucket_size as int,
                    bucket as int,
                    filled as int,
                );
            }
            let total: i64 = cum_buy + cum_sell;
            let vpin = if total > 0 {
                let diff: i64 = cum_buy - cum_sell;
                Vpin {
                    num: if diff >= 0 {
                        diff
                    } else {
                        -diff
                    },
                    den: total,
                }
            } else {
                Vpin { num: 0, den: 1 }
            };
            stats.push(
                TradeFlowStats {
                    timestamp_ns: tick.timestamp_ns,
                    price_int: tick.price_int,
                    size_int: tick.size_int,
                    side: tick.side,
                    cum_buy_volume: cum_buy,
                    cum_sell_volume: cum_sell,
                    vpin,
                    bucket_index: bucket as u32,
                },
            );
            i = i + 1;
            if filled + 1 == bucket_size {
                assert((bucket + 1) * bucket_size == bucket * bucket_size + bucket_size)
                    by (nonlinear_arith);
                vpins.push(vpin);
                assert(bucket < i) by (nonlinear_arith)
                    requires
                        bucket_size > 0,
                        i == bucket * bucket_size + bucket_size,
                ;
                bucket = bucket + 1;
                filled = 0;
            } else {
                filled = filled + 1;
            }
        }
        proof {
            vstd::arithmetic::div_mod::lemma_fundamental_div_mod_converse(
                i as int,
                bucket_size as int,
                bucket as int,
                filled as int,
            );
        }
        assert(stats@ =~= all_stats(ticks@, bucket_size as int));
        assert(vpins@ =~= bucket_vpins(ticks@, bucket_size as int));
        let computed: u32 = vpins.len() as u32;
        Ok(
            TickBuffer {
                stats,
                bucket_vpins: vpins,
                bucket_size,
                num_buckets: computed,
                instrument: instrument_id,
            },
        )
    }

    /// The source can be decoded into `num_buckets` buckets.
    pub open spec fn decodes(rb: RingBuffer, num_buckets: u32) -> bool {
        rb@.header.num_ticks > 0 ==> {
            &&& num_buckets > 0
            &&& rb@.header.num_ticks <= usize::MAX
            &&& rb@.anchor_at(128) is Some
            &&& rb@.ticks_fit(rb@.origin(), u64::MAX)
            &&& volumes_fit(rb@.ticks())
        }
    }

    /// Whether the source can be decoded into `num_buckets` buckets.
    pub fn can_decode(rb: &RingBuffer, num_buckets: u32) -> (r: bool)
        ensures
            r == TickBuffer::decodes(*rb, num_buckets),
    {
        if rb.num_ticks() == 0 {
            return true;
        }
        if num_buckets == 0 || rb.num_ticks() > usize::MAX as u64 {
            return false;
        }
        match rb.read_all() {
            Some(ticks) => check_volumes(&ticks),
            None => false,
        }
    }

    /// Decodes all ticks of a source into `num_buckets` VPIN buckets.
    pub fn from_ring_buffer(rb: &RingBuffer, num_buckets: u32) -> (r: Result<Self, TickBufferError>)
        requires
            TickBuffer::decodes(*rb, num_buckets),
        ensures
            match r {
                Ok(tb) => rb@.header.num_ticks > 0 && tb@ == tick_view(
                    rb@.ticks(),
                    bucket_size_of(rb@.header.num_ticks as int, num_buckets as int),
                    rb.id(),
                ),
                Err(e) => rb@.header.num_ticks == 0 && e is EmptyBuffer,
            },
    {
        if rb.num_ticks() == 0 {
            return Err(TickBufferError::EmptyBuffer);
        }
        match rb.read_all() {
            Some(ticks) => TickBuffer::from_ticks(
                &ticks,
                rb.num_ticks(),
                num_buckets,
                rb.instrument_id(),
            ),
            None => vstd::pervasive::unreached(),
        }
    }

    /// The number of ticks.
    pub fn num_ticks(&self) -> (r: u64)
        ensures
            r == self@.stats.len(),
    {
        self.stats.len() as u64
    }

    /// The instrument.
    pub fn instrument_id(&self) -> (r: instrument::InstrumentId)
        ensures
            r == self@.id,
    {
        self.instrument.clone()
    }

    /// The number of the instrument.
    pub fn instrument_key(&self) -> (r: InstrumentId)
        ensures
            r == self@.id.id,
    {
        self.instrument.id as u64
    }

    /// The number of filled buckets.
    pub fn num_buckets(&self) -> (r: u32)
        ensures
            r == self@.num_buckets,
    {
        self.num_buckets
    }

    /// Ticks per bucket.
    pub fn bucket_size(&self) -> (r: usize)
        ensures
            r == self@.bucket_size,
    {
        self.bucket_size
    }

    /// The VPIN at which a bucket was closed; bucket 0 is the first one.
    pub fn bucket_vpin(&self, bucket_idx: usize) -> (r: Option<Vpin>)
        ensures
            r == (if bucket_idx < self@.vpins.len() {
                Some(self@.vpins[bucket_idx as int])
            } else {
                None
            }),
    {
        if bucket_idx < self.bucket_vpins.len() {
            Some(self.bucket_vpins[bucket_idx])
        } else {
            None
        }
    }

    /// The VPIN of the bucket that contains a time, found by binary search: the value at which the
    /// bucket was closed, or for the bucket that the ticks do not fill the value so far. None for a
    /// time in no bucket.
    ///
    /// A bucket contains the times from its first to its last tick. Where the ticks are not in time
    /// order, any bucket may be found.
    pub fn vpin_at_timestamp(&self, ts: u64) -> (r: Option<Vpin>)
        ensures
            in_time_order(self@.stats) ==> match r {
                Some(v) => exists|i: int| #[trigger]
                    last_until(self@.stats, ts, i) && in_bucket_of(self@.stats, ts, i) && v
                        == self@.value_of_bucket(self@.stats[i].bucket_index as int),
                None => forall|i: int| #[trigger]
                    last_until(self@.stats, ts, i) ==> !in_bucket_of(self@.stats, ts, i),
            },
            r matches Some(v) ==> exists|i: int|
                0 <= i < self@.stats.len() && v == self@.value_of_bucket(
                    (#[trigger] self@.stats[i]).bucket_index as int,
                ),
    {
        let n: usize = self.stats.len();
        let mut left: usize = 0;
        let mut right: usize = n;
        while left < right
            invariant
                n == self.stats@.len(),
                left <= right <= n,
                in_time_order(self@.stats) ==> {
                    &&& forall|i: int|
                        0 <= i < left ==> (#[trigger] self@.stats[i]).timestamp_ns <= ts
                    &&& forall|i: int|
                        right <= i < n ==> (#[trigger] self@.stats[i]).timestamp_ns > ts
                },
            decreases right - left,
        {
            let mid: usize = left + (right - left) / 2;
            if self.stats[mid].timestamp_ns <= ts {
                left = mid + 1;
            } else {
                right = mid;
            }
        }
        if left == 0 {
            return None;
        }
        let i: usize = left - 1;
        let bucket: u32 = self.stats[i].bucket_index;
        assert(in_time_order(self@.stats) ==> last_until(self@.stats, ts, i as int));
        let inside = self.stats[i].timestamp_ns == ts || (i + 1 < n && self.stats[i
            + 1].bucket_index == bucket);
        if !inside {
            return None;
        }
        let v = if (bucket as usize) < self.bucket_vpins.len() {
            self.bucket_vpins[bucket as usize]
        } else {
            self.stats[n - 1].vpin
        };
        assert(v == self@.value_of_bucket(self@.stats[i as int].bucket_index as int));
        Some(v)
    }

    /// Iterates over the ticks.
    pub fn iter(&self) -> (r: TickIter<'_>)
        ensures
            r.source() == self@,
            r@ == 0,
    {
        TickIter { buffer: self, index: 0 }
    }

    /// The tick at a position.
    pub fn get(&self, index: usize) -> (r: Option<&TradeFlowStats>)
        ensures
            r == (if index < self@.stats.len() {
                Some(&self@.stats[index as int])
            } else {
                None
            }),
            r is Some ==> index < usize::MAX,
    {
        if index < self.stats.len() {
            Some(&self.stats[index])
        } else {
            None
        }
    }
}

/// Walk over the ticks of a `TickBuffer`.
#[derive(Debug)]
pub struct TickIter<'a> {
    buffer: &'a TickBuffer,
    index: usize,
}

impl<'a> View for TickIter<'a> {
    type V = int;

    closed spec fn view(&self) -> int {
        self.index as int
    }
}

impl<'a> TickIter<'a> {
    /// The buffer that is walked.
    pub closed spec fn source(self) -> TickView {
        self.buffer@
    }

    /// The next tick.
    pub fn next(&mut self) -> (r: Option<&'a TradeFlowStats>)
        ensures
            final(self).source() == old(self).source(),
            if 0 <= old(self)@ < old(self).source().stats.len() {
                r == Some(&old(self).source().stats[old(self)@]) && final(self)@ == old(self)@ + 1
            } else {
                r is None && final(self)@ == old(self)@
            },
    {
        if self.index < self.buffer.stats.len() {
            let item = &self.buffer.stats[self.index];
            self.index = self.index + 1;
            Some(item)
        } else {
            None
        }
    }

    /// The number of ticks to come.
    pub fn size_hint(&self) -> (r: (usize, Option<usize>))
        requires
            self@ <= self.source().stats.len(),
        ensures
            r.0 == self.source().stats.len() - self@,
            r.1 == Some(r.0),
    {
        let remaining: usize = self.buffer.stats.len() - self.index;
        (remaining, Some(remaining))
    }
}

} // verus!
