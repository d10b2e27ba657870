//! Signals of a strategy, and what they do to a position.

use vstd::prelude::*;

verus! {

/// What a strategy wants.
#[derive(Debug, Clone, Copy, PartialEq, Eq, Structural)]
pub enum Signal {
    Buy,
    Sell,
    Close,
}

impl Signal {
    /// The number that is published for the signal.
    pub open spec fn value(self) -> int {
        match self {
            Signal::Buy => 1,
            Signal::Sell => -1,
            Signal::Close => 0,
        }
    }

    /// The number that is published for the signal.
    pub fn as_number(&self) -> (r: i8)
        ensures
            r == self.value(),
    {
        match self {
            Signal::Buy => 1,
            Signal::Sell => -1,
            Signal::Close => 0,
        }
    }
}

/// The side of a position.
#[derive(Debug, Clone, Copy, PartialEq, Eq, Structural)]
pub enum Holding {
    Long,
    Short,
    Flat,
}

/// What is done with a position: first it is closed, then one is opened.
#[derive(Debug, Clone, Copy, PartialEq, Eq, Structural)]
pub struct Decision {
    pub close: bool,
    /// `Buy` or `Sell`.
    pub open: Option<Signal>,
}

/// What a signal does where only a change of the signal does anything: a buy or a sell turns a
/// position of the other side, or opens one; a close, or no signal at all, closes.
pub open spec fn decided(signal: Option<Signal>, last: Signal, holding: Holding) -> Decision {
    if signal == Some(last) {
        Decision { close: false, open: None }
    } else {
        match signal {
            Some(Signal::Buy) => if holding is Long {
                Decision { close: false, open: None }
            } else {
                Decision { close: holding is Short, open: Some(Signal::Buy) }
            },
            Some(Signal::Sell) => if holding is Short {
                Decision { close: false, open: None }
            } else {
                Decision { close: holding is Long, open: Some(Signal::Sell) }
            },
            Some(Signal::Close) | None => Decision { close: !(holding is Flat), open: None },
        }
    }
}

/// What a signal does where only a change of the signal does anything.
pub fn decide(signal: Option<Signal>, last: Signal, holding: Holding) -> (r: Decision)
    ensures
        r == decided(signal, last, holding),
{
    match signal {
        Some(s) => {
            if s == last {
                return Decision { close: false, open: None };
            }
            match s {
                Signal::Buy => {
                    if holding == Holding::Long {
                        Decision { close: false, open: None }
                    } else {
                        Decision { close: holding == Holding::Short, open: Some(Signal::Buy) }
                    }
                },
                Signal::Sell => {
                    if holding == Holding::Short {
                        Decision { close: false, open: None }
                    } else {
                        Decision { close: holding == Holding::Long, open: Some(Signal::Sell) }
                    }
                },
                Signal::Close => Decision { close: holding != Holding::Flat, open: None },
            }
        },
        None => Decision { close: holding != Holding::Flat, open: None },
    }
}

/// A signal that is given again does nothing.
pub proof fn repeated_signal_does_nothing(signal: Signal, holding: Holding)
    ensures
        decided(Some(signal), signal, holding) == (Decision { close: false, open: None }),
{
}

/// Nothing is opened on top of an open position: what is opened is of the other side, and the
/// position is closed first.
pub proof fn position_is_closed_before_it_turns(
    signal: Option<Signal>,
    last: Signal,
    holding: Holding,
)
    ensures
        decided(signal, last, holding).open matches Some(s) ==> signal == Some(s) && (s is Buy || s
            is Sell) && (decided(signal, last, holding).close <==> !(holding is Flat)) && !(s is Buy
            && holding is Long) && !(s is Sell && holding is Short),
{
}

/// A signal that has changed leaves what it asks for: a buy leaves a long position, a sell a short
/// one, and a close, or no signal, nothing. What is held already is not traded again.
pub proof fn changed_signal_is_carried_out(signal: Option<Signal>, last: Signal, holding: Holding)
    requires
        signal != Some(last),
    ensures
        ({
            let d = decided(signal, last, holding);
            let behind = match d.open {
                Some(Signal::Buy) => Holding::Long,
                Some(Signal::Sell) => Holding::Short,
                _ => if d.close {
                    Holding::Flat
                } else {
                    holding
                },
            };
            &&& signal == Some(Signal::Buy) ==> behind is Long
            &&& signal == Some(Signal::Sell) ==> behind is Short
            &&& signal == Some(Signal::Close) || signal is None ==> behind is Flat
            &&& behind == holding ==> !d.close && d.open is None
            &&& behind != holding && !(holding is Flat) ==> d.close
        }),
{
}

/// A sell does to a short position what a buy does to a long one, with the sides changed.
pub proof fn sides_are_treated_alike(last: Signal, holding: Holding)
    requires
        last is Close,
    ensures
        ({
            let other = match holding {
                Holding::Long => Holding::Short,
                Holding::Short => Holding::Long,
                Holding::Flat => Holding::Flat,
            };
            let b = decided(Some(Signal::Buy), last, holding);
            let s = decided(Some(Signal::Sell), last, other);
            b.close == s.close && (b.open is Some <==> s.open is Some)
        }),
{
}

/// The published numbers tell the signals apart: opposite signals are opposite numbers, and a close
/// is nothing.
pub proof fn published_numbers_are_opposite()
    ensures
        Signal::Buy.value() == 1,
        Signal::Buy.value() + Signal::Sell.value() == 0,
        Signal::Close.value() == 0,
{
}

/// The minute of the day, five hours behind UTC.
pub open spec fn est_minute(ts_ns: u64) -> int {
    (ts_ns as int / 60_000_000_000 + 19 * 60) % 1440
}

/// The minute of the day, five hours behind UTC.
pub fn est_minute_of(ts_ns: u64) -> (r: u32)
    ensures
        r == est_minute(ts_ns),
        r < 1440,
{
    let utc_h: u64 = (ts_ns / 3_600_000_000_000) % 24;
    let utc_m: u64 = (ts_ns / 60_000_000_000) % 60;
    let est_h: u64 = if utc_h >= 5 {
        utc_h - 5
    } else {
        utc_h + 19
    };
    let m: u64 = est_h * 60 + utc_m;
    proof {
        let t = ts_ns as int;
        let mins = t / 60_000_000_000;
        assert(t / 3_600_000_000_000 == mins / 60) by (nonlinear_arith)
            requires
                mins == t / 60_000_000_000,
                t >= 0,
        ;
        let h = mins / 60;
        let q = h / 24;
        assert(mins == q * 1440 + utc_h * 60 + utc_m);
        if utc_h >= 5 {
            assert(mins + 1140 == (q + 1) * 1440 + m);
            vstd::arithmetic::div_mod::lemma_fundamental_div_mod_converse(
                mins + 1140,
                1440,
                q + 1,
                m as int,
            );
        } else {
            assert(mins + 1140 == q * 1440 + m);
            vstd::arithmetic::div_mod::lemma_fundamental_div_mod_converse(
                mins + 1140,
                1440,
                q,
                m as int,
            );
        }
    }
    m as u32
}

/// The minute of the day is 0 at five in the morning of UTC, goes on by one in a minute, and begins
/// again behind the last one.
pub proof fn minutes_of_the_day_go_on(ts_ns: u64)
    requires
        ts_ns + 60_000_000_000 <= u64::MAX,
    ensures
        0 <= est_minute(ts_ns) < 1440,
        est_minute(18_000_000_000_000) == 0,
        est_minute((ts_ns + 60_000_000_000) as u64) == if est_minute(ts_ns) == 1439 {
            0
        } else {
            est_minute(ts_ns) + 1
        },
        ts_ns / 60_000_000_000 * 60_000_000_000 == ts_ns && ts_ns + 59_999_999_999 <= u64::MAX
            ==> est_minute((ts_ns + 59_999_999_999) as u64) == est_minute(ts_ns),
{
}

/// A new day has begun: the minute of the day has gone back.
pub open spec fn new_day(last_min: int, min: int) -> bool {
    min < last_min && last_min > 0
}

// ---------------------------------------------------------------------------
// Accounts
// ---------------------------------------------------------------------------

/// The account of an instrument. Money is counted in parts of a price unit times a size unit, two
/// thousand to one, so that a commission of 0.0005 is a whole number.
#[derive(Debug, Clone, Copy, PartialEq, Eq, Structural)]
pub struct InstrumentState {
    /// Size held; negative for a short position.
    pub position: i64,
    pub entry_price: i64,
    pub realized_pnl: i128,
    pub equity: i128,
    pub commissions: i128,
    pub num_trades: u32,
    pub num_wins: u32,
    pub num_losses: u32,
    /// Equity with the profit of the position at the last price that was seen.
    pub worth: i128,
    /// The largest worth so far.
    pub peak: i128,
    /// The largest fall from a peak so far.
    pub drawdown: i128,
}

/// An account as whole numbers.
pub struct Ledger {
    pub position: int,
    pub entry_price: int,
    pub realized_pnl: int,
    pub equity: int,
    pub commissions: int,
    pub num_trades: int,
    pub num_wins: int,
    pub num_losses: int,
    pub worth: int,
    pub peak: int,
    pub drawdown: int,
}

impl View for InstrumentState {
    type V = Ledger;

    open spec fn view(&self) -> Ledger {
        Ledger {
            position: self.position as int,
            entry_price: self.entry_price as int,
            realized_pnl: self.realized_pnl as int,
            equity: self.equity as int,
            commissions: self.commissions as int,
            num_trades: self.num_trades as int,
            num_wins: self.num_wins as int,
            num_losses: self.num_losses as int,
            worth: self.worth as int,
            peak: self.peak as int,
            drawdown: self.drawdown as int,
        }
    }
}

/// A size without its sign.
pub open spec fn magnitude(n: int) -> int {
    if n < 0 {
        -n
    } else {
        n
    }
}

/// The side of a position of a size.
pub open spec fn side_held(position: int) -> Holding {
    if position > 0 {
        Holding::Long
    } else if position < 0 {
        Holding::Short
    } else {
        Holding::Flat
    }
}

/// A position above 0 is long and one below 0 short; the side changes with the sign.
pub proof fn sign_tells_the_side(position: int)
    ensures
        side_held(position) is Long <==> position > 0,
        side_held(position) is Short <==> position < 0,
        side_held(position) is Flat <==> position == 0,
        side_held(-position) is Long <==> side_held(position) is Short,
{
}

/// The commission on a trade.
pub open spec fn commission(size: int, price: int) -> int {
    size * price
}

/// The profit of a position at a price.
pub open spec fn profit(position: int, entry_price: int, price: int) -> int {
    if position > 0 {
        (price - entry_price) * magnitude(position) * 2000
    } else {
        (entry_price - price) * magnitude(position) * 2000
    }
}

impl Ledger {
    /// The account is in the range of its numbers.
    pub open spec fn fits(self) -> bool {
        &&& i64::MIN <= self.position <= i64::MAX
        &&& i64::MIN <= self.entry_price <= i64::MAX
        &&& i128::MIN <= self.realized_pnl <= i128::MAX
        &&& i128::MIN <= self.equity <= i128::MAX
        &&& i128::MIN <= self.commissions <= i128::MAX
        &&& 0 <= self.num_trades <= u32::MAX
        &&& 0 <= self.num_wins <= u32::MAX
        &&& 0 <= self.num_losses <= u32::MAX
        &&& i128::MIN <= self.worth <= i128::MAX
        &&& i128::MIN <= self.peak <= i128::MAX
        &&& i128::MIN <= self.drawdown <= i128::MAX
    }

    /// The account with its worth at a price.
    pub open spec fn marked(self, price: int) -> Ledger {
        Ledger {
            worth: self.equity + profit(self.position, self.entry_price, price),
            ..self
        }
    }

    /// The account with its peak and its largest fall brought up to date.
    pub open spec fn peaked(self) -> Ledger {
        let peak = if self.worth > self.peak {
            self.worth
        } else {
            self.peak
        };
        let fall = peak - self.worth;
        Ledger {
            peak,
            drawdown: if fall > self.drawdown {
                fall
            } else {
                self.drawdown
            },
            ..self
        }
    }

    /// The account with its worth at a price, its peak and its largest fall.
    pub open spec fn valued(self, price: int) -> Ledger {
        self.marked(price).peaked()
    }

    /// The account behind a trade of a profit: it is a win, a loss or neither.
    pub open spec fn counted(self, pnl: int) -> Ledger {
        Ledger {
            realized_pnl: self.realized_pnl + pnl,
            num_wins: if pnl > 0 {
                self.num_wins + 1
            } else {
                self.num_wins
            },
            num_losses: if pnl < 0 {
                self.num_losses + 1
            } else {
                self.num_losses
            },
            ..self
        }
    }

    /// The account behind a trade that costs a commission.
    pub open spec fn charged(self, comm: int) -> Ledger {
        Ledger {
            equity: self.equity - comm,
            commissions: self.commissions + comm,
            num_trades: self.num_trades + 1,
            ..self
        }
    }

    /// The account with a position entered at a price; one of the other side is turned.
    pub open spec fn entered(self, position: int, size: int, price: int) -> Ledger {
        let turned = if self.position == 0 {
            self
        } else {
            self.counted(profit(self.position, self.entry_price, price))
        };
        (Ledger { position, entry_price: price, ..turned }).charged(commission(size, price))
    }

    /// The account with the position closed at a price.
    pub open spec fn closed(self, price: int) -> Ledger {
        let pnl = profit(self.position, self.entry_price, price);
        let counted = self.counted(pnl);
        (Ledger { position: 0, entry_price: 0, equity: counted.equity + pnl, ..counted }).charged(
            commission(magnitude(self.position), price),
        )
    }

    /// The account behind a signal: a buy enters a long position unless there is one, a sell a
    /// short one, a close closes.
    pub open spec fn routed(self, signal: Signal, size: int, price: int) -> Ledger {
        match signal {
            Signal::Buy => if self.position > 0 {
                self
            } else {
                self.entered(size, size, price)
            },
            Signal::Sell => if self.position < 0 {
                self
            } else {
                self.entered(-size, size, price)
            },
            Signal::Close => if self.position == 0 {
                self
            } else {
                self.closed(price)
            },
        }
    }
}

/// The number fits in 128 bits.
pub open spec fn wide(n: int) -> bool {
    i128::MIN <= n <= i128::MAX
}

/// The account behind a signal, the profit of the position and what is left of it fit.
pub open spec fn route_fits(s: Ledger, signal: Signal, size: int, price: int) -> bool {
    let t = s.routed(signal, size, price);
    let pnl = profit(s.position, s.entry_price, price);
    &&& t.fits()
    &&& t != s && s.position != 0 ==> wide(pnl)
    &&& signal is Close && s.position != 0 ==> wide(
        pnl - commission(magnitude(s.position), price),
    )
}

/// The account at a price fits: its worth, the profit in it, and the fall from its peak.
pub open spec fn value_fits(s: Ledger, price: int) -> bool {
    &&& mark_fits(s, price)
    &&& wide(s.valued(price).peak - s.marked(price).worth)
}

/// The worth of an account at a price fits, and the profit in it does.
pub open spec fn mark_fits(s: Ledger, price: int) -> bool {
    wide(profit(s.position, s.entry_price, price)) && wide(s.marked(price).worth)
}

/// The largest fall is never less than the fall from the peak to the worth, and no fall of the past
/// is forgotten.
pub proof fn drawdown_is_the_largest_fall(s: Ledger, price: int)
    ensures
        s.valued(price).worth == s.equity + profit(s.position, s.entry_price, price),
        s.valued(price).peak >= s.peak,
        s.valued(price).peak >= s.valued(price).worth,
        s.valued(price).drawdown >= s.drawdown,
        s.valued(price).drawdown >= s.valued(price).peak - s.valued(price).worth,
        s.valued(price).drawdown == s.drawdown || s.valued(price).drawdown == s.valued(price).peak
            - s.valued(price).worth,
{
}

/// The profit of a position is what the price has moved, times the size: a long position, of a size
/// above 0, gains when the price rises and loses when it falls, and a short one the other way round.
pub proof fn profit_follows_the_price(position: int, entry_price: int, price: int)
    ensures
        profit(position, entry_price, price) == 2000 * (position * (price - entry_price)),
        position > 0 ==> (profit(position, entry_price, price) > 0 <==> price > entry_price),
        position > 0 ==> (profit(position, entry_price, price) < 0 <==> price < entry_price),
        position < 0 ==> (profit(position, entry_price, price) > 0 <==> price < entry_price),
        position < 0 ==> (profit(position, entry_price, price) < 0 <==> price > entry_price),
        price == entry_price || position == 0 ==> profit(position, entry_price, price) == 0,
{
    let moved = price - entry_price;
    let pnl = profit(position, entry_price, price);
    assert(pnl == 2000 * (position * moved)) by (nonlinear_arith)
        requires
            moved == price - entry_price,
            pnl == (if position > 0 {
                moved * magnitude(position) * 2000
            } else {
                (-moved) * magnitude(position) * 2000
            }),
            magnitude(position) == (if position < 0 {
                -position
            } else {
                position
            }),
    ;
    let product = position * moved;
    assert(product > 0 <==> (position > 0 && moved > 0) || (position < 0 && moved < 0))
        by (nonlinear_arith)
        requires
            product == position * moved,
    ;
    assert(product < 0 <==> (position > 0 && moved < 0) || (position < 0 && moved > 0))
        by (nonlinear_arith)
        requires
            product == position * moved,
    ;
}

/// A long and a short position of one size and entry gain and lose the same: together they come to
/// nothing.
pub proof fn long_and_short_cancel_out(size: int, entry_price: int, price: int)
    ensures
        profit(size, entry_price, price) + profit(-size, entry_price, price) == 0,
{
    profit_follows_the_price(size, entry_price, price);
    profit_follows_the_price(-size, entry_price, price);
    let moved = price - entry_price;
    assert((-size) * moved == -(size * moved)) by (nonlinear_arith);
}

/// The profit up to a price and the profit from there on add up.
pub proof fn profit_adds_up_along_the_way(position: int, first: int, second: int, third: int)
    ensures
        profit(position, first, second) + profit(position, second, third) == profit(
            position,
            first,
            third,
        ),
{
    profit_follows_the_price(position, first, second);
    profit_follows_the_price(position, second, third);
    profit_follows_the_price(position, first, third);
    assert(position * (second - first) + position * (third - second) == position * (third - first))
        by (nonlinear_arith);
}

/// A position is worth what its price has moved: valuing an account changes nothing but its worth,
/// its peak and its largest fall. The peak is the larger one of the peak before and the worth.
pub proof fn valuing_follows_the_price(s: Ledger, price: int)
    ensures
        ({
            let t = s.valued(price);
            &&& t.worth == s.equity + 2000 * (s.position * (price - s.entry_price))
            &&& t == (Ledger { worth: t.worth, peak: t.peak, drawdown: t.drawdown, ..s })
            &&& t.peak == s.peak || t.peak == t.worth
            &&& t.peak >= s.peak
            &&& t.peak >= t.worth
            &&& s.marked(price) == (Ledger { worth: t.worth, ..s })
            &&& t.valued(price) == t
        }),
{
    profit_follows_the_price(s.position, s.entry_price, price);
}

/// A trade that opens a position out of nothing: it holds the size, long for a buy and short for a
/// sell, at the price, and costs a commission and nothing else.
pub proof fn opening_costs_a_commission(s: Ledger, size: int, price: int)
    requires
        s.position == 0,
    ensures
        ({
            let long = s.routed(Signal::Buy, size, price);
            let short = s.routed(Signal::Sell, size, price);
            &&& long.position == size
            &&& short.position == -size
            &&& long.entry_price == price
            &&& long.equity == s.equity - size * price
            &&& long.commissions == s.commissions + size * price
            &&& long.num_trades == s.num_trades + 1
            &&& long.realized_pnl == s.realized_pnl
            &&& long.num_wins == s.num_wins
            &&& long.num_losses == s.num_losses
            &&& long.worth == s.worth
            &&& long.peak == s.peak
            &&& long.drawdown == s.drawdown
            &&& short == (Ledger { position: -size, ..long })
        }),
{
}

/// A trade that turns a position: the old one is counted with its profit, as a win or a loss, and
/// the equity is charged the commission on the new one.
pub proof fn turning_counts_the_old_position(s: Ledger, size: int, price: int)
    requires
        s.position != 0,
    ensures
        ({
            let signal = if s.position > 0 {
                Signal::Sell
            } else {
                Signal::Buy
            };
            let t = s.routed(signal, size, price);
            let rose = price > s.entry_price;
            let fell = price < s.entry_price;
            let long = s.position > 0;
            &&& t.position == if long {
                -size
            } else {
                size
            }
            &&& t.entry_price == price
            &&& t.realized_pnl == s.realized_pnl + 2000 * (s.position * (price - s.entry_price))
            &&& t.num_wins == s.num_wins + if long && rose || !long && fell {
                1int
            } else {
                0
            }
            &&& t.num_losses == s.num_losses + if long && fell || !long && rose {
                1int
            } else {
                0
            }
            &&& t.equity == s.equity - size * price
            &&& t.commissions == s.commissions + size * price
            &&& t.num_trades == s.num_trades + 1
        }),
{
    profit_follows_the_price(s.position, s.entry_price, price);
}

/// A trade that closes a position: its profit is realized and goes to the equity, less the
/// commission on the size that was held; it is a win where the price moved the right way, a loss
/// where it moved the wrong way, and nothing is held any more.
pub proof fn closing_realizes_what_the_price_moved(s: Ledger, size: int, price: int)
    requires
        s.position != 0,
    ensures
        ({
            let t = s.routed(Signal::Close, size, price);
            let moved = 2000 * (s.position * (price - s.entry_price));
            let held = if s.position > 0 {
                s.position
            } else {
                -s.position
            };
            let rose = price > s.entry_price;
            let fell = price < s.entry_price;
            let long = s.position > 0;
            &&& t.position == 0
            &&& t.entry_price == 0
            &&& t.realized_pnl == s.realized_pnl + moved
            &&& t.equity == s.equity + moved - held * price
            &&& t.commissions == s.commissions + held * price
            &&& t.num_trades == s.num_trades + 1
            &&& t.num_wins == s.num_wins + if long && rose || !long && fell {
                1int
            } else {
                0
            }
            &&& t.num_losses == s.num_losses + if long && fell || !long && rose {
                1int
            } else {
                0
            }
        }),
{
    profit_follows_the_price(s.position, s.entry_price, price);
}

/// An account that bought and closed, or sold and closed, has what the price moved less both
/// commissions; with the commissions given back, one that bought and one that sold have between
/// them what they began with.
pub proof fn round_trip_settles(s: Ledger, size: int, first: int, second: int)
    requires
        s.position == 0,
        size > 0,
    ensures
        ({
            let long = s.routed(Signal::Buy, size, first).routed(Signal::Close, size, second);
            let short = s.routed(Signal::Sell, size, first).routed(Signal::Close, size, second);
            let costs = size * first + size * second;
            &&& long.equity == s.equity + 2000 * (size * (second - first)) - costs
            &&& short.equity == s.equity - 2000 * (size * (second - first)) - costs
            &&& long.equity + short.equity + 2 * costs == 2 * s.equity
            &&& long.position == 0 && short.position == 0
            &&& long.num_trades == s.num_trades + 2
            &&& long.num_wins - s.num_wins == short.num_losses - s.num_losses
            &&& long.num_losses - s.num_losses == short.num_wins - s.num_wins
        }),
{
    let bought = s.routed(Signal::Buy, size, first);
    let sold = s.routed(Signal::Sell, size, first);
    opening_costs_a_commission(s, size, first);
    closing_realizes_what_the_price_moved(bought, size, second);
    closing_realizes_what_the_price_moved(sold, size, second);
    let moved = second - first;
    assert((-size) * moved == -(size * moved)) by (nonlinear_arith);
}

/// Closing gives the profit less the commission, and leaves nothing held.
pub proof fn closing_settles_the_position(s: Ledger, size: int, price: int)
    requires
        s.position != 0,
    ensures
        ({
            let t = s.routed(Signal::Close, size, price);
            let pnl = profit(s.position, s.entry_price, price);
            &&& t.position == 0
            &&& t.equity == s.equity + pnl - commission(magnitude(s.position), price)
            &&& t.realized_pnl == s.realized_pnl + pnl
            &&& t.num_trades == s.num_trades + 1
        }),
{
}

/// A signal of the side that is held does nothing.
pub proof fn same_side_does_nothing(s: Ledger, size: int, price: int)
    ensures
        s.position > 0 ==> s.routed(Signal::Buy, size, price) == s,
        s.position < 0 ==> s.routed(Signal::Sell, size, price) == s,
        s.position == 0 ==> s.routed(Signal::Close, size, price) == s,
{
}

/// A signal either does nothing or is one trade; wins and losses grow by at most one, and not
/// both.
pub proof fn signal_is_at_most_one_trade(s: Ledger, signal: Signal, size: int, price: int)
    ensures
        ({
            let t = s.routed(signal, size, price);
            &&& t == s || t.num_trades == s.num_trades + 1
            &&& s.num_wins <= t.num_wins
            &&& s.num_losses <= t.num_losses
            &&& t.num_wins + t.num_losses <= s.num_wins + s.num_losses + 1
        }),
{
}

impl InstrumentState {
    /// An account with nothing held.
    pub fn new(equity: i128) -> (r: Self)
        ensures
            r@ == (Ledger {
                position: 0,
                entry_price: 0,
                realized_pnl: 0,
                equity: equity as int,
                commissions: 0,
                num_trades: 0,
                num_wins: 0,
                num_losses: 0,
                worth: equity as int,
                peak: equity as int,
                drawdown: 0,
            }),
    {
        InstrumentState {
            position: 0,
            entry_price: 0,
            realized_pnl: 0,
            equity,
            commissions: 0,
            num_trades: 0,
            num_wins: 0,
            num_losses: 0,
            worth: equity,
            peak: equity,
            drawdown: 0,
        }
    }

    /// The side that is held.
    pub fn holding(&self) -> (r: Holding)
        ensures
            r == side_held(self.position as int),
    {
        if self.position > 0 {
            Holding::Long
        } else if self.position < 0 {
            Holding::Short
        } else {
            Holding::Flat
        }
    }

    /// The profit of the position at a price, where it fits.
    fn profit_at(&self, price: i64) -> (r: Option<i128>)
        ensures
            r == (if wide(profit(self.position as int, self.entry_price as int, price as int)) {
                Some(profit(self.position as int, self.entry_price as int, price as int) as i128)
            } else {
                None
            }),
    {
        let held: i128 = if self.position < 0 {
            -(self.position as i128)
        } else {
            self.position as i128
        };
        let gain: i128 = if self.position > 0 {
            price as i128 - self.entry_price as i128
        } else {
            self.entry_price as i128 - price as i128
        };
        proof {
            lemma_product_fits(gain as int, held as int);
        }
        let product: i128 = gain * held;
        product.checked_mul(2000)
    }

    /// The account with its worth at a price; nothing where a number does not fit.
    pub fn mark(&self, price: i64) -> (r: Option<InstrumentState>)
        ensures
            match r {
                Some(t) => mark_fits(self@, price as int) && t@ == self@.marked(price as int),
                None => !mark_fits(self@, price as int),
            },
    {
        match self.profit_at(price) {
            Some(gain) => match self.equity.checked_add(gain) {
                Some(worth) => {
                    let mut t: InstrumentState = *self;
                    t.worth = worth;
                    Some(t)
                },
                None => None,
            },
            None => None,
        }
    }

    /// The account with its worth at a price, its peak and its largest fall; nothing where a number
    /// does not fit.
    pub fn value(&self, price: i64) -> (r: Option<InstrumentState>)
        ensures
            match r {
                Some(t) => value_fits(self@, price as int) && t@ == self@.valued(price as int),
                None => !value_fits(self@, price as int),
            },
    {
        let mut t: InstrumentState = match self.mark(price) {
            Some(t) => t,
            None => {
                return None;
            },
        };
        if t.worth > t.peak {
            t.peak = t.worth;
        }
        match t.peak.checked_sub(t.worth) {
            Some(fall) => {
                if fall > t.drawdown {
                    t.drawdown = fall;
                }
                Some(t)
            },
            None => None,
        }
    }

    /// The account with a trade of a profit counted.
    fn count(&self, pnl: i128) -> (r: Option<InstrumentState>)
        ensures
            match r {
                Some(t) => t@ == self@.counted(pnl as int),
                None => !self@.counted(pnl as int).fits(),
            },
    {
        let mut t: InstrumentState = *self;
        match self.realized_pnl.checked_add(pnl) {
            Some(v) => {
                t.realized_pnl = v;
            },
            None => {
                return None;
            },
        }
        if pnl > 0 {
            if t.num_wins == u32::MAX {
                return None;
            }
            t.num_wins = t.num_wins + 1;
        } else if pnl < 0 {
            if t.num_losses == u32::MAX {
                return None;
            }
            t.num_losses = t.num_losses + 1;
        }
        Some(t)
    }

    /// The account with a trade that changes the equity and costs a commission.
    fn settle(&self, change: i128, comm: i128) -> (r: Option<InstrumentState>)
        ensures
            match r {
                Some(t) => t@ == (Ledger {
                    equity: self@.equity + change,
                    commissions: self@.commissions + comm,
                    num_trades: self@.num_trades + 1,
                    ..self@
                }),
                None => !wide(self@.equity + change) || !wide(self@.commissions + comm)
                    || self@.num_trades + 1 > u32::MAX,
            },
    {
        let mut t: InstrumentState = *self;
        match (self.equity.checked_add(change), self.commissions.checked_add(comm)) {
            (Some(e), Some(c)) => {
                t.equity = e;
                t.commissions = c;
            },
            _ => {
                return None;
            },
        }
        if t.num_trades == u32::MAX {
            return None;
        }
        t.num_trades = t.num_trades + 1;
        Some(t)
    }

    /// The account with a position entered at a price.
    fn enter(&self, position: i64, size: i64, price: i64) -> (r: Option<InstrumentState>)
        ensures
            match r {
                Some(t) => t@ == self@.entered(position as int, size as int, price as int)
                    && (self.position != 0 ==> wide(
                    profit(self.position as int, self.entry_price as int, price as int),
                )),
                None => !self@.entered(position as int, size as int, price as int).fits() || (
                self.position != 0 && !wide(
                    profit(self.position as int, self.entry_price as int, price as int),
                )),
            },
    {
        let mut t: InstrumentState = *self;
        if self.position != 0 {
            match self.profit_at(price) {
                Some(pnl) => match self.count(pnl) {
                    Some(c) => {
                        t = c;
                    },
                    None => {
                        return None;
                    },
                },
                None => {
                    return None;
                },
            }
        }
        t.position = position;
        t.entry_price = price;
        proof {
            lemma_product_fits(size as int, price as int);
        }
        let comm: i128 = size as i128 * price as i128;
        t.settle(-comm, comm)
    }

    /// The account with the position closed at a price.
    fn close(&self, price: i64) -> (r: Option<InstrumentState>)
        ensures
            ({
                let pnl = profit(self.position as int, self.entry_price as int, price as int);
                let comm = commission(magnitude(self.position as int), price as int);
                match r {
                    Some(t) => t@ == self@.closed(price as int) && wide(pnl) && wide(pnl - comm),
                    None => !self@.closed(price as int).fits() || !wide(pnl) || !wide(pnl - comm),
                }
            }),
    {
        let pnl: i128 = match self.profit_at(price) {
            Some(p) => p,
            None => {
                return None;
            },
        };
        let mut t: InstrumentState = match self.count(pnl) {
            Some(c) => c,
            None => {
                return None;
            },
        };
        let held: i128 = if self.position < 0 {
            -(self.position as i128)
        } else {
            self.position as i128
        };
        proof {
            lemma_product_fits(held as int, price as int);
        }
        let comm: i128 = held * price as i128;
        t.position = 0;
        t.entry_price = 0;
        match pnl.checked_sub(comm) {
            Some(change) => t.settle(change, comm),
            None => None,
        }
    }

    /// The account behind a signal; nothing where a number does not fit.
    pub fn route(&self, signal: Signal, size: i64, price: i64) -> (r: Option<InstrumentState>)
        ensures
            match r {
                Some(t) => route_fits(self@, signal, size as int, price as int) && t@
                    == self@.routed(signal, size as int, price as int),
                None => !route_fits(self@, signal, size as int, price as int),
            },
    {
        match signal {
            Signal::Buy => {
                if self.position > 0 {
                    Some(*self)
                } else {
                    self.enter(size, size, price)
                }
            },
            Signal::Sell => {
                if self.position < 0 {
                    Some(*self)
                } else if size == i64::MIN {
                    None
                } else {
                    self.enter(-size, size, price)
                }
            },
            Signal::Close => {
                if self.position == 0 {
                    Some(*self)
                } else {
                    self.close(price)
                }
            },
        }
    }
}

proof fn lemma_product_fits(a: int, b: int)
    requires
        -0x1_0000_0000_0000_0000 < a < 0x1_0000_0000_0000_0000,
        -0x8000_0000_0000_0000 <= b <= 0x8000_0000_0000_0000,
    ensures
        -0x8000_0000_0000_0000_0000_0000_0000_0000int < a * b
            < 0x8000_0000_0000_0000_0000_0000_0000_0000int,
{
    assert(-0x8000_0000_0000_0000_0000_0000_0000_0000int < a * b
        < 0x8000_0000_0000_0000_0000_0000_0000_0000int) by (nonlinear_arith)
        requires
            -0x1_0000_0000_0000_0000 < a < 0x1_0000_0000_0000_0000,
            -0x8000_0000_0000_0000 <= b <= 0x8000_0000_0000_0000,
    ;
}

} // verus!
