//! Decimal numbers of trade files.

use crate::decimals;
use crate::decimals::scale;
use crate::text;
use crate::text::chars_of;
use crate::text::parse_signed_text;
use crate::text::text_of;
use crate::text::trim_text;
use vstd::prelude::*;

verus! {

/// A number read from a text; 0 where there is none.
pub open spec fn number_or_zero(s: Seq<char>) -> int {
    match text::parse_signed(s) {
        Some(n) => n,
        None => 0,
    }
}

/// Reads a number; 0 where there is none.
pub fn read_number(s: &str) -> (r: i64)
    ensures
        r == number_or_zero(s@),
{
    match parse_signed_text(s) {
        Some(n) => n,
        None => 0,
    }
}

/// What stands before the first point of a text.
pub open spec fn whole_part(s: Seq<char>) -> Seq<char> {
    s.take(text::first_at(s, '.'))
}

/// What stands behind the first point of a text.
pub open spec fn fraction_part(s: Seq<char>) -> Seq<char> {
    let k = text::first_at(s, '.');
    if k < s.len() {
        s.skip(k + 1)
    } else {
        seq![]
    }
}

/// The first characters of a text, with zeros behind it where it is shorter.
pub open spec fn padded(s: Seq<char>, n: nat) -> Seq<char> {
    Seq::new(
        n,
        |i: int|
            if i < s.len() {
                s[i]
            } else {
                '0'
            },
    )
}

/// A decimal number as a whole number of units with `precision` digits behind the point; 0 where
/// it does not fit. Digits beyond the precision are left out.
pub open spec fn price_units(s: Seq<char>, precision: u8) -> int {
    let t = text::trim(s);
    let whole = decimals::scaled(number_or_zero(whole_part(t)), precision as int);
    let fraction = if precision == 0 {
        0
    } else {
        number_or_zero(padded(fraction_part(t), precision as nat))
    };
    if decimals::fits(whole) && decimals::fits(whole + fraction) {
        whole + fraction
    } else {
        0
    }
}

/// Reads a decimal number as a whole number of units with `precision` digits behind the point.
pub fn parse_price_to_int(s: &str, precision: u8) -> (r: i64)
    requires
        precision <= 18,
    ensures
        r == price_units(s@, precision),
{
    let t = trim_text(s);
    let v = chars_of(t.as_str());
    let n: usize = v.len();
    let mut dot: usize = 0;
    proof {
        text::first_at_is_first(v@, '.');
    }
    while dot < n && v[dot] != '.'
        invariant
            dot <= n,
            n == v@.len(),
            dot <= text::first_at(v@, '.') <= n,
            text::first_at(v@, '.') < n ==> v@[text::first_at(v@, '.')] == '.',
            forall|i: int| 0 <= i < text::first_at(v@, '.') ==> v@[i] != '.',
        decreases n - dot,
    {
        dot = dot + 1;
    }
    let head = text_of(&v, 0, dot);
    assert(head@ =~= whole_part(t@));
    let whole: i64 = read_number(head.as_str());
    let from: usize = if dot < n {
        dot + 1
    } else {
        n
    };
    let mut tail: Vec<char> = Vec::new();
    let mut k: u8 = 0;
    let ghost frac = fraction_part(t@);
    assert(frac =~= v@.skip(from as int));
    while k < precision
        invariant
            k <= precision,
            from <= n == v@.len(),
            frac == v@.skip(from as int),
            tail@ == padded(frac, k as nat),
        decreases precision - k,
    {
        let left: usize = n - from;
        let at: usize = k as usize;
        if at < left {
            tail.push(v[from + at]);
        } else {
            tail.push('0');
        }
        k = k + 1;
        assert(tail@ =~= padded(frac, k as nat));
    }
    let digits = text_of(&tail, 0, tail.len());
    assert(digits@ =~= padded(frac, precision as nat));
    let fraction: i64 = if precision == 0 {
        0
    } else {
        read_number(digits.as_str())
    };
    match scale(whole, precision) {
        Some(w) => match w.checked_add(fraction) {
            Some(sum) => sum,
            None => 0,
        },
        None => 0,
    }
}

/// Reads a quantity in the same way.
pub fn parse_qty_to_int(s: &str, precision: u8) -> (r: i64)
    requires
        precision <= 18,
    ensures
        r == price_units(s@, precision),
{
    parse_price_to_int(s, precision)
}

proof fn lemma_digits_are_not_white(s: Seq<char>)
    requires
        text::all_digits(s),
    ensures
        s.len() > 0 ==> !text::white(s[0]) && !text::white(s.last()),
{
    if s.len() > 0 {
        assert(text::is_digit(s[0]));
        assert(text::is_digit(s[s.len() - 1]));
    }
}

proof fn lemma_padded_value(s: Seq<char>, n: nat)
    requires
        text::all_digits(s),
        s.len() <= n,
    ensures
        text::all_digits(padded(s, n)),
        text::digits_value(padded(s, n)) == decimals::scaled(
            text::digits_value(s) as int,
            n - s.len(),
        ),
    decreases n - s.len(),
{
    if n == s.len() {
        assert(padded(s, n) =~= s);
    } else {
        let m = (n - 1) as nat;
        lemma_padded_value(s, m);
        assert(padded(s, n) =~= padded(s, m).push('0'));
        text::digits_stand_for_tens(padded(s, m), '0');
        decimals::zeros_are_tens(text::digits_value(s) as int, m - s.len(), 0);
    }
}

/// A decimal number is read as units of the precision: the digits before the point count as many times
/// as the precision has zeros, and those behind it as many as are left to them.
pub proof fn decimal_is_read_in_units(whole: Seq<char>, fraction: Seq<char>, precision: u8)
    requires
        whole.len() > 0,
        text::all_digits(whole),
        text::all_digits(fraction),
        0 < fraction.len() <= precision,
        text::digits_value(whole) <= i64::MAX,
        decimals::scaled(text::digits_value(whole) as int, precision as int) + decimals::scaled(
            text::digits_value(fraction) as int,
            precision - fraction.len(),
        ) <= i64::MAX,
        decimals::scaled(text::digits_value(whole) as int, precision as int) >= 0,
        decimals::scaled(text::digits_value(fraction) as int, precision - fraction.len()) >= 0,
    ensures
        price_units(whole + seq!['.'] + fraction, precision) == decimals::scaled(
            text::digits_value(whole) as int,
            precision as int,
        ) + decimals::scaled(text::digits_value(fraction) as int, precision - fraction.len()),
{
    let s = whole + seq!['.'] + fraction;
    lemma_digits_are_not_white(whole);
    lemma_digits_are_not_white(fraction);
    assert(s[0] == whole[0]);
    assert(s.last() == fraction.last());
    text::trimming_takes_both_ends_off(seq![], s, seq![]);
    assert(seq![] + s + seq![] =~= s);
    text::first_at_is_first(s, '.');
    assert(s[whole.len() as int] == '.');
    let k = text::first_at(s, '.');
    if k < whole.len() {
        assert(s[k] == whole[k]);
        assert(text::is_digit(whole[k]));
    }
    assert(k == whole.len());
    assert(whole_part(s) =~= whole);
    assert(fraction_part(s) =~= fraction);
    lemma_padded_value(fraction, precision as nat);
    let p = padded(fraction, precision as nat);
    lemma_digits_are_signed(whole);
    lemma_digits_are_signed(p);
}

proof fn lemma_digits_are_signed(s: Seq<char>)
    requires
        s.len() > 0,
        text::all_digits(s),
        text::digits_value(s) <= i64::MAX,
    ensures
        number_or_zero(s) == text::digits_value(s),
{
    assert(text::is_digit(s[0]));
    text::only_digits_are_read(s, i64::MAX as nat);
}

} // verus!
