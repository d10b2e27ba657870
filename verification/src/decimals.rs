//! Whole numbers with decimal places put behind them and taken off.

use vstd::prelude::*;

verus! {

/// A number with zeros behind it.
pub open spec fn scaled(n: int, zeros: int) -> int
    decreases zeros,
{
    if zeros <= 0 {
        n
    } else {
        scaled(n, zeros - 1) * 10
    }
}

proof fn lemma_scaled_grows(n: int, a: int, b: int)
    requires
        0 <= a <= b,
    ensures
        n >= 0 ==> 0 <= scaled(n, a) <= scaled(n, b),
        n < 0 ==> scaled(n, b) <= scaled(n, a) < 0,
        n == 0 ==> scaled(n, b) == 0,
        n > 0 ==> scaled(n, b) > 0,
    decreases b,
{
    if a < b {
        lemma_scaled_grows(n, a, b - 1);
    } else if a > 0 {
        lemma_scaled_grows(n, a - 1, b - 1);
    }
}

/// A number is in the range of `i64`.
pub open spec fn fits(n: int) -> bool {
    i64::MIN <= n <= i64::MAX
}

/// A number with zeros behind it, where it fits.
pub fn scale(n: i64, zeros: u8) -> (r: Option<i64>)
    ensures
        match r {
            Some(v) => v == scaled(n as int, zeros as int),
            None => !fits(scaled(n as int, zeros as int)),
        },
{
    let mut v: i64 = n;
    let mut k: u8 = 0;
    while k < zeros
        invariant
            k <= zeros,
            v == scaled(n as int, k as int),
        decreases zeros - k,
    {
        proof {
            lemma_scaled_grows(n as int, k + 1, zeros as int);
        }
        match v.checked_mul(10) {
            Some(w) => {
                v = w;
            },
            None => {
                return None;
            },
        }
        k = k + 1;
    }
    Some(v)
}

/// The quotient of a number by a positive one, without what is behind the point.
pub open spec fn quotient(n: int, d: int) -> int {
    if n >= 0 {
        n / d
    } else {
        -((-n) / d)
    }
}

/// A number without its last digits.
pub open spec fn shortened(n: int, digits: int) -> int {
    quotient(n, scaled(1, digits))
}

proof fn lemma_tens(k: int)
    requires
        0 <= k <= 18,
    ensures
        1 <= scaled(1, k) <= 1_000_000_000_000_000_000,
{
    lemma_scaled_grows(1, 0, k);
    lemma_scaled_grows(1, k, 18);
    assert(scaled(1, 18) == 1_000_000_000_000_000_000) by {
        reveal_with_fuel(scaled, 19);
    }
}

/// A number without its last digits, at most eighteen of them.
pub fn shorten(n: i64, digits: u8) -> (r: i64)
    requires
        digits <= 18,
    ensures
        r == shortened(n as int, digits as int),
{
    let mut d: i128 = 1;
    let mut k: u8 = 0;
    while k < digits
        invariant
            k <= digits <= 18,
            d == scaled(1, k as int),
        decreases digits - k,
    {
        proof {
            lemma_tens(k as int);
        }
        d = d * 10;
        k = k + 1;
    }
    proof {
        lemma_tens(digits as int);
    }
    let m: i128 = if n >= 0 {
        n as i128
    } else {
        -(n as i128)
    };
    let q: i128 = m / d;
    assert(0 <= q <= m) by (nonlinear_arith)
        requires
            q == m / d,
            m >= 0,
            d >= 1,
    ;
    if n >= 0 {
        q as i64
    } else {
        (-q) as i64
    }
}

/// Taking digits off undoes putting zeros behind a number.
pub proof fn shortening_undoes_scaling(n: int, k: int)
    requires
        0 <= k,
    ensures
        shortened(scaled(n, k), k) == n,
{
    lemma_scaled_product(n, k);
    lemma_scaled_grows(1, 0, k);
    lemma_scaled_grows(n, 0, k);
    let d = scaled(1, k);
    if n >= 0 {
        vstd::arithmetic::div_mod::lemma_div_multiples_vanish(n, d);
        assert(n * d == d * n) by (nonlinear_arith);
    } else {
        vstd::arithmetic::div_mod::lemma_div_multiples_vanish(-n, d);
        assert(-(n * d) == d * (-n)) by (nonlinear_arith);
    }
}

proof fn lemma_scaled_product(n: int, k: int)
    requires
        0 <= k,
    ensures
        scaled(n, k) == n * scaled(1, k),
    decreases k,
{
    if k > 0 {
        lemma_scaled_product(n, k - 1);
        let d = scaled(1, k - 1);
        assert(n * d * 10 == n * (d * 10)) by (nonlinear_arith);
    }
}

/// A zero behind a number makes it ten times as large; zeros can be put behind it in two steps.
pub proof fn zeros_are_tens(n: int, a: int, b: int)
    requires
        0 <= a,
        0 <= b,
    ensures
        scaled(n, 0) == n,
        scaled(n, a + 1) == 10 * scaled(n, a),
        scaled(scaled(n, a), b) == scaled(n, a + b),
        scaled(1, 3) == 1000,
    decreases b,
{
    reveal_with_fuel(scaled, 4);
    if b > 0 {
        zeros_are_tens(n, a, b - 1);
    }
}

/// A number without its last digits, with zeros in their place, lies between 0 and the number, and
/// nearer to it than one of the digits that are left.
pub proof fn shortening_goes_towards_zero(n: int, k: int)
    requires
        0 <= k,
    ensures
        n >= 0 ==> 0 <= scaled(shortened(n, k), k) <= n < scaled(shortened(n, k) + 1, k),
        n < 0 ==> scaled(shortened(n, k) - 1, k) < n <= scaled(shortened(n, k), k) <= 0,
        shortened(-n, k) == -shortened(n, k),
{
    let d = scaled(1, k);
    lemma_scaled_grows(1, 0, k);
    let q = shortened(n, k);
    lemma_scaled_product(q, k);
    lemma_scaled_product(q + 1, k);
    lemma_scaled_product(q - 1, k);
    let m = if n >= 0 {
        n
    } else {
        -n
    };
    assert((m / d) * d <= m < (m / d + 1) * d && m / d >= 0 && (m / d) * d >= 0)
        by (nonlinear_arith)
        requires
            m >= 0,
            d >= 1,
    ;
    if n < 0 {
        assert((-(m / d)) * d == -((m / d) * d)) by (nonlinear_arith);
        assert((-(m / d) - 1) * d == -((m / d + 1) * d)) by (nonlinear_arith);
    }
    if n == 0 {
        assert(0int / d == 0) by (nonlinear_arith)
            requires
                d >= 1,
        ;
    }
}

} // verus!
