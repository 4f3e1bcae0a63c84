//! Integer money arithmetic: rounding to the nearest unit with ties away
//! from zero, percentages in basis points, and the magnitude of a liability.

use vstd::prelude::*;

verus! {

/// Mathematical absolute value.
pub open spec fn abs(x: int) -> int {
    if x < 0 {
        -x
    } else {
        x
    }
}

/// `n / d` rounded to the nearest integer, ties away from zero (`d > 0`).
pub open spec fn div_round(n: int, d: int) -> int {
    if n >= 0 {
        (2 * n + d) / (2 * d)
    } else {
        -((2 * (-n) + d) / (2 * d))
    }
}

/// The amount owed on a liability whose signed ledger balance is `balance`:
/// the magnitude of a negative balance, and zero for an overpaid one.
pub open spec fn liability_magnitude_spec(balance: int) -> int {
    if balance < 0 {
        -balance
    } else {
        0
    }
}

/// `div_round` separates into quotient and remainder of the magnitude.
pub proof fn lemma_div_round_unsigned(a: int, d: int)
    requires
        a >= 0,
        d > 0,
    ensures
        div_round(a, d) == a / d + (if 2 * (a % d) >= d { 1int } else { 0int }),
{
    let q = a / d;
    let r = a % d;
    assert(a == d * q + r) by {
        vstd::arithmetic::div_mod::lemma_fundamental_div_mod(a, d);
    }
    assert(0 <= r < d) by {
        vstd::arithmetic::div_mod::lemma_mod_bound(a, d);
    }
    let k: int = if 2 * r >= d { 1 } else { 0 };
    let rem = 2 * r + d - 2 * d * k;
    assert(2 * a + d == (q + k) * (2 * d) + rem) by (nonlinear_arith)
        requires
            a == d * q + r,
            rem == 2 * r + d - 2 * d * k,
    ;
    assert(0 <= rem < 2 * d);
    vstd::arithmetic::div_mod::lemma_fundamental_div_mod_converse(2 * a + d, 2 * d, q + k, rem);
}

/// Divides `n` by `d`, rounding to the nearest integer with ties away from
/// zero.
pub fn round_div(n: i128, d: i128) -> (r: i128)
    requires
        d > 0,
        n > i128::MIN,
    ensures
        r == div_round(n as int, d as int),
        abs(r as int) <= abs(n as int),
{
    let negative = n < 0;
    let a: u128 = if negative { (-n) as u128 } else { n as u128 };
    let du: u128 = d as u128;
    let q: u128 = a / du;
    let rem: u128 = a % du;
    proof {
        lemma_div_round_unsigned(a as int, d as int);
        vstd::arithmetic::div_mod::lemma_fundamental_div_mod(a as int, d as int);
        vstd::arithmetic::div_mod::lemma_mod_bound(a as int, d as int);
        assert(q * d <= a) by (nonlinear_arith)
            requires
                a == d * q + rem,
                rem >= 0,
                d > 0,
                q >= 0,
        ;
        assert(q <= q * d) by (nonlinear_arith)
            requires
                d >= 1,
                q >= 0,
        ;
        if rem > 0 && d == 1 {
            assert(false);
        }
        if rem >= du - rem {
            assert(q + 1 <= a) by (nonlinear_arith)
                requires
                    a == d * q + rem,
                    rem > 0,
                    d >= 2,
                    q >= 0,
                    rem < d,
            ;
        }
    }
    let m: u128 = if rem >= du - rem { q + 1 } else { q };
    if negative {
        -(m as i128)
    } else {
        m as i128
    }
}

/// The amount owed on a liability account with signed balance `balance`.
pub fn liability_magnitude(balance: i128) -> (r: i128)
    requires
        balance > i128::MIN,
    ensures
        r == liability_magnitude_spec(balance as int),
{
    if balance < 0 {
        -balance
    } else {
        0
    }
}

} // verus!
