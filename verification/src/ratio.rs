//! Rounded scaling of frame positions by a ratio of two frame counts.
//!
//! The engine advances through its input at a rate that differs from the rate
//! at which it emits output. Positions on one timeline are mapped to the other
//! by multiplying with a ratio and rounding to the nearest whole frame.

use vstd::prelude::*;
use vstd::arithmetic::div_mod::lemma_fundamental_div_mod_converse;

verus! {

/// The whole number nearest to `pos * num / den`; an exact half rounds upward.
pub open spec fn scaled(pos: int, num: int, den: int) -> int {
    (2 * pos * num + den) / (2 * den)
}

/// `scaled` capped at the largest `usize`.
pub open spec fn scaled_capped(pos: int, num: int, den: int) -> int {
    if scaled(pos, num, den) > usize::MAX {
        usize::MAX as int
    } else {
        scaled(pos, num, den)
    }
}

/// The rounded value lies within half a unit of the exact quotient:
/// `-1/2 < scaled - pos * num / den <= 1/2`, stated without division.
pub proof fn lemma_scaled_is_nearest(pos: int, num: int, den: int)
    requires
        0 < den,
    ensures
        -den < 2 * (scaled(pos, num, den) * den - pos * num) <= den,
{
    let x = 2 * pos * num + den;
    let d = 2 * den;
    let q = x / d;
    let r = x % d;
    vstd::arithmetic::div_mod::lemma_fundamental_div_mod(x, d);
    vstd::arithmetic::div_mod::lemma_mod_bound(x, d);
    assert(x == d * q + r);
    assert(d * q == 2 * (q * den)) by (nonlinear_arith)
        requires
            d == 2 * den,
    ;
    assert(2 * pos * num == 2 * (pos * num)) by (nonlinear_arith);
}

/// Only one whole number lies within half a unit (upper end included) of the
/// exact quotient, and `scaled` is that number.
pub proof fn lemma_scaled_unique(pos: int, num: int, den: int, e: int)
    requires
        0 < den,
        -den < 2 * (e * den - pos * num) <= den,
    ensures
        e == scaled(pos, num, den),
{
    let x = 2 * pos * num + den;
    let d = 2 * den;
    let r = x - e * d;
    assert(e * d == 2 * (e * den)) by (nonlinear_arith)
        requires
            d == 2 * den,
    ;
    assert(2 * pos * num == 2 * (pos * num)) by (nonlinear_arith);
    assert(0 <= r < d);
    lemma_fundamental_div_mod_converse(x, d, e, r);
}

/// Scaling by a ratio of one leaves a position where it is.
pub proof fn lemma_scaled_unity(pos: int, den: int)
    requires
        0 < den,
    ensures
        scaled(pos, den, den) == pos,
{
    assert(2 * (pos * den - pos * den) == 0);
    lemma_scaled_unique(pos, den, den, pos);
}

/// A later position never maps before an earlier one.
pub proof fn lemma_scaled_monotonic(a: int, b: int, num: int, den: int)
    requires
        a <= b,
        0 <= num,
        0 < den,
    ensures
        scaled(a, num, den) <= scaled(b, num, den),
{
    assert(2 * a * num + den <= 2 * b * num + den) by (nonlinear_arith)
        requires
            a <= b,
            0 <= num,
    ;
    vstd::arithmetic::div_mod::lemma_div_is_ordered(
        2 * a * num + den,
        2 * b * num + den,
        2 * den,
    );
}

/// A position inside `0 ..= den` maps inside `0 ..= num`.
pub proof fn lemma_scaled_bounded(pos: int, num: int, den: int)
    requires
        0 <= pos <= den,
        0 <= num,
        0 < den,
    ensures
        0 <= scaled(pos, num, den) <= num,
{
    lemma_scaled_monotonic(0, pos, num, den);
    lemma_scaled_monotonic(pos, den, num, den);
    assert(2 * (0 * den - 0 * num) == 0) by (nonlinear_arith);
    lemma_scaled_unique(0, num, den, 0);
    assert(2 * (num * den - den * num) == 0) by (nonlinear_arith);
    lemma_scaled_unique(den, num, den, num);
}

/// Computes `pos * num / den` rounded to the nearest whole number, halves
/// upward, without overflow in the intermediate product. A result that does
/// not fit is capped at `usize::MAX`.
pub fn scale_round(pos: usize, num: usize, den: usize) -> (r: usize)
    requires
        den > 0,
    ensures
        r == scaled_capped(pos as int, num as int, den as int),
{
    assert(pos * num <= 0xffff_ffff_ffff_ffff * 0xffff_ffff_ffff_ffff) by (nonlinear_arith)
        requires
            pos <= 0xffff_ffff_ffff_ffff,
            num <= 0xffff_ffff_ffff_ffff,
    ;
    let wide_den: u128 = den as u128;
    let product: u128 = (pos as u128) * (num as u128);
    let quotient: u128 = product / wide_den;
    let rest: u128 = product % wide_den;
    let nearest: u128 = if rest >= wide_den - rest {
        quotient + 1
    } else {
        quotient
    };
    proof {
        let p = pos as int;
        let n = num as int;
        let d = den as int;
        vstd::arithmetic::div_mod::lemma_fundamental_div_mod(p * n, d);
        assert(p * n == d * (quotient as int) + rest);
        assert(nearest * d - p * n == (nearest - quotient) * d - rest) by (nonlinear_arith)
            requires
                p * n == d * (quotient as int) + rest,
        ;
        assert((nearest - quotient) * d == if nearest == quotient { 0 } else { d }) by (nonlinear_arith)
            requires
                nearest == quotient || nearest == quotient + 1,
        ;
        lemma_scaled_unique(p, n, d, nearest as int);
    }
    if nearest > usize::MAX as u128 {
        usize::MAX
    } else {
        nearest as usize
    }
}

} // verus!
