//! Fixed-point arithmetic helpers.
//!
//! Every rate, cost, speed, productivity multiplier and per-craft quantity in
//! this crate is a non-negative fixed-point number carried as a `u64` that
//! holds [`SCALE`] times its value.  Products and quotients are computed in
//! `u128` and clamped into the `u64` range, so the helpers never overflow and
//! never panic; the clamping is part of their stated contracts.

use vstd::arithmetic::div_mod::{lemma_div_multiples_vanish_fancy, lemma_fundamental_div_mod};
use vstd::arithmetic::mul::{
    lemma_mul_basics, lemma_mul_is_associative, lemma_mul_is_distributive_add,
    lemma_mul_nonnegative, lemma_mul_strictly_positive, lemma_mul_upper_bound,
};
use vstd::prelude::*;

verus! {

/// Fixed-point scale: a `u64` quantity holds `SCALE` times its value.
pub const SCALE: u64 = 1_000_000;

/// Clamps a mathematical integer into the `u64` range.
pub open spec fn sat64(x: int) -> u64 {
    if x < 0 {
        0
    } else if x > u64::MAX {
        u64::MAX
    } else {
        x as u64
    }
}

/// Division of non-negative integers rounding up.
pub open spec fn div_ceil(x: int, d: int) -> int
    recommends
        x >= 0,
        d > 0,
{
    (x + d - 1) / d
}

/// Rounding up equals flooring plus one exactly on non-multiples.
proof fn lemma_div_ceil_split(x: int, d: int)
    requires
        x >= 0,
        d > 0,
    ensures
        div_ceil(x, d) == if x % d == 0 {
            x / d
        } else {
            x / d + 1
        },
{
    lemma_fundamental_div_mod(x, d);
    if x % d == 0 {
        assert(x + d - 1 == d * (x / d) + (d - 1));
        lemma_div_multiples_vanish_fancy(x / d, d - 1, d);
    } else {
        assert(d * (x / d + 1) == d * (x / d) + d) by {
            lemma_mul_is_distributive_add(d, x / d, 1);
            lemma_mul_basics(d);
        }
        assert(x + d - 1 == d * (x / d + 1) + (x % d - 1));
        lemma_div_multiples_vanish_fancy(x / d + 1, x % d - 1, d);
    }
}

/// The product of two `u64` values fits in `u128`.
proof fn lemma_mul_fits_u128(a: u64, b: u64)
    ensures
        0 <= a * b <= u64::MAX * u64::MAX < u128::MAX,
{
    lemma_mul_upper_bound(a as int, u64::MAX as int, b as int, u64::MAX as int);
    lemma_mul_nonnegative(a as int, b as int);
}

/// `a * b / c`, clamped into the `u64` range.
pub fn mul_div_floor(a: u64, b: u64, c: u64) -> (r: u64)
    requires
        c > 0,
    ensures
        r == sat64(a * b / (c as int)),
{
    proof {
        lemma_mul_fits_u128(a, b);
    }
    let p: u128 = (a as u128) * (b as u128);
    let q: u128 = p / (c as u128);
    if q > u64::MAX as u128 {
        u64::MAX
    } else {
        q as u64
    }
}

/// `a * b / c` rounded up, clamped into the `u64` range.
pub fn mul_div_ceil(a: u64, b: u64, c: u64) -> (r: u64)
    requires
        c > 0,
    ensures
        r == sat64(div_ceil(a * b, c as int)),
{
    proof {
        lemma_mul_fits_u128(a, b);
        lemma_div_ceil_split(a * b, c as int);
    }
    let p: u128 = (a as u128) * (b as u128);
    let q: u128 = p / (c as u128);
    let rem: u128 = p % (c as u128);
    let q2: u128 = if rem > 0 {
        q + 1
    } else {
        q
    };
    if q2 > u64::MAX as u128 {
        u64::MAX
    } else {
        q2 as u64
    }
}

/// `a * SCALE * SCALE / (b * c)`, clamped into the `u64` range.
///
/// This is the fixed-point form of the real quotient `a / (b * c)`.
pub fn scaled_div2(a: u64, b: u64, c: u64) -> (r: u64)
    requires
        b > 0,
        c > 0,
    ensures
        r == sat64(a * SCALE * SCALE / (b * c)),
{
    proof {
        lemma_mul_fits_u128(b, c);
        lemma_mul_strictly_positive(b as int, c as int);
        lemma_mul_upper_bound(
            a as int,
            u64::MAX as int,
            (SCALE as int) * (SCALE as int),
            (SCALE as int) * (SCALE as int),
        );
        lemma_mul_nonnegative(a as int, (SCALE as int) * (SCALE as int));
        lemma_mul_is_associative(a as int, SCALE as int, SCALE as int);
    }
    let p: u128 = (a as u128) * ((SCALE as u128) * (SCALE as u128));
    let d: u128 = (b as u128) * (c as u128);
    let q: u128 = p / d;
    if q > u64::MAX as u128 {
        u64::MAX
    } else {
        q as u64
    }
}

/// `a * b / (SCALE * c)` rounded up, clamped into the `u64` range.
///
/// This is the fixed-point machine-count formula: `a` and `b` are scaled
/// values whose real product must be divided by the real value of `c`.
pub fn scaled_div_ceil(a: u64, b: u64, c: u64) -> (r: u64)
    requires
        c > 0,
    ensures
        r == sat64(div_ceil(a * b, SCALE * c)),
{
    proof {
        lemma_mul_fits_u128(a, b);
        lemma_mul_strictly_positive(SCALE as int, c as int);
        lemma_mul_upper_bound(SCALE as int, u64::MAX as int, c as int, u64::MAX as int);
        lemma_div_ceil_split(a * b, SCALE * c);
    }
    let p: u128 = (a as u128) * (b as u128);
    let d: u128 = (SCALE as u128) * (c as u128);
    let q: u128 = p / d;
    let rem: u128 = p % d;
    let q2: u128 = if rem > 0 {
        q + 1
    } else {
        q
    };
    if q2 > u64::MAX as u128 {
        u64::MAX
    } else {
        q2 as u64
    }
}

/// `a / b` rounded up; both arguments share the same fixed-point scale.
pub fn div_ceil_u64(a: u64, b: u64) -> (r: u64)
    requires
        b > 0,
    ensures
        r == div_ceil(a as int, b as int),
{
    proof {
        lemma_div_ceil_split(a as int, b as int);
        lemma_fundamental_div_mod(a as int, b as int);
        if a % b > 0 {
            vstd::arithmetic::div_mod::lemma_div_is_strictly_smaller(a as int, b as int);
        }
    }
    let q: u64 = a / b;
    let rem: u64 = a % b;
    if rem > 0 {
        q + 1
    } else {
        q
    }
}

/// Clamping distributes over addition of non-negative values: adding to an
/// already-clamped sum gives the clamp of the whole sum.
pub proof fn lemma_sat_collapse(x: int, y: int)
    requires
        x >= 0,
        y >= 0,
    ensures
        sat64(sat64(x) + y) == sat64(x + y),
{
}

/// Saturating addition on `u64`.
pub fn sat_add(a: u64, b: u64) -> (r: u64)
    ensures
        r == sat64(a + b),
{
    a.saturating_add(b)
}

} // verus!
