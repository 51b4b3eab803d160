//! The arithmetic a pixel needs to take part in error diffusion.
//!
//! Channel values are fixed-point integers: [`UNITS_PER_LEVEL`] units make one
//! 8-bit intensity level, so that every step `255 / n` for `n` in `1..=7` is a
//! whole number of units. Sums and scaled values that leave the range of `i64`
//! saturate at its ends.
use vstd::prelude::*;

verus! {

/// Number of fixed-point units in one 8-bit intensity level.
pub const UNITS_PER_LEVEL: i64 = 420;

/// The fixed-point value of the brightest 8-bit level, `255 * UNITS_PER_LEVEL`.
pub const FULL_SCALE: i64 = 107100;

/// The value of `i64` nearest to `v`.
pub open spec fn saturate(v: int) -> i64 {
    if v > i64::MAX {
        i64::MAX
    } else if v < i64::MIN {
        i64::MIN
    } else {
        v as i64
    }
}

/// The quotient `a / d` rounded toward zero.
pub open spec fn trunc_div(a: int, d: int) -> int
    recommends
        d != 0,
{
    let q = (if a >= 0 { a } else { -a }) / (if d >= 0 { d } else { -d });
    if (a >= 0) == (d >= 0) {
        q
    } else {
        -q
    }
}

/// A pixel value that error diffusion can accumulate and redistribute.
pub trait Pixel: Sized {
    /// The pixel that adds nothing.
    spec fn zero_spec() -> Self;

    /// The sum of two pixels.
    spec fn add_spec(self, other: Self) -> Self;

    /// The pixel multiplied by `weight` and divided by `divisor`.
    spec fn scale_spec(self, weight: int, divisor: int) -> Self;

    fn zero() -> (r: Self)
        ensures
            r == Self::zero_spec(),
    ;

    fn plus(&self, other: &Self) -> (r: Self)
        ensures
            r == self.add_spec(*other),
    ;

    fn scaled(&self, weight: i64, divisor: i64) -> (r: Self)
        requires
            divisor != 0,
        ensures
            r == self.scale_spec(weight as int, divisor as int),
    ;

    /// Adding the zero pixel changes nothing.
    proof fn lemma_add_zero(p: Self)
        ensures
            p.add_spec(Self::zero_spec()) == p,
            Self::zero_spec().add_spec(p) == p,
    ;

    /// Addition does not depend on the order of its operands.
    proof fn lemma_add_commutes(p: Self, q: Self)
        ensures
            p.add_spec(q) == q.add_spec(p),
    ;
}

/// Clamps a wide intermediate result into `i64`.
pub fn saturate_i128(v: i128) -> (r: i64)
    ensures
        r == saturate(v as int),
{
    if v > i64::MAX as i128 {
        i64::MAX
    } else if v < i64::MIN as i128 {
        i64::MIN
    } else {
        v as i64
    }
}

/// Divides rounding toward zero.
pub fn trunc_div_i128(a: i128, d: i128) -> (r: i128)
    requires
        d != 0,
        i128::MIN < a,
        i128::MIN < d,
    ensures
        r == trunc_div(a as int, d as int),
{
    let ma: i128 = if a >= 0 { a } else { -a };
    let md: i128 = if d >= 0 { d } else { -d };
    let q: i128 = ma / md;
    if (a >= 0) == (d >= 0) {
        q
    } else {
        -q
    }
}

/// A single luminance channel.
impl Pixel for i64 {
    open spec fn zero_spec() -> i64 {
        0
    }

    open spec fn add_spec(self, other: i64) -> i64 {
        saturate(self + other)
    }

    open spec fn scale_spec(self, weight: int, divisor: int) -> i64 {
        saturate(trunc_div(self * weight, divisor))
    }

    fn zero() -> (r: i64) {
        0
    }

    fn plus(&self, other: &i64) -> (r: i64) {
        saturate_i128((*self as i128) + (*other as i128))
    }

    fn scaled(&self, weight: i64, divisor: i64) -> (r: i64) {
        assert(-0x4000_0000_0000_0000_0000_0000_0000_0000 <= (*self as int) * (weight as int)
            <= 0x4000_0000_0000_0000_0000_0000_0000_0000) by (nonlinear_arith)
            requires
                -0x8000_0000_0000_0000 <= (*self as int) <= 0x8000_0000_0000_0000,
                -0x8000_0000_0000_0000 <= (weight as int) <= 0x8000_0000_0000_0000,
        ;
        let product: i128 = (*self as i128) * (weight as i128);
        saturate_i128(trunc_div_i128(product, divisor as i128))
    }

    proof fn lemma_add_zero(p: i64) {
    }

    proof fn lemma_add_commutes(p: i64, q: i64) {
    }
}

} // verus!
