//! Quantizers for single channels.
//!
//! A quantizer maps a value to the pair of the nearest representable value
//! and the signed error that is left.
use vstd::prelude::*;
use vstd::arithmetic::div_mod::lemma_fundamental_div_mod_converse;
use crate::color::rgb::{RGB, rgb_units};
use crate::pixel::{saturate, saturate_i128, trunc_div, trunc_div_i128, FULL_SCALE, UNITS_PER_LEVEL};

verus! {

/// The distance between two neighbouring output values at a bit depth of
/// `n`: `255 / n` levels, in fixed-point units.
pub open spec fn step_of(n: u8) -> int {
    if n == 1 {
        107100
    } else if n == 2 {
        53550
    } else if n == 3 {
        35700
    } else if n == 4 {
        26775
    } else if n == 5 {
        21420
    } else if n == 6 {
        17850
    } else if n == 7 {
        15300
    } else {
        FULL_SCALE as int / (n as int)
    }
}

/// At every bit depth from one to seven, the step is a whole number of
/// units: `n` steps make the full scale.
pub proof fn lemma_steps_fill_the_scale(n: u8)
    requires
        1 <= n <= 7,
    ensures
        n * step_of(n) == FULL_SCALE,
{
}

/// The value that the uniform quantizer of bit depth `n` returns for `x`.
///
/// The multiples of the step just below and just above `x` are compared and
/// the nearer one is chosen, the upper one on a tie. The lower multiple is
/// raised to zero where it lies below, the upper one lowered to full scale
/// where it lies above.
pub open spec fn uniform_value(n: u8, x: i64) -> int {
    let step = step_of(n);
    let floor = (x as int / step) * step;
    let ceil = if x as int % step == 0 {
        floor
    } else {
        floor + step
    };
    if x - floor < ceil - x {
        if floor > 0 {
            floor
        } else {
            0
        }
    } else {
        if ceil < FULL_SCALE {
            ceil
        } else {
            FULL_SCALE as int
        }
    }
}

/// The uniform quantizer of bit depth `n` applied to `x`: the quantized
/// value, and the error, which is the input less the quantized value.
pub open spec fn uniform_quantized(n: u8, x: i64) -> (i64, i64) {
    (uniform_value(n, x) as i64, (x - uniform_value(n, x)) as i64)
}

/// The step of a bit depth of `n`, in fixed-point units.
pub fn step_units(n: u8) -> (step: i64)
    requires
        1 <= n <= 7,
    ensures
        step == step_of(n),
        15300 <= step <= 107100,
{
    if n == 1 {
        107100
    } else if n == 2 {
        53550
    } else if n == 3 {
        35700
    } else if n == 4 {
        26775
    } else if n == 5 {
        21420
    } else if n == 6 {
        17850
    } else {
        15300
    }
}

/// Quantizes `x` to a bit depth of `n`.
pub fn quantize_n_bits(n: u8, x: i64) -> (r: (i64, i64))
    requires
        1 <= n <= 7,
    ensures
        r == uniform_quantized(n, x),
{
    let step: i128 = step_units(n) as i128;
    let wide: i128 = x as i128;
    let magnitude: i128 = if wide >= 0 { wide } else { -wide };
    let q: i128 = magnitude / step;
    let r: i128 = magnitude % step;
    let lower: i128 = if wide >= 0 { q } else if r == 0 { -q } else { -q - 1 };
    let rest: i128 = if wide >= 0 || r == 0 { r } else { step - r };
    proof {
        vstd::arithmetic::div_mod::lemma_fundamental_div_mod(magnitude as int, step as int);
    }
    assert(q * step <= magnitude && 0 <= q <= magnitude) by (nonlinear_arith)
        requires
            magnitude == step * q + r,
            0 <= r < step,
            step >= 1,
            magnitude >= 0,
    ;
    assert(wide == lower * step + rest) by (nonlinear_arith)
        requires
            magnitude == step * q + r,
            wide >= 0 ==> lower == q && rest == r && wide == magnitude,
            wide < 0 && r == 0 ==> lower == -q && rest == 0 && wide == -magnitude,
            wide < 0 && r != 0 ==> lower == -q - 1 && rest == step - r && wide == -magnitude,
    ;
    proof {
        lemma_fundamental_div_mod_converse(wide as int, step as int, lower as int, rest as int);
    }
    assert(-0x8000_0000_0000_0000 - 107100 <= lower * step <= 0x8000_0000_0000_0000) by (nonlinear_arith)
        requires
            wide == lower * step + rest,
            0 <= rest < step,
            step <= 107100,
            -0x8000_0000_0000_0000 <= wide < 0x8000_0000_0000_0000,
    ;
    let floor: i128 = lower * step;
    let ceil: i128 = if rest == 0 { floor } else { floor + step };
    let floor_rem: i128 = wide - floor;
    let ceil_rem: i128 = ceil - wide;
    let quot: i128 = if floor_rem < ceil_rem {
        if floor > 0 { floor } else { 0 }
    } else {
        if ceil < FULL_SCALE as i128 { ceil } else { FULL_SCALE as i128 }
    };
    (quot as i64, (wide - quot) as i64)
}

/// The mix of two colors for a luminance `x`: `front` at full scale, `back`
/// at zero, and in between each channel changes linearly, rounded toward zero.
pub open spec fn blend(front: RGB<u8>, back: RGB<u8>, x: i64) -> RGB<i64> {
    RGB(
        blend_channel(front.0, back.0, x),
        blend_channel(front.1, back.1, x),
        blend_channel(front.2, back.2, x),
    )
}

/// One channel of [`blend`].
pub open spec fn blend_channel(front: u8, back: u8, x: i64) -> i64 {
    saturate(trunc_div(front * x + back * (FULL_SCALE - x), 255))
}

/// Mixes one channel.
pub fn mix_channel(front: u8, back: u8, x: i64) -> (r: i64)
    ensures
        r == blend_channel(front, back, x),
{
    assert(-0x8000_0000_0000_0000_0000 <= (front as int) * (x as int) <= 0x8000_0000_0000_0000_0000) by (nonlinear_arith)
        requires
            0 <= (front as int) <= 255,
            -0x8000_0000_0000_0000 <= (x as int) <= 0x8000_0000_0000_0000,
    ;
    assert(-0x8000_0000_0000_0000_0000 <= (back as int) * (107100 - x as int) <= 0x8000_0000_0000_0000_0000) by (nonlinear_arith)
        requires
            0 <= (back as int) <= 255,
            -0x8000_0000_0000_0000 <= (x as int) <= 0x8000_0000_0000_0000,
    ;
    let sum: i128 = (front as i128) * (x as i128) + (back as i128) * ((FULL_SCALE as i128) - (x as i128));
    saturate_i128(trunc_div_i128(sum, 255))
}

/// The two ends of the mix are the two colors themselves.
pub proof fn lemma_blend_ends(front: RGB<u8>, back: RGB<u8>)
    ensures
        blend(front, back, 0) == rgb_units(back),
        blend(front, back, FULL_SCALE) == rgb_units(front),
{
    lemma_blend_channel_ends(front.0, back.0);
    lemma_blend_channel_ends(front.1, back.1);
    lemma_blend_channel_ends(front.2, back.2);
}

proof fn lemma_blend_channel_ends(front: u8, back: u8)
    ensures
        blend_channel(front, back, 0) == (back as int * UNITS_PER_LEVEL) as i64,
        blend_channel(front, back, FULL_SCALE) == (front as int * UNITS_PER_LEVEL) as i64,
{
    assert(back * 107100 == (back * 420) * 255) by (nonlinear_arith);
    assert(front * 107100 == (front * 420) * 255) by (nonlinear_arith);
    lemma_fundamental_div_mod_converse(back * 107100, 255, back * 420, 0);
    lemma_fundamental_div_mod_converse(front * 107100, 255, front * 420, 0);
}

/// At a bit depth of one, a value from zero up to but not including half of
/// full scale is quantized to zero and is its own error; a value from half
/// of full scale up to full scale is quantized to full scale, with the
/// (negative) distance to full scale as its error.
pub proof fn lemma_one_bit_round_trip(x: i64)
    requires
        0 <= x <= FULL_SCALE,
    ensures
        2 * x < FULL_SCALE ==> uniform_quantized(1, x) == (0i64, x),
        2 * x >= FULL_SCALE ==> uniform_quantized(1, x) == (FULL_SCALE, (x - FULL_SCALE) as i64),
        uniform_quantized(1, 0) == (0i64, 0i64),
        uniform_quantized(1, FULL_SCALE) == (FULL_SCALE, 0i64),
{
}

/// At a bit depth from one to seven, the quantized value and the error
/// add up to the input, whatever the input.
pub proof fn lemma_uniform_error(n: u8, x: i64)
    requires
        1 <= n <= 7,
    ensures
        uniform_quantized(n, x).0 + uniform_quantized(n, x).1 == x,
        uniform_quantized(n, x).0 == uniform_value(n, x),
{
    let step = step_of(n);
    let floor = (x as int / step) * step;
    assert(x - step < floor <= x) by {
        if n == 1 {
            assert(floor == (x as int / 107100) * 107100);
        } else if n == 2 {
            assert(floor == (x as int / 53550) * 53550);
        } else if n == 3 {
            assert(floor == (x as int / 35700) * 35700);
        } else if n == 4 {
            assert(floor == (x as int / 26775) * 26775);
        } else if n == 5 {
            assert(floor == (x as int / 21420) * 21420);
        } else if n == 6 {
            assert(floor == (x as int / 17850) * 17850);
        } else {
            assert(floor == (x as int / 15300) * 15300);
        }
    }
    assert(15300 <= step <= FULL_SCALE);
    let value = uniform_value(n, x);
    assert(-0x8000_0000_0000_0000 <= value <= 0x7fff_ffff_ffff_ffff);
    assert(-0x8000_0000_0000_0000 <= x - value <= 0x7fff_ffff_ffff_ffff);
}

/// Between zero and full scale, at a bit depth from one to seven, the
/// quantized value is a multiple of the step between zero and full scale,
/// and the error is at most half a step either way.
pub proof fn lemma_uniform_in_range(n: u8, x: i64)
    requires
        1 <= n <= 7,
        0 <= x <= FULL_SCALE,
    ensures
        0 <= uniform_quantized(n, x).0 <= FULL_SCALE,
        (uniform_quantized(n, x).0 as int) % step_of(n) == 0,
        -step_of(n) <= 2 * uniform_quantized(n, x).1 <= step_of(n),
{
    let step = step_of(n);
    let floor = (x as int / step) * step;
    lemma_steps_fill_the_scale(n);
    if n == 1 {
        assert(floor % 107100 == 0);
        assert((floor + 107100) % 107100 == 0);
    } else if n == 2 {
        assert(floor % 53550 == 0);
        assert((floor + 53550) % 53550 == 0);
    } else if n == 3 {
        assert(floor % 35700 == 0);
        assert((floor + 35700) % 35700 == 0);
    } else if n == 4 {
        assert(floor % 26775 == 0);
        assert((floor + 26775) % 26775 == 0);
    } else if n == 5 {
        assert(floor % 21420 == 0);
        assert((floor + 21420) % 21420 == 0);
    } else if n == 6 {
        assert(floor % 17850 == 0);
        assert((floor + 17850) % 17850 == 0);
    } else {
        assert(floor % 15300 == 0);
        assert((floor + 15300) % 15300 == 0);
    }
}

} // verus!
