//! Error-diffusion dithering over fixed-point pixels.
use vstd::prelude::*;

pub mod color;
pub mod ditherer;
pub mod error;
pub mod img;
pub mod opts;
pub mod pixel;
pub mod quantize;
pub mod range;
pub mod run;
pub mod text;

pub use self::error::Error;
use self::color::rgb::RGB;
use self::pixel::{FULL_SCALE, UNITS_PER_LEVEL};
use self::quantize::{blend, mix_channel, quantize_n_bits, uniform_quantized};

verus! {

/// The 8-bit level nearest to a fixed-point channel value: halves round away
/// from zero, and values outside `0..=255` levels go to the nearer end.
pub open spec fn nearest_level(n: i64) -> u8 {
    if n <= 0 {
        0
    } else if n >= FULL_SCALE {
        255
    } else {
        ((n + UNITS_PER_LEVEL / 2) / (UNITS_PER_LEVEL as int)) as u8
    }
}

/// Rounds a fixed-point channel value to the nearest 8-bit level, clamping
/// to `0..=255`.
pub fn clamp_to_u8(n: i64) -> (r: u8)
    ensures
        r == nearest_level(n),
{
    if n <= 0 {
        0
    } else if n >= FULL_SCALE {
        255
    } else {
        ((n + UNITS_PER_LEVEL / 2) / UNITS_PER_LEVEL) as u8
    }
}

/// Makes the uniform quantizer of bit depth `n`, which must lie in `1..=7`.
///
/// The quantizer maps a channel value to the nearest representable value
/// and the error that is left.
pub fn create_quantize_n_bits_func(n: u8) -> (r: Result<impl Fn(i64) -> (i64, i64), Error>)
    ensures
        (n == 0 || n > 7) ==> r.is_err() && r->Err_0 == Error::BadBitDepth(n),
        1 <= n <= 7 ==> r.is_ok() && (forall|x: i64| #[trigger] r->Ok_0.requires((x,))) && (forall|
            x: i64,
            out: (i64, i64),
        | #[trigger]
            r->Ok_0.ensures((x,), out) ==> out == uniform_quantized(n, x)),
{
    if n == 0 || n > 7 {
        Err(Error::BadBitDepth(n))
    } else {
        let quantize = move |x: i64| -> (out: (i64, i64))
            ensures
                out == uniform_quantized(n, x),
            {
                quantize_n_bits(n, x)
            };
        Ok(quantize)
    }
}

/// Makes the function that turns a quantized luminance into a color between
/// `back`, for zero, and `front`, for full scale.
pub fn create_convert_quantized_to_palette_func(front: RGB<u8>, back: RGB<u8>) -> (r: impl Fn(i64) -> RGB<i64>)
    ensures
        forall|x: i64| #[trigger] r.requires((x,)),
        forall|x: i64, out: RGB<i64>| #[trigger] r.ensures((x,), out) ==> out == blend(front, back, x),
{
    move |x: i64| -> (out: RGB<i64>)
        ensures
            out == blend(front, back, x),
        {
            let r = mix_channel(front.0, back.0, x);
            let g = mix_channel(front.1, back.1, x);
            let b = mix_channel(front.2, back.2, x);
            RGB(r, g, b)
        }
}

} // verus!
