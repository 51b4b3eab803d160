//! A whole run: from the pixels read to the pixels to write.
use vstd::prelude::*;
use crate::clamp_to_u8;
use crate::color::palette::{is_nearest, palette_quantized, quantize};
use crate::color::rgb::{channelwise, level_to_units, luminance, rgb_units, RGB};
use crate::color::{Mode, ModeView, Palette};
use crate::create_quantize_n_bits_func;
use crate::ditherer::{dithered, is_diffusion, lemma_diffusion_is_function, Ditherer};
use crate::error::Error;
use crate::img::Img;
use crate::nearest_level;
use crate::opts::Opt;
use crate::quantize::{blend, mix_channel, quantize_n_bits, uniform_quantized};

verus! {

/// The uniform quantizer of bit depth `n` as a function.
pub open spec fn uniform_fn(n: u8) -> spec_fn(i64) -> (i64, i64) {
    |x: i64| uniform_quantized(n, x)
}

/// The uniform quantizer of bit depth `n` applied to each channel.
pub open spec fn uniform_rgb(n: u8, c: RGB<i64>) -> (RGB<i64>, RGB<i64>) {
    let r = uniform_quantized(n, c.0);
    let g = uniform_quantized(n, c.1);
    let b = uniform_quantized(n, c.2);
    (RGB(r.0, g.0, b.0), RGB(r.1, g.1, b.1))
}

/// [`uniform_rgb`] as a function of the color.
pub open spec fn uniform_rgb_fn(n: u8) -> spec_fn(RGB<i64>) -> (RGB<i64>, RGB<i64>) {
    |c: RGB<i64>| uniform_rgb(n, c)
}

/// What the quantizer of `palette` returns for `c`.
pub open spec fn nearest_of(palette: Seq<RGB<u8>>, c: RGB<i64>) -> (RGB<i64>, RGB<i64>) {
    choose|out: (RGB<i64>, RGB<i64>)| palette_quantized(palette, c, out)
}

/// [`nearest_of`] as a function of the color.
pub open spec fn nearest_fn(palette: Seq<RGB<u8>>) -> spec_fn(RGB<i64>) -> (RGB<i64>, RGB<i64>) {
    |c: RGB<i64>| nearest_of(palette, c)
}

/// A palette has one answer for each color.
pub proof fn lemma_nearest_is_function(palette: Seq<RGB<u8>>, c: RGB<i64>, out: (RGB<i64>, RGB<i64>))
    requires
        palette_quantized(palette, c, out),
    ensures
        out == nearest_of(palette, c),
{
    let other = nearest_of(palette, c);
    assert(palette_quantized(palette, c, other));
    if palette.len() > 0 {
        let i = choose|i: int|
            is_nearest(palette, c, i) && out == (rgb_units(palette[i]), crate::color::palette::residual(c, palette[i]));
        let j = choose|j: int|
            is_nearest(palette, c, j) && other == (
                rgb_units(palette[j]),
                crate::color::palette::residual(c, palette[j]),
            );
        if i < j {
            assert(crate::color::palette::distance(c, palette[i]) > crate::color::palette::distance(c, palette[j]));
        } else if j < i {
            assert(crate::color::palette::distance(c, palette[j]) > crate::color::palette::distance(c, palette[i]));
        }
    }
}

/// Each channel rounded to the nearest 8-bit level.
pub open spec fn clamped(c: RGB<i64>) -> RGB<u8> {
    RGB(nearest_level(c.0), nearest_level(c.1), nearest_level(c.2))
}

/// The gray of a luminance.
pub open spec fn gray(x: i64) -> RGB<u8> {
    RGB(nearest_level(x), nearest_level(x), nearest_level(x))
}

/// The shade of `color` for a luminance.
pub open spec fn tinted(color: RGB<u8>, x: i64) -> RGB<u8> {
    clamped(blend(color, RGB(0u8, 0u8, 0u8), x))
}

/// What a run gives for the pixels of an image.
///
/// A bit depth outside `1..=7` is an error, and so is a palette together
/// with a bit depth above one. Otherwise the pixels are turned into fixed
/// point, reduced to their luminance unless the mode keeps the colors,
/// dithered with the quantizer of the mode, and turned back into 8-bit
/// colors.
pub open spec fn outcome(
    pixels: Seq<RGB<u8>>,
    width: int,
    ditherer: Ditherer,
    mode: ModeView,
    depth: u8,
) -> Result<Seq<RGB<u8>>, Error> {
    let offsets = ditherer.spec_offsets();
    let divisor = ditherer.spec_divisor();
    let colors = pixels.map_values(|c: RGB<u8>| rgb_units(c));
    let luminances = colors.map_values(|c: RGB<i64>| luminance(c));
    if depth == 0 || depth > 7 {
        Err(Error::BadBitDepth(depth))
    } else {
        match mode {
            ModeView::Palette { palette, .. } => if depth > 1 {
                Err(Error::CustomPaletteIncompatibleWithDepth)
            } else {
                Ok(
                    dithered(colors, width, offsets, divisor, nearest_fn(palette)).map_values(
                        |c: RGB<i64>| clamped(c),
                    ),
                )
            },
            ModeView::Color => Ok(
                dithered(colors, width, offsets, divisor, uniform_rgb_fn(depth)).map_values(
                    |c: RGB<i64>| clamped(c),
                ),
            ),
            ModeView::BlackAndWhite => Ok(
                dithered(luminances, width, offsets, divisor, uniform_fn(depth)).map_values(|x: i64| gray(x)),
            ),
            ModeView::SingleColor(color) => Ok(
                dithered(luminances, width, offsets, divisor, uniform_fn(depth)).map_values(
                    |x: i64| tinted(color, x),
                ),
            ),
        }
    }
}

fn to_fixed(img: Img<RGB<u8>>) -> (r: Img<RGB<i64>>)
    ensures
        r.spec_width() == img.spec_width(),
        r.pixels() == img.pixels().map_values(|c: RGB<u8>| rgb_units(c)),
{
    let convert = |c: RGB<u8>| -> (u: RGB<i64>)
        ensures
            u == rgb_units(c),
        {
            let u = RGB(level_to_units(c.0), level_to_units(c.1), level_to_units(c.2));
            u
        };
    let r = img.convert_with(convert);
    assert(r.pixels() =~= img.pixels().map_values(|c: RGB<u8>| rgb_units(c)));
    r
}

fn to_luminance(img: Img<RGB<i64>>) -> (r: Img<i64>)
    ensures
        r.spec_width() == img.spec_width(),
        r.pixels() == img.pixels().map_values(|c: RGB<i64>| luminance(c)),
{
    let convert = |c: RGB<i64>| -> (x: i64)
        ensures
            x == luminance(c),
        {
            let x = c.to_chroma_corrected_black_and_white();
            x
        };
    let r = img.convert_with(convert);
    assert(r.pixels() =~= img.pixels().map_values(|c: RGB<i64>| luminance(c)));
    r
}

fn to_bytes(img: Img<RGB<i64>>) -> (r: Img<RGB<u8>>)
    ensures
        r.spec_width() == img.spec_width(),
        r.pixels() == img.pixels().map_values(|c: RGB<i64>| clamped(c)),
{
    let convert = |c: RGB<i64>| -> (b: RGB<u8>)
        ensures
            b == clamped(c),
        {
            let b = RGB(clamp_to_u8(c.0), clamp_to_u8(c.1), clamp_to_u8(c.2));
            b
        };
    let r = img.convert_with(convert);
    assert(r.pixels() =~= img.pixels().map_values(|c: RGB<i64>| clamped(c)));
    r
}

fn to_gray(img: Img<i64>) -> (r: Img<RGB<u8>>)
    ensures
        r.spec_width() == img.spec_width(),
        r.pixels() == img.pixels().map_values(|x: i64| gray(x)),
{
    let convert = |x: i64| -> (b: RGB<u8>)
        ensures
            b == gray(x),
        {
            let b = RGB::from_chroma_corrected_black_and_white(x);
            b
        };
    let r = img.convert_with(convert);
    assert(r.pixels() =~= img.pixels().map_values(|x: i64| gray(x)));
    r
}

fn to_tint(img: Img<i64>, color: RGB<u8>) -> (r: Img<RGB<u8>>)
    ensures
        r.spec_width() == img.spec_width(),
        r.pixels() == img.pixels().map_values(|x: i64| tinted(color, x)),
{
    let convert = |x: i64| -> (b: RGB<u8>)
        ensures
            b == tinted(color, x),
        {
            let b = RGB(
                clamp_to_u8(mix_channel(color.0, 0, x)),
                clamp_to_u8(mix_channel(color.1, 0, x)),
                clamp_to_u8(mix_channel(color.2, 0, x)),
            );
            b
        };
    let r = img.convert_with(convert);
    assert(r.pixels() =~= img.pixels().map_values(|x: i64| tinted(color, x)));
    r
}

/// Dithers `img` as the options ask.
pub fn run(opts: &Opt, img: Img<RGB<u8>>) -> (r: Result<Img<RGB<u8>>, Error>)
    ensures
        match outcome(img.pixels(), img.spec_width(), opts.ditherer, opts.color_mode@, opts.bit_depth) {
            Ok(pixels) => r.is_ok() && r.unwrap().pixels() == pixels && r.unwrap().spec_width()
                == img.spec_width(),
            Err(e) => r == Err::<Img<RGB<u8>>, Error>(e),
        },
{
    let depth = opts.bit_depth;
    let ditherer = opts.ditherer;
    let ghost offsets = ditherer.spec_offsets();
    let ghost divisor = ditherer.spec_divisor();
    let ghost width = img.spec_width();
    let uniform = match create_quantize_n_bits_func(depth) {
        Ok(uniform) => uniform,
        Err(e) => {
            return Err(e);
        },
    };
    match &opts.color_mode {
        Mode::Palette { palette, .. } => {
            if depth > 1 {
                return Err(Error::CustomPaletteIncompatibleWithDepth);
            }
            let nearest = quantize(palette.as_slice());
            let colors = to_fixed(img);
            let out = ditherer.dither(colors, nearest);
            proof {
                let errors = choose|errors: Seq<RGB<i64>>|
                    is_diffusion(colors.pixels(), width, offsets, divisor, nearest, errors, out.pixels());
                assert forall|c: RGB<i64>, o: (RGB<i64>, RGB<i64>)| #[trigger]
                    nearest.ensures((c,), o) implies o == nearest_fn(palette@)(c) by {
                    lemma_nearest_is_function(palette@, c, o);
                }
                lemma_diffusion_is_function(
                    colors.pixels(),
                    width,
                    offsets,
                    divisor,
                    nearest,
                    nearest_fn(palette@),
                    errors,
                    out.pixels(),
                );
            }
            Ok(to_bytes(out))
        },
        Mode::Color => {
            let lifted = RGB::map_across(uniform);
            let colors = to_fixed(img);
            let out = ditherer.dither(colors, lifted);
            proof {
                let errors = choose|errors: Seq<RGB<i64>>|
                    is_diffusion(colors.pixels(), width, offsets, divisor, lifted, errors, out.pixels());
                assert forall|c: RGB<i64>, o: (RGB<i64>, RGB<i64>)| #[trigger]
                    lifted.ensures((c,), o) implies o == uniform_rgb_fn(depth)(c) by {
                    assert(channelwise(uniform, c, o));
                }
                lemma_diffusion_is_function(
                    colors.pixels(),
                    width,
                    offsets,
                    divisor,
                    lifted,
                    uniform_rgb_fn(depth),
                    errors,
                    out.pixels(),
                );
            }
            Ok(to_bytes(out))
        },
        Mode::BlackAndWhite => {
            let luminances = to_luminance(to_fixed(img));
            let out = ditherer.dither(luminances, uniform);
            proof {
                let errors = choose|errors: Seq<i64>|
                    is_diffusion(luminances.pixels(), width, offsets, divisor, uniform, errors, out.pixels());
                lemma_diffusion_is_function(
                    luminances.pixels(),
                    width,
                    offsets,
                    divisor,
                    uniform,
                    uniform_fn(depth),
                    errors,
                    out.pixels(),
                );
            }
            Ok(to_gray(out))
        },
        Mode::SingleColor(color) => {
            let luminances = to_luminance(to_fixed(img));
            let out = ditherer.dither(luminances, uniform);
            proof {
                let errors = choose|errors: Seq<i64>|
                    is_diffusion(luminances.pixels(), width, offsets, divisor, uniform, errors, out.pixels());
                lemma_diffusion_is_function(
                    luminances.pixels(),
                    width,
                    offsets,
                    divisor,
                    uniform,
                    uniform_fn(depth),
                    errors,
                    out.pixels(),
                );
            }
            Ok(to_tint(out, *color))
        },
    }
}

/// What two-tone dithering gives for the pixels of an image: the luminance
/// of each pixel is dithered to one bit, and the result is turned into the
/// back color where it is zero, the front color where it is full scale,
/// and the mix of the two in proportion elsewhere.
pub open spec fn two_tone(pixels: Seq<RGB<u8>>, width: int, ditherer: Ditherer, palette: Palette) -> Seq<RGB<u8>> {
    let luminances = pixels.map_values(|c: RGB<u8>| rgb_units(c)).map_values(|c: RGB<i64>| luminance(c));
    dithered(luminances, width, ditherer.spec_offsets(), ditherer.spec_divisor(), uniform_fn(1)).map_values(
        |x: i64| clamped(blend(palette.front, palette.back, x)),
    )
}

/// Dithers `img` to the two colors of `palette`.
pub fn run_two_tone(img: Img<RGB<u8>>, ditherer: Ditherer, palette: Palette) -> (r: Img<RGB<u8>>)
    ensures
        r.spec_width() == img.spec_width(),
        r.pixels() == two_tone(img.pixels(), img.spec_width(), ditherer, palette),
{
    let ghost width = img.spec_width();
    let one_bit = |x: i64| -> (out: (i64, i64))
        ensures
            out == uniform_quantized(1, x),
        {
            let out = quantize_n_bits(1, x);
            out
        };
    let luminances = to_luminance(to_fixed(img));
    let out = ditherer.dither(luminances, one_bit);
    proof {
        let errors = choose|errors: Seq<i64>|
            is_diffusion(
                luminances.pixels(),
                width,
                ditherer.spec_offsets(),
                ditherer.spec_divisor(),
                one_bit,
                errors,
                out.pixels(),
            );
        lemma_diffusion_is_function(
            luminances.pixels(),
            width,
            ditherer.spec_offsets(),
            ditherer.spec_divisor(),
            one_bit,
            uniform_fn(1),
            errors,
            out.pixels(),
        );
    }
    let paint = |x: i64| -> (b: RGB<u8>)
        ensures
            b == clamped(blend(palette.front, palette.back, x)),
        {
            let b = RGB(
                clamp_to_u8(mix_channel(palette.front.0, palette.back.0, x)),
                clamp_to_u8(mix_channel(palette.front.1, palette.back.1, x)),
                clamp_to_u8(mix_channel(palette.front.2, palette.back.2, x)),
            );
            b
        };
    let r = out.convert_with(paint);
    assert(r.pixels() =~= out.pixels().map_values(|x: i64| clamped(blend(palette.front, palette.back, x))));
    r
}

} // verus!
