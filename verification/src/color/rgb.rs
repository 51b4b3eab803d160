//! Three-channel pixels.
use vstd::prelude::*;
use crate::pixel::{Pixel, saturate, saturate_i128, trunc_div, trunc_div_i128, FULL_SCALE, UNITS_PER_LEVEL};
use crate::clamp_to_u8;

verus! {

/// A triplet of channel values `(r, g, b)`.
#[derive(Default, Debug, PartialEq, Eq, Clone, Copy, Hash)]
pub struct RGB<N>(pub N, pub N, pub N);

impl<P> RGB<P> {
    /// Applies `convert` to each channel, red first, then green, then blue.
    pub fn convert_with<Q, F: Fn(P) -> Q>(self, convert: F) -> (r: RGB<Q>)
        requires
            convert.requires((self.0,)),
            convert.requires((self.1,)),
            convert.requires((self.2,)),
        ensures
            convert.ensures((self.0,), r.0),
            convert.ensures((self.1,), r.1),
            convert.ensures((self.2,), r.2),
    {
        let RGB(r, g, b) = self;
        RGB(convert(r), convert(g), convert(b))
    }

    /// Lifts a per-channel quantizer to triplets: each channel is quantized on
    /// its own, the quantized channels form the first triplet of the result and
    /// the residuals the second.
    pub fn map_across<F: Fn(P) -> (P, P)>(quantize: F) -> (lifted: impl Fn(RGB<P>) -> (RGB<P>, RGB<P>))
        requires
            forall|p: P| #[trigger] quantize.requires((p,)),
        ensures
            forall|c: RGB<P>| #[trigger] lifted.requires((c,)),
            forall|c: RGB<P>, out: (RGB<P>, RGB<P>)| #[trigger]
                lifted.ensures((c,), out) ==> channelwise(quantize, c, out),
    {
        move |c: RGB<P>| -> (out: (RGB<P>, RGB<P>))
            ensures
                channelwise(quantize, c, out),
            {
                let RGB(r, g, b) = c;
                let (r_quot, r_rem) = quantize(r);
                let (g_quot, g_rem) = quantize(g);
                let (b_quot, b_rem) = quantize(b);
                (RGB(r_quot, g_quot, b_quot), RGB(r_rem, g_rem, b_rem))
            }
    }
}

/// `out` is what `quantize` can return for each channel of `c`, taken separately.
pub open spec fn channelwise<P, F: Fn(P) -> (P, P)>(quantize: F, c: RGB<P>, out: (RGB<P>, RGB<P>)) -> bool {
    &&& quantize.ensures((c.0,), (out.0.0, out.1.0))
    &&& quantize.ensures((c.1,), (out.0.1, out.1.1))
    &&& quantize.ensures((c.2,), (out.0.2, out.1.2))
}

/// Every operation acts on each channel independently.
impl<N: Pixel> Pixel for RGB<N> {
    open spec fn zero_spec() -> RGB<N> {
        RGB(N::zero_spec(), N::zero_spec(), N::zero_spec())
    }

    open spec fn add_spec(self, other: RGB<N>) -> RGB<N> {
        RGB(self.0.add_spec(other.0), self.1.add_spec(other.1), self.2.add_spec(other.2))
    }

    open spec fn scale_spec(self, weight: int, divisor: int) -> RGB<N> {
        RGB(
            self.0.scale_spec(weight, divisor),
            self.1.scale_spec(weight, divisor),
            self.2.scale_spec(weight, divisor),
        )
    }

    fn zero() -> (r: RGB<N>) {
        RGB(N::zero(), N::zero(), N::zero())
    }

    fn plus(&self, other: &RGB<N>) -> (r: RGB<N>) {
        RGB(self.0.plus(&other.0), self.1.plus(&other.1), self.2.plus(&other.2))
    }

    fn scaled(&self, weight: i64, divisor: i64) -> (r: RGB<N>) {
        RGB(
            self.0.scaled(weight, divisor),
            self.1.scaled(weight, divisor),
            self.2.scaled(weight, divisor),
        )
    }

    proof fn lemma_add_zero(p: RGB<N>) {
        N::lemma_add_zero(p.0);
        N::lemma_add_zero(p.1);
        N::lemma_add_zero(p.2);
    }

    proof fn lemma_add_commutes(p: RGB<N>, q: RGB<N>) {
        N::lemma_add_commutes(p.0, q.0);
        N::lemma_add_commutes(p.1, q.1);
        N::lemma_add_commutes(p.2, q.2);
    }
}

/// The fixed-point value of an 8-bit level.
pub open spec fn level_units(level: u8) -> i64 {
    (level as int * UNITS_PER_LEVEL) as i64
}

/// Converts an 8-bit level to fixed-point units.
pub fn level_to_units(level: u8) -> (r: i64)
    ensures
        r == level_units(level),
        0 <= r <= FULL_SCALE,
{
    (level as i64) * UNITS_PER_LEVEL
}

/// The fixed-point triplet that stands for an 8-bit triplet.
pub open spec fn rgb_units(c: RGB<u8>) -> RGB<i64> {
    RGB(level_units(c.0), level_units(c.1), level_units(c.2))
}

impl From<RGB<u8>> for RGB<i64> {
    fn from(rgb: RGB<u8>) -> (r: RGB<i64>) {
        RGB(level_to_units(rgb.0), level_to_units(rgb.1), level_to_units(rgb.2))
    }
}

impl vstd::std_specs::convert::FromSpecImpl<RGB<u8>> for RGB<i64> {
    open spec fn obeys_from_spec() -> bool {
        true
    }

    open spec fn from_spec(rgb: RGB<u8>) -> RGB<i64> {
        rgb_units(rgb)
    }
}

/// Luminance of a triplet: `0.2126 r + 0.7152 g + 0.0722 b`, rounded toward zero.
pub open spec fn luminance(c: RGB<i64>) -> i64 {
    saturate(trunc_div(2126 * c.0 + 7152 * c.1 + 722 * c.2, 10000))
}

impl RGB<i64> {
    /// Reduces the triplet to a single luminance channel.
    pub fn to_chroma_corrected_black_and_white(&self) -> (r: i64)
        ensures
            r == luminance(*self),
    {
        let sum: i128 = 2126 * (self.0 as i128) + 7152 * (self.1 as i128) + 722 * (self.2 as i128);
        saturate_i128(trunc_div_i128(sum, 10000))
    }
}

/// The 24-bit code `0xRRGGBB` of a triplet.
pub open spec fn hex_of(c: RGB<u8>) -> u32 {
    (c.0 as int * 65536 + c.1 as int * 256 + c.2 as int) as u32
}

/// The triplet whose code has the same low 24 bits as `hex`.
pub open spec fn rgb_of_hex(hex: u32) -> RGB<u8> {
    RGB(((hex as int / 65536) % 256) as u8, ((hex as int / 256) % 256) as u8, (hex as int % 256) as u8)
}

impl RGB<u8> {
    /// Converts a hexadecimal code to the triplet it names, discarding the
    /// highest 8 bits of `hex`.
    pub fn from_hex(hex: u32) -> (r: RGB<u8>)
        ensures
            r == rgb_of_hex(hex),
            hex <= 0xFF_FFFF ==> hex_of(r) == hex,
    {
        let r: u32 = (hex / 65536) % 256;
        let g: u32 = (hex / 256) % 256;
        let b: u32 = hex % 256;
        RGB(r as u8, g as u8, b as u8)
    }

    /// A gray triplet whose three channels are `p` rounded to the nearest level.
    pub fn from_chroma_corrected_black_and_white(p: i64) -> (r: RGB<u8>)
        ensures
            r.0 == crate::nearest_level(p),
            r.1 == r.0,
            r.2 == r.0,
    {
        let level = clamp_to_u8(p);
        RGB(level, level, level)
    }

    /// Converts to the equivalent 24-bit hexadecimal code.
    pub fn to_hex(self) -> (hex: u32)
        ensures
            hex == hex_of(self),
            hex <= 0xFF_FFFF,
            rgb_of_hex(hex) == self,
    {
        (self.0 as u32) * 65536 + (self.1 as u32) * 256 + (self.2 as u32)
    }
}

} // verus!
