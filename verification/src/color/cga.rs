//! The sixteen colors of the CGA palette.
use vstd::prelude::*;
use vstd::std_specs::iter::IteratorSpec;
use crate::color::palette::{nearest, palette_quantized};
use crate::color::rgb::{RGB, rgb_of_hex};
use crate::text::{chars_of, is_name, lowered};

verus! {

/// The CGA palette. [`CGA::Yellow`] is a true yellow rather than the
/// traditional light brown.
#[derive(Copy, Clone, PartialEq, Eq, Debug)]
pub enum CGA {
    Black,
    Blue,
    Green,
    Cyan,
    Red,
    Magenta,
    Brown,
    LightGray,
    Gray,
    LightBlue,
    LightGreen,
    LightCyan,
    LightRed,
    LightMagenta,
    Yellow,
    White,
}

/// An error parsing a CGA color.
#[derive(Debug, Copy, Clone, PartialEq, Eq)]
pub struct UnknownCGAColorError;

/// The sixteen colors in the order of their CGA numbers.
pub open spec fn all_colors() -> Seq<CGA> {
    seq![
        CGA::Black,
        CGA::Blue,
        CGA::Green,
        CGA::Cyan,
        CGA::Red,
        CGA::Magenta,
        CGA::Brown,
        CGA::LightGray,
        CGA::Gray,
        CGA::LightBlue,
        CGA::LightGreen,
        CGA::LightCyan,
        CGA::LightRed,
        CGA::LightMagenta,
        CGA::Yellow,
        CGA::White,
    ]
}

/// The color with the given 24-bit code, if there is one.
pub open spec fn color_with_code(hex: u32) -> Option<CGA> {
    if hex == 0x00_00_00 {
        Some(CGA::Black)
    } else if hex == 0x00_00_AA {
        Some(CGA::Blue)
    } else if hex == 0x00_AA_00 {
        Some(CGA::Green)
    } else if hex == 0x00_AA_AA {
        Some(CGA::Cyan)
    } else if hex == 0xAA_00_00 {
        Some(CGA::Red)
    } else if hex == 0xAA_00_AA {
        Some(CGA::Magenta)
    } else if hex == 0xAA_55_00 {
        Some(CGA::Brown)
    } else if hex == 0xAA_AA_AA {
        Some(CGA::LightGray)
    } else if hex == 0x55_55_55 {
        Some(CGA::Gray)
    } else if hex == 0x55_55_FF {
        Some(CGA::LightBlue)
    } else if hex == 0x55_FF_55 {
        Some(CGA::LightGreen)
    } else if hex == 0x55_FF_FF {
        Some(CGA::LightCyan)
    } else if hex == 0xFF_55_55 {
        Some(CGA::LightRed)
    } else if hex == 0xFF_55_FF {
        Some(CGA::LightMagenta)
    } else if hex == 0xFF_FF_55 {
        Some(CGA::Yellow)
    } else if hex == 0xFF_FF_FF {
        Some(CGA::White)
    } else {
        None
    }
}

/// The color with the given name, letters in any case, if there is one.
pub open spec fn color_named(name: Seq<char>) -> Option<CGA> {
    let l = lowered(name);
    if l == "black"@ {
        Some(CGA::Black)
    } else if l == "blue"@ {
        Some(CGA::Blue)
    } else if l == "green"@ {
        Some(CGA::Green)
    } else if l == "cyan"@ {
        Some(CGA::Cyan)
    } else if l == "red"@ {
        Some(CGA::Red)
    } else if l == "magenta"@ {
        Some(CGA::Magenta)
    } else if l == "brown"@ {
        Some(CGA::Brown)
    } else if l == "light_gray"@ {
        Some(CGA::LightGray)
    } else if l == "gray"@ {
        Some(CGA::Gray)
    } else if l == "light_blue"@ {
        Some(CGA::LightBlue)
    } else if l == "light_green"@ {
        Some(CGA::LightGreen)
    } else if l == "light_cyan"@ {
        Some(CGA::LightCyan)
    } else if l == "light_red"@ {
        Some(CGA::LightRed)
    } else if l == "light_magenta"@ {
        Some(CGA::LightMagenta)
    } else if l == "yellow"@ {
        Some(CGA::Yellow)
    } else if l == "white"@ {
        Some(CGA::White)
    } else {
        None
    }
}

/// Looking up the code of a color gives the color back, and a code that
/// is found is the code of the color found.
pub proof fn lemma_code_round_trip(c: CGA, hex: u32)
    ensures
        color_with_code(c.hex_code()) == Some(c),
        color_with_code(hex).is_some() ==> color_with_code(hex).unwrap().hex_code() == hex,
{
}

/// The sixteen colors as 24-bit triplets, in the same order.
pub open spec fn all_rgb() -> Seq<RGB<u8>> {
    Seq::new(16, |i: int| rgb_of_hex(all_colors()[i].hex_code()))
}

/// The sixteen colors as 24-bit triplets, in the order of their CGA numbers.
pub fn all() -> (palette: Vec<RGB<u8>>)
    ensures
        palette@ == all_rgb(),
{
    let palette = vec![
        RGB(0x00, 0x00, 0x00),
        RGB(0x00, 0x00, 0xAA),
        RGB(0x00, 0xAA, 0x00),
        RGB(0x00, 0xAA, 0xAA),
        RGB(0xAA, 0x00, 0x00),
        RGB(0xAA, 0x00, 0xAA),
        RGB(0xAA, 0x55, 0x00),
        RGB(0xAA, 0xAA, 0xAA),
        RGB(0x55, 0x55, 0x55),
        RGB(0x55, 0x55, 0xFF),
        RGB(0x55, 0xFF, 0x55),
        RGB(0x55, 0xFF, 0xFF),
        RGB(0xFF, 0x55, 0x55),
        RGB(0xFF, 0x55, 0xFF),
        RGB(0xFF, 0xFF, 0x55),
        RGB(0xFF, 0xFF, 0xFF),
    ];
    assert(palette@ =~= all_rgb());
    palette
}

impl CGA {
    /// Hexadecimal code of [`CGA::Black`].
    pub const BLACK: u32 = 0x00_00_00;

    /// Hexadecimal code of [`CGA::Blue`].
    pub const BLUE: u32 = 0x00_00_AA;

    /// Hexadecimal code of [`CGA::Green`].
    pub const GREEN: u32 = 0x00_AA_00;

    /// Hexadecimal code of [`CGA::Cyan`].
    pub const CYAN: u32 = 0x00_AA_AA;

    /// Hexadecimal code of [`CGA::Red`].
    pub const RED: u32 = 0xAA_00_00;

    /// Hexadecimal code of [`CGA::Magenta`].
    pub const MAGENTA: u32 = 0xAA_00_AA;

    /// Hexadecimal code of [`CGA::Brown`].
    pub const BROWN: u32 = 0xAA_55_00;

    /// Hexadecimal code of [`CGA::LightGray`].
    pub const LIGHT_GRAY: u32 = 0xAA_AA_AA;

    /// Hexadecimal code of [`CGA::Gray`].
    pub const GRAY: u32 = 0x55_55_55;

    /// Hexadecimal code of [`CGA::LightBlue`].
    pub const LIGHT_BLUE: u32 = 0x55_55_FF;

    /// Hexadecimal code of [`CGA::LightGreen`].
    pub const LIGHT_GREEN: u32 = 0x55_FF_55;

    /// Hexadecimal code of [`CGA::LightCyan`].
    pub const LIGHT_CYAN: u32 = 0x55_FF_FF;

    /// Hexadecimal code of [`CGA::LightRed`].
    pub const LIGHT_RED: u32 = 0xFF_55_55;

    /// Hexadecimal code of [`CGA::LightMagenta`].
    pub const LIGHT_MAGENTA: u32 = 0xFF_55_FF;

    /// Hexadecimal code of [`CGA::Yellow`].
    pub const YELLOW: u32 = 0xFF_FF_55;

    /// Hexadecimal code of [`CGA::White`].
    pub const WHITE: u32 = 0xFF_FF_FF;

    /// The 24-bit code of the color.
    pub open spec fn hex_code(self) -> u32 {
        match self {
            CGA::Black => 0x00_00_00,
            CGA::Blue => 0x00_00_AA,
            CGA::Green => 0x00_AA_00,
            CGA::Cyan => 0x00_AA_AA,
            CGA::Red => 0xAA_00_00,
            CGA::Magenta => 0xAA_00_AA,
            CGA::Brown => 0xAA_55_00,
            CGA::LightGray => 0xAA_AA_AA,
            CGA::Gray => 0x55_55_55,
            CGA::LightBlue => 0x55_55_FF,
            CGA::LightGreen => 0x55_FF_55,
            CGA::LightCyan => 0x55_FF_FF,
            CGA::LightRed => 0xFF_55_55,
            CGA::LightMagenta => 0xFF_55_FF,
            CGA::Yellow => 0xFF_FF_55,
            CGA::White => 0xFF_FF_FF,
        }
    }

    /// The upper-case name of the color.
    pub open spec fn spec_name(self) -> Seq<char> {
        match self {
            CGA::Black => "BLACK"@,
            CGA::Blue => "BLUE"@,
            CGA::Green => "GREEN"@,
            CGA::Cyan => "CYAN"@,
            CGA::Red => "RED"@,
            CGA::Magenta => "MAGENTA"@,
            CGA::Brown => "BROWN"@,
            CGA::LightGray => "LIGHT_GRAY"@,
            CGA::Gray => "GRAY"@,
            CGA::LightBlue => "LIGHT_BLUE"@,
            CGA::LightGreen => "LIGHT_GREEN"@,
            CGA::LightCyan => "LIGHT_CYAN"@,
            CGA::LightRed => "LIGHT_RED"@,
            CGA::LightMagenta => "LIGHT_MAGENTA"@,
            CGA::Yellow => "YELLOW"@,
            CGA::White => "WHITE"@,
        }
    }

    /// All the colors, each once, in the order of their CGA numbers.
    pub fn colors() -> (v: Vec<CGA>)
        ensures
            v@ == all_colors(),
    {
        let v = vec![
            CGA::Black,
            CGA::Blue,
            CGA::Green,
            CGA::Cyan,
            CGA::Red,
            CGA::Magenta,
            CGA::Brown,
            CGA::LightGray,
            CGA::Gray,
            CGA::LightBlue,
            CGA::LightGreen,
            CGA::LightCyan,
            CGA::LightRed,
            CGA::LightMagenta,
            CGA::Yellow,
            CGA::White,
        ];
        assert(v@ =~= all_colors());
        v
    }

    /// An iterator through all the colors.
    pub fn iter() -> (it: std::vec::IntoIter<CGA>)
        ensures
            it.remaining() == all_colors(),
    {
        broadcast use vstd::std_specs::vec::axiom_spec_into_iter;

        Self::colors().into_iter()
    }

    /// Converts to the equivalent hexadecimal code.
    pub fn to_hex(self) -> (hex: u32)
        ensures
            hex == self.hex_code(),
            hex <= 0xFF_FF_FF,
    {
        match self {
            CGA::Black => CGA::BLACK,
            CGA::Blue => CGA::BLUE,
            CGA::Green => CGA::GREEN,
            CGA::Cyan => CGA::CYAN,
            CGA::Red => CGA::RED,
            CGA::Magenta => CGA::MAGENTA,
            CGA::Brown => CGA::BROWN,
            CGA::LightGray => CGA::LIGHT_GRAY,
            CGA::Gray => CGA::GRAY,
            CGA::LightBlue => CGA::LIGHT_BLUE,
            CGA::LightGreen => CGA::LIGHT_GREEN,
            CGA::LightCyan => CGA::LIGHT_CYAN,
            CGA::LightRed => CGA::LIGHT_RED,
            CGA::LightMagenta => CGA::LIGHT_MAGENTA,
            CGA::Yellow => CGA::YELLOW,
            CGA::White => CGA::WHITE,
        }
    }

    /// Converts a hexadecimal code to the CGA color with that code, if there is one.
    pub fn try_from_hex(hex: u32) -> (r: Option<CGA>)
        ensures
            r == color_with_code(hex),
    {
        if hex == CGA::BLACK {
            Some(CGA::Black)
        } else if hex == CGA::BLUE {
            Some(CGA::Blue)
        } else if hex == CGA::GREEN {
            Some(CGA::Green)
        } else if hex == CGA::CYAN {
            Some(CGA::Cyan)
        } else if hex == CGA::RED {
            Some(CGA::Red)
        } else if hex == CGA::MAGENTA {
            Some(CGA::Magenta)
        } else if hex == CGA::BROWN {
            Some(CGA::Brown)
        } else if hex == CGA::LIGHT_GRAY {
            Some(CGA::LightGray)
        } else if hex == CGA::GRAY {
            Some(CGA::Gray)
        } else if hex == CGA::LIGHT_BLUE {
            Some(CGA::LightBlue)
        } else if hex == CGA::LIGHT_GREEN {
            Some(CGA::LightGreen)
        } else if hex == CGA::LIGHT_CYAN {
            Some(CGA::LightCyan)
        } else if hex == CGA::LIGHT_RED {
            Some(CGA::LightRed)
        } else if hex == CGA::LIGHT_MAGENTA {
            Some(CGA::LightMagenta)
        } else if hex == CGA::YELLOW {
            Some(CGA::Yellow)
        } else if hex == CGA::WHITE {
            Some(CGA::White)
        } else {
            None
        }
    }

    /// The upper-case name of the color.
    pub fn name(self) -> (s: &'static str)
        ensures
            s@ == self.spec_name(),
    {
        match self {
            CGA::Black => "BLACK",
            CGA::Blue => "BLUE",
            CGA::Green => "GREEN",
            CGA::Cyan => "CYAN",
            CGA::Red => "RED",
            CGA::Magenta => "MAGENTA",
            CGA::Brown => "BROWN",
            CGA::LightGray => "LIGHT_GRAY",
            CGA::Gray => "GRAY",
            CGA::LightBlue => "LIGHT_BLUE",
            CGA::LightGreen => "LIGHT_GREEN",
            CGA::LightCyan => "LIGHT_CYAN",
            CGA::LightRed => "LIGHT_RED",
            CGA::LightMagenta => "LIGHT_MAGENTA",
            CGA::Yellow => "YELLOW",
            CGA::White => "WHITE",
        }
    }

    /// The color with the given name, in any mix of upper and lower case.
    pub fn from_name(s: &str) -> (r: Result<CGA, UnknownCGAColorError>)
        ensures
            r == match color_named(s@) {
                Some(c) => Ok::<CGA, UnknownCGAColorError>(c),
                None => Err::<CGA, UnknownCGAColorError>(UnknownCGAColorError),
            },
    {
        let chars = chars_of(s);
        if is_name(&chars, "black") {
            Ok(CGA::Black)
        } else if is_name(&chars, "blue") {
            Ok(CGA::Blue)
        } else if is_name(&chars, "green") {
            Ok(CGA::Green)
        } else if is_name(&chars, "cyan") {
            Ok(CGA::Cyan)
        } else if is_name(&chars, "red") {
            Ok(CGA::Red)
        } else if is_name(&chars, "magenta") {
            Ok(CGA::Magenta)
        } else if is_name(&chars, "brown") {
            Ok(CGA::Brown)
        } else if is_name(&chars, "light_gray") {
            Ok(CGA::LightGray)
        } else if is_name(&chars, "gray") {
            Ok(CGA::Gray)
        } else if is_name(&chars, "light_blue") {
            Ok(CGA::LightBlue)
        } else if is_name(&chars, "light_green") {
            Ok(CGA::LightGreen)
        } else if is_name(&chars, "light_cyan") {
            Ok(CGA::LightCyan)
        } else if is_name(&chars, "light_red") {
            Ok(CGA::LightRed)
        } else if is_name(&chars, "light_magenta") {
            Ok(CGA::LightMagenta)
        } else if is_name(&chars, "yellow") {
            Ok(CGA::Yellow)
        } else if is_name(&chars, "white") {
            Ok(CGA::White)
        } else {
            Err(UnknownCGAColorError)
        }
    }

    /// Quantizes a triplet to the closest CGA color; returns that color and
    /// what is left.
    pub fn quantize(c: RGB<i64>) -> (out: (RGB<i64>, RGB<i64>))
        ensures
            palette_quantized(all_rgb(), c, out),
    {
        let palette = all();
        nearest(&palette, c)
    }
}

impl From<CGA> for RGB<u8> {
    fn from(cga: CGA) -> (r: RGB<u8>) {
        RGB::from_hex(cga.to_hex())
    }
}

impl vstd::std_specs::convert::FromSpecImpl<CGA> for RGB<u8> {
    open spec fn obeys_from_spec() -> bool {
        true
    }

    open spec fn from_spec(cga: CGA) -> RGB<u8> {
        rgb_of_hex(cga.hex_code())
    }
}

impl std::str::FromStr for CGA {
    type Err = UnknownCGAColorError;

    fn from_str(s: &str) -> (r: Result<Self, Self::Err>)
        ensures
            r == match color_named(s@) {
                Some(c) => Ok::<CGA, UnknownCGAColorError>(c),
                None => Err::<CGA, UnknownCGAColorError>(UnknownCGAColorError),
            },
    {
        CGA::from_name(s)
    }
}

} // verus!
