//! Colors, palettes and color modes.
use vstd::prelude::*;
use vstd::string::StringExecFns;
use crate::color::rgb::hex_of;
use crate::text::{chars_of, hex_digits, is_name, lowered, push_hex, trim_range, trimmed};

pub mod cga;
pub mod pair;
pub mod palette;
pub mod rgb;

pub use self::cga::CGA;
pub use self::pair::{Palette, PaletteError};
pub use self::rgb::RGB;

verus! {

/// The color mode of a run.
#[derive(Clone, Debug, PartialEq, Eq)]
pub enum Mode {
    /// Shades of a single color.
    SingleColor(RGB<u8>),
    /// Each channel dithered to the bit depth.
    Color,
    /// Luminance dithered to the bit depth.
    BlackAndWhite,
    /// The colors of a palette.
    Palette { palette: Vec<RGB<u8>>, name: String },
}

/// What a [`Mode`] holds.
pub enum ModeView {
    SingleColor(RGB<u8>),
    Color,
    BlackAndWhite,
    Palette { palette: Seq<RGB<u8>>, name: Seq<char> },
}

impl View for Mode {
    type V = ModeView;

    open spec fn view(&self) -> ModeView {
        match self {
            Mode::SingleColor(c) => ModeView::SingleColor(*c),
            Mode::Color => ModeView::Color,
            Mode::BlackAndWhite => ModeView::BlackAndWhite,
            Mode::Palette { palette, name } => ModeView::Palette { palette: palette@, name: name@ },
        }
    }
}

/// The mode that a name stands for, white space at its ends and the case
/// of its letters set aside; `None` for a name that is none of the known ones.
pub open spec fn mode_named(s: Seq<char>) -> Option<ModeView> {
    let l = lowered(trimmed(s));
    if l == "white"@ || l == "black"@ || l == "bw"@ {
        Some(ModeView::BlackAndWhite)
    } else if l == "c"@ || l == "color"@ {
        Some(ModeView::Color)
    } else if l == "cga"@ {
        Some(ModeView::Palette { palette: self::cga::all_rgb(), name: "CGA"@ })
    } else if l == "blue"@ {
        Some(ModeView::SingleColor(RGB(0x00, 0x00, 0xAA)))
    } else if l == "green"@ {
        Some(ModeView::SingleColor(RGB(0x00, 0xAA, 0x00)))
    } else if l == "cyan"@ {
        Some(ModeView::SingleColor(RGB(0x00, 0xAA, 0xAA)))
    } else if l == "red"@ {
        Some(ModeView::SingleColor(RGB(0xAA, 0x00, 0x00)))
    } else if l == "magenta"@ {
        Some(ModeView::SingleColor(RGB(0xAA, 0x00, 0xAA)))
    } else if l == "brown"@ {
        Some(ModeView::SingleColor(RGB(0xAA, 0x55, 0x00)))
    } else if l == "light_gray"@ {
        Some(ModeView::SingleColor(RGB(0xAA, 0xAA, 0xAA)))
    } else if l == "gray"@ {
        Some(ModeView::SingleColor(RGB(0x55, 0x55, 0x55)))
    } else if l == "light_blue"@ {
        Some(ModeView::SingleColor(RGB(0x55, 0x55, 0xFF)))
    } else if l == "light_green"@ {
        Some(ModeView::SingleColor(RGB(0x55, 0xFF, 0x55)))
    } else if l == "light_cyan"@ {
        Some(ModeView::SingleColor(RGB(0x55, 0xFF, 0xFF)))
    } else if l == "light_red"@ {
        Some(ModeView::SingleColor(RGB(0xFF, 0x55, 0x55)))
    } else if l == "light_magenta"@ {
        Some(ModeView::SingleColor(RGB(0xFF, 0x55, 0xFF)))
    } else if l == "yellow"@ {
        Some(ModeView::SingleColor(RGB(0xFF, 0xFF, 0x55)))
    } else {
        None
    }
}

/// Whether `r` is what reading the palette file at `path` gives, `read`
/// being the text that was read or the reason why none was.
pub open spec fn is_read_outcome(path: Seq<char>, read: Result<String, String>, r: Result<Mode, Error>) -> bool {
    match read {
        Err(msg) => r matches Err(Error::BadFile { path: p, msg: m }) && p@ == path && m@ == msg@,
        Ok(contents) => match self::palette::parsed(contents@) {
            Ok(colors) => r.is_ok() && r.unwrap()@ == (ModeView::Palette { palette: colors, name: path }),
            Err(e) => r == Err::<Mode, Error>(e),
        },
    }
}

impl Mode {
    /// The CGA palette as a mode.
    pub fn cga_palette() -> (m: Mode)
        ensures
            m@ == (ModeView::Palette { palette: self::cga::all_rgb(), name: "CGA"@ }),
    {
        Mode::Palette { palette: self::cga::all(), name: String::from_str("CGA") }
    }

    /// The mode with the given name, if it is one of the known names.
    pub fn named(s: &str) -> (r: Option<Mode>)
        ensures
            r.is_some() == mode_named(s@).is_some(),
            r.is_some() ==> r.unwrap()@ == mode_named(s@).unwrap(),
    {
        let all = chars_of(s);
        let chars = trim_range(&all, 0, all.len());
        assert(all@.subrange(0, all@.len() as int) =~= s@);
        if is_name(&chars, "white") || is_name(&chars, "black") || is_name(&chars, "bw") {
            Some(Mode::BlackAndWhite)
        } else if is_name(&chars, "c") || is_name(&chars, "color") {
            Some(Mode::Color)
        } else if is_name(&chars, "cga") {
            Some(Mode::cga_palette())
        } else if is_name(&chars, "blue") {
            Some(Mode::SingleColor(RGB(0x00, 0x00, 0xAA)))
        } else if is_name(&chars, "green") {
            Some(Mode::SingleColor(RGB(0x00, 0xAA, 0x00)))
        } else if is_name(&chars, "cyan") {
            Some(Mode::SingleColor(RGB(0x00, 0xAA, 0xAA)))
        } else if is_name(&chars, "red") {
            Some(Mode::SingleColor(RGB(0xAA, 0x00, 0x00)))
        } else if is_name(&chars, "magenta") {
            Some(Mode::SingleColor(RGB(0xAA, 0x00, 0xAA)))
        } else if is_name(&chars, "brown") {
            Some(Mode::SingleColor(RGB(0xAA, 0x55, 0x00)))
        } else if is_name(&chars, "light_gray") {
            Some(Mode::SingleColor(RGB(0xAA, 0xAA, 0xAA)))
        } else if is_name(&chars, "gray") {
            Some(Mode::SingleColor(RGB(0x55, 0x55, 0x55)))
        } else if is_name(&chars, "light_blue") {
            Some(Mode::SingleColor(RGB(0x55, 0x55, 0xFF)))
        } else if is_name(&chars, "light_green") {
            Some(Mode::SingleColor(RGB(0x55, 0xFF, 0x55)))
        } else if is_name(&chars, "light_cyan") {
            Some(Mode::SingleColor(RGB(0x55, 0xFF, 0xFF)))
        } else if is_name(&chars, "light_red") {
            Some(Mode::SingleColor(RGB(0xFF, 0x55, 0x55)))
        } else if is_name(&chars, "light_magenta") {
            Some(Mode::SingleColor(RGB(0xFF, 0x55, 0xFF)))
        } else if is_name(&chars, "yellow") {
            Some(Mode::SingleColor(RGB(0xFF, 0xFF, 0x55)))
        } else {
            None
        }
    }

    /// The palette mode that reading the palette file at `path` gives:
    /// where the file could not be read, the error that names the path and
    /// carries the reason; else what the text of the file gives.
    pub fn from_read(path: &str, read: Result<String, String>) -> (r: Result<Mode, Error>)
        ensures
            is_read_outcome(path@, read, r),
    {
        match read {
            Ok(contents) => Mode::from_palette_text(path, contents.as_str()),
            Err(msg) => Err(Error::BadFile { path: String::from_str(path), msg }),
        }
    }

    /// The mode that `s` asks for: one of the known names, or else the
    /// palette in the file at the path `s`, which `read` reads. `read` is
    /// not called for a known name.
    pub fn from_name_or_file<F: FnOnce() -> Result<String, String>>(s: &str, read: F) -> (r: Result<Mode, Error>)
        requires
            read.requires(()),
        ensures
            match mode_named(s@) {
                Some(mode) => r.is_ok() && r.unwrap()@ == mode,
                None => exists|got: Result<String, String>| read.ensures((), got) && is_read_outcome(s@, got, r),
            },
    {
        match Mode::named(s) {
            Some(mode) => Ok(mode),
            None => {
                let got = read();
                let ghost seen = got;
                let r = Mode::from_read(s, got);
                assert(read.ensures((), seen) && is_read_outcome(s@, seen, r));
                r
            },
        }
    }

    /// The palette mode that the text of a palette file gives; `name` is
    /// the path of the file.
    pub fn from_palette_text(name: &str, contents: &str) -> (r: Result<Mode, Error>)
        ensures
            match self::palette::parsed(contents@) {
                Ok(colors) => r.is_ok() && r.unwrap()@ == (ModeView::Palette { palette: colors, name: name@ }),
                Err(e) => r == Err::<Mode, Error>(e),
            },
    {
        match parse_palette(contents) {
            Ok(palette) => Ok(Mode::Palette { palette, name: String::from_str(name) }),
            Err(e) => Err(e),
        }
    }
}

/// The label of a color mode.
pub open spec fn mode_label(mode: ModeView) -> Seq<char> {
    match mode {
        ModeView::Palette { name, .. } => "custom_palette_"@ + name,
        ModeView::Color => "color"@,
        ModeView::SingleColor(color) => "single_color_"@ + hex_digits(hex_of(color) as nat),
        ModeView::BlackAndWhite => "bw"@,
    }
}

impl Mode {
    /// The label of the mode, as it stands in the names of output files.
    pub fn label(&self) -> (r: String)
        ensures
            r@ == mode_label(self@),
    {
        match self {
            Mode::Palette { name, .. } => {
                let mut r = String::from_str("custom_palette_");
                r.append(name.as_str());
                r
            },
            Mode::Color => String::from_str("color"),
            Mode::SingleColor(color) => {
                let mut r = String::from_str("single_color_");
                push_hex(&mut r, color.to_hex());
                r
            },
            Mode::BlackAndWhite => String::from_str("bw"),
        }
    }
}

impl Default for Mode {
    fn default() -> (m: Mode)
        ensures
            m == Mode::BlackAndWhite,
    {
        Mode::BlackAndWhite
    }
}

/// What can be wrong with a color mode.
#[derive(Debug, PartialEq, Eq)]
pub enum Error {
    /// A palette line is not six hexadecimal digits with an optional `0x` prefix.
    RGBParse,
    /// The palette has fewer than two colors.
    PaletteTooSmall,
    /// An unknown option.
    UnknownOption(String),
    /// A palette file could not be read.
    BadFile { path: String, msg: String },
}

/// Makes a quantizer from `palette`: it returns the pair of the nearest
/// color and the distance left, channel by channel.
pub fn quantize_palette(palette: &[RGB<u8>]) -> (f: impl Fn(RGB<i64>) -> (RGB<i64>, RGB<i64>))
    ensures
        forall|c: RGB<i64>| #[trigger] f.requires((c,)),
        forall|c: RGB<i64>, out: (RGB<i64>, RGB<i64>)| #[trigger]
            f.ensures((c,), out) ==> self::palette::palette_quantized(palette@, c, out),
{
    self::palette::quantize(palette)
}

/// Parses a palette: one color on each line, as six hexadecimal digits with
/// an optional `0x` before them. Lines that are blank or start with `//`
/// are ignored. A palette has at least two colors.
pub fn parse_palette(s: &str) -> (r: Result<Vec<RGB<u8>>, Error>)
    ensures
        match self::palette::parsed(s@) {
            Ok(colors) => r.is_ok() && r.unwrap()@ == colors,
            Err(e) => r == Err::<Vec<RGB<u8>>, Error>(e),
        },
{
    self::palette::parse(s)
}

/// What an error of the color mode says.
pub open spec fn color_error_message(e: Error) -> Seq<char> {
    match e {
        Error::UnknownOption(opt) => "unknown color option "@ + opt@ + "\n"@,
        Error::PaletteTooSmall => "user-specified palette has 0 or 1 color; must have at least two\n"@,
        Error::RGBParse =>
            "could not parse to a RGB value: bad format. must be exactly six hexidecimal characters, with optional 0x prefix"@,
        Error::BadFile { path, msg } => "could not load color palette from file at path \""@ + path@ + "\": "@
            + msg@,
    }
}

impl Error {
    /// The message for the user.
    pub fn message(&self) -> (r: String)
        ensures
            r@ == color_error_message(*self),
    {
        match self {
            Error::UnknownOption(opt) => {
                let mut r = String::from_str("unknown color option ");
                r.append(opt.as_str());
                r.append("\n");
                r
            },
            Error::PaletteTooSmall => String::from_str(
                "user-specified palette has 0 or 1 color; must have at least two\n",
            ),
            Error::RGBParse => String::from_str(
                "could not parse to a RGB value: bad format. must be exactly six hexidecimal characters, with optional 0x prefix",
            ),
            Error::BadFile { path, msg } => {
                let mut r = String::from_str("could not load color palette from file at path \"");
                r.append(path.as_str());
                r.append("\": ");
                r.append(msg.as_str());
                r
            },
        }
    }
}

} // verus!
