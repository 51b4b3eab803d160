//! Configuration errors.
use vstd::prelude::*;
use vstd::string::StringExecFns;
use crate::color::color_error_message;
use crate::text::{decimal_digits, push_decimal};

verus! {

/// What can be wrong with a configuration, found before any pixel is processed.
#[derive(Debug, PartialEq, Eq)]
pub enum Error {
    /// A bit depth outside `1..=7`.
    BadBitDepth(u8),
    /// The color mode could not be made.
    Color(crate::color::Error),
    /// A palette mode was asked for together with a bit depth above one.
    CustomPaletteIncompatibleWithDepth,
}

/// What a configuration error says.
pub open spec fn error_message(e: Error) -> Seq<char> {
    match e {
        Error::BadBitDepth(n) => "configuration error: bit depth must be between 1 and 7, but was "@
            + decimal_digits(n as nat),
        Error::Color(err) => "configuration error for: "@ + color_error_message(err),
        Error::CustomPaletteIncompatibleWithDepth =>
            "error: the custom palette --color option is incompatible with the --depth option"@,
    }
}

impl Error {
    /// The message for the user.
    pub fn message(&self) -> (r: String)
        ensures
            r@ == error_message(*self),
    {
        match self {
            Error::BadBitDepth(n) => {
                let mut r = String::from_str("configuration error: bit depth must be between 1 and 7, but was ");
                push_decimal(&mut r, *n as u32);
                r
            },
            Error::Color(err) => {
                let mut r = String::from_str("configuration error for: ");
                let inner = err.message();
                r.append(inner.as_str());
                r
            },
            Error::CustomPaletteIncompatibleWithDepth => String::from_str(
                "error: the custom palette --color option is incompatible with the --depth option",
            ),
        }
    }
}

} // verus!
