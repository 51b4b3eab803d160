//! A pair of colors for two-tone output.
use vstd::prelude::*;
use vstd::string::StringExecFns;
use crate::color::rgb::{rgb_of_hex, RGB};
use crate::text::{after_first_word, chars_of, first_word, hex_digit, hex_digits, hex_value, next_word, push_hex};

verus! {

/// The two colors of a two-tone image.
#[derive(Copy, Clone, PartialEq, Debug, Eq)]
pub struct Palette {
    /// The color of full luminance.
    pub front: RGB<u8>,
    /// The color of no luminance.
    pub back: RGB<u8>,
}

/// What can be wrong with the text of a pair of colors.
#[derive(Copy, Clone, PartialEq, Debug, Eq)]
pub enum PaletteError {
    /// A number above `0xFFFFFF`.
    UnknownColor(u32),
    /// A word that is no hexadecimal number of 32 bits.
    CouldNotParse,
    /// Fewer than two words.
    NotPair,
}

/// The number that hexadecimal digits spell.
pub open spec fn hex_fold(digits: Seq<char>) -> nat
    decreases digits.len(),
{
    if digits.len() == 0 {
        0
    } else {
        16 * hex_fold(digits.drop_last()) + hex_value(digits.last()) as nat
    }
}

/// The digits of a word: the word without a leading `+`.
pub open spec fn unsigned_digits(word: Seq<char>) -> Seq<char> {
    if word.len() > 0 && word[0] == '+' {
        word.subrange(1, word.len() as int)
    } else {
        word
    }
}

/// Whether every character is a hexadecimal digit.
pub open spec fn all_hex(digits: Seq<char>) -> bool {
    forall|i: int| 0 <= i < digits.len() ==> hex_value(#[trigger] digits[i]) >= 0
}

/// The color that a word names: a hexadecimal number of at most 32 bits,
/// after an optional `+`, that is at most `0xFFFFFF`.
pub open spec fn word_color(word: Seq<char>) -> Result<RGB<u8>, PaletteError> {
    let digits = unsigned_digits(word);
    if digits.len() == 0 || !all_hex(digits) || hex_fold(digits) > u32::MAX {
        Err(PaletteError::CouldNotParse)
    } else if hex_fold(digits) > 0xFF_FFFF {
        Err(PaletteError::UnknownColor(hex_fold(digits) as u32))
    } else {
        Ok(rgb_of_hex(hex_fold(digits) as u32))
    }
}

/// The pair that a text names: its first word is the front color and its
/// second the back color; what follows is ignored.
pub open spec fn parsed_pair(text: Seq<char>) -> Result<Palette, PaletteError> {
    let front = first_word(text);
    let back = first_word(after_first_word(text));
    if front.len() == 0 || back.len() == 0 {
        Err(PaletteError::NotPair)
    } else {
        match word_color(front) {
            Err(e) => Err(e),
            Ok(f) => match word_color(back) {
                Err(e) => Err(e),
                Ok(b) => Ok((Palette { front: f, back: b })),
            },
        }
    }
}

/// A number is at least the number that its first digits spell.
pub proof fn lemma_hex_fold_grows(digits: Seq<char>, k: int)
    requires
        0 <= k <= digits.len(),
        all_hex(digits),
    ensures
        hex_fold(digits.subrange(0, k)) <= hex_fold(digits),
    decreases digits.len(),
{
    if k == digits.len() {
        assert(digits.subrange(0, k) =~= digits);
    } else {
        lemma_hex_fold_grows(digits.drop_last(), k);
        assert(digits.drop_last().subrange(0, k) =~= digits.subrange(0, k));
        assert(hex_value(digits.last()) >= 0);
    }
}

/// Reads the color that the characters from `from` up to `to` name.
pub fn parse_word(chars: &Vec<char>, from: usize, to: usize) -> (r: Result<RGB<u8>, PaletteError>)
    requires
        from <= to <= chars@.len(),
    ensures
        r == word_color(chars@.subrange(from as int, to as int)),
{
    let ghost word = chars@.subrange(from as int, to as int);
    let start: usize = if from < to && chars[from] == '+' {
        from + 1
    } else {
        from
    };
    let ghost digits = unsigned_digits(word);
    assert(digits =~= chars@.subrange(start as int, to as int));
    if start == to {
        return Err(PaletteError::CouldNotParse);
    }
    let mut value: u64 = 0;
    let mut i: usize = start;
    while i < to
        invariant
            start <= i <= to <= chars@.len(),
            start < to,
            digits == chars@.subrange(start as int, to as int),
            digits == unsigned_digits(chars@.subrange(from as int, to as int)),
            value == hex_fold(digits.subrange(0, i - start)),
            value <= u32::MAX,
            forall|j: int| 0 <= j < i - start ==> hex_value(#[trigger] digits[j]) >= 0,
        decreases to - i,
    {
        assert(digits[i - start] == chars@[i as int]);
        assert(digits.subrange(0, i - start + 1).drop_last() =~= digits.subrange(0, i - start));
        match hex_digit(chars[i]) {
            None => {
                assert(hex_value(digits[i - start]) < 0);
                return Err(PaletteError::CouldNotParse);
            },
            Some(d) => {
                value = value * 16 + (d as u64);
                assert(value == hex_fold(digits.subrange(0, i - start + 1)));
                if value > 0xFFFF_FFFF {
                    proof {
                        if all_hex(digits) {
                            lemma_hex_fold_grows(digits, i - start + 1);
                        }
                    }
                    return Err(PaletteError::CouldNotParse);
                }
            },
        }
        i += 1;
    }
    assert(digits.subrange(0, to - start) =~= digits);
    if value > 0xFF_FFFF {
        Err(PaletteError::UnknownColor(value as u32))
    } else {
        Ok(RGB::from_hex(value as u32))
    }
}

impl Palette {
    /// Reads a pair of colors from two hexadecimal numbers separated by
    /// white space, such as `ff0000 00aa00`.
    pub fn parse(s: &str) -> (r: Result<Palette, PaletteError>)
        ensures
            r == parsed_pair(s@),
    {
        let chars = chars_of(s);
        assert(chars@.subrange(0, chars@.len() as int) =~= s@);
        let (front_start, front_end) = next_word(&chars, 0);
        let (back_start, back_end) = next_word(&chars, front_end);
        if front_start == front_end || back_start == back_end {
            return Err(PaletteError::NotPair);
        }
        let front = match parse_word(&chars, front_start, front_end) {
            Ok(front) => front,
            Err(e) => {
                return Err(e);
            },
        };
        match parse_word(&chars, back_start, back_end) {
            Ok(back) => Ok(Palette { front, back }),
            Err(e) => Err(e),
        }
    }
}

/// What an error in the text of a pair of colors says.
pub open spec fn pair_error_message(e: PaletteError) -> Seq<char> {
    match e {
        PaletteError::UnknownColor(n) => "unknown color "@ + hex_digits(n as nat)
            + " must be between 0x00 and 0xFF_FF_FF"@,
        PaletteError::CouldNotParse => "invalid hexadecimal number"@,
        PaletteError::NotPair =>
            "could not parse palette input; need to supply a pair of hexadecimal numbers between 0x00 and 0xFF_FF_FF, eg, \"0xff0000 0x00aa_00\""@,
    }
}

impl PaletteError {
    /// The message for the user.
    pub fn message(&self) -> (r: String)
        ensures
            r@ == pair_error_message(*self),
    {
        match self {
            PaletteError::UnknownColor(n) => {
                let mut r = String::from_str("unknown color ");
                push_hex(&mut r, *n);
                r.append(" must be between 0x00 and 0xFF_FF_FF");
                r
            },
            PaletteError::CouldNotParse => String::from_str("invalid hexadecimal number"),
            PaletteError::NotPair => String::from_str(
                "could not parse palette input; need to supply a pair of hexadecimal numbers between 0x00 and 0xFF_FF_FF, eg, \"0xff0000 0x00aa_00\"",
            ),
        }
    }
}

impl std::str::FromStr for Palette {
    type Err = PaletteError;

    fn from_str(s: &str) -> (r: Result<Self, Self::Err>)
        ensures
            r == parsed_pair(s@),
    {
        Palette::parse(s)
    }
}

} // verus!
