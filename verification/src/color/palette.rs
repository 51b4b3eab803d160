//! Quantizing to the nearest color of a palette.
use vstd::prelude::*;
use vstd::slice::slice_to_vec;
use crate::color::rgb::{RGB, level_to_units, level_units, rgb_units};
use crate::color::Error;
use crate::pixel::{saturate, saturate_i128};
use crate::text::{chars_of, first_line, hex_digit, hex_value, lemma_first_line, trim_range, trimmed};

verus! {

/// The distance between a channel value and an 8-bit level, in fixed-point units.
pub open spec fn channel_distance(value: i64, level: u8) -> int {
    if value >= level_units(level) {
        value - level_units(level)
    } else {
        level_units(level) - value
    }
}

/// The sum of the distances of the three channels.
pub open spec fn distance(c: RGB<i64>, p: RGB<u8>) -> int {
    channel_distance(c.0, p.0) + channel_distance(c.1, p.1) + channel_distance(c.2, p.2)
}

/// The same distance between two colors of a palette.
pub open spec fn palette_distance(p: RGB<u8>, q: RGB<u8>) -> int {
    distance(rgb_units(p), q)
}

/// Whether entry `i` is the first of the entries of `palette` nearest to `c`.
pub open spec fn is_nearest(palette: Seq<RGB<u8>>, c: RGB<i64>, i: int) -> bool {
    &&& 0 <= i < palette.len()
    &&& forall|j: int| 0 <= j < i ==> distance(c, #[trigger] palette[j]) > distance(c, palette[i])
    &&& forall|j: int| i <= j < palette.len() ==> distance(c, #[trigger] palette[j]) >= distance(c, palette[i])
}

/// What is left of `c` once the color `p` is taken away, channel by channel.
pub open spec fn residual(c: RGB<i64>, p: RGB<u8>) -> RGB<i64> {
    RGB(
        saturate(c.0 - level_units(p.0)),
        saturate(c.1 - level_units(p.1)),
        saturate(c.2 - level_units(p.2)),
    )
}

/// Whether `out` is the first nearest color of `palette` to `c` together
/// with the residual. With an empty palette both are black.
pub open spec fn palette_quantized(palette: Seq<RGB<u8>>, c: RGB<i64>, out: (RGB<i64>, RGB<i64>)) -> bool {
    if palette.len() == 0 {
        out == (RGB(0i64, 0i64, 0i64), RGB(0i64, 0i64, 0i64))
    } else {
        exists|i: int| is_nearest(palette, c, i) && out == (rgb_units(palette[i]), residual(c, palette[i]))
    }
}

fn channel_gap(value: i64, level: u8) -> (d: i128)
    ensures
        d == channel_distance(value, level),
        0 <= d <= 0x1_0000_0000_0000_0000,
{
    let units = level_to_units(level) as i128;
    let wide = value as i128;
    if wide >= units {
        wide - units
    } else {
        units - wide
    }
}

fn gap(c: &RGB<i64>, p: &RGB<u8>) -> (d: i128)
    ensures
        d == distance(*c, *p),
{
    channel_gap(c.0, p.0) + channel_gap(c.1, p.1) + channel_gap(c.2, p.2)
}

/// Finds the first color of `palette` nearest to `c`, by the sum of the
/// channel distances, and returns it with what is left of `c`.
pub fn nearest(palette: &Vec<RGB<u8>>, c: RGB<i64>) -> (out: (RGB<i64>, RGB<i64>))
    ensures
        palette_quantized(palette@, c, out),
{
    if palette.len() == 0 {
        return (RGB(0, 0, 0), RGB(0, 0, 0));
    }
    let mut best: usize = 0;
    let mut best_gap: i128 = gap(&c, &palette[0]);
    let mut j: usize = 1;
    while j < palette.len()
        invariant
            1 <= j <= palette@.len(),
            best < j,
            best_gap == distance(c, palette@[best as int]),
            forall|k: int| 0 <= k < best ==> distance(c, #[trigger] palette@[k]) > best_gap,
            forall|k: int| best <= k < j ==> distance(c, #[trigger] palette@[k]) >= best_gap,
        decreases palette@.len() - j,
    {
        let d = gap(&c, &palette[j]);
        if d < best_gap {
            best = j;
            best_gap = d;
        }
        j += 1;
    }
    let p = palette[best];
    assert(is_nearest(palette@, c, best as int));
    let chosen = RGB(level_to_units(p.0), level_to_units(p.1), level_to_units(p.2));
    let left = RGB(
        saturate_i128((c.0 as i128) - (level_to_units(p.0) as i128)),
        saturate_i128((c.1 as i128) - (level_to_units(p.1) as i128)),
        saturate_i128((c.2 as i128) - (level_to_units(p.2) as i128)),
    );
    (chosen, left)
}

/// Makes a quantizer from `palette`: it returns the pair of the nearest
/// color and the distance left, channel by channel.
pub fn quantize(palette: &[RGB<u8>]) -> (f: impl Fn(RGB<i64>) -> (RGB<i64>, RGB<i64>))
    ensures
        forall|c: RGB<i64>| #[trigger] f.requires((c,)),
        forall|c: RGB<i64>, out: (RGB<i64>, RGB<i64>)| #[trigger]
            f.ensures((c,), out) ==> palette_quantized(palette@, c, out),
{
    let colors = slice_to_vec(palette);
    move |c: RGB<i64>| -> (out: (RGB<i64>, RGB<i64>))
        ensures
            palette_quantized(colors@, c, out),
        {
            nearest(&colors, c)
        }
}

/// A palette color moved by less than half its distance to every other
/// color of the palette is quantized back to that color, and the move is
/// what is left.
pub proof fn lemma_perturbed_color(palette: Seq<RGB<u8>>, i: int, c: RGB<i64>, out: (RGB<i64>, RGB<i64>))
    requires
        0 <= i < palette.len(),
        forall|j: int|
            0 <= j < palette.len() && palette[j] != palette[i] ==> 2 * distance(c, palette[i]) < palette_distance(
                palette[i],
                #[trigger] palette[j],
            ),
        palette_quantized(palette, c, out),
    ensures
        out == (rgb_units(palette[i]), residual(c, palette[i])),
{
    let k = choose|k: int| is_nearest(palette, c, k) && out == (rgb_units(palette[k]), residual(c, palette[k]));
    if palette[k] != palette[i] {
        lemma_triangle(c, palette[i], palette[k]);
        assert(distance(c, palette[k]) > distance(c, palette[i]));
        if i < k {
            assert(distance(c, palette[i]) > distance(c, palette[k]));
        } else {
            assert(distance(c, palette[i]) >= distance(c, palette[k]));
        }
    }
}

/// The distance between two colors is at most the sum of their distances
/// to any third value.
pub proof fn lemma_triangle(c: RGB<i64>, p: RGB<u8>, q: RGB<u8>)
    ensures
        palette_distance(p, q) <= distance(c, p) + distance(c, q),
{
}

/// Whether a trimmed line names a color: it is not empty and does not
/// start with `//`.
pub open spec fn is_entry(line: Seq<char>) -> bool {
    line.len() > 0 && !(line.len() >= 2 && line[0] == '/' && line[1] == '/')
}

/// The lines of `text` that name a color, trimmed, in their order.
pub open spec fn entries(text: Seq<char>) -> Seq<Seq<char>>
    decreases text.len(),
{
    let line = trimmed(first_line(text));
    let first = if is_entry(line) {
        seq![line]
    } else {
        Seq::empty()
    };
    if first_line(text).len() >= text.len() {
        first
    } else {
        first + entries(text.subrange(first_line(text).len() as int + 1, text.len() as int))
    }
}

/// The digits of an entry: the entry without a leading `0x`.
pub open spec fn digits_of(entry: Seq<char>) -> Seq<char> {
    if entry.len() >= 2 && entry[0] == '0' && entry[1] == 'x' {
        entry.subrange(2, entry.len() as int)
    } else {
        entry
    }
}

/// The color that an entry names: six hexadecimal digits, two for each
/// channel, after an optional `0x`.
pub open spec fn color_of(entry: Seq<char>) -> Option<RGB<u8>> {
    let d = digits_of(entry);
    if d.len() == 6 && forall|i: int| 0 <= i < 6 ==> hex_value(#[trigger] d[i]) >= 0 {
        Some(
            RGB(
                (16 * hex_value(d[0]) + hex_value(d[1])) as u8,
                (16 * hex_value(d[2]) + hex_value(d[3])) as u8,
                (16 * hex_value(d[4]) + hex_value(d[5])) as u8,
            ),
        )
    } else {
        None
    }
}

/// The palette that `text` describes: one color on each line, as six
/// hexadecimal digits with an optional `0x` before them. Lines that are
/// blank or start with `//` are passed over. Fewer than two colors are too
/// few; a line that is no color is an error.
pub open spec fn parsed(text: Seq<char>) -> Result<Seq<RGB<u8>>, Error> {
    let lines = entries(text);
    if lines.len() < 2 {
        Err(Error::PaletteTooSmall)
    } else if exists|i: int| 0 <= i < lines.len() && color_of(#[trigger] lines[i]).is_none() {
        Err(Error::RGBParse)
    } else {
        Ok(Seq::new(lines.len(), |i: int| color_of(lines[i]).unwrap()))
    }
}

fn hex_pair(entry: &Vec<char>, at: usize) -> (v: Option<u8>)
    requires
        at + 1 < entry@.len(),
    ensures
        v.is_some() <==> hex_value(entry@[at as int]) >= 0 && hex_value(entry@[at + 1]) >= 0,
        v.is_some() ==> v.unwrap() == 16 * hex_value(entry@[at as int]) + hex_value(entry@[at + 1]),
{
    let n = entry.len();
    match (hex_digit(entry[at]), hex_digit(entry[at + 1])) {
        (Some(high), Some(low)) => Some(16 * high + low),
        _ => None,
    }
}

/// Reads a color from an entry.
pub fn parse_color(entry: &Vec<char>) -> (r: Option<RGB<u8>>)
    ensures
        r == color_of(entry@),
{
    let n = entry.len();
    let skip: usize = if n >= 2 && entry[0] == '0' && entry[1] == 'x' {
        2
    } else {
        0
    };
    let ghost d = digits_of(entry@);
    assert(d =~= entry@.subrange(skip as int, n as int));
    if n - skip != 6 {
        return None;
    }
    assert(forall|i: int| 0 <= i < 6 ==> d[i] == entry@[skip + i]);
    match (hex_pair(entry, skip), hex_pair(entry, skip + 2), hex_pair(entry, skip + 4)) {
        (Some(r), Some(g), Some(b)) => {
            assert forall|i: int| 0 <= i < 6 implies hex_value(#[trigger] d[i]) >= 0 by {
                assert(i == 0 || i == 1 || i == 2 || i == 3 || i == 4 || i == 5);
            }
            Some(RGB(r, g, b))
        },
        _ => {
            assert(exists|i: int| 0 <= i < 6 && hex_value(#[trigger] d[i]) < 0) by {
                if hex_value(d[0]) < 0 {
                } else if hex_value(d[1]) < 0 {
                } else if hex_value(d[2]) < 0 {
                } else if hex_value(d[3]) < 0 {
                } else if hex_value(d[4]) < 0 {
                } else {
                    assert(hex_value(d[5]) < 0);
                }
            }
            None
        },
    }
}

/// Splits `text` into its entries.
pub fn split_entries(text: &Vec<char>) -> (found: Vec<Vec<char>>)
    ensures
        found@.len() == entries(text@).len(),
        forall|k: int| 0 <= k < found@.len() ==> (#[trigger] found@[k])@ == entries(text@)[k],
{
    let n = text.len();
    let mut found: Vec<Vec<char>> = Vec::new();
    let ghost mut seen: Seq<Seq<char>> = Seq::empty();
    let mut start: usize = 0;
    let mut more = true;
    assert(text@.subrange(0, n as int) =~= text@);
    while more
        invariant
            n == text@.len(),
            start <= n,
            found@.len() == seen.len(),
            forall|k: int| 0 <= k < found@.len() ==> (#[trigger] found@[k])@ == seen[k],
            more ==> entries(text@) == seen + entries(text@.subrange(start as int, n as int)),
            !more ==> entries(text@) == seen,
        decreases n - start + (if more { 1int } else { 0int }),
    {
        let ghost rest = text@.subrange(start as int, n as int);
        let mut end: usize = start;
        while end < n && text[end] != '\n'
            invariant
                start <= end <= n,
                n == text@.len(),
                forall|j: int| start <= j < end ==> text@[j] != '\n',
            decreases n - end,
        {
            end += 1;
        }
        proof {
            lemma_first_line(rest, end - start);
            assert(rest.subrange(0, end - start) =~= text@.subrange(start as int, end as int));
            if end < n {
                assert(rest.subrange(end - start + 1, rest.len() as int) =~= text@.subrange(end + 1, n as int));
            }
        }
        let line = trim_range(text, start, end);
        let ghost before = seen;
        if line.len() > 0 && !(line.len() >= 2 && line[0] == '/' && line[1] == '/') {
            proof {
                seen = seen.push(line@);
            }
            found.push(line);
        }
        proof {
            let first = if is_entry(trimmed(first_line(rest))) {
                seq![trimmed(first_line(rest))]
            } else {
                Seq::empty()
            };
            assert(seen =~= before + first);
            if end < n {
                assert(before + (first + entries(text@.subrange(end + 1, n as int))) =~= seen + entries(
                    text@.subrange(end + 1, n as int),
                ));
            }
        }
        if end < n {
            start = end + 1;
        } else {
            more = false;
        }
    }
    found
}

/// Parses a palette: one color on each line, as six hexadecimal digits with
/// an optional `0x` before them. Lines that are blank or start with `//`
/// are ignored. A palette has at least two colors.
pub fn parse(s: &str) -> (r: Result<Vec<RGB<u8>>, Error>)
    ensures
        match parsed(s@) {
            Ok(colors) => r.is_ok() && r.unwrap()@ == colors,
            Err(e) => r == Err::<Vec<RGB<u8>>, Error>(e),
        },
{
    let text = chars_of(s);
    let found = split_entries(&text);
    if found.len() < 2 {
        return Err(Error::PaletteTooSmall);
    }
    let ghost lines = entries(s@);
    let mut colors: Vec<RGB<u8>> = Vec::new();
    let mut i: usize = 0;
    while i < found.len()
        invariant
            i <= found@.len(),
            found@.len() == lines.len(),
            found@.len() >= 2,
            lines == entries(s@),
            forall|k: int| 0 <= k < found@.len() ==> (#[trigger] found@[k])@ == lines[k],
            colors@.len() == i,
            forall|k: int| 0 <= k < i ==> color_of(#[trigger] lines[k]) == Some(colors@[k]),
        decreases found@.len() - i,
    {
        match parse_color(&found[i]) {
            Some(color) => colors.push(color),
            None => {
                assert(color_of(lines[i as int]).is_none());
                return Err(Error::RGBParse);
            },
        }
        i += 1;
    }
    assert(colors@ =~= Seq::new(lines.len(), |i: int| color_of(lines[i]).unwrap()));
    Ok(colors)
}

impl std::str::FromStr for RGB<u8> {
    type Err = Error;

    fn from_str(s: &str) -> (r: Result<Self, Self::Err>)
        ensures
            r == match color_of(s@) {
                Some(color) => Ok::<RGB<u8>, Error>(color),
                None => Err::<RGB<u8>, Error>(Error::RGBParse),
            },
    {
        let entry = chars_of(s);
        match parse_color(&entry) {
            Some(color) => Ok(color),
            None => Err(Error::RGBParse),
        }
    }
}

} // verus!
