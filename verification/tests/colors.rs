use dither::color::cga::{all, UnknownCGAColorError};
use dither::color::palette::{nearest, parse, parse_color};
use dither::color::{parse_palette, quantize_palette, Error, Mode, Palette, PaletteError, CGA, RGB};
use dither::pixel::{Pixel, FULL_SCALE, UNITS_PER_LEVEL};
use std::collections::HashSet;
use dither::{clamp_to_u8, create_convert_quantized_to_palette_func, create_quantize_n_bits_func};

const CGA_TEXT: &str = "
0x000000
0x0000AA
0x00AA00
0x00AAAA
0xAA00AA
0xAA0000
0xAA5500
0xAAAAAA
0x555555
0x5555FF
0x55FF55
0x55FFFF
0xFF5555
0xFF55FF
0xFFFF55
0xFFFFFF";

fn units(c: RGB<u8>) -> RGB<i64> {
    RGB::from(c)
}

#[test]
fn mod_test_parse() {
    const GARBAGE: &str = "ASDASLKJAS";

    let tt: Vec<(&str, Mode)> = vec![
        ("bw", Mode::BlackAndWhite),
        ("c", Mode::Color),
        ("color", Mode::Color),
        ("RED", Mode::SingleColor(RGB::from(CGA::Red))),
        ("blue", Mode::SingleColor(RGB::from(CGA::Blue))),
        ("LigHT_CYAN", Mode::SingleColor(RGB::from(CGA::LightCyan))),
        ("cga", Mode::cga_palette()),
    ];
    for (s, want) in tt {
        assert_eq!(Mode::named(s).unwrap(), want);
    }
    assert!(Mode::named(GARBAGE).is_none());

    let want_palette: HashSet<RGB<u8>> = all().iter().cloned().collect();
    if let Mode::Palette {
        palette: got_palette,
        ..
    } = Mode::from_palette_text("temp_cga.plt", CGA_TEXT).unwrap()
    {
        assert_eq!(want_palette, got_palette.iter().cloned().collect());
    } else {
        panic!("bad")
    }
}

#[test]
fn palette_test_parse() {
    const GARBAGE: &str = "ASDASLKJAS";

    let tt: Vec<(&str, Mode)> = vec![
        ("bw", Mode::BlackAndWhite),
        ("c", Mode::Color),
        ("color", Mode::Color),
        ("RED", Mode::SingleColor(RGB::from(CGA::Red))),
        ("blue", Mode::SingleColor(RGB::from(CGA::Blue))),
        ("LigHT_CYAN", Mode::SingleColor(RGB::from(CGA::LightCyan))),
        ("cga", Mode::cga_palette()),
    ];
    for (s, want) in tt {
        assert_eq!(Mode::named(s).unwrap(), want);
    }
    assert!(Mode::named(GARBAGE).is_none());

    let want_palette: HashSet<RGB<u8>> = all().iter().cloned().collect();
    let got_palette: Vec<RGB<u8>> = parse(CGA_TEXT).unwrap();
    assert_eq!(want_palette, got_palette.iter().cloned().collect());
    // the text lists magenta before red
    let mut want = all();
    want.swap(4, 5);
    assert_eq!(got_palette, want);
}

#[test]
fn mode_names_are_trimmed_and_fold_case() {
    assert_eq!(Mode::named("  Bw\n"), Some(Mode::BlackAndWhite));
    assert_eq!(Mode::named("white"), Some(Mode::BlackAndWhite));
    assert_eq!(Mode::named("BLACK"), Some(Mode::BlackAndWhite));
    assert_eq!(Mode::named("yellow"), Some(Mode::SingleColor(RGB(0xFF, 0xFF, 0x55))));
    assert_eq!(Mode::named("light gray"), None);
    assert_eq!(Mode::named(""), None);
    assert_eq!(Mode::default(), Mode::BlackAndWhite);
}

#[test]
fn mode_labels() {
    assert_eq!(Mode::BlackAndWhite.label(), "bw");
    assert_eq!(Mode::Color.label(), "color");
    assert_eq!(Mode::SingleColor(RGB(0xAA, 0, 0)).label(), "single_color_aa0000");
    assert_eq!(Mode::SingleColor(RGB(0, 0x0A, 0xBC)).label(), "single_color_abc");
    assert_eq!(Mode::SingleColor(RGB(0, 0, 0)).label(), "single_color_0");
    assert_eq!(Mode::cga_palette().label(), "custom_palette_CGA");
}

#[test]
fn parse_palette_skips_comments_and_blank_lines() {
    let input = "
// BLACK
0x000000
// RED
0xFF0000
// GREEN
00ff00
";
    let want = vec![RGB(0, 0, 0), RGB(0xff, 0x00, 0x00), RGB(0x00, 0xff, 0x00)];
    assert_eq!(parse_palette(input).unwrap(), want);
    assert_eq!(parse(input).unwrap(), want);
    assert_eq!(
        parse_palette("  0x102030 \r\n\t\r\n   // note\r\nAbCdEf").unwrap(),
        vec![RGB(0x10, 0x20, 0x30), RGB(0xAB, 0xCD, 0xEF)]
    );
}

#[test]
fn parse_palette_wants_two_colors() {
    assert_eq!(parse_palette(""), Err(Error::PaletteTooSmall));
    assert_eq!(parse_palette("0x000000"), Err(Error::PaletteTooSmall));
    assert_eq!(parse_palette("// one\n\n0xffffff\n"), Err(Error::PaletteTooSmall));
    assert_eq!(parse_palette("zzz"), Err(Error::PaletteTooSmall));
    assert_eq!(
        parse_palette("0x000000\n0xffffff"),
        Ok(vec![RGB(0, 0, 0), RGB(255, 255, 255)])
    );
}

#[test]
fn parse_palette_rejects_bad_colors() {
    assert_eq!(parse_palette("0x000000\n0xfffff"), Err(Error::RGBParse));
    assert_eq!(parse_palette("0x000000\n0xfffffff"), Err(Error::RGBParse));
    assert_eq!(parse_palette("0x000000\n0xgggggg"), Err(Error::RGBParse));
    assert_eq!(parse_palette("0x000000\n/ 0xffffff"), Err(Error::RGBParse));
    assert_eq!(parse_palette("red\n0x000000\n0xffffff"), Err(Error::RGBParse));
    assert_eq!(parse_palette("0x00 0000\n0xffffff"), Err(Error::RGBParse));
}

#[test]
fn parse_color_reads_six_digits() {
    let chars = |s: &str| s.chars().collect::<Vec<char>>();
    assert_eq!(parse_color(&chars("0xff00aa")), Some(RGB(0xff, 0x00, 0xaa)));
    assert_eq!(parse_color(&chars("FF00AA")), Some(RGB(0xff, 0x00, 0xaa)));
    assert_eq!(parse_color(&chars("0x0000")), None);
    assert_eq!(parse_color(&chars("0X000000")), None);
    assert_eq!(parse_color(&chars("")), None);
    assert_eq!("0x123456".parse::<RGB<u8>>(), Ok(RGB(0x12, 0x34, 0x56)));
    assert_eq!("123".parse::<RGB<u8>>(), Err(Error::RGBParse));
}

#[test]
fn cga_hex_round_trip() {
    assert_eq!(CGA::Red.to_hex(), CGA::RED);
    assert_eq!(CGA::try_from_hex(CGA::RED), Some(CGA::Red));
    assert_eq!(CGA::try_from_hex(0x12_34_56), None);
    let colors: Vec<CGA> = CGA::iter().collect();
    assert_eq!(colors.len(), 16);
    assert_eq!(colors, CGA::colors());
    for (i, color) in colors.iter().enumerate() {
        assert_eq!(CGA::try_from_hex(color.to_hex()), Some(*color));
        assert_eq!(RGB::<u8>::from(*color).to_hex(), color.to_hex());
        assert_eq!(all()[i], RGB::from(*color));
        for other in &colors[..i] {
            assert_ne!(other, color);
        }
    }
    assert_eq!(colors[7], CGA::LightGray);
    assert_eq!(CGA::Brown.to_hex(), 0xAA5500);
    assert_eq!(CGA::White.to_hex(), 0xFFFFFF);
}

#[test]
fn cga_names() {
    assert_eq!(CGA::LightMagenta.name(), "LIGHT_MAGENTA");
    assert_eq!(CGA::from_name("light_magenta"), Ok(CGA::LightMagenta));
    assert_eq!(CGA::from_name("Gray"), Ok(CGA::Gray));
    assert_eq!(CGA::from_name("LIGHT_GRAY"), Ok(CGA::LightGray));
    assert_eq!(CGA::from_name("grey"), Err(UnknownCGAColorError));
    assert_eq!(CGA::from_name(" red"), Err(UnknownCGAColorError));
    assert_eq!("yellow".parse::<CGA>(), Ok(CGA::Yellow));
    for color in CGA::iter() {
        assert_eq!(CGA::from_name(color.name()), Ok(color));
    }
}

#[test]
fn cga_quantize_nearly_red() {
    let nearly_red = RGB(i64::from(0xAA - 3) * UNITS_PER_LEVEL, 0, 0);
    let (got, got_err) = CGA::quantize(nearly_red);
    assert_eq!(got, units(RGB::from(CGA::Red)));
    assert_eq!(got_err, RGB(-3 * UNITS_PER_LEVEL, 0, 0));
    assert_eq!((got, got_err), (RGB(71400, 0, 0), RGB(-1260, 0, 0)));
}

#[test]
fn cga_quantize_off_by_one() {
    let cyan = units(RGB::from(CGA::Cyan));
    let offset = RGB(UNITS_PER_LEVEL, -UNITS_PER_LEVEL, UNITS_PER_LEVEL);
    assert_eq!(CGA::quantize(cyan.plus(&offset)), (cyan, offset));
}

#[test]
fn palette_quantizer_finds_the_nearest_color() {
    let palette = vec![RGB(0, 0, 0), RGB(255, 255, 255), RGB(255, 0, 0)];
    let c = RGB(200 * 420 + 7, 10 * 420, 420 * 4 - 3);
    let want = (RGB(107100, 0, 0), RGB(-23093, 4200, 1677));
    assert_eq!(nearest(&palette, c), want);
    assert_eq!(quantize_palette(&palette)(c), want);
    assert_eq!(dither::color::palette::quantize(&palette)(c), want);
}

#[test]
fn palette_quantizer_takes_the_first_on_a_tie() {
    let c = RGB(5 * 420, 5 * 420, 0);
    assert_eq!(
        quantize_palette(&[RGB(10, 0, 0), RGB(0, 10, 0)])(c),
        (RGB(4200, 0, 0), RGB(-2100, 2100, 0))
    );
    assert_eq!(
        quantize_palette(&[RGB(0, 10, 0), RGB(10, 0, 0)])(c),
        (RGB(0, 4200, 0), RGB(2100, -2100, 0))
    );
}

#[test]
fn palette_quantizer_with_no_color() {
    assert_eq!(
        quantize_palette(&[])(RGB(1, 2, 3)),
        (RGB(0, 0, 0), RGB(0, 0, 0))
    );
}

#[test]
fn palette_quantizer_gives_a_perturbed_color_back() {
    let palette = all();
    // the nearest two CGA colors are 0x55 levels apart in one channel
    let half = 0x55 * UNITS_PER_LEVEL / 2;
    let quantize = quantize_palette(&palette);
    for p in &palette {
        for eps in [
            RGB(0, 0, 0),
            RGB(half - 1, 0, 0),
            RGB(0, 1 - half, 0),
            RGB(half / 3, -half / 3, half / 3 - 1),
        ] {
            let (r, g, b) = (
                i64::from(p.0) * UNITS_PER_LEVEL + eps.0,
                i64::from(p.1) * UNITS_PER_LEVEL + eps.1,
                i64::from(p.2) * UNITS_PER_LEVEL + eps.2,
            );
            assert_eq!(quantize(RGB(r, g, b)), (units(*p), eps));
        }
    }
}

#[test]
fn rgb_convert_with_maps_each_channel() {
    assert_eq!(
        RGB(2_u8, 5, 8).convert_with(|channel| channel + 10),
        RGB(12_u8, 15, 18)
    );
}

#[test]
fn rgb_map_across_quantizes_each_channel() {
    let lifted = RGB::map_across(create_quantize_n_bits_func(1).unwrap());
    assert_eq!(
        lifted(RGB(100 * UNITS_PER_LEVEL, 250 * UNITS_PER_LEVEL, 0)),
        (
            RGB(0, FULL_SCALE, 0),
            RGB(100 * UNITS_PER_LEVEL, -5 * UNITS_PER_LEVEL, 0)
        )
    );
}

#[test]
fn rgb_hex_codes() {
    assert_eq!(RGB::from_hex(0xff_aa_bb), RGB(0xff, 0xaa, 0xbb));
    assert_eq!(RGB::from_hex(0x12_ff_aa_bb), RGB(0xff, 0xaa, 0xbb));
    assert_eq!(RGB(0xff, 0, 0).to_hex(), 0xff_00_00);
    assert_eq!(RGB(0x01, 0x02, 0x03).to_hex(), 0x010203);
}

#[test]
fn rgb_luminance() {
    assert_eq!(RGB(-1000i64, 333, 54321).to_chroma_corrected_black_and_white(), 3947);
    assert_eq!(
        RGB(i64::MAX, i64::MAX, i64::MAX).to_chroma_corrected_black_and_white(),
        i64::MAX
    );
    assert_eq!(
        RGB(FULL_SCALE, FULL_SCALE, FULL_SCALE).to_chroma_corrected_black_and_white(),
        FULL_SCALE
    );
    assert_eq!(RGB::from_chroma_corrected_black_and_white(1176), RGB(3, 3, 3));
}

#[test]
fn rgb_pixel_arithmetic() {
    assert_eq!(RGB(1i64, 2, 3).plus(&RGB(10, 20, 30)), RGB(11, 22, 33));
    assert_eq!(RGB(-100i64, 100, -101).scaled(7, 16), RGB(-43, 43, -44));
    assert_eq!(RGB::<i64>::zero(), RGB(0, 0, 0));
    assert_eq!(RGB::<i64>::default(), RGB(0, 0, 0));
}

#[test]
fn scalar_pixel_arithmetic_saturates() {
    assert_eq!(5i64.plus(&-7), -2);
    assert_eq!(i64::MAX.plus(&1), i64::MAX);
    assert_eq!(i64::MIN.plus(&-1), i64::MIN);
    assert_eq!((-100i64).scaled(7, 16), -43);
    assert_eq!(100i64.scaled(7, 16), 43);
    assert_eq!((-101i64).scaled(7, -16), 44);
    assert_eq!(i64::MAX.scaled(5, 2), i64::MAX);
    assert_eq!(i64::MIN.scaled(5, 2), i64::MIN);
    assert_eq!(i64::MIN.scaled(-1, 1), i64::MAX);
    assert_eq!(<i64 as Pixel>::zero(), 0);
}

#[test]
fn clamp_rounds_to_the_nearest_level() {
    // 255.2 and 2.8 levels
    assert_eq!(clamp_to_u8(107184), 255);
    assert_eq!(clamp_to_u8(1176), 3);
    assert_eq!(clamp_to_u8(-1), 0);
    assert_eq!(clamp_to_u8(209), 0);
    assert_eq!(clamp_to_u8(210), 1);
    assert_eq!(clamp_to_u8(FULL_SCALE - 211), 254);
    assert_eq!(clamp_to_u8(FULL_SCALE - 210), 255);
    assert_eq!(clamp_to_u8(i64::MAX), 255);
    assert_eq!(clamp_to_u8(i64::MIN), 0);
}

#[test]
fn quantized_luminance_to_two_colors() {
    let r2b = create_convert_quantized_to_palette_func(RGB(255, 0, 0), RGB(0, 0, 255));
    assert_eq!(
        r2b(55 * UNITS_PER_LEVEL),
        RGB(55 * UNITS_PER_LEVEL, 0, 200 * UNITS_PER_LEVEL)
    );
    assert_eq!(r2b(0), units(RGB(0, 0, 255)));
    assert_eq!(r2b(FULL_SCALE), units(RGB(255, 0, 0)));
    let mix = create_convert_quantized_to_palette_func(RGB(200, 13, 77), RGB(1, 99, 255));
    assert_eq!(mix(100000), RGB(78459, 7854, 37296));
}

#[test]
fn pair_of_colors_from_text() {
    assert_eq!(
        Palette::parse("ff0000 00aa00"),
        Ok(Palette {
            front: RGB(0xff, 0, 0),
            back: RGB(0, 0xaa, 0)
        })
    );
    assert_eq!(
        "  +Ff\t0 \n extra words".parse::<Palette>(),
        Ok(Palette {
            front: RGB(0, 0, 0xff),
            back: RGB(0, 0, 0)
        })
    );
    assert_eq!(
        Palette::parse("0000000000ff ffffff"),
        Ok(Palette {
            front: RGB(0, 0, 0xff),
            back: RGB(0xff, 0xff, 0xff)
        })
    );
}

#[test]
fn pair_of_colors_errors() {
    assert_eq!(Palette::parse(""), Err(PaletteError::NotPair));
    assert_eq!(Palette::parse("   \n"), Err(PaletteError::NotPair));
    assert_eq!(Palette::parse("ff0000"), Err(PaletteError::NotPair));
    assert_eq!(Palette::parse("zz"), Err(PaletteError::NotPair));
    assert_eq!(Palette::parse("1000000 0"), Err(PaletteError::UnknownColor(0x100_0000)));
    assert_eq!(Palette::parse("0 ffffffff"), Err(PaletteError::UnknownColor(0xffff_ffff)));
    assert_eq!(Palette::parse("1000000 zz"), Err(PaletteError::UnknownColor(0x100_0000)));
    assert_eq!(Palette::parse("xyz 0"), Err(PaletteError::CouldNotParse));
    assert_eq!(Palette::parse("0 0x10"), Err(PaletteError::CouldNotParse));
    assert_eq!(Palette::parse("100000000 0"), Err(PaletteError::CouldNotParse));
    assert_eq!(Palette::parse("fffffffffffffffffffffff 0"), Err(PaletteError::CouldNotParse));
    assert_eq!(Palette::parse("+ 0"), Err(PaletteError::CouldNotParse));
    assert_eq!(Palette::parse("-1 0"), Err(PaletteError::CouldNotParse));
    assert_eq!(Palette::parse("++1 0"), Err(PaletteError::CouldNotParse));
    assert_eq!(Palette::parse("zz 1000000"), Err(PaletteError::CouldNotParse));
}

#[test]
fn mode_from_a_name_or_a_file() {
    let unread = || -> Result<String, String> { panic!("a known name reads no file") };
    assert_eq!(Mode::from_name_or_file(" Light_Red ", unread), Ok(Mode::SingleColor(RGB(0xFF, 0x55, 0x55))));
    assert_eq!(
        Mode::from_name_or_file("two.plt", || Ok(String::from("000000\nffffff"))),
        Ok(Mode::Palette {
            palette: vec![RGB(0, 0, 0), RGB(255, 255, 255)],
            name: String::from("two.plt")
        })
    );
    assert_eq!(
        Mode::from_name_or_file("one.plt", || Ok(String::from("000000"))),
        Err(Error::PaletteTooSmall)
    );
    assert_eq!(
        Mode::from_name_or_file("bad.plt", || Ok(String::from("000000\nwhite"))),
        Err(Error::RGBParse)
    );
    assert_eq!(
        Mode::from_name_or_file(" gone.plt", || Err(String::from("no such file"))),
        Err(Error::BadFile {
            path: String::from(" gone.plt"),
            msg: String::from("no such file")
        })
    );
    assert_eq!(
        Mode::from_read("cga", Err(String::from("denied"))),
        Err(Error::BadFile {
            path: String::from("cga"),
            msg: String::from("denied")
        })
    );
    assert_eq!(
        Mode::from_read("p", Ok(String::from("// two\n0x0000AA\n0xAA0000\n"))),
        Mode::from_palette_text("p", "// two\n0x0000AA\n0xAA0000\n")
    );
}
