use dither::color::{Mode, Palette, RGB};
use dither::ditherer::{diffuse, Dither, Ditherer, ErrorUnknownDitherer, Kernel, Stucki};
use dither::img::Img;
use dither::opts::Opt;
use dither::run::{run, run_two_tone};
use dither::Error;

fn opts(ditherer: Ditherer, color_mode: Mode, bit_depth: u8) -> Opt {
    Opt {
        verbose: false,
        input: String::from("bunny.png"),
        bit_depth,
        output: None,
        ditherer,
        color_mode,
    }
}

fn sample() -> Img<RGB<u8>> {
    Img::new(
        vec![
            RGB(10, 200, 30),
            RGB(250, 128, 0),
            RGB(90, 90, 90),
            RGB(0, 0, 0),
            RGB(255, 255, 255),
            RGB(17, 34, 51),
        ],
        3,
    )
    .unwrap()
}

#[test]
fn img_new_wants_a_rectangle() {
    assert!(Img::new(vec![1, 2, 3, 4, 5, 6], 3).is_some());
    assert!(Img::new(vec![1, 2, 3, 4, 5], 3).is_none());
    assert!(Img::new(vec![1, 2, 3], 0).is_none());
    assert!(Img::new(Vec::<u8>::new(), 0).is_none());
    let empty = Img::new(Vec::<u8>::new(), 4).unwrap();
    assert!(empty.is_empty());
    assert_eq!(empty.size(), (4, 0));
}

#[test]
fn img_indexing() {
    let img = Img::new(vec![0, 1, 2, 10, 11, 12], 3).unwrap();
    assert_eq!(img.len(), 6);
    assert!(!img.is_empty());
    assert_eq!(img.size(), (3, 2));
    assert_eq!(img.width(), 3);
    assert_eq!(img.get((0, 0)), Some(&0));
    assert_eq!(img.get((2, 0)), Some(&2));
    assert_eq!(img.get((1, 1)), Some(&11));
    assert_eq!(img.get((3, 0)), None);
    assert_eq!(img.get((0, 2)), None);
    assert_eq!(img.get((u32::MAX, u32::MAX)), None);
    assert_eq!(img.as_vec(), &vec![0, 1, 2, 10, 11, 12]);
}

#[test]
fn img_convert_with_maps_each_pixel() {
    let img = Img::new(vec![1u8, 2, 3, 4], 2).unwrap();
    let doubled = img.convert_with(|p| u32::from(p) * 2);
    assert_eq!(doubled.size(), (2, 2));
    assert_eq!(doubled.into_vec(), vec![2u32, 4, 6, 8]);
}

#[test]
fn img_raw_buf_flattens_the_triplets() {
    let img: Img<RGB<u8>> = Img::new(vec![RGB(0, 1, 2), RGB(1, 1, 1)], 1).unwrap();
    assert_eq!(img.raw_buf(), vec![0, 1, 2, 1, 1, 1]);
}

#[test]
fn kernel_wants_forward_entries() {
    assert!(Kernel::new(vec![], 1).is_some());
    assert!(Kernel::new(vec![(1, 0, 7), (-1, 1, 3)], 16).is_some());
    assert!(Kernel::new(vec![(1, 0, 7)], 0).is_none());
    assert!(Kernel::new(vec![(0, 0, 7)], 16).is_none());
    assert!(Kernel::new(vec![(-1, 0, 7)], 16).is_none());
    assert!(Kernel::new(vec![(1, 0, 7), (3, -1, 1)], 16).is_none());
    let k = Kernel::new(vec![(2, 0, -3)], -4).unwrap();
    assert_eq!(k.offsets(), &vec![(2, 0, -3)]);
    assert_eq!(k.divisor(), -4);
    assert_eq!(Stucki::kernel().divisor(), 42);
    assert_eq!(Stucki::kernel().offsets().len(), 12);
    assert_eq!(Ditherer::Sierra3.kernel().offsets()[7], (-1, 2, 2));
    for d in [
        Ditherer::FloydSteinberg,
        Ditherer::Atkinson,
        Ditherer::Stucki,
        Ditherer::Burkes,
        Ditherer::JarvisJudiceNinke,
        Ditherer::Sierra3,
    ] {
        let k = d.kernel();
        assert_eq!(Kernel::new(k.offsets().clone(), k.divisor()), Some(k));
    }
}

#[test]
fn spillover_stays_within_its_row() {
    // every pixel hands its whole error two columns on
    let two_on = || Kernel::new(vec![(2, 0, 1)], 1).unwrap();
    let img = Img::new(vec![1i64, 10, 100, 1000], 2).unwrap();
    let out = diffuse(img, &two_on(), |p: i64| (p, p));
    assert_eq!(out.into_vec(), vec![1, 10, 100, 1000]);
    let img = Img::new(vec![1i64, 10, 100, 1000], 4).unwrap();
    let out = diffuse(img, &two_on(), |p: i64| (p, p));
    assert_eq!(out.into_vec(), vec![1, 10, 101, 1010]);
    // to the right and below-left: at the row ends one of the two is lost
    let kernel = Kernel::new(vec![(-1, 1, 1), (1, 0, 1)], 1).unwrap();
    let img = Img::new(vec![1i64, 10, 100, 1000], 2).unwrap();
    let out = diffuse(img, &kernel, |p: i64| (p, p));
    assert_eq!(out.into_vec(), vec![1, 11, 111, 1111]);
    let kernel = Kernel::new(vec![(1, 0, 1), (-1, 1, 1), (0, 1, 1), (1, 1, 1)], 1).unwrap();
    let img = Img::new(vec![1i64, 10, 100, 1000, 10000, 100000], 3).unwrap();
    let out = diffuse(img, &kernel, |p: i64| (p, p));
    assert_eq!(out.into_vec(), vec![1, 11, 111, 1012, 11135, 111257]);
}

#[test]
fn ditherer_names() {
    let names = [
        ("floyd", Ditherer::FloydSteinberg),
        ("steinberg", Ditherer::FloydSteinberg),
        ("FloydSteinberg", Ditherer::FloydSteinberg),
        ("atkinson", Ditherer::Atkinson),
        ("STUCKI", Ditherer::Stucki),
        ("burkes", Ditherer::Burkes),
        ("jarvis", Ditherer::JarvisJudiceNinke),
        ("judice", Ditherer::JarvisJudiceNinke),
        ("Ninke", Ditherer::JarvisJudiceNinke),
        ("sierra", Ditherer::Sierra3),
        ("sierra3", Ditherer::Sierra3),
    ];
    for (name, want) in names {
        assert_eq!(Ditherer::from_name(name), Ok(want));
        assert_eq!(name.parse::<Ditherer>(), Ok(want));
    }
    assert_eq!(
        Ditherer::from_name("Bayer"),
        Err(ErrorUnknownDitherer(String::from("Bayer")))
    );
    assert_eq!(
        Ditherer::from_name(" floyd"),
        Err(ErrorUnknownDitherer(String::from(" floyd")))
    );
    assert_eq!(Ditherer::from_name(""), Err(ErrorUnknownDitherer(String::new())));
    assert_eq!(Ditherer::JarvisJudiceNinke.name(), "jarvis");
    for d in [
        Ditherer::FloydSteinberg,
        Ditherer::Atkinson,
        Ditherer::Stucki,
        Ditherer::Burkes,
        Ditherer::JarvisJudiceNinke,
        Ditherer::Sierra3,
    ] {
        assert_eq!(Ditherer::from_name(d.name()), Ok(d));
    }
}

#[test]
fn output_path_defaults_to_a_name_made_from_the_options() {
    let mut opt = opts(Ditherer::FloydSteinberg, Mode::BlackAndWhite, 1);
    assert_eq!(opt.output_path("bunny"), "bunny_dithered_floyd_bw_1.png");
    opt.ditherer = Ditherer::Atkinson;
    opt.color_mode = Mode::Color;
    opt.bit_depth = 2;
    assert_eq!(opt.output_path("bunny"), "bunny_dithered_atkinson_color_2.png");
    opt.color_mode = Mode::SingleColor(RGB(0xAA, 0x55, 0));
    opt.bit_depth = 107;
    assert_eq!(
        opt.output_path(""),
        "_dithered_atkinson_single_color_aa5500_107.png"
    );
    opt.output = Some(String::from("out/there.png"));
    assert_eq!(opt.output_path("bunny"), "out/there.png");
}

#[test]
fn run_rejects_bad_options() {
    for depth in [0u8, 8, 200] {
        assert_eq!(
            run(&opts(Ditherer::FloydSteinberg, Mode::Color, depth), sample()),
            Err(Error::BadBitDepth(depth))
        );
        assert_eq!(
            run(&opts(Ditherer::FloydSteinberg, Mode::cga_palette(), depth), sample()),
            Err(Error::BadBitDepth(depth))
        );
    }
    for depth in 2..=7 {
        assert_eq!(
            run(&opts(Ditherer::FloydSteinberg, Mode::cga_palette(), depth), sample()),
            Err(Error::CustomPaletteIncompatibleWithDepth)
        );
    }
}

#[test]
fn run_in_each_mode() {
    let got = |d: Ditherer, mode: Mode, depth: u8| run(&opts(d, mode, depth), sample()).unwrap().into_vec();
    let gray = |levels: [u8; 6]| levels.iter().map(|&l| RGB(l, l, l)).collect::<Vec<RGB<u8>>>();
    assert_eq!(
        got(Ditherer::FloydSteinberg, Mode::Color, 2),
        vec![
            RGB(0, 255, 0),
            RGB(255, 128, 0),
            RGB(128, 128, 128),
            RGB(0, 0, 0),
            RGB(255, 255, 255),
            RGB(0, 0, 0)
        ]
    );
    assert_eq!(
        got(Ditherer::FloydSteinberg, Mode::cga_palette(), 1),
        vec![
            RGB(0, 170, 0),
            RGB(255, 85, 85),
            RGB(85, 85, 85),
            RGB(0, 0, 0),
            RGB(255, 255, 255),
            RGB(0, 0, 0)
        ]
    );
    assert_eq!(
        got(Ditherer::FloydSteinberg, Mode::BlackAndWhite, 1),
        gray([255, 0, 255, 0, 255, 0])
    );
    assert_eq!(
        got(Ditherer::FloydSteinberg, Mode::BlackAndWhite, 3),
        gray([170, 170, 85, 0, 255, 0])
    );
    assert_eq!(
        got(Ditherer::Atkinson, Mode::BlackAndWhite, 2),
        gray([128, 128, 128, 0, 255, 0])
    );
    assert_eq!(
        got(Ditherer::FloydSteinberg, Mode::SingleColor(RGB(0xAA, 0, 0)), 1),
        vec![
            RGB(170, 0, 0),
            RGB(0, 0, 0),
            RGB(170, 0, 0),
            RGB(0, 0, 0),
            RGB(170, 0, 0),
            RGB(0, 0, 0)
        ]
    );
    let out = run(&opts(Ditherer::Stucki, Mode::Color, 7), sample()).unwrap();
    assert_eq!(out.size(), (3, 2));
}

#[test]
fn run_two_tone_paints_with_the_two_colors() {
    let palette = Palette {
        front: RGB(255, 0, 0),
        back: RGB(0, 0, 255),
    };
    let (f, b) = (palette.front, palette.back);
    let out = run_two_tone(sample(), Ditherer::FloydSteinberg, palette);
    assert_eq!(out.size(), (3, 2));
    assert_eq!(out.into_vec(), vec![f, b, f, b, f, b]);
}

#[test]
fn kernel_weights() {
    let share = |d: Ditherer| {
        let k = d.kernel();
        (k.offsets().iter().map(|o| o.2).sum::<i64>(), k.divisor())
    };
    assert_eq!(share(Ditherer::FloydSteinberg), (16, 16));
    assert_eq!(share(Ditherer::Atkinson), (6, 8));
    assert_eq!(share(Ditherer::Stucki), (42, 42));
    assert_eq!(share(Ditherer::Burkes), (32, 32));
    assert_eq!(share(Ditherer::JarvisJudiceNinke), (48, 48));
    assert_eq!(share(Ditherer::Sierra3), (32, 32));
    assert_eq!(dither::ditherer::NoOp::kernel().offsets().len(), 0);
    assert_eq!(dither::ditherer::NoOp::kernel().divisor(), 1);
}

#[test]
fn error_messages() {
    assert_eq!(
        Error::BadBitDepth(9).message(),
        "configuration error: bit depth must be between 1 and 7, but was 9"
    );
    assert_eq!(
        Error::BadBitDepth(0).message(),
        "configuration error: bit depth must be between 1 and 7, but was 0"
    );
    assert_eq!(
        Error::BadBitDepth(255).message(),
        "configuration error: bit depth must be between 1 and 7, but was 255"
    );
    assert_eq!(
        Error::CustomPaletteIncompatibleWithDepth.message(),
        "error: the custom palette --color option is incompatible with the --depth option"
    );
    assert_eq!(
        Error::Color(dither::color::Error::PaletteTooSmall).message(),
        "configuration error for: user-specified palette has 0 or 1 color; must have at least two\n"
    );
    assert_eq!(
        dither::color::Error::UnknownOption(String::from("plaid")).message(),
        "unknown color option plaid\n"
    );
    assert_eq!(
        dither::color::Error::BadFile {
            path: String::from("a.plt"),
            msg: String::from("not found")
        }
        .message(),
        "could not load color palette from file at path \"a.plt\": not found"
    );
    assert_eq!(
        dither::color::Error::RGBParse.message(),
        "could not parse to a RGB value: bad format. must be exactly six hexidecimal characters, with optional 0x prefix"
    );
    assert_eq!(
        dither::color::PaletteError::UnknownColor(0x1abcdef).message(),
        "unknown color 1abcdef must be between 0x00 and 0xFF_FF_FF"
    );
    assert_eq!(
        ErrorUnknownDitherer(String::from("bayer")).message(),
        "unknown ditherer: bayer"
    );
}
