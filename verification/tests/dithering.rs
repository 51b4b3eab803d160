use dither::color::rgb::RGB;
use dither::create_quantize_n_bits_func;
use dither::ditherer::{diffuse, Dither, Ditherer, FloydSteinberg, Kernel, NoOp};
use dither::img::Img;
use dither::pixel::{FULL_SCALE, UNITS_PER_LEVEL};
use rand::distr::{Distribution, Uniform};
use rand::rngs::StdRng;
use rand::SeedableRng;

fn quantize_1_bit(x: f64) -> (f64, f64) {
    if x < 128. {
        (0., x)
    } else {
        (255., x - 255.)
    }
}

#[test]
fn test_dither_no_op() {
    fn no_op(p: RGB<i64>) -> (RGB<i64>, RGB<i64>) {
        (p, RGB::default())
    }
    let mut test_img_buf: Vec<RGB<i64>> = Vec::with_capacity(9);
    for y in 0..3 {
        for x in 0..3 {
            test_img_buf.push(RGB(0, i64::from(y), i64::from(x)));
        }
    }
    let img = Img::new(test_img_buf, 3).unwrap();
    assert_eq!(img, NoOp::dither(img.clone(), no_op));
}

#[test]
fn test_quantize() {
    let uniform = Uniform::new(0., 255.).unwrap();
    let mut rng = StdRng::seed_from_u64(20);
    let q = create_quantize_n_bits_func(1).unwrap();
    for _ in 0..20 {
        let n: f64 = uniform.sample(&mut rng);
        let (want_q, want_r) = quantize_1_bit(n);
        let units = (n * UNITS_PER_LEVEL as f64) as i64;
        let (got_q, got_r) = q(units);
        let (got_q, got_r) = (
            got_q as f64 / UNITS_PER_LEVEL as f64,
            got_r as f64 / UNITS_PER_LEVEL as f64,
        );
        if (got_q - want_q).abs() > std::f64::EPSILON
            || (got_r - want_r).abs() > 1. + std::f64::EPSILON
        {
            panic!("{:?}", (n, want_q, want_r, got_q, got_r));
        }
    }
}

#[test]
fn one_bit_quantizer_scenario() {
    let one_bit = create_quantize_n_bits_func(1).unwrap();
    assert_eq!(one_bit(100 * UNITS_PER_LEVEL), (0, 100 * UNITS_PER_LEVEL));
    assert_eq!(
        one_bit(250 * UNITS_PER_LEVEL),
        (255 * UNITS_PER_LEVEL, -5 * UNITS_PER_LEVEL)
    );
}

#[test]
fn one_bit_quantizer_round_trip() {
    let one_bit = create_quantize_n_bits_func(1).unwrap();
    assert_eq!(one_bit(0), (0, 0));
    assert_eq!(one_bit(FULL_SCALE), (FULL_SCALE, 0));
    for level in 0..=127 {
        let x = level * UNITS_PER_LEVEL;
        assert_eq!(one_bit(x), (0, x));
    }
    for level in 128..=255 {
        let x = level * UNITS_PER_LEVEL;
        assert_eq!(one_bit(x), (FULL_SCALE, x - FULL_SCALE));
    }
    assert_eq!(one_bit(FULL_SCALE / 2 - 1), (0, FULL_SCALE / 2 - 1));
    assert_eq!(one_bit(FULL_SCALE / 2), (FULL_SCALE, -FULL_SCALE / 2));
}

#[test]
fn single_pixel_loses_its_spillover() {
    let one_bit = create_quantize_n_bits_func(1).unwrap();
    let kernel = Kernel::new(vec![(1, 0, 7), (-1, 1, 3), (0, 1, 5), (1, 1, 1)], 16).unwrap();
    let img = Img::new(vec![100 * UNITS_PER_LEVEL], 1).unwrap();
    let out = diffuse(img, &kernel, one_bit);
    assert_eq!(out.size(), (1, 1));
    assert_eq!(out.into_vec(), vec![0]);
}

#[test]
fn flat_gray_keeps_its_brightness() {
    for (width, height) in [(64u32, 64u32), (16, 16), (100, 40), (17, 33)] {
        let one_bit = create_quantize_n_bits_func(1).unwrap();
        let pixels = (width * height) as usize;
        let img = Img::new(vec![128 * UNITS_PER_LEVEL; pixels], width).unwrap();
        let out = FloydSteinberg::dither(img, one_bit).into_vec();
        assert_eq!(out.len(), pixels);
        assert!(out.iter().all(|&p| p == 0 || p == FULL_SCALE));
        let mean = out.iter().sum::<i64>() as f64 / out.len() as f64 / UNITS_PER_LEVEL as f64;
        assert!((mean - 128.).abs() < 2., "mean brightness {}", mean);
        for row in out.chunks(width as usize) {
            let changes = row.windows(2).filter(|w| w[0] != w[1]).count();
            assert!(changes + 4 >= row.len() - 1, "only {} changes in a row", changes);
            assert!(row.windows(4).all(|w| w.iter().any(|&p| p != w[0])));
        }
        let by_name = Ditherer::FloydSteinberg.dither(
            Img::new(vec![128 * UNITS_PER_LEVEL; pixels], width).unwrap(),
            create_quantize_n_bits_func(1).unwrap(),
        );
        assert_eq!(by_name.into_vec(), out);
    }
}

#[test]
fn share_that_leaves_the_row_is_lost() {
    // 100 and 70 levels side by side: the right-hand pixel gets 7/16 of
    // the error of the left one and nothing else.
    let one_bit = create_quantize_n_bits_func(1).unwrap();
    let img = Img::new(vec![100 * UNITS_PER_LEVEL, 70 * UNITS_PER_LEVEL], 2).unwrap();
    assert_eq!(FloydSteinberg::dither(img, one_bit).into_vec(), vec![0, 0]);
}

#[test]
fn floyd_steinberg_splits_an_error_of_sixteen() {
    let img = Img::new(vec![0i64, 16, 0, 0, 0, 0], 3).unwrap();
    let out = FloydSteinberg::dither(img, |p: i64| if p == 16 { (16, 16) } else { (p, 0) });
    assert_eq!(out.into_vec(), vec![0, 16, 7, 3, 5, 1]);
}

#[test]
fn quantized_value_and_error_add_up_to_the_input() {
    let levels = |n: u8, x: i64| {
        let (q, e) = (create_quantize_n_bits_func(n).unwrap())(x * UNITS_PER_LEVEL);
        (q / UNITS_PER_LEVEL, e / UNITS_PER_LEVEL)
    };
    assert_eq!(levels(1, 400), (255, 145));
    assert_eq!(levels(1, -200), (0, -200));
    for n in 1..=7 {
        let q = create_quantize_n_bits_func(n).unwrap();
        for x in [i64::MIN, -1_000_000, -53551, -1, 0, 1, 26774, 26775, 53550, 107099, 107100, 107101, 1_000_000, i64::MAX] {
            let (value, error) = q(x);
            assert_eq!(value as i128 + error as i128, x as i128);
        }
    }
}

#[test]
fn floyd_steinberg_small_image_exact() {
    let one_bit = create_quantize_n_bits_func(1).unwrap();
    let img = Img::new(vec![53550i64; 6], 3).unwrap();
    let out = FloydSteinberg::dither(img, one_bit).into_vec();
    assert_eq!(out, vec![107100, 0, 107100, 0, 107100, 0]);
}

#[test]
fn atkinson_two_bits_exact() {
    let two_bits = create_quantize_n_bits_func(2).unwrap();
    let row = [100 * UNITS_PER_LEVEL, 30 * UNITS_PER_LEVEL, 200 * UNITS_PER_LEVEL, 77 * UNITS_PER_LEVEL];
    let mut buf = Vec::new();
    for _ in 0..3 {
        buf.extend_from_slice(&row);
    }
    let out = Ditherer::Atkinson.dither(Img::new(buf, 4).unwrap(), two_bits).into_vec();
    assert_eq!(
        out,
        vec![53550, 0, 107100, 53550, 53550, 0, 53550, 53550, 53550, 0, 107100, 53550]
    );
}

#[test]
fn uniform_quantizer_values() {
    let q = |n: u8, x: i64| (create_quantize_n_bits_func(n).unwrap())(x);
    assert_eq!(q(2, 42000), (53550, -11550));
    assert_eq!(q(2, 26879), (53550, -26671));
    assert_eq!(q(3, 84000), (71400, 12600));
    assert_eq!(q(7, -5000), (0, -5000));
    assert_eq!(q(4, 126000), (107100, 18900));
    assert_eq!(q(1, 252000), (214200, 37800));
    assert_eq!(q(1, -126000), (-107100, -18900));
    assert_eq!(q(1, -84000), (0, -84000));
    assert_eq!(q(1, 168000), (107100, 60900));
    assert_eq!(q(1, i64::MAX), (107100, i64::MAX - 107100));
    assert_eq!(q(1, i64::MIN), (0, i64::MIN));
    assert_eq!(q(7, i64::MAX), (107100, i64::MAX - 107100));
    assert_eq!(q(5, 53550), (64260, -10710));
}

#[test]
fn bad_bit_depth_is_rejected() {
    assert!(matches!(create_quantize_n_bits_func(0), Err(dither::Error::BadBitDepth(0))));
    assert!(matches!(create_quantize_n_bits_func(8), Err(dither::Error::BadBitDepth(8))));
    assert!(matches!(create_quantize_n_bits_func(255), Err(dither::Error::BadBitDepth(255))));
    for n in 1..=7 {
        assert!(create_quantize_n_bits_func(n).is_ok());
    }
}

#[test]
fn outputs_are_output_levels() {
    let kernels = [
        Ditherer::FloydSteinberg,
        Ditherer::Atkinson,
        Ditherer::Stucki,
        Ditherer::Burkes,
        Ditherer::JarvisJudiceNinke,
        Ditherer::Sierra3,
    ];
    let mut seed: u64 = 12345;
    for kernel in kernels {
        for depth in 1..=7u8 {
            let (width, height) = (13u32, 9u32);
            let mut buf = Vec::new();
            for _ in 0..width * height {
                seed = seed.wrapping_mul(6364136223846793005).wrapping_add(1442695040888963407);
                buf.push(((seed >> 33) % (FULL_SCALE as u64 + 1)) as i64);
            }
            let step = FULL_SCALE / i64::from(depth);
            let out = kernel.dither(
                Img::new(buf, width).unwrap(),
                create_quantize_n_bits_func(depth).unwrap(),
            );
            for p in out.into_vec() {
                assert!(0 <= p && p <= FULL_SCALE && p % step == 0, "{} at depth {}", p, depth);
            }
        }
    }
}

#[test]
fn floyd_steinberg_keeps_the_total() {
    let mut seed: u64 = 99;
    for (width, height) in [(1u32, 1u32), (1, 7), (7, 1), (2, 2), (16, 16), (31, 5), (64, 64)] {
        for depth in 1..=7u8 {
            let pixels = (width * height) as usize;
            let mut buf = Vec::new();
            for _ in 0..pixels {
                seed = seed.wrapping_mul(6364136223846793005).wrapping_add(1442695040888963407);
                buf.push(((seed >> 33) % (FULL_SCALE as u64 + 1)) as i64);
            }
            let before: i64 = buf.iter().sum();
            let out = FloydSteinberg::dither(
                Img::new(buf, width).unwrap(),
                create_quantize_n_bits_func(depth).unwrap(),
            );
            let after: i64 = out.into_vec().iter().sum();
            let step = FULL_SCALE / i64::from(depth);
            let bound = step * (2 * i64::from(height) + i64::from(width)) + 8 * pixels as i64;
            assert!(2 * (after - before).abs() <= bound, "{} > {}", 2 * (after - before).abs(), bound);
        }
    }
    // flat gray of 128 levels, one bit: the mean stays within six levels at 64 x 64
    let (width, height) = (64i64, 64i64);
    let bound = FULL_SCALE * (2 * height + width) + 8 * width * height;
    assert!(bound / (2 * width * height) < 6 * UNITS_PER_LEVEL + UNITS_PER_LEVEL / 2);
}
