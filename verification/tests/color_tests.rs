use star_catalog::color::{color_index_to_rgb, white, Rgb, FULL};
use star_catalog::decimal::Decimal;
use star_catalog::text::parse_decimal;

fn at(index: &str) -> Rgb {
    color_index_to_rgb(&parse_decimal(index.as_bytes()).unwrap())
}

fn part(channel: u32) -> f64 {
    channel as f64 / FULL as f64
}

/// The transform in floating point, as it is usually written.
fn float_transform(bv: f64) -> (f64, f64, f64) {
    let mut bv = bv;
    if bv < -0.4 {
        bv = -0.4;
    }
    if bv > 2.0 {
        bv = 2.0;
    }
    let r;
    let g;
    let b;
    if bv >= -0.40 && bv < 0.00 {
        let t = (bv + 0.40) / (0.00 + 0.40);
        r = 0.61 + (0.11 * t) + (0.1 * t * t);
    } else if bv >= 0.00 && bv < 0.40 {
        let t = (bv - 0.00) / (0.40 - 0.00);
        r = 0.83 + (0.17 * t);
    } else {
        r = 1.0;
    }
    if bv >= -0.40 && bv < 0.00 {
        let t = (bv + 0.40) / (0.00 + 0.40);
        g = 0.70 + (0.07 * t) + (0.1 * t * t);
    } else if bv >= 0.00 && bv < 0.40 {
        let t = (bv - 0.00) / (0.40 - 0.00);
        g = 0.87 + (0.11 * t);
    } else if bv >= 0.40 && bv < 1.60 {
        let t = (bv - 0.40) / (1.60 - 0.40);
        g = 0.98 - (0.16 * t);
    } else if bv >= 1.60 && bv < 2.00 {
        let t = (bv - 1.60) / (2.00 - 1.60);
        g = 0.82 - (0.5 * t * t);
    } else {
        g = 1.0;
    }
    if bv >= -0.40 && bv < 0.40 {
        b = 1.00;
    } else if bv >= 0.40 && bv < 1.50 {
        let t = (bv - 0.40) / (1.50 - 0.40);
        b = 1.00 - (0.47 * t) + (0.1 * t * t);
    } else if bv >= 1.50 && bv < 1.94 {
        let t = (bv - 1.50) / (1.94 - 1.50);
        b = 0.63 - (0.6 * t * t);
    } else {
        b = 1.0;
    }
    (r, g, b)
}

/// The transform at `n / d` thousandths, in parts of `FULL` and times
/// `d * d`: red, green, blue.
fn scaled(n: i128, d: i128) -> (i128, i128, i128) {
    let full = 580_800_000 * d * d;
    let hundredth = 5_808_000 * d * d;
    let red = if n < 0 {
        61 * hundredth + 11 * 14_520 * (n + 400 * d) * d + 363 * (n + 400 * d) * (n + 400 * d)
    } else if n < 400 * d {
        83 * hundredth + 17 * 14_520 * n * d
    } else {
        full
    };
    let green = if n < 0 {
        70 * hundredth + 7 * 14_520 * (n + 400 * d) * d + 363 * (n + 400 * d) * (n + 400 * d)
    } else if n < 400 * d {
        87 * hundredth + 11 * 14_520 * n * d
    } else if n < 1600 * d {
        98 * hundredth - 16 * 4_840 * (n - 400 * d) * d
    } else if n < 2000 * d {
        82 * hundredth - 5 * 363 * (n - 1600 * d) * (n - 1600 * d)
    } else {
        full
    };
    let blue = if n < 400 * d {
        full
    } else if n < 1500 * d {
        full - 47 * 5_280 * (n - 400 * d) * d + 48 * (n - 400 * d) * (n - 400 * d)
    } else if n < 1940 * d {
        63 * hundredth - 6 * 300 * (n - 1500 * d) * (n - 1500 * d)
    } else {
        full
    };
    (red, green, blue)
}

/// Whether the colour of `index` lies within three parts of `FULL` of the
/// transform at the index itself.
fn follows(index: Decimal) -> bool {
    let d = 10i128.pow(index.scale as u32);
    let n = (1000 * index.mantissa as i128).clamp(-400 * d, 2000 * d);
    let (red, green, blue) = scaled(n, d);
    let c = color_index_to_rgb(&index);
    let near = |parts: u32, exact: i128| (parts as i128 * d * d - exact).abs() <= 3 * d * d;
    near(c.r, red) && near(c.g, green) && near(c.b, blue)
}

#[test]
fn colour_at_index_zero() {
    let c = at("0.0");
    assert_eq!(c, Rgb { r: 482_064_000, g: 505_296_000, b: 580_800_000 });
    assert_eq!(c.r as u64 * 100, 83 * FULL as u64);
    assert_eq!(c.g as u64 * 100, 87 * FULL as u64);
    assert_eq!(c.b, FULL);
    assert_eq!(at("0"), c);
    assert_eq!(at("-0.000"), c);
}

#[test]
fn colour_at_index_065() {
    let c = at("0.65");
    assert_eq!(c, Rgb { r: 580_800_000, g: 549_824_000, b: 521_760_000 });
    assert!((part(c.r) - 1.0).abs() < 1e-9);
    assert!((part(c.g) - (0.98 - 0.16 * (0.25 / 1.2))).abs() < 1e-9);
    assert!((part(c.b) - (1.0 - 0.47 * (0.25 / 1.1) + 0.1 * (0.25 / 1.1) * (0.25 / 1.1))).abs() < 1e-9);
}

#[test]
fn colour_between_two_thousandths() {
    assert_eq!(at("0.0005"), Rgb { r: 482_187_420, g: 505_375_860, b: FULL });
    assert_eq!(at("1.9995"), Rgb { r: FULL, g: 186_581_546, b: FULL });
    assert_eq!(at("1.9395"), Rgb { r: FULL, g: 267_058_646, b: 18_215_550 });
    assert_eq!(at("0.6509"), Rgb { r: FULL, g: 549_754_304, b: 521_558_294 });
    assert_eq!(at("0.123456789"), Rgb { r: 512_538_073, g: 525_014_518, b: FULL });
    assert_ne!(at("0.0005"), at("0.0000"));
    assert!((part(at("0.0005").r) - 0.8302125).abs() < 1e-9);
    assert!((part(at("1.9995").g) - 0.32124921875).abs() < 1e-8);
    assert!((part(at("1.9395").b) - 0.0313628615702).abs() < 1e-8);
}

#[test]
fn colour_of_an_index_with_more_digits_than_the_grid() {
    assert_eq!(at("-0.39999999999"), Rgb { r: 354_288_000, g: 406_560_000, b: FULL });
    assert_eq!(at("0.0000000004"), Rgb { r: 482_064_000, g: 505_296_000, b: FULL });
    assert_eq!(at("-0.0000000001"), Rgb { r: 476_255_999, g: 505_295_999, b: FULL });
    assert_eq!(at("1.93999999999"), Rgb { r: FULL, g: 266_442_001, b: 17_424_001 });
    assert_eq!(at("1.9999999999"), Rgb { r: FULL, g: 185_856_001, b: FULL });
    for text in ["-0.39999999999", "0.0000000004", "-0.0000000001", "1.93999999999", "1.9999999999"] {
        assert!(follows(parse_decimal(text.as_bytes()).unwrap()), "{}", text);
    }
}

#[test]
fn colour_at_the_breakpoints() {
    assert_eq!(at("-0.4"), Rgb { r: 354_288_000, g: 406_560_000, b: FULL });
    assert_eq!(at("-0.001").b, FULL);
    assert_eq!(at("0.399"), Rgb { r: 580_553_160, g: 569_024_280, b: FULL });
    assert_eq!(at("0.4"), Rgb { r: FULL, g: 569_184_000, b: FULL });
    assert_eq!(at("1.499").r, FULL);
    assert_eq!(at("1.5"), Rgb { r: FULL, g: 484_000_000, b: 365_904_000 });
    assert_eq!(at("1.6"), Rgb { r: FULL, g: 476_256_000, b: 347_904_000 });
    assert_eq!(at("1.939").b, 365_904_000 - 1800 * 439 * 439);
    assert_eq!(at("1.94").b, FULL);
    assert_eq!(at("1.999").g, 476_256_000 - 1815 * 399 * 399);
    assert_eq!(at("2.0"), Rgb { r: FULL, g: FULL, b: FULL });
}

#[test]
fn colour_is_clamped_below_and_above() {
    assert_eq!(at("-5.0"), at("-0.4"));
    assert_eq!(at("-0.401"), at("-0.4"));
    assert_eq!(at("-0.4000000000001"), at("-0.4"));
    assert_eq!(color_index_to_rgb(&Decimal { mantissa: i64::MIN, scale: 0 }), at("-0.4"));
    assert_eq!(at("10.0"), at("2.0"));
    assert_eq!(at("2.001"), at("2.0"));
    assert_eq!(at("2.0000000000001"), at("2.0"));
    assert_eq!(color_index_to_rgb(&Decimal { mantissa: i64::MAX, scale: 0 }), at("2.0"));
    assert_ne!(at("-0.399"), at("-0.4"));
    assert_ne!(at("1.999"), at("2.0"));
    assert_ne!(at("1.999999999"), at("2.0"));
}

#[test]
fn every_channel_lies_between_nothing_and_full() {
    for m in -1000..3000 {
        let c = color_index_to_rgb(&Decimal { mantissa: m, scale: 3 });
        assert!(c.r <= FULL && c.g <= FULL && c.b <= FULL);
    }
}

#[test]
fn transform_agrees_with_floating_point() {
    let mut k: i64 = -1_000_000;
    while k < 3_000_000 {
        let c = color_index_to_rgb(&Decimal { mantissa: k, scale: 6 });
        let (r, g, b) = float_transform(k as f64 / 1e6);
        assert!((part(c.r) - r).abs() < 1e-8, "red at {}", k);
        assert!((part(c.g) - g).abs() < 1e-8, "green at {}", k);
        assert!((part(c.b) - b).abs() < 1e-8, "blue at {}", k);
        k += 997;
    }
}

#[test]
fn colour_follows_the_transform_at_the_index_itself() {
    let mut seed: u64 = 99;
    for scale in 0..=12u8 {
        let d = 10i64.pow(scale as u32);
        for _ in 0..2000 {
            seed = seed.wrapping_mul(6364136223846793005).wrapping_add(1442695040888963407);
            let span = 3 * d as u64;
            let mantissa = ((seed >> 11) % (span + 1)) as i64 - d / 2;
            assert!(follows(Decimal { mantissa, scale }), "{} e-{}", mantissa, scale);
        }
        for edge in [-400, 0, 400, 1500, 1600, 1940, 2000] {
            if scale >= 3 {
                let at_edge = edge * (d / 1000);
                for mantissa in [at_edge - 1, at_edge, at_edge + 1] {
                    assert!(follows(Decimal { mantissa, scale }), "{} e-{}", mantissa, scale);
                }
            }
        }
    }
}

#[test]
fn white_is_full_in_every_channel() {
    assert_eq!(white(), Rgb { r: FULL, g: FULL, b: FULL });
}
