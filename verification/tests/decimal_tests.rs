use star_catalog::decimal::Decimal;
use star_catalog::text::{parse_decimal, parse_i32, parse_u32, trim_text};

fn dec(text: &str) -> Decimal {
    parse_decimal(text.as_bytes()).unwrap()
}

#[test]
fn decimal_text_keeps_every_digit() {
    assert_eq!(parse_decimal(b"3.0"), Some(Decimal { mantissa: 30, scale: 1 }));
    assert_eq!(parse_decimal(b"-0.4"), Some(Decimal { mantissa: -4, scale: 1 }));
    assert_eq!(parse_decimal(b"0.656"), Some(Decimal { mantissa: 656, scale: 3 }));
    assert_eq!(parse_decimal(b"219.7802"), Some(Decimal { mantissa: 2197802, scale: 4 }));
    assert_eq!(parse_decimal(b"+1.25"), Some(Decimal { mantissa: 125, scale: 2 }));
    assert_eq!(parse_decimal(b"42"), Some(Decimal { mantissa: 42, scale: 0 }));
    assert_eq!(parse_decimal(b"-0.00"), Some(Decimal { mantissa: 0, scale: 2 }));
    assert_eq!(
        parse_decimal(b"-0.000000025210311388888885"),
        Some(Decimal { mantissa: -25210311388888885, scale: 24 })
    );
}

#[test]
fn decimal_text_with_point_at_an_end() {
    assert_eq!(parse_decimal(b".5"), Some(Decimal { mantissa: 5, scale: 1 }));
    assert_eq!(parse_decimal(b"5."), Some(Decimal { mantissa: 5, scale: 0 }));
    assert_eq!(parse_decimal(b"-.25"), Some(Decimal { mantissa: -25, scale: 2 }));
}

#[test]
fn decimal_text_that_is_no_number() {
    assert_eq!(parse_decimal(b""), None);
    assert_eq!(parse_decimal(b"."), None);
    assert_eq!(parse_decimal(b"-"), None);
    assert_eq!(parse_decimal(b"+"), None);
    assert_eq!(parse_decimal(b"-."), None);
    assert_eq!(parse_decimal(b"abc"), None);
    assert_eq!(parse_decimal(b"1.2.3"), None);
    assert_eq!(parse_decimal(b"0x10"), None);
    assert_eq!(parse_decimal(b"NaN"), None);
    assert_eq!(parse_decimal(b"inf"), None);
    assert_eq!(parse_decimal(b"1 2"), None);
    assert_eq!(parse_decimal(b" 12"), None);
    assert_eq!(parse_decimal(b"--1"), None);
    assert_eq!(parse_decimal(b"1-"), None);
}

#[test]
fn decimal_text_with_an_exponent() {
    assert_eq!(parse_decimal(b"1e5"), Some(Decimal { mantissa: 100_000, scale: 0 }));
    assert_eq!(parse_decimal(b"1E2"), Some(Decimal { mantissa: 100, scale: 0 }));
    assert_eq!(parse_decimal(b"1e+2"), Some(Decimal { mantissa: 100, scale: 0 }));
    assert_eq!(parse_decimal(b"1.5e1"), Some(Decimal { mantissa: 15, scale: 0 }));
    assert_eq!(parse_decimal(b"0.5e1"), Some(Decimal { mantissa: 5, scale: 0 }));
    assert_eq!(parse_decimal(b"1.5e-3"), Some(Decimal { mantissa: 15, scale: 4 }));
    assert_eq!(parse_decimal(b"1.50e0"), Some(Decimal { mantissa: 150, scale: 2 }));
    assert_eq!(parse_decimal(b"-2.5e3"), Some(Decimal { mantissa: -2500, scale: 0 }));
    assert_eq!(parse_decimal(b"12.345e2"), Some(Decimal { mantissa: 12345, scale: 1 }));
    assert_eq!(parse_decimal(b".5e-1"), Some(Decimal { mantissa: 5, scale: 2 }));
    assert_eq!(parse_decimal(b"5.e1"), Some(Decimal { mantissa: 50, scale: 0 }));
    assert_eq!(
        parse_decimal(b"8.785308705555557e-07"),
        Some(Decimal { mantissa: 8785308705555557, scale: 22 })
    );
    assert_eq!(
        parse_decimal(b"-4.508767e-09"),
        Some(Decimal { mantissa: -4508767, scale: 15 })
    );
}

#[test]
fn decimal_text_with_an_exponent_that_is_none() {
    assert_eq!(parse_decimal(b"1e"), None);
    assert_eq!(parse_decimal(b"e5"), None);
    assert_eq!(parse_decimal(b".e5"), None);
    assert_eq!(parse_decimal(b"-e5"), None);
    assert_eq!(parse_decimal(b"1e+"), None);
    assert_eq!(parse_decimal(b"1e-"), None);
    assert_eq!(parse_decimal(b"1e1.5"), None);
    assert_eq!(parse_decimal(b"1e5e5"), None);
    assert_eq!(parse_decimal(b"1e 5"), None);
    assert_eq!(parse_decimal(b"1 e5"), None);
    assert_eq!(parse_decimal(b"1e2147483648"), None);
    assert_eq!(parse_decimal(b"1e-2147483649"), None);
}

#[test]
fn decimal_text_with_an_exponent_at_the_limits() {
    assert_eq!(parse_decimal(b"1e-255"), Some(Decimal { mantissa: 1, scale: 255 }));
    assert_eq!(parse_decimal(b"1e-256"), None);
    assert_eq!(parse_decimal(b"0.1e-254"), Some(Decimal { mantissa: 1, scale: 255 }));
    assert_eq!(parse_decimal(b"0.1e-255"), None);
    assert_eq!(parse_decimal(b"0e-2147483648"), None);
    assert_eq!(
        parse_decimal(b"1e18"),
        Some(Decimal { mantissa: 1_000_000_000_000_000_000, scale: 0 })
    );
    assert_eq!(
        parse_decimal(b"9e18"),
        Some(Decimal { mantissa: 9_000_000_000_000_000_000, scale: 0 })
    );
    assert_eq!(
        parse_decimal(b"-9.223372036854775807e18"),
        Some(Decimal { mantissa: -i64::MAX, scale: 0 })
    );
    assert_eq!(parse_decimal(b"9.223372036854775808e18"), None);
    assert_eq!(parse_decimal(b"1e19"), None);
    assert_eq!(parse_decimal(b"10e18"), None);
    assert_eq!(parse_decimal(b"1e300"), None);
    assert_eq!(parse_decimal(b"1e2147483647"), None);
    assert_eq!(parse_decimal(b"0e19"), Some(Decimal { mantissa: 0, scale: 0 }));
    assert_eq!(parse_decimal(b"0.000e2147483647"), Some(Decimal { mantissa: 0, scale: 0 }));
    assert_eq!(parse_decimal(b"0.5e300"), None);
}

#[test]
fn decimal_text_at_the_limits_of_the_mantissa() {
    assert_eq!(
        parse_decimal(b"9223372036854775807"),
        Some(Decimal { mantissa: i64::MAX, scale: 0 })
    );
    assert_eq!(
        parse_decimal(b"-9223372036854775807"),
        Some(Decimal { mantissa: -i64::MAX, scale: 0 })
    );
    assert_eq!(parse_decimal(b"9223372036854775808"), None);
    assert_eq!(parse_decimal(b"-9223372036854775808"), None);
    assert_eq!(parse_decimal(b"92233720368547758.08"), None);
    assert_eq!(parse_decimal(b"100000000000000000000"), None);
    assert_eq!(
        parse_decimal(b"0000000000000000000000000000012"),
        Some(Decimal { mantissa: 12, scale: 0 })
    );
}

#[test]
fn decimal_text_at_the_limits_of_the_scale() {
    let mut text = String::from("0.");
    for _ in 0..254 {
        text.push('0');
    }
    text.push('7');
    assert_eq!(parse_decimal(text.as_bytes()), Some(Decimal { mantissa: 7, scale: 255 }));
    text.push('0');
    assert_eq!(parse_decimal(text.as_bytes()), None);
}

#[test]
fn decimals_compare_by_value() {
    assert!(dec("1.5").is_less_than(&dec("1.51")));
    assert!(!dec("1.51").is_less_than(&dec("1.5")));
    assert!(!dec("1.5").is_less_than(&dec("1.50")));
    assert!(dec("1.5").same_value(&dec("1.50")));
    assert!(!dec("1.5").same_value(&dec("1.501")));
    assert!(dec("2").is_less_than(&dec("10")));
    assert!(dec("-3").is_less_than(&dec("-2.999")));
    assert!(dec("-0.1").is_less_than(&dec("0")));
    assert!(dec("0").same_value(&dec("-0.000")));
    assert!(dec("3.06600").is_less_than(&dec("3.06601")));
    assert!(dec("1.5").is_at_most(&dec("1.50")));
    assert!(dec("1.5").is_at_most(&dec("1.6")));
    assert!(!dec("1.6").is_at_most(&dec("1.5")));
}

#[test]
fn decimals_compare_across_distant_scales() {
    let tiny = Decimal { mantissa: 1, scale: 255 };
    let zero = Decimal { mantissa: 0, scale: 0 };
    let huge = Decimal { mantissa: i64::MAX, scale: 0 };
    let least = Decimal { mantissa: i64::MIN, scale: 0 };
    let tiny_negative = Decimal { mantissa: -1, scale: 255 };
    assert!(zero.is_less_than(&tiny));
    assert!(!tiny.is_less_than(&zero));
    assert!(tiny.is_less_than(&huge));
    assert!(!huge.is_less_than(&tiny));
    assert!(least.is_less_than(&tiny_negative));
    assert!(tiny_negative.is_less_than(&zero));
    assert!(tiny_negative.is_less_than(&tiny));
    assert!(!zero.is_less_than(&Decimal { mantissa: 0, scale: 255 }));
    assert!(zero.same_value(&Decimal { mantissa: 0, scale: 255 }));
    assert!(Decimal { mantissa: i64::MAX, scale: 19 }.is_less_than(&Decimal { mantissa: 1, scale: 0 }));
    assert!(Decimal { mantissa: 9, scale: 1 }.is_less_than(&Decimal { mantissa: i64::MAX, scale: 18 }));
    assert!(Decimal { mantissa: 10, scale: 0 }.same_value(&Decimal { mantissa: 1_000_000_000_000_000_000, scale: 17 }));
}

#[test]
fn new_keeps_its_arguments() {
    assert_eq!(Decimal::new(-7, 3), Decimal { mantissa: -7, scale: 3 });
}

#[test]
fn product_where_it_fits() {
    assert_eq!(dec("1.5").checked_mul(&dec("-2.25")), Some(Decimal { mantissa: -3375, scale: 3 }));
    assert_eq!(dec("3.0").checked_mul(&dec("3.26156")), Some(Decimal { mantissa: 9784680, scale: 6 }));
    assert_eq!(Decimal::new(i64::MAX, 0).checked_mul(&Decimal::new(2, 0)), None);
    assert_eq!(Decimal::new(i64::MIN, 0).checked_mul(&Decimal::new(-1, 0)), None);
    assert_eq!(Decimal::new(1, 200).checked_mul(&Decimal::new(1, 56)), None);
    assert_eq!(
        Decimal::new(1, 200).checked_mul(&Decimal::new(1, 55)),
        Some(Decimal::new(1, 255))
    );
}

#[test]
fn thousandths_round_down() {
    assert_eq!(dec("0.6567").clamped_floor(3, -400, 2000), 656);
    assert_eq!(dec("0.656").clamped_floor(3, -400, 2000), 656);
    assert_eq!(dec("0.5").clamped_floor(3, -400, 2000), 500);
    assert_eq!(dec("1").clamped_floor(3, -400, 2000), 1000);
    assert_eq!(dec("-0.0001").clamped_floor(3, -400, 2000), -1);
    assert_eq!(dec("-0.0010").clamped_floor(3, -400, 2000), -1);
    assert_eq!(dec("-0.0011").clamped_floor(3, -400, 2000), -2);
    assert_eq!(dec("-0.3999").clamped_floor(3, -400, 2000), -400);
    assert_eq!(dec("1.9999999").clamped_floor(3, -400, 2000), 1999);
    assert_eq!(Decimal::new(1, 255).clamped_floor(3, -400, 2000), 0);
    assert_eq!(Decimal::new(-1, 255).clamped_floor(3, -400, 2000), -1);
}

#[test]
fn thousandths_are_held_between_the_bounds() {
    assert_eq!(dec("-0.4").clamped_floor(3, -400, 2000), -400);
    assert_eq!(dec("-0.4001").clamped_floor(3, -400, 2000), -400);
    assert_eq!(dec("-5.0").clamped_floor(3, -400, 2000), -400);
    assert_eq!(dec("2.0").clamped_floor(3, -400, 2000), 2000);
    assert_eq!(dec("10.0").clamped_floor(3, -400, 2000), 2000);
    assert_eq!(Decimal::new(i64::MAX, 0).clamped_floor(3, -400, 2000), 2000);
    assert_eq!(Decimal::new(i64::MIN, 0).clamped_floor(3, -400, 2000), -400);
    assert_eq!(dec("7").clamped_floor(3, 5, 5), 5);
    assert_eq!(dec("123456.789").clamped_floor(3, i32::MIN as i64, i32::MAX as i64), 123456789);
    assert_eq!(dec("-123456.7891").clamped_floor(3, i32::MIN as i64, i32::MAX as i64), -123456790);
}

#[test]
fn unsigned_integers_of_text() {
    assert_eq!(parse_u32(b"0"), Some(0));
    assert_eq!(parse_u32(b"224700"), Some(224700));
    assert_eq!(parse_u32(b"+17"), Some(17));
    assert_eq!(parse_u32(b"007"), Some(7));
    assert_eq!(parse_u32(b"4294967295"), Some(u32::MAX));
    assert_eq!(parse_u32(b"4294967296"), None);
    assert_eq!(parse_u32(b"-1"), None);
    assert_eq!(parse_u32(b""), None);
    assert_eq!(parse_u32(b"+"), None);
    assert_eq!(parse_u32(b"Gl 551"), None);
    assert_eq!(parse_u32(b"1.0"), None);
}

#[test]
fn signed_integers_of_text() {
    assert_eq!(parse_i32(b"0"), Some(0));
    assert_eq!(parse_i32(b"-1"), Some(-1));
    assert_eq!(parse_i32(b"+5"), Some(5));
    assert_eq!(parse_i32(b"2147483647"), Some(i32::MAX));
    assert_eq!(parse_i32(b"2147483648"), None);
    assert_eq!(parse_i32(b"-2147483648"), Some(i32::MIN));
    assert_eq!(parse_i32(b"-2147483649"), None);
    assert_eq!(parse_i32(b"-"), None);
    assert_eq!(parse_i32(b""), None);
    assert_eq!(parse_i32(b"1x"), None);
}

#[test]
fn whole_units_of_any_place_round_down() {
    assert_eq!(dec("0.0005").clamped_floor(9, -400_000_000, 2_000_000_000), 500_000);
    assert_eq!(dec("1.9995").clamped_floor(9, -400_000_000, 2_000_000_000), 1_999_500_000);
    assert_eq!(dec("0.1234567891").clamped_floor(9, -400_000_000, 2_000_000_000), 123_456_789);
    assert_eq!(dec("-0.0000000001").clamped_floor(9, -400_000_000, 2_000_000_000), -1);
    assert_eq!(dec("-0.00000000001").clamped_floor(9, -400_000_000, 2_000_000_000), -1);
    assert_eq!(dec("-0.4").clamped_floor(9, -400_000_000, 2_000_000_000), -400_000_000);
    assert_eq!(dec("-0.40000000001").clamped_floor(9, -400_000_000, 2_000_000_000), -400_000_000);
    assert_eq!(dec("1.99999999999").clamped_floor(9, -400_000_000, 2_000_000_000), 1_999_999_999);
    assert_eq!(dec("2").clamped_floor(9, -400_000_000, 2_000_000_000), 2_000_000_000);
    assert_eq!(dec("7.5").clamped_floor(0, -10, 10), 7);
    assert_eq!(dec("-7.5").clamped_floor(0, -10, 10), -8);
    assert_eq!(dec("7.5").clamped_floor(1, -100, 100), 75);
    assert_eq!(dec("9.2").clamped_floor(18, i64::MIN, i64::MAX), 9_200_000_000_000_000_000);
    assert_eq!(dec("9.3").clamped_floor(18, i64::MIN, i64::MAX), i64::MAX);
    assert_eq!(dec("-9.3").clamped_floor(18, i64::MIN, i64::MAX), i64::MIN);
    assert_eq!(dec("1").clamped_floor(255, -5, 5), 5);
    assert_eq!(Decimal::new(3, 255).clamped_floor(255, -5, 5), 3);
    assert_eq!(Decimal::new(-3, 255).clamped_floor(254, -5, 5), -1);
}

#[test]
fn white_space_is_trimmed_at_both_ends() {
    assert_eq!(trim_text("  12.5 \r\n"), "12.5");
    assert_eq!(trim_text("q"), "q");
    assert_eq!(trim_text("a b"), "a b");
    assert_eq!(trim_text("\t\x0b\x0c x"), "x");
    assert_eq!(trim_text("   "), "");
    assert_eq!(trim_text(""), "");
}

#[test]
fn white_space_of_unicode_is_trimmed_as_std_trims_it() {
    assert_eq!(trim_text("\u{a0}12.5\u{85}"), "12.5");
    assert_eq!(trim_text("\u{3000}\u{2003} 7 \u{2028}\u{2029}\u{202f}\u{205f}\u{1680}"), "7");
    assert_eq!(trim_text("\u{200b}7"), "\u{200b}7");
    assert_eq!(trim_text("\u{180e}7\u{feff}"), "\u{180e}7\u{feff}");
    assert_eq!(trim_text("é \u{a0} è"), "é \u{a0} è");
    for code in 0..0x3100u32 {
        if let Some(c) = char::from_u32(code) {
            let text = format!("{}x{}y{}", c, c, c);
            assert_eq!(trim_text(&text), text.trim(), "U+{:04X}", code);
        }
    }
}
