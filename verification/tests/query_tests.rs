use star_catalog::decimal::Decimal;
use star_catalog::query::{is_within, query, to_light_years, to_parsecs, ResultSet, LISTED};
use star_catalog::text::parse_decimal;
use star_catalog::Star;

const SUN: &str = "0,,,,,,Sol,0.000000,0.000000,0.0000,0.00,0.00,0.0,-26.700,4.850,G2V,0.656,0.000005,0.000000,0.000000,0.00000000,0.00000000,0.00000000,0,0,0,0,,,,1,0,,1,,,";

fn dec(text: &str) -> Decimal {
    parse_decimal(text.as_bytes()).unwrap()
}

fn star(id: u32, distance: &str) -> Star {
    let row: Vec<String> = SUN.split(',').map(|field| field.to_string()).collect();
    let mut star = Star::from_row(&row).unwrap();
    star.id = id;
    star.distance = dec(distance);
    star
}

fn catalog() -> Vec<Star> {
    vec![
        star(0, "0.0000"),
        star(1, "219.7802"),
        star(2, "3.06601"),
        star(3, "1.2959"),
        star(4, "3.066"),
        star(5, "1.3"),
        star(6, "1.2959"),
        star(7, "3.0"),
        star(8, "1.29590"),
        star(9, "-1"),
    ]
}

#[test]
fn a_bound_in_light_years_is_taken_in_parsecs() {
    assert!(is_within(&dec("3.0"), &dec("10.0")));
    assert!(is_within(&dec("3.06600"), &dec("10.0")));
    assert!(is_within(&dec("3.066009999"), &dec("10")));
    assert!(!is_within(&dec("3.06601"), &dec("10.0")));
    assert!(!is_within(&dec("3.066010"), &dec("10")));
    assert!(!is_within(&dec("3.0660100001"), &dec("10.0")));
    assert!(!is_within(&dec("0"), &dec("0")));
    assert!(is_within(&dec("0"), &dec("0.001")));
    assert!(is_within(&dec("-1"), &dec("0")));
    assert!(!is_within(&dec("0"), &dec("-1")));
    assert!(is_within(&dec("0.306600"), &dec("1")));
    assert!(!is_within(&dec("0.306601"), &dec("1")));
    assert!(is_within(
        &Decimal { mantissa: i64::MAX, scale: 0 },
        &Decimal { mantissa: i64::MAX, scale: 0 }
    ) == false);
    assert!(is_within(
        &Decimal { mantissa: i64::MAX, scale: 1 },
        &Decimal { mantissa: i64::MAX, scale: 0 }
    ));
}

#[test]
fn the_stars_within_ten_light_years() {
    let stars = catalog();
    let answer = query(&stars, &dec("10.0"), true);
    assert_eq!(answer.order, vec![9, 0, 3, 6, 8, 5, 7, 4]);
    assert_eq!(answer.count(), 8);
}

#[test]
fn a_star_at_the_bound_is_left_out() {
    let stars = vec![star(1, "3.06601"), star(2, "3.066009"), star(3, "3.066011")];
    assert_eq!(query(&stars, &dec("10.0"), true).order, vec![1]);
}

#[test]
fn the_origin_is_among_the_stars_only_where_asked() {
    let stars = catalog();
    assert_eq!(query(&stars, &dec("10.0"), false).order, vec![9, 3, 6, 8, 5, 7, 4]);
    assert_eq!(query(&stars, &dec("1"), true).order, vec![9, 0]);
    assert_eq!(query(&stars, &dec("1"), false).order, vec![9]);
}

#[test]
fn stars_as_near_as_one_another_keep_the_order_of_the_catalogue() {
    let stars = vec![
        star(5, "2.50"),
        star(4, "2.5"),
        star(3, "1"),
        star(2, "2.500"),
        star(1, "1.0"),
    ];
    assert_eq!(query(&stars, &dec("100"), true).order, vec![2, 4, 0, 1, 3]);
}

#[test]
fn distances_in_an_answer_ascend() {
    let mut stars = Vec::new();
    let mut seed: u64 = 12345;
    for id in 0..500u32 {
        seed = seed.wrapping_mul(6364136223846793005).wrapping_add(1442695040888963407);
        let mantissa = ((seed >> 33) % 100_000) as i64;
        let scale = ((seed >> 20) % 5) as u8;
        let mut one = star(id, "0");
        one.distance = Decimal { mantissa, scale };
        stars.push(one);
    }
    let answer = query(&stars, &dec("1000"), true);
    for pair in answer.order.windows(2) {
        let near = &stars[pair[0]].distance;
        let far = &stars[pair[1]].distance;
        assert!(near.is_at_most(far));
        assert!(near.is_less_than(far) || pair[0] < pair[1]);
    }
    let mut expected: Vec<usize> =
        (0..stars.len()).filter(|&place| is_within(&stars[place].distance, &dec("1000"))).collect();
    assert!(expected.len() > 10 && expected.len() < stars.len());
    let mut found = answer.order.clone();
    found.sort();
    expected.sort();
    assert_eq!(found, expected);
}

#[test]
fn a_wider_bound_keeps_what_a_narrower_one_selects() {
    let stars = catalog();
    let bounds = ["-5", "0", "1", "4.2", "4.3", "9.99", "10", "10.001", "1000"];
    for pair in bounds.windows(2) {
        let narrow = query(&stars, &dec(pair[0]), true);
        let wide = query(&stars, &dec(pair[1]), true);
        for place in &narrow.order {
            assert!(wide.order.contains(place), "{} within {}", place, pair[1]);
        }
    }
    assert_eq!(query(&stars, &dec("1000"), true).count(), 10);
    assert_eq!(query(&stars, &dec("-5"), true).count(), 0);
}

#[test]
fn no_star_and_no_match() {
    assert_eq!(query(&Vec::new(), &dec("10"), true), ResultSet { order: Vec::new() });
    assert_eq!(query(&catalog(), &dec("-4"), true).order, Vec::<usize>::new());
}

#[test]
fn the_nearest_of_an_answer_are_listed() {
    assert_eq!(LISTED, 10);
    let mut stars = Vec::new();
    for id in 0..25u32 {
        let mut one = star(id, "0");
        one.distance = Decimal { mantissa: 100 - id as i64, scale: 1 };
        stars.push(one);
    }
    let answer = query(&stars, &dec("1000"), true);
    assert_eq!(answer.count(), 25);
    assert_eq!(answer.nearest(LISTED), vec![24, 23, 22, 21, 20, 19, 18, 17, 16, 15]);
    assert_eq!(answer.nearest(0), Vec::<usize>::new());
    assert_eq!(answer.nearest(25), answer.order);
    assert_eq!(answer.nearest(1000), answer.order);
    assert_eq!(answer.count(), 25);
}

#[test]
fn three_parsecs_in_light_years() {
    assert_eq!(to_light_years(&dec("3.0")), Some(Decimal { mantissa: 9_784_680, scale: 6 }));
    assert!(to_light_years(&dec("3.0")).unwrap().same_value(&dec("9.78468")));
    assert_eq!(to_light_years(&dec("1")), Some(dec("3.26156")));
    assert_eq!(to_light_years(&dec("0.0000")), Some(Decimal { mantissa: 0, scale: 9 }));
    assert_eq!(to_light_years(&Decimal { mantissa: i64::MAX / 326_156 + 1, scale: 0 }), None);
    assert_eq!(
        to_light_years(&Decimal { mantissa: i64::MAX / 326_156, scale: 0 }),
        Some(Decimal { mantissa: i64::MAX / 326_156 * 326_156, scale: 5 })
    );
    assert_eq!(to_light_years(&Decimal { mantissa: 1, scale: 251 }), None);
    assert_eq!(
        to_light_years(&Decimal { mantissa: 1, scale: 250 }),
        Some(Decimal { mantissa: 326_156, scale: 255 })
    );
}

#[test]
fn ten_light_years_in_parsecs() {
    assert_eq!(to_parsecs(&dec("10.0")), Some(Decimal { mantissa: 30_660_100, scale: 7 }));
    assert!(to_parsecs(&dec("10.0")).unwrap().same_value(&dec("3.06601")));
    assert_eq!(to_parsecs(&dec("1")), Some(dec("0.306601")));
    assert_eq!(to_parsecs(&Decimal { mantissa: i64::MIN, scale: 0 }), None);
    assert_eq!(to_parsecs(&Decimal { mantissa: 1, scale: 250 }), None);
    assert_eq!(
        to_parsecs(&Decimal { mantissa: -2, scale: 249 }),
        Some(Decimal { mantissa: -613_202, scale: 255 })
    );
}

#[test]
fn a_whole_catalogue_is_answered() {
    let template = star(1, "0");
    let mut stars = Vec::new();
    let mut seed: u64 = 2024;
    for id in 0..120_000u32 {
        seed = seed.wrapping_mul(6364136223846793005).wrapping_add(1442695040888963407);
        let mut one = template.clone();
        one.id = id;
        one.distance = Decimal { mantissa: ((seed >> 24) % 10_000_000) as i64, scale: 4 };
        stars.push(one);
    }
    let answer = query(&stars, &dec("100000"), false);
    assert_eq!(answer.count(), 119_999);
    for pair in answer.order.windows(2) {
        let near = stars[pair[0]].distance.mantissa;
        let far = stars[pair[1]].distance.mantissa;
        assert!(near < far || (near == far && pair[0] < pair[1]));
    }
    let few = query(&stars, &dec("32.6156"), true);
    let expected = stars.iter().filter(|one| one.distance.mantissa <= 99_999).count();
    assert!(expected > 0);
    assert_eq!(few.count(), expected);
    for &place in &few.order {
        assert!(stars[place].distance.mantissa <= 99_999);
    }
}
