use star_catalog::codec::{decode_catalog, encode_catalog};
use star_catalog::decimal::Decimal;
use star_catalog::Star;

const SUN: &str = "0,,,,,,Sol,0.000000,0.000000,0.0000,0.00,0.00,0.0,-26.700,4.850,G2V,0.656,0.000005,0.000000,0.000000,0.00000000,0.00000000,0.00000000,0,0,0,0,,,,1,0,,1,,,";
const FIRST: &str = "1,1,224700,,,,,0.000060,1.089009,219.7802,-5.20,-1.88,0.0,9.100,2.390,F5,0.482,219.740502,0.003449,4.177065,0.00000004,-0.00000554,-0.00000200,0.000015693409775576772,0.019006829612572118,-0.000000025210311388888885,-0.000000009114497,,,Psc,1,1,,9.638290236239703,,,";
const PROXIMA: &str = "70667,70890,,,Gl 551,,Proxima Centauri,14.495985,-62.679485,1.2959,-3775.64,768.16,-16.0,11.010,15.447,M5Ve,1.807,-0.472264,-0.361451,-1.151219,-0.00001510,-0.00000177,0.00001002,3.795021,-1.093963,-0.00001830,0.00000372,,,Cen,1,70667,Gl 551,0.00005445,V645,11.079,10.939";

fn star(line: &str) -> Star {
    let row: Vec<String> = line.split(',').map(|field| field.to_string()).collect();
    Star::from_row(&row).unwrap()
}

fn catalog() -> Vec<Star> {
    let mut odd = star(PROXIMA);
    odd.id = u32::MAX;
    odd.hipparcos = Some(0);
    odd.common_name = Some("α Centauri C — 比邻星".to_string());
    odd.bayer = Some(String::new());
    odd.companion_id = i32::MIN;
    odd.primary_star_id = i32::MAX;
    odd.distance = Decimal { mantissa: i64::MAX, scale: 255 };
    odd.x = Decimal { mantissa: i64::MIN, scale: 0 };
    odd.var_min = Some(Decimal { mantissa: -1, scale: 7 });
    vec![star(SUN), star(FIRST), star(PROXIMA), odd]
}

#[test]
fn a_snapshot_is_read_back_field_for_field() {
    let stars = catalog();
    let bytes = encode_catalog(&stars);
    assert_eq!(decode_catalog(&bytes), Some(stars));
}

#[test]
fn an_empty_catalogue_is_eight_bytes() {
    let bytes = encode_catalog(&Vec::new());
    assert_eq!(bytes, vec![0u8; 8]);
    assert_eq!(decode_catalog(&bytes), Some(Vec::new()));
}

#[test]
fn the_bytes_of_a_snapshot() {
    let bytes = encode_catalog(&vec![star(SUN)]);
    // one star
    assert_eq!(&bytes[0..8], &[1, 0, 0, 0, 0, 0, 0, 0]);
    // id 0; four numbers and one text absent
    assert_eq!(&bytes[8..12], &[0, 0, 0, 0]);
    assert_eq!(&bytes[12..17], &[0, 0, 0, 0, 0]);
    // the name: present, three bytes long
    assert_eq!(&bytes[17..29], &[1, 3, 0, 0, 0, 0, 0, 0, 0, b'S', b'o', b'l']);
    // right ascension 0.000000: mantissa 0, scale 6
    assert_eq!(&bytes[29..38], &[0, 0, 0, 0, 0, 0, 0, 0, 6]);
    let magnitude = 29 + 9 * 3 + 10 * 3;
    // apparent magnitude -26.700: mantissa -26700 modulo 2^64, scale 3
    assert_eq!(
        &bytes[magnitude..magnitude + 9],
        &[0xb4, 0x97, 0xff, 0xff, 0xff, 0xff, 0xff, 0xff, 3]
    );
}

#[test]
fn a_snapshot_cut_short_holds_no_catalogue() {
    let bytes = encode_catalog(&catalog());
    for cut in 0..bytes.len() {
        assert_eq!(decode_catalog(&bytes[..cut]), None, "cut at {}", cut);
    }
}

#[test]
fn bytes_left_over_spoil_a_snapshot() {
    let mut bytes = encode_catalog(&catalog());
    bytes.push(0);
    assert_eq!(decode_catalog(&bytes), None);
}

#[test]
fn a_count_that_passes_the_stars_spoils_a_snapshot() {
    let mut bytes = encode_catalog(&catalog());
    bytes[0] = 5;
    assert_eq!(decode_catalog(&bytes), None);
    bytes[0] = 3;
    assert_eq!(decode_catalog(&bytes), None);
    bytes[0] = 4;
    bytes[7] = 0xff;
    assert_eq!(decode_catalog(&bytes), None);
}

#[test]
fn a_mark_that_is_neither_absent_nor_present_spoils_a_snapshot() {
    let mut bytes = encode_catalog(&vec![star(SUN)]);
    assert_eq!(bytes[12], 0);
    bytes[12] = 2;
    assert_eq!(decode_catalog(&bytes), None);
}

#[test]
fn a_text_that_is_not_utf8_spoils_a_snapshot() {
    let mut bytes = encode_catalog(&vec![star(SUN)]);
    assert_eq!(bytes[26], b'S');
    bytes[26] = 0xff;
    assert_eq!(decode_catalog(&bytes), None);
    bytes[26] = 0xc3;
    bytes[27] = 0xa9;
    let stars = decode_catalog(&bytes).unwrap();
    assert_eq!(stars[0].common_name, Some("él".to_string()));
}

#[test]
fn a_text_longer_than_the_bytes_left_spoils_a_snapshot() {
    let mut bytes = encode_catalog(&vec![star(SUN)]);
    bytes[25] = 0x7f;
    assert_eq!(decode_catalog(&bytes), None);
    bytes[25] = 0;
    bytes[18] = 0xff;
    assert_eq!(decode_catalog(&bytes), None);
}
