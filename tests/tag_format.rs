use panopticon::tag::{format_tag_id, format_tag_id_hex, is_valid_tag_id, tag_id_to_u32};

#[test]
fn decimal_format_of_tag() {
    assert_eq!(format_tag_id(&[128, 0, 72, 35, 76]), "128,0,72,35,76");
    assert_eq!(format_tag_id(&[0, 9, 10, 99, 255]), "0,9,10,99,255");
}

#[test]
fn hex_format_of_tag() {
    assert_eq!(format_tag_id_hex(&[128, 0, 72, 35, 76]), "80:00:48:23:4C");
    assert_eq!(format_tag_id_hex(&[255, 255, 255, 255, 255]), "FF:FF:FF:FF:FF");
    assert_eq!(format_tag_id_hex(&[0, 10, 171, 1, 16]), "00:0A:AB:01:10");
}

#[test]
fn tag_as_u32_skips_manufacturer_byte() {
    assert_eq!(tag_id_to_u32(&[128, 0, 72, 35, 76]), 0x0048_234C);
    assert_eq!(tag_id_to_u32(&[7, 0xDE, 0xAD, 0xBE, 0xEF]), 0xDEAD_BEEF);
}

#[test]
fn tag_validator_accepts_exact_format_only() {
    assert!(is_valid_tag_id("80:00:48:23:4C"));
    assert!(is_valid_tag_id("FF:FF:FF:FF:FF"));
    assert!(!is_valid_tag_id("80:00:48:23:4c"));
    assert!(!is_valid_tag_id("80:00:48:23"));
    assert!(!is_valid_tag_id("GG:00:48:23:4C"));
    assert!(!is_valid_tag_id(""));
    assert!(!is_valid_tag_id("80:00:48:23:4C:"));
    assert!(!is_valid_tag_id("80-00-48-23-4C"));
    assert!(!is_valid_tag_id("800:0:48:23:4C"));
    assert!(!is_valid_tag_id(" 80:00:48:23:4C"));
}

#[test]
fn hex_format_round_trips_through_validator() {
    let s = format_tag_id_hex(&[1, 2, 3, 4, 5]);
    assert!(is_valid_tag_id(&s));
}
