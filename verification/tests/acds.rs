use acadrust::acds::{acds_sab_blobs, parse_hex_u64_text};

fn pairs(items: &[(i32, &str)]) -> Vec<(i32, String)> {
    items.iter().map(|(c, v)| (*c, v.to_string())).collect()
}

#[test]
fn asm_data_records_are_collected_by_entity() {
    let section = pairs(&[
        (0, "ACDSRECORD"),
        (320, " 2A "),
        (2, "ASM_Data"),
        (310, "414243"),
        (310, "  44 "),
        (0, "ACDSRECORD"),
        (320, "2B"),
        (2, "Thumbnail_Data"),
        (310, "FFFF"),
        (0, "ACDSRECORD"),
        (320, "2C"),
        (2, "ASM_Data"),
        (310, "0a0B0"),
        (0, "ENDSEC"),
        (0, "ACDSRECORD"),
        (320, "2D"),
        (2, "ASM_Data"),
        (310, "00"),
        (0, "ACDSRECORD"),
    ]);
    let blobs = acds_sab_blobs(&section);
    assert_eq!(blobs, vec![(0x2A, b"ABCD".to_vec()), (0x2C, vec![0x0A, 0x0B])]);
}

#[test]
fn unbound_or_empty_records_are_dropped() {
    let section = pairs(&[
        (2, "ASM_Data"),
        (310, "41"),
        (0, "ACDSRECORD"),
        (320, "zz"),
        (2, "ASM_Data"),
        (310, "4g"),
        (0, "ENDSEC"),
    ]);
    assert!(acds_sab_blobs(&section).is_empty());
}

#[test]
fn hexadecimal_handles_parse_like_from_str_radix() {
    assert_eq!(parse_hex_u64_text("1F"), Some(0x1F));
    assert_eq!(parse_hex_u64_text("+ff"), Some(0xFF));
    assert_eq!(parse_hex_u64_text("FFFFFFFFFFFFFFFF"), Some(u64::MAX));
    assert_eq!(parse_hex_u64_text("10000000000000000"), None);
    assert_eq!(parse_hex_u64_text(""), None);
    assert_eq!(parse_hex_u64_text("+"), None);
    assert_eq!(parse_hex_u64_text("-1"), None);
    assert_eq!(parse_hex_u64_text("12 "), None);
    for text in ["0", "abc", "DEADBEEF", "+7"] {
        assert_eq!(parse_hex_u64_text(text), u64::from_str_radix(text, 16).ok());
    }
}
