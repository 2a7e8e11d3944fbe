use acadrust::code_page::{
    dwg_code_page_index, dwg_code_page_name, encode_legacy_string, encoding_from_code_page,
    encoding_from_dwg_code_page, legacy_encoding_for_code_page, legacy_encoding_for_dwg_code_page,
    LegacyEncoding,
};
use acadrust::code_page::{decodes_to_cjk, detect_encoding_from_bytes, detect_legacy_encoding_from_bytes};
use acadrust::mif::decode_mif_escapes;

#[test]
fn test_ansi_1252() {
    let enc = encoding_from_code_page("ANSI_1252");
    assert_eq!(enc, Some(encoding_rs::WINDOWS_1252));
}

#[test]
fn test_case_insensitive() {
    assert_eq!(
        encoding_from_code_page("ansi_1251"),
        encoding_from_code_page("ANSI_1251")
    );
}

#[test]
fn test_ascii_returns_none() {
    assert_eq!(encoding_from_code_page("ASCII"), None);
}

#[test]
fn test_utf8_returns_none() {
    assert_eq!(encoding_from_code_page("UTF-8"), None);
}

#[test]
fn test_unknown_returns_windows1252() {
    let enc = encoding_from_code_page("SOMETHING_UNKNOWN");
    assert_eq!(enc, Some(encoding_rs::WINDOWS_1252));
}

#[test]
fn test_asian_encodings() {
    assert_eq!(encoding_from_code_page("GB2312"), Some(encoding_rs::GBK));
    assert_eq!(encoding_from_code_page("BIG5"), Some(encoding_rs::BIG5));
    assert_eq!(encoding_from_code_page("ANSI_932"), Some(encoding_rs::SHIFT_JIS));
    assert_eq!(encoding_from_code_page("KOREAN"), Some(encoding_rs::EUC_KR));
}

#[test]
fn test_decode_mif_escapes() {
    assert_eq!(decode_mif_escapes("ab\\U+4E2Dcd"), "ab中cd");
    assert_eq!(decode_mif_escapes("\\U+0041\\U+0042"), "AB");
    // Exactly four hex digits: a fifth character stays literal.
    assert_eq!(decode_mif_escapes("\\U+00412"), "A2");
    // Malformed escapes stay literal.
    assert_eq!(decode_mif_escapes("\\U+GGGG"), "\\U+GGGG");
    assert_eq!(decode_mif_escapes("\\U+4E"), "\\U+4E");
    assert_eq!(decode_mif_escapes("no escapes here"), "no escapes here");
    // Invalid code points are dropped.
    assert_eq!(decode_mif_escapes("\\U+D800"), "");
    // Surrogate pair combines into a scalar.
    assert_eq!(decode_mif_escapes("\\U+D83D\\U+DE00"), "😀");
}

#[test]
fn test_encode_legacy_string_mif_escapes() {
    // Mappable chars encode directly.
    assert_eq!(encode_legacy_string("AB", LegacyEncoding::Windows1252), b"AB");
    // Unmappable chars become MIF escapes, not HTML references.
    let encoded = encode_legacy_string("中", LegacyEncoding::Windows1252);
    assert_eq!(String::from_utf8(encoded).unwrap(), "\\U+4E2D");
    // Astral-plane chars become a surrogate pair of escapes.
    let encoded = encode_legacy_string("😀", LegacyEncoding::Windows1252);
    assert_eq!(String::from_utf8(encoded).unwrap(), "\\U+D83D\\U+DE00");
    // GBK encodes Chinese directly with no escapes.
    assert_eq!(encode_legacy_string("中", LegacyEncoding::Gbk), &[0xD6, 0xD0]);
    // Round-trip through the decoder.
    let encoded = encode_legacy_string("a中b😀c", LegacyEncoding::Windows1252);
    let text = String::from_utf8(encoded).unwrap();
    assert_eq!(decode_mif_escapes(&text), "a中b😀c");
}

#[test]
fn dwg_code_page_names_and_indices() {
    assert_eq!(dwg_code_page_name(1), "ASCII");
    assert_eq!(dwg_code_page_name(30), "ANSI_1252");
    assert_eq!(dwg_code_page_name(31), "GB2312");
    assert_eq!(dwg_code_page_name(43), "UTF-8");
    assert_eq!(dwg_code_page_name(0), "ANSI_1252");
    assert_eq!(dwg_code_page_name(999), "ANSI_1252");
    assert_eq!(dwg_code_page_index("ascii"), 1);
    assert_eq!(dwg_code_page_index("ANSI1251"), 29);
    assert_eq!(dwg_code_page_index("dos932"), 22);
    assert_eq!(dwg_code_page_index("Unicode"), 43);
    assert_eq!(dwg_code_page_index("nonsense"), 30);
    for index in 1..=37u16 {
        assert_eq!(dwg_code_page_index(dwg_code_page_name(index)), index);
    }
}

#[test]
fn code_pages_case_insensitive_everywhere() {
    for (a, b) in [("Korean", "KOREAN"), ("iso_8859-5", "ISO_8859-5"), ("Koi8-U", "koi8-u")] {
        assert_eq!(legacy_encoding_for_code_page(a), legacy_encoding_for_code_page(b));
        assert_eq!(dwg_code_page_index(a), dwg_code_page_index(b));
    }
}

#[test]
fn legacy_encodings_for_names_and_indices() {
    assert_eq!(legacy_encoding_for_code_page("johab"), Some(LegacyEncoding::EucKr));
    assert_eq!(legacy_encoding_for_code_page("dos437"), Some(LegacyEncoding::Ibm866));
    assert_eq!(legacy_encoding_for_code_page("iso8859-9"), Some(LegacyEncoding::Windows1254));
    assert_eq!(legacy_encoding_for_code_page("utf8"), None);
    assert_eq!(legacy_encoding_for_dwg_code_page(1), LegacyEncoding::Windows1252);
    assert_eq!(legacy_encoding_for_dwg_code_page(43), LegacyEncoding::Windows1252);
    assert_eq!(legacy_encoding_for_dwg_code_page(24), LegacyEncoding::Big5);
    assert_eq!(encoding_from_dwg_code_page(31), encoding_rs::GBK);
    assert_eq!(encoding_from_dwg_code_page(29), encoding_rs::WINDOWS_1251);
    assert_eq!(LegacyEncoding::Koi8R.label(), "koi8-r");
}

#[test]
fn mif_escape_of_every_unmappable_character_decodes() {
    let text = "Ω≈ç√∫˜µ≤≥÷ 中文 😀🎉";
    let encoded = encode_legacy_string(text, LegacyEncoding::Windows1250);
    let decoded = decode_mif_escapes(&String::from_utf8_lossy(&encoded));
    // Characters that Windows-1250 cannot hold come back through the escapes.
    assert!(decoded.contains("中文"));
    assert!(decoded.contains("😀🎉"));
}

#[test]
fn encoding_detection_from_bytes() {
    assert_eq!(detect_encoding_from_bytes(b"plain ASCII text"), encoding_rs::WINDOWS_1252);
    let (gbk, _, _) = encoding_rs::GBK.encode("中文字符");
    assert_eq!(detect_legacy_encoding_from_bytes(&gbk), LegacyEncoding::Gbk);
    assert_eq!(detect_encoding_from_bytes(&gbk), encoding_rs::GBK);
    // A lone high byte at the end forms no pair.
    assert_eq!(detect_legacy_encoding_from_bytes(b"abc\xC0"), LegacyEncoding::Windows1252);
    assert!(decodes_to_cjk(Some('中')));
    assert!(decodes_to_cjk(Some('가')));
    assert!(!decodes_to_cjk(Some('A')));
    assert!(!decodes_to_cjk(None));
}

#[test]
fn escapes_take_exactly_four_hex_digits() {
    assert_eq!(decode_mif_escapes("\\U++041"), "\\U++041");
    assert_eq!(decode_mif_escapes("x\\U+0041y"), "xAy");
    assert_eq!(decode_mif_escapes("no escapes here"), "no escapes here");
}

#[test]
fn ascii_and_unmappable_text_decodes_back() {
    let text = "A\u{436}B \\ U\u{1F600}+";
    let bytes = encode_legacy_string(text, LegacyEncoding::Windows1252);
    let encoded = String::from_utf8(bytes).unwrap();
    assert!(encoded.is_ascii());
    assert_eq!(decode_mif_escapes(&encoded), text);
}
