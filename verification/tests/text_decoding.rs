use aemm::ids::{parse_uuid, uuid_string};
use aemm::ini_parse::{decode_ini, decode_utf16, decode_utf8};

#[test]
fn utf8_text_is_decoded_and_invalid_bytes_flagged() {
    let (text, lossy) = decode_utf8("é!".as_bytes());
    assert_eq!(text.into_iter().collect::<String>(), "é!");
    assert!(!lossy);
    let (text, lossy) = decode_utf8(&[b'a', 0xFF]);
    assert_eq!(text.into_iter().collect::<String>(), "a\u{FFFD}");
    assert!(lossy);
}

#[test]
fn utf16_text_is_decoded_in_either_byte_order() {
    let (text, lossy) = decode_utf16(&[0x41, 0x00, 0x42, 0x00], true);
    assert_eq!(text.into_iter().collect::<String>(), "AB");
    assert!(!lossy);
    let (text, _) = decode_utf16(&[0x00, 0x41], false);
    assert_eq!(text.into_iter().collect::<String>(), "A");
    let (text, lossy) = decode_utf16(&[0x00, 0xD8], true);
    assert_eq!(text.into_iter().collect::<String>(), "\u{FFFD}");
    assert!(lossy);
}

#[test]
fn ini_bytes_are_decoded_by_their_byte_order_mark() {
    let (text, _) = decode_ini(&[0xEF, 0xBB, 0xBF, b'x']);
    assert_eq!(text.into_iter().collect::<String>(), "x");
    let (text, _) = decode_ini(&[0xFF, 0xFE, b'y', 0]);
    assert_eq!(text.into_iter().collect::<String>(), "y");
}

#[test]
fn uuids_print_and_parse() {
    let id: u128 = 0x0123_4567_89ab_cdef_0123_4567_89ab_cdef;
    let text = uuid_string(id);
    assert_eq!(text, "01234567-89ab-cdef-0123-456789abcdef");
    assert_eq!(parse_uuid(&text), Some(id));
    assert_eq!(parse_uuid("not a uuid"), None);
}

#[test]
fn uuid_text_is_accepted_in_its_four_forms() {
    let id: u128 = 0x67e5504410b1426f9247bb680e5fe0c8;
    assert_eq!(parse_uuid("67e55044-10b1-426f-9247-bb680e5fe0c8"), Some(id));
    assert_eq!(parse_uuid("67E5504410B1426F9247BB680E5FE0C8"), Some(id));
    assert_eq!(parse_uuid("{67e55044-10b1-426f-9247-bb680e5fe0c8}"), Some(id));
    assert_eq!(parse_uuid("URN:uuid:67e55044-10b1-426f-9247-bb680e5fe0c8"), Some(id));
    assert_eq!(parse_uuid("67e55044-10b1-426f-9247-bb680e5fe0cg"), None);
    assert_eq!(parse_uuid("67e55044+10b1-426f-9247-bb680e5fe0c8"), None);
    assert_eq!(parse_uuid("(67e55044-10b1-426f-9247-bb680e5fe0c8)"), None);
}

#[test]
fn utf16_surrogate_pairs_and_unpaired_surrogates() {
    // U+1F600 as a little-endian surrogate pair, then 'a'.
    let (text, lossy) = decode_utf16(&[0x3D, 0xD8, 0x00, 0xDE, 0x61, 0x00], true);
    assert_eq!(text.iter().collect::<String>(), "\u{1F600}a");
    assert!(!lossy);
    // A leading surrogate followed by 'a', then a lone trailing surrogate.
    let (text, lossy) = decode_utf16(&[0xD8, 0x3D, 0x00, 0x61, 0xDE, 0x00], false);
    assert_eq!(text.iter().collect::<String>(), "\u{FFFD}a\u{FFFD}");
    assert!(lossy);
}
