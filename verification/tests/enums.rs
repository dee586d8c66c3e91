use notepad_parser::enums::{CRType, Encoding};

#[test]
fn encoding_known_codes() {
    assert_eq!(Encoding::from(1u8), Encoding::ANSI);
    assert_eq!(Encoding::from(2u8), Encoding::UTF16LE);
    assert_eq!(Encoding::from(3u8), Encoding::UTF16BE);
    assert_eq!(Encoding::from(4u8), Encoding::UTF8BOM);
    assert_eq!(Encoding::from(5u8), Encoding::UTF8);
}

#[test]
fn encoding_unknown_code_is_kept() {
    assert_eq!(Encoding::from(0x09u8), Encoding::UNKNOWN(9));
    assert_eq!(Encoding::from(0u8), Encoding::UNKNOWN(0));
    assert_eq!(Encoding::from(6u8), Encoding::UNKNOWN(6));
    assert_eq!(Encoding::from(255u8), Encoding::UNKNOWN(255));
}

#[test]
fn cr_type_known_codes() {
    assert_eq!(CRType::from(1u8), CRType::CRLF);
    assert_eq!(CRType::from(2u8), CRType::CR);
    assert_eq!(CRType::from(3u8), CRType::LF);
}

#[test]
fn cr_type_unknown_code_is_kept() {
    assert_eq!(CRType::from(0x09u8), CRType::UNKNOWN(9));
    assert_eq!(CRType::from(0u8), CRType::UNKNOWN(0));
    assert_eq!(CRType::from(4u8), CRType::UNKNOWN(4));
}
