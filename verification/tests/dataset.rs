use esp32c6_matter_human_detection::dataset::{dataset_hex_problem, decode_hex, HexError};

#[test]
fn decodes_hex_pairs() {
    assert_eq!(dataset_hex_problem("0e080000", 254), None);
    assert_eq!(decode_hex("0e080000", 254), vec![0x0e, 0x08, 0x00, 0x00]);
    assert_eq!(decode_hex("aBcD", 254), vec![0xab, 0xcd]);
    assert_eq!(decode_hex("", 254), Vec::<u8>::new());
}

#[test]
fn trims_surrounding_whitespace_and_ignores_odd_tail() {
    assert_eq!(decode_hex("  ff01\n", 254), vec![0xff, 0x01]);
    assert_eq!(decode_hex("\u{3000}\tff01\u{2028}", 254), vec![0xff, 0x01]);
    assert_eq!(decode_hex("ff0", 254), vec![0xff]);
}

#[test]
fn plus_sign_chunk_is_a_single_digit() {
    assert_eq!(decode_hex("+f10", 254), vec![0x0f, 0x10]);
    assert_eq!(dataset_hex_problem("-f", 254), Some(HexError::BadDigit));
}

#[test]
fn reports_bad_digits_and_too_long() {
    assert_eq!(dataset_hex_problem("0g", 254), Some(HexError::BadDigit));
    assert_eq!(dataset_hex_problem("00 1", 254), Some(HexError::BadDigit));
    assert_eq!(dataset_hex_problem("0 0", 254), Some(HexError::BadDigit));
    assert_eq!(dataset_hex_problem("0011", 1), Some(HexError::TooLong));
    // Length is judged before the digits.
    assert_eq!(dataset_hex_problem("zzzz", 1), Some(HexError::TooLong));
    assert_eq!(dataset_hex_problem("0011", 2), None);
    assert_eq!(decode_hex("0011", 2), vec![0, 0x11]);
}
