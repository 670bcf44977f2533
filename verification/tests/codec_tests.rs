use hex_editor::codec::{
    decode, decode_line, digit_value_of, encode, encode_display, hex_to_bytes, strip_spaces,
    upper_digit_of, HexError,
};

#[test]
fn encode_writes_two_upper_case_digits_per_byte() {
    assert_eq!(encode(b"Hi"), b"4869".to_vec());
    assert_eq!(encode(&[0x00, 0x0A, 0xAB, 0xFF]), b"000AABFF".to_vec());
    assert_eq!(encode(&[]), Vec::<u8>::new());
}

#[test]
fn encode_display_puts_a_space_after_every_byte() {
    assert_eq!(encode_display(b"Hi"), b"48 69 ".to_vec());
    assert_eq!(encode_display(&[0xDE, 0xAD, 0xBE, 0xEF]), b"DE AD BE EF ".to_vec());
    assert_eq!(encode_display(&[]), Vec::<u8>::new());
}

#[test]
fn digits_by_value() {
    assert_eq!(upper_digit_of(0), b'0');
    assert_eq!(upper_digit_of(9), b'9');
    assert_eq!(upper_digit_of(10), b'A');
    assert_eq!(upper_digit_of(15), b'F');
    assert_eq!(digit_value_of(b'0'), Some(0));
    assert_eq!(digit_value_of(b'9'), Some(9));
    assert_eq!(digit_value_of(b'a'), Some(10));
    assert_eq!(digit_value_of(b'F'), Some(15));
    assert_eq!(digit_value_of(b'g'), None);
    assert_eq!(digit_value_of(b' '), None);
    assert_eq!(digit_value_of(b'/'), None);
    assert_eq!(digit_value_of(b':'), None);
    assert_eq!(digit_value_of(b'@'), None);
    assert_eq!(digit_value_of(b'`'), None);
}

#[test]
fn decode_reads_pairs_of_digits() {
    assert_eq!(decode(b"4869"), Ok(b"Hi".to_vec()));
    assert_eq!(decode(b"deadBEEF"), Ok(vec![0xDE, 0xAD, 0xBE, 0xEF]));
}

#[test]
fn decode_of_empty_text_is_empty() {
    assert_eq!(decode(b""), Ok(Vec::new()));
}

#[test]
fn decode_of_one_digit_is_odd_length() {
    assert_eq!(decode(b"A"), Err(HexError::OddLength));
    assert_eq!(decode(b"ABC"), Err(HexError::OddLength));
}

#[test]
fn decode_of_other_characters_is_invalid_digit() {
    assert_eq!(decode(b"ZZ"), Err(HexError::InvalidHexDigit));
    assert_eq!(decode(b"4 "), Err(HexError::InvalidHexDigit));
    assert_eq!(decode(b"48 69"), Err(HexError::InvalidHexDigit));
}

#[test]
fn an_invalid_digit_is_reported_before_an_odd_length() {
    assert_eq!(decode(b"Z"), Err(HexError::InvalidHexDigit));
    assert_eq!(decode(b"AAZ"), Err(HexError::InvalidHexDigit));
    assert_eq!(decode(b"AZA"), Err(HexError::InvalidHexDigit));
}

#[test]
fn round_trip_of_every_byte() {
    let all: Vec<u8> = (0..=255u8).collect();
    assert_eq!(decode(&encode(&all)), Ok(all.clone()));
    assert_eq!(decode_line(&encode_display(&all)), Ok(all));
}

#[test]
fn strip_spaces_keeps_all_else() {
    assert_eq!(strip_spaces(b" 48  69 \n"), b"4869\n".to_vec());
    assert_eq!(strip_spaces(b"   "), Vec::<u8>::new());
}

#[test]
fn decode_line_ignores_spaces_only() {
    assert_eq!(decode_line(b"48 65 6C 6C 6F "), Ok(b"Hello".to_vec()));
    assert_eq!(decode_line(b"4 8 6 9"), Ok(b"Hi".to_vec()));
    assert_eq!(decode_line(b"48 6"), Err(HexError::OddLength));
    assert_eq!(decode_line(b"48\t69"), Err(HexError::InvalidHexDigit));
    assert_eq!(decode_line(b""), Ok(Vec::new()));
}

#[test]
fn hex_to_bytes_of_a_string() {
    assert_eq!(hex_to_bytes("48656C6C6F"), Some(b"Hello".to_vec()));
    assert_eq!(hex_to_bytes("0a"), Some(vec![10]));
    assert_eq!(hex_to_bytes(""), Some(Vec::new()));
    assert_eq!(hex_to_bytes("A"), None);
    assert_eq!(hex_to_bytes("ZZ"), None);
    assert_eq!(hex_to_bytes("\u{e9}\u{e9}"), None);
}
