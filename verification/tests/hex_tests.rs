use mini_evm::hex::{decode, DecodeError};

fn encode_lower(bytes: &[u8]) -> String {
    let mut text = String::new();
    for b in bytes {
        text.push_str(&format!("{:02x}", b));
    }
    text
}

#[test]
fn decodes_pairs_of_digits() {
    assert_eq!(decode("6001600201"), Ok(vec![0x60, 0x01, 0x60, 0x02, 0x01]));
}

#[test]
fn decodes_the_empty_text_to_no_bytes() {
    assert_eq!(decode(""), Ok(vec![]));
}

#[test]
fn decodes_both_cases() {
    assert_eq!(decode("aAbBcCdDeEfF"), Ok(vec![0xaa, 0xbb, 0xcc, 0xdd, 0xee, 0xff]));
    assert_eq!(decode("0F9a"), Ok(vec![0x0f, 0x9a]));
}

#[test]
fn decodes_every_byte_value() {
    let all: Vec<u8> = (0..=255u8).collect();
    let text = encode_lower(&all);
    assert_eq!(text.len(), 512);
    assert_eq!(decode(&text), Ok(all));
}

#[test]
fn decode_then_encode_gives_the_text_in_lower_case() {
    let text = "00Ff7f80DeadBEEF6001";
    let bytes = decode(text).unwrap();
    assert_eq!(encode_lower(&bytes), text.to_lowercase());
    let lower = "0123456789abcdef";
    assert_eq!(encode_lower(&decode(lower).unwrap()), lower);
}

#[test]
fn odd_length_is_refused() {
    assert_eq!(decode("6"), Err(DecodeError::OddLength { len: 1 }));
    assert_eq!(decode("600"), Err(DecodeError::OddLength { len: 3 }));
    assert_eq!(decode("6001600201\n"), Err(DecodeError::OddLength { len: 11 }));
}

#[test]
fn odd_length_is_reported_before_a_bad_digit() {
    assert_eq!(decode("zz0"), Err(DecodeError::OddLength { len: 3 }));
}

#[test]
fn a_character_that_is_no_digit_is_refused() {
    assert_eq!(decode("0g"), Err(DecodeError::InvalidDigit { index: 1 }));
    assert_eq!(decode("g0"), Err(DecodeError::InvalidDigit { index: 0 }));
    assert_eq!(decode("6001zz02"), Err(DecodeError::InvalidDigit { index: 4 }));
    assert_eq!(decode("60 1"), Err(DecodeError::InvalidDigit { index: 2 }));
}

#[test]
fn a_sign_is_no_digit() {
    assert_eq!(decode("+f"), Err(DecodeError::InvalidDigit { index: 0 }));
    assert_eq!(decode("-1"), Err(DecodeError::InvalidDigit { index: 0 }));
}

#[test]
fn characters_next_to_the_digits_are_refused() {
    assert_eq!(decode("/0"), Err(DecodeError::InvalidDigit { index: 0 }));
    assert_eq!(decode(":0"), Err(DecodeError::InvalidDigit { index: 0 }));
    assert_eq!(decode("@0"), Err(DecodeError::InvalidDigit { index: 0 }));
    assert_eq!(decode("G0"), Err(DecodeError::InvalidDigit { index: 0 }));
    assert_eq!(decode("`0"), Err(DecodeError::InvalidDigit { index: 0 }));
    assert_eq!(decode("0x"), Err(DecodeError::InvalidDigit { index: 1 }));
}

#[test]
fn text_outside_ascii_is_refused_by_character_position() {
    assert_eq!(decode("60é1"), Err(DecodeError::InvalidDigit { index: 2 }));
    assert_eq!(decode("é"), Err(DecodeError::OddLength { len: 1 }));
    assert_eq!(decode("éé"), Err(DecodeError::InvalidDigit { index: 0 }));
    assert_eq!(decode("ab\u{1F600}0"), Err(DecodeError::InvalidDigit { index: 2 }));
}
