//! Hexadecimal text: decoding bytecode from it, and the digits of a number.

use vstd::prelude::*;
use vstd::string::{is_ascii, is_ascii_spec_bytes};

verus! {

/// Why a text is not an even number of hexadecimal digits.
#[derive(Clone, Copy, Debug, PartialEq, Eq)]
pub enum DecodeError {
    /// The text has an odd number of characters, `len` of them.
    OddLength { len: usize },
    /// The character at `index` is the first that is not a hexadecimal digit.
    InvalidDigit { index: usize },
}

/// The value of a hexadecimal digit, in either case; `None` for any other
/// character.
pub open spec fn hex_value(c: char) -> Option<u8> {
    if '0' <= c && c <= '9' {
        Some((c as u8 - '0' as u8) as u8)
    } else if 'a' <= c && c <= 'f' {
        Some((c as u8 - 'a' as u8 + 10) as u8)
    } else if 'A' <= c && c <= 'F' {
        Some((c as u8 - 'A' as u8 + 10) as u8)
    } else {
        None
    }
}

/// The lower-case digit for a value below 16.
pub open spec fn hex_char(value: nat) -> char {
    if value < 10 {
        ('0' as u8 + value) as char
    } else {
        ('a' as u8 + value - 10) as char
    }
}

/// The character with an upper-case hexadecimal letter turned to lower case.
pub open spec fn lower_hex(c: char) -> char {
    if 'A' <= c && c <= 'F' {
        (c as u8 + 32) as char
    } else {
        c
    }
}

/// Every character is a hexadecimal digit and they pair up.
pub open spec fn is_hex_text(text: Seq<char>) -> bool {
    &&& text.len() % 2 == 0
    &&& forall|i: int| 0 <= i < text.len() ==> hex_value(#[trigger] text[i]) is Some
}

/// `index` is where the first character that is no hexadecimal digit stands.
pub open spec fn first_invalid_digit(text: Seq<char>, index: int) -> bool {
    &&& 0 <= index < text.len()
    &&& hex_value(text[index]) is None
    &&& forall|i: int| 0 <= i < index ==> hex_value(#[trigger] text[i]) is Some
}

/// The byte that two digits denote, high digit first.
pub open spec fn hex_pair(high: char, low: char) -> u8 {
    (hex_value(high).unwrap() * 16 + hex_value(low).unwrap()) as u8
}

/// The bytes that a hexadecimal text denotes, two digits to a byte.
pub open spec fn hex_bytes(text: Seq<char>) -> Seq<u8> {
    Seq::new(text.len() / 2, |i: int| hex_pair(text[2 * i], text[2 * i + 1]))
}

/// The lower-case hexadecimal text of a byte string, two digits to a byte.
pub open spec fn hex_text(bytes: Seq<u8>) -> Seq<char> {
    Seq::new(
        2 * bytes.len(),
        |i: int|
            if i % 2 == 0 {
                hex_char((bytes[i / 2] / 16) as nat)
            } else {
                hex_char((bytes[i / 2] % 16) as nat)
            },
    )
}

/// The lower-case hexadecimal digits of a number, without leading zeros;
/// zero is the single digit `0`.
pub open spec fn hex_digits(n: nat) -> Seq<char>
    decreases n,
{
    if n < 16 {
        seq![hex_char(n)]
    } else {
        hex_digits(n / 16).push(hex_char(n % 16))
    }
}

/// Decoding a valid text and writing the bytes out again in lower case gives
/// the text back, up to the case of its letters.
pub proof fn lemma_decode_then_encode(text: Seq<char>)
    requires
        is_hex_text(text),
    ensures
        hex_text(hex_bytes(text)) == text.map_values(|c: char| lower_hex(c)),
{
    let bytes = hex_bytes(text);
    let back = hex_text(bytes);
    let lowered = text.map_values(|c: char| lower_hex(c));
    assert(back.len() == lowered.len());
    assert forall|i: int| 0 <= i < back.len() implies back[i] == lowered[i] by {
        let k = i / 2;
        let high = text[2 * k];
        let low = text[2 * k + 1];
        assert(hex_value(high) is Some);
        assert(hex_value(low) is Some);
        lemma_hex_char_of_value(high);
        lemma_hex_char_of_value(low);
        assert(bytes[k] == hex_pair(high, low));
    }
    assert(back =~= lowered);
}

/// Writing bytes out as text and decoding the text gives the bytes back.
pub proof fn lemma_encode_then_decode(bytes: Seq<u8>)
    ensures
        is_hex_text(hex_text(bytes)),
        hex_bytes(hex_text(bytes)) == bytes,
{
    let text = hex_text(bytes);
    assert forall|i: int| 0 <= i < text.len() implies hex_value(#[trigger] text[i]) is Some by {
        lemma_value_of_hex_char((bytes[i / 2] / 16) as nat);
        lemma_value_of_hex_char((bytes[i / 2] % 16) as nat);
    }
    assert forall|k: int| 0 <= k < bytes.len() implies hex_bytes(text)[k] == bytes[k] by {
        lemma_value_of_hex_char((bytes[k] / 16) as nat);
        lemma_value_of_hex_char((bytes[k] % 16) as nat);
        assert(text[2 * k] == hex_char((bytes[k] / 16) as nat));
        assert(text[2 * k + 1] == hex_char((bytes[k] % 16) as nat));
    }
    assert(hex_bytes(text) =~= bytes);
}

/// The digit for the value of a hexadecimal digit is that digit in lower case.
proof fn lemma_hex_char_of_value(c: char)
    requires
        hex_value(c) is Some,
    ensures
        hex_value(c).unwrap() < 16,
        hex_char(hex_value(c).unwrap() as nat) == lower_hex(c),
{
}

/// The value of the digit for a value below 16 is that value.
proof fn lemma_value_of_hex_char(value: nat)
    requires
        value < 16,
    ensures
        hex_value(hex_char(value)) == Some(value as u8),
{
}

/// The value of the ASCII byte `b` as a hexadecimal digit.
fn digit_value(b: u8) -> (r: Option<u8>)
    ensures
        r == hex_value(b as char),
{
    if b >= 0x30 && b <= 0x39 {
        Some(b - 0x30)
    } else if b >= 0x61 && b <= 0x66 {
        Some(b - 0x61 + 10)
    } else if b >= 0x41 && b <= 0x46 {
        Some(b - 0x41 + 10)
    } else {
        None
    }
}

/// Where the first character that is no hexadecimal digit stands in a text
/// that has a character outside ASCII.
fn first_invalid_index(s: &str) -> (index: usize)
    requires
        !is_ascii(s),
    ensures
        first_invalid_digit(s@, index as int),
{
    let n: usize = s.unicode_len();
    let ghost outside = choose|i: int|
        0 <= i < s@.len() && !('\0' <= #[trigger] s@[i] && s@[i] <= '\u{7f}');
    let mut index: usize = 0;
    loop
        invariant
            n == s@.len(),
            index <= outside < n,
            !('\0' <= s@[outside] <= '\u{7f}'),
            forall|i: int| 0 <= i < index ==> hex_value(#[trigger] s@[i]) is Some,
        decreases n - index,
    {
        let c: char = s.get_char(index);
        let code: u32 = c as u32;
        if code >= 0x80 {
            return index;
        }
        assert((code as u8) as char == c);
        if digit_value(code as u8).is_none() {
            return index;
        }
        index += 1;
    }
}

/// Decodes a text of hexadecimal digits, two to a byte, in either case.
///
/// A text of odd length is refused before its characters are looked at;
/// otherwise the first character that is no digit is reported.
pub fn decode(s: &str) -> (r: Result<Vec<u8>, DecodeError>)
    ensures
        r is Ok <==> is_hex_text(s@),
        match r {
            Ok(bytes) => bytes@ == hex_bytes(s@),
            Err(DecodeError::OddLength { len }) => s@.len() % 2 == 1 && len == s@.len(),
            Err(DecodeError::InvalidDigit { index }) => s@.len() % 2 == 0 && first_invalid_digit(
                s@,
                index as int,
            ),
        },
{
    let n: usize = s.unicode_len();
    if n % 2 != 0 {
        return Err(DecodeError::OddLength { len: n });
    }
    if !s.is_ascii() {
        return Err(DecodeError::InvalidDigit { index: first_invalid_index(s) });
    }
    proof {
        is_ascii_spec_bytes(s);
    }
    let text: &[u8] = s.as_bytes();
    let mut bytes: Vec<u8> = Vec::new();
    let mut k: usize = 0;
    while k < n / 2
        invariant
            n == s@.len(),
            n % 2 == 0,
            text@.len() == n,
            forall|i: int| 0 <= i < n ==> text@[i] == #[trigger] s@[i] as u8,
            forall|i: int| 0 <= i < n ==> '\0' <= #[trigger] s@[i] <= '\u{7f}',
            k <= n / 2,
            bytes@.len() == k,
            forall|i: int| 0 <= i < 2 * k ==> hex_value(#[trigger] s@[i]) is Some,
            forall|j: int| 0 <= j < k ==> bytes@[j] == hex_pair(s@[2 * j], s@[2 * j + 1]),
        decreases n / 2 - k,
    {
        let high: Option<u8> = digit_value(text[2 * k]);
        let low: Option<u8> = digit_value(text[2 * k + 1]);
        proof {
            assert(text@[2 * k as int] == s@[2 * k as int] as u8);
            assert(text@[2 * k + 1] == s@[2 * k + 1] as u8);
            assert((s@[2 * k as int] as u8) as char == s@[2 * k as int]);
            assert((s@[2 * k + 1] as u8) as char == s@[2 * k + 1]);
        }
        match (high, low) {
            (Some(h), Some(l)) => {
                bytes.push(h * 16 + l);
            },
            (None, _) => {
                return Err(DecodeError::InvalidDigit { index: 2 * k });
            },
            (Some(_), None) => {
                return Err(DecodeError::InvalidDigit { index: 2 * k + 1 });
            },
        }
        k += 1;
    }
    assert(bytes@ =~= hex_bytes(s@));
    Ok(bytes)
}

} // verus!
