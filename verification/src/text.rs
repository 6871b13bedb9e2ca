//! Numbers and bytes as text, as the standard formatter writes them.

use crate::hex::hex_digits;
use vstd::prelude::*;
use vstd::string::StringExecFns;

verus! {

/// The decimal digits of a number, without leading zeros; zero is the single
/// digit `0`.
pub open spec fn decimal_digits(n: nat) -> Seq<char>
    decreases n,
{
    if n < 10 {
        seq![('0' as u8 + n) as char]
    } else {
        decimal_digits(n / 10).push(('0' as u8 + n % 10) as char)
    }
}

/// The decimal numbers of the bytes, separated by a comma and a space.
pub open spec fn comma_separated(bytes: Seq<u8>) -> Seq<char>
    decreases bytes.len(),
{
    if bytes.len() == 0 {
        Seq::empty()
    } else if bytes.len() == 1 {
        decimal_digits(bytes[0] as nat)
    } else {
        comma_separated(bytes.drop_last()) + ", "@ + decimal_digits(bytes.last() as nat)
    }
}

/// A byte string as a list: the decimal numbers of its bytes in square
/// brackets, separated by a comma and a space.
pub open spec fn byte_list_text(bytes: Seq<u8>) -> Seq<char> {
    "["@ + comma_separated(bytes) + "]"@
}

/// Writes a byte string as a list.
pub(crate) fn byte_list(bytes: &[u8]) -> (r: String)
    ensures
        r@ == byte_list_text(bytes@),
{
    let mut text: String = String::from_str("[");
    let mut i: usize = 0;
    while i < bytes.len()
        invariant
            i <= bytes@.len(),
            text@ == "["@ + comma_separated(bytes@.subrange(0, i as int)),
        decreases bytes@.len() - i,
    {
        if i > 0 {
            text.append(", ");
        }
        text.append(usize_decimal(bytes[i] as usize).as_str());
        proof {
            let before = bytes@.subrange(0, i as int);
            let now = bytes@.subrange(0, i + 1);
            assert(now.drop_last() =~= before);
            assert(now.last() == bytes@[i as int]);
            if i > 0 {
                assert(text@ =~= "["@ + (comma_separated(before) + ", "@ + decimal_digits(
                    bytes@[i as int] as nat,
                )));
            } else {
                assert(comma_separated(before) =~= Seq::<char>::empty());
                assert(text@ =~= "["@ + decimal_digits(bytes@[i as int] as nat));
            }
        }
        i += 1;
    }
    assert(bytes@.subrange(0, i as int) =~= bytes@);
    text.append("]");
    text
}

/// `LowerHex` of `usize`, without flags: the hexadecimal digits of the number
/// in lower case, without leading zeros; `0` for zero.
#[verifier::external_body]
pub(crate) fn usize_lower_hex(n: usize) -> (r: String)
    ensures
        r@ == hex_digits(n as nat),
{
    format!("{:x}", n)
}

/// `Display` of `usize`, without flags: the decimal digits of the number,
/// without leading zeros; `0` for zero.
#[verifier::external_body]
pub(crate) fn usize_decimal(n: usize) -> (r: String)
    ensures
        r@ == decimal_digits(n as nat),
{
    format!("{}", n)
}

} // verus!
