//! The 256-bit machine word and its big-endian byte encoding.
//!
//! A [`Word`] stores four 64-bit limbs, least significant first, which is the
//! layout of `ethereum_types::U256`. Arithmetic, byte conversion and hex
//! rendering are done by that type; this module states what those operations
//! return over the natural number a word stands for.

use crate::hex::hex_digits;
use ethereum_types::U256;
use vstd::prelude::*;

verus! {

/// 2^64, the weight of one limb.
pub open spec fn limb_base() -> nat {
    0x1_0000_0000_0000_0000nat
}

/// 2^256, the number of distinct words.
pub open spec fn word_modulus() -> nat {
    0x1_0000_0000_0000_0000_0000_0000_0000_0000_0000_0000_0000_0000_0000_0000_0000_0000nat
}

/// 256 to the power `k`.
pub open spec fn pow256(k: nat) -> nat
    decreases k,
{
    if k == 0 {
        1
    } else {
        256 * pow256((k - 1) as nat)
    }
}

/// The number that a byte string denotes when read big-endian.
pub open spec fn be_nat(bytes: Seq<u8>) -> nat
    decreases bytes.len(),
{
    if bytes.len() == 0 {
        0
    } else {
        be_nat(bytes.drop_last()) * 256 + bytes.last() as nat
    }
}

/// The `len` low-order base-256 digits of `n`, most significant first.
pub open spec fn be_bytes(n: nat, len: nat) -> Seq<u8>
    decreases len,
{
    if len == 0 {
        Seq::empty()
    } else {
        be_bytes(n / 256, (len - 1) as nat).push((n % 256) as u8)
    }
}

/// A 256-bit unsigned integer.
#[derive(Clone, Copy, Debug, Default, PartialEq, Eq)]
pub struct Word {
    /// Base-2^64 digits, least significant first.
    pub limbs: [u64; 4],
}

impl View for Word {
    type V = nat;

    /// The number the word stands for.
    open spec fn view(&self) -> nat {
        self.limbs[0] as nat + self.limbs[1] as nat * limb_base() + self.limbs[2] as nat
            * limb_base() * limb_base() + self.limbs[3] as nat * limb_base() * limb_base()
            * limb_base()
    }
}

impl Word {
    /// The word that stands for `n` modulo 2^256.
    pub open spec fn from_nat(n: nat) -> Word {
        Word {
            limbs: [
                (n % limb_base()) as u64,
                (n / limb_base() % limb_base()) as u64,
                (n / limb_base() / limb_base() % limb_base()) as u64,
                (n / limb_base() / limb_base() / limb_base() % limb_base()) as u64,
            ],
        }
    }

    /// Every word stands for a number below 2^256.
    pub proof fn lemma_view_bound(self)
        ensures
            self@ < word_modulus(),
    {
    }

    /// A word is determined by the number it stands for.
    pub proof fn lemma_from_nat_view(self)
        ensures
            Word::from_nat(self@) == self,
    {
        let n = self@;
        let b = limb_base() as int;
        let l0 = self.limbs[0] as int;
        let l1 = self.limbs[1] as int;
        let l2 = self.limbs[2] as int;
        let l3 = self.limbs[3] as int;
        lemma_limb_split(l0, l1 + l2 * b + l3 * b * b);
        lemma_limb_split(l1, l2 + l3 * b);
        lemma_limb_split(l2, l3);
        lemma_limb_split(l3, 0);
        assert(Word::from_nat(n).limbs =~= self.limbs);
    }

    /// Every number below 2^256 is the value of the word made from it.
    pub proof fn lemma_view_from_nat(n: nat)
        requires
            n < word_modulus(),
        ensures
            Word::from_nat(n)@ == n,
    {
        let b = limb_base() as int;
        let q1 = n as int / b;
        let q2 = q1 / b;
        let q3 = q2 / b;
        assert(n == q1 * b + n as int % b);
        assert(q1 == q2 * b + q1 % b);
        assert(q2 == q3 * b + q2 % b);
        assert(q3 < b);
        assert(q3 % b == q3);
    }

    /// The word that stands for `value`.
    pub fn from_u64(value: u64) -> (r: Word)
        ensures
            r@ == value,
            r == Word::from_nat(value as nat),
    {
        let r = Word { limbs: [value, 0, 0, 0] };
        proof {
            r.lemma_from_nat_view();
        }
        r
    }

    /// Reads at most 32 bytes as a big-endian number.
    pub fn from_big_endian(bytes: &[u8]) -> (r: Word)
        requires
            bytes@.len() <= 32,
        ensures
            r@ == be_nat(bytes@),
            r == Word::from_nat(be_nat(bytes@)),
    {
        let r = u256_from_big_endian(bytes);
        proof {
            r.lemma_from_nat_view();
        }
        r
    }

    /// The 32 bytes of the word, most significant first.
    pub fn to_big_endian(&self) -> (r: [u8; 32])
        ensures
            r@ == be_bytes(self@, 32),
            be_nat(r@) == self@,
    {
        let r = u256_to_big_endian(*self);
        proof {
            self.lemma_view_bound();
            lemma_pow256_32();
            lemma_be_nat_of_be_bytes(self@, 32);
        }
        r
    }

    /// The sum modulo 2^256.
    pub fn wrapping_add(self, other: Word) -> (r: Word)
        ensures
            r@ == (self@ + other@) % word_modulus(),
            r == Word::from_nat((self@ + other@) % word_modulus()),
    {
        let r = u256_overflowing_add(self, other);
        proof {
            r.lemma_from_nat_view();
        }
        r
    }

    /// The product modulo 2^256.
    pub fn wrapping_mul(self, other: Word) -> (r: Word)
        ensures
            r@ == (self@ * other@) % word_modulus(),
            r == Word::from_nat((self@ * other@) % word_modulus()),
    {
        let r = u256_overflowing_mul(self, other);
        proof {
            r.lemma_from_nat_view();
        }
        r
    }

    /// The least significant byte.
    pub fn low_byte(&self) -> (r: u8)
        ensures
            r == self@ % 256,
    {
        let r = u256_byte(*self, 0);
        assert(pow256(0) == 1);
        r
    }

    /// The value in lower-case hexadecimal digits, without leading zeros.
    pub fn to_hex(&self) -> (r: String)
        ensures
            r@ == hex_digits(self@),
    {
        u256_lower_hex(*self)
    }

    /// The word as a `usize`, where it fits.
    pub fn to_usize(&self) -> (r: Option<usize>)
        ensures
            r == (if self@ <= usize::MAX {
                Some(self@ as usize)
            } else {
                None
            }),
    {
        if self.limbs[1] != 0 || self.limbs[2] != 0 || self.limbs[3] != 0 {
            return None;
        }
        let low: u64 = u256_as_u64(*self);
        if low > usize::MAX as u64 {
            None
        } else {
            Some(low as usize)
        }
    }
}

/// `U256::from_big_endian`: the word whose value is the big-endian reading of
/// the slice. The outside function panics on more than 32 bytes.
#[verifier::external_body]
fn u256_from_big_endian(bytes: &[u8]) -> (r: Word)
    requires
        bytes@.len() <= 32,
    ensures
        r@ == be_nat(bytes@),
{
    Word { limbs: U256::from_big_endian(bytes).0 }
}

/// `U256::to_big_endian` on a 32-byte buffer: the buffer then holds the 32
/// base-256 digits of the value, most significant first.
#[verifier::external_body]
fn u256_to_big_endian(w: Word) -> (r: [u8; 32])
    ensures
        r@ == be_bytes(w@, 32),
{
    let mut bytes: [u8; 32] = [0u8; 32];
    U256(w.limbs).to_big_endian(&mut bytes);
    bytes
}

/// `U256::overflowing_add`, first component: the sum reduced modulo 2^256.
#[verifier::external_body]
fn u256_overflowing_add(a: Word, b: Word) -> (r: Word)
    ensures
        r@ == (a@ + b@) % word_modulus(),
{
    Word { limbs: U256(a.limbs).overflowing_add(U256(b.limbs)).0.0 }
}

/// `U256::overflowing_mul`, first component: the product reduced modulo 2^256.
#[verifier::external_body]
fn u256_overflowing_mul(a: Word, b: Word) -> (r: Word)
    ensures
        r@ == (a@ * b@) % word_modulus(),
{
    Word { limbs: U256(a.limbs).overflowing_mul(U256(b.limbs)).0.0 }
}

/// `U256::byte`: the base-256 digit of weight `256^index`. The outside
/// function panics on an index of 32 or more.
#[verifier::external_body]
fn u256_byte(w: Word, index: usize) -> (r: u8)
    requires
        index < 32,
    ensures
        r == w@ / pow256(index as nat) % 256,
{
    U256(w.limbs).byte(index)
}

/// `U256::as_u64`: the value itself. The outside function panics on a value
/// above `u64::MAX`.
#[verifier::external_body]
fn u256_as_u64(w: Word) -> (r: u64)
    requires
        w@ <= u64::MAX,
    ensures
        r == w@,
{
    U256(w.limbs).as_u64()
}

/// `LowerHex` of `U256`, without flags: the hexadecimal digits of the value in
/// lower case, from the first that is not zero on; `0` for zero.
#[verifier::external_body]
fn u256_lower_hex(w: Word) -> (r: String)
    ensures
        r@ == hex_digits(w@),
{
    format!("{:x}", U256(w.limbs))
}

/// 256^32 is 2^256.
pub proof fn lemma_pow256_32()
    ensures
        pow256(32) == word_modulus(),
{
    reveal_with_fuel(pow256, 33);
}

/// A higher power of 256 is no smaller.
pub proof fn lemma_pow256_increases(low: nat, high: nat)
    requires
        low <= high,
    ensures
        pow256(low) <= pow256(high),
    decreases high,
{
    if low < high {
        lemma_pow256_increases(low, (high - 1) as nat);
    }
}

/// A big-endian reading of `k` bytes is below 256^k.
pub proof fn lemma_be_nat_bound(bytes: Seq<u8>)
    ensures
        be_nat(bytes) < pow256(bytes.len()),
    decreases bytes.len(),
{
    if bytes.len() > 0 {
        lemma_be_nat_bound(bytes.drop_last());
    }
}

/// Encoding into `len` bytes always gives `len` bytes.
pub proof fn lemma_be_bytes_len(n: nat, len: nat)
    ensures
        be_bytes(n, len).len() == len,
    decreases len,
{
    if len > 0 {
        lemma_be_bytes_len(n / 256, (len - 1) as nat);
    }
}

/// Encoding a number that fits into `len` bytes and reading the bytes back
/// gives the number.
pub proof fn lemma_be_nat_of_be_bytes(n: nat, len: nat)
    requires
        n < pow256(len),
    ensures
        be_nat(be_bytes(n, len)) == n,
    decreases len,
{
    if len > 0 {
        lemma_be_nat_of_be_bytes(n / 256, (len - 1) as nat);
        assert(be_bytes(n, len).drop_last() =~= be_bytes(n / 256, (len - 1) as nat));
    }
}

/// Reading bytes and encoding the number into as many bytes gives the bytes.
pub proof fn lemma_be_bytes_of_be_nat(bytes: Seq<u8>)
    ensures
        be_bytes(be_nat(bytes), bytes.len()) == bytes,
    decreases bytes.len(),
{
    if bytes.len() > 0 {
        lemma_be_bytes_of_be_nat(bytes.drop_last());
        assert(bytes.drop_last().push(bytes.last()) =~= bytes);
    }
}

/// Writing `x` as `low + high * 2^64` with `low` a limb, the quotient by 2^64
/// is `high` and the remainder is `low`.
proof fn lemma_limb_split(low: int, high: int)
    requires
        0 <= low < limb_base(),
        0 <= high,
    ensures
        (low + high * limb_base()) / (limb_base() as int) == high,
        (low + high * limb_base()) % (limb_base() as int) == low,
{
}

} // verus!
