//! The machine's working storage: a byte buffer that only grows.

use crate::word::{
    be_bytes, be_nat, lemma_be_bytes_len, lemma_be_nat_of_be_bytes, lemma_pow256_32, word_modulus,
    Word,
};
use vstd::prelude::*;
use vstd::slice::slice_subrange;

verus! {

/// `mem`, extended with zero bytes up to `size` where it is shorter.
pub open spec fn grown(mem: Seq<u8>, size: nat) -> Seq<u8> {
    if size <= mem.len() {
        mem
    } else {
        mem + Seq::new((size - mem.len()) as nat, |i: int| 0u8)
    }
}

/// `mem` with `bytes` written over the positions from `addr` on.
pub open spec fn overwritten(mem: Seq<u8>, addr: int, bytes: Seq<u8>) -> Seq<u8> {
    Seq::new(
        mem.len(),
        |i: int|
            if addr <= i < addr + bytes.len() {
                bytes[i - addr]
            } else {
                mem[i]
            },
    )
}

/// The word that the 32 bytes from `addr` on denote, read big-endian.
pub open spec fn word_at(mem: Seq<u8>, addr: int) -> nat {
    be_nat(mem.subrange(addr, addr + 32))
}

/// A word stored at an address is the word read back from it.
pub proof fn lemma_load_after_store(mem: Seq<u8>, addr: int, value: nat)
    requires
        0 <= addr,
        addr + 32 <= mem.len(),
        value < word_modulus(),
    ensures
        word_at(overwritten(mem, addr, be_bytes(value, 32)), addr) == value,
{
    lemma_be_bytes_len(value, 32);
    lemma_pow256_32();
    lemma_be_nat_of_be_bytes(value, 32);
    assert(overwritten(mem, addr, be_bytes(value, 32)).subrange(addr, addr + 32) =~= be_bytes(
        value,
        32,
    ));
}

/// Growing never shortens, keeps what was there, and fills with zeros.
pub proof fn lemma_grown(mem: Seq<u8>, size: nat)
    ensures
        grown(mem, size).len() == if size <= mem.len() {
            mem.len()
        } else {
            size
        },
        forall|i: int| 0 <= i < mem.len() ==> grown(mem, size)[i] == mem[i],
        forall|i: int| mem.len() <= i < size ==> grown(mem, size)[i] == 0,
{
}

/// Growable, zero-initialised, byte-addressed storage.
#[derive(Debug, Default)]
pub struct Memory {
    data: Vec<u8>,
}

impl View for Memory {
    type V = Seq<u8>;

    /// The bytes held, by address.
    closed spec fn view(&self) -> Seq<u8> {
        self.data@
    }
}

impl Memory {
    /// An empty memory.
    pub fn new() -> (r: Memory)
        ensures
            r@ == Seq::<u8>::empty(),
    {
        Memory { data: Vec::new() }
    }

    /// The number of bytes held.
    pub fn len(&self) -> (r: usize)
        ensures
            r == self@.len(),
    {
        self.data.len()
    }

    /// Grows the memory to `new_size` bytes, the new ones zero; a memory that
    /// is already that long is left as it is.
    pub fn resize(&mut self, new_size: usize)
        ensures
            final(self)@ == grown(old(self)@, new_size as nat),
    {
        if self.data.len() < new_size {
            self.data.resize(new_size, 0);
            assert(self.data@ =~= grown(old(self)@, new_size as nat));
        }
    }

    /// Reads the 32 bytes from `addr` on as a big-endian word.
    pub fn get_word(&self, addr: usize) -> (r: Word)
        requires
            addr + 32 <= self@.len(),
        ensures
            r@ == word_at(self@, addr as int),
    {
        let len: usize = self.data.len();
        assert(addr + 32 <= len);
        Word::from_big_endian(slice_subrange(self.data.as_slice(), addr, addr + 32))
    }

    /// Reads the byte at `addr`.
    pub fn get_byte(&self, addr: usize) -> (r: u8)
        requires
            addr < self@.len(),
        ensures
            r == self@[addr as int],
    {
        self.data[addr]
    }

    /// Writes one byte at `addr`.
    pub fn set_byte(&mut self, addr: usize, b: u8)
        requires
            addr < old(self)@.len(),
        ensures
            final(self)@ == old(self)@.update(addr as int, b),
    {
        self.data[addr] = b;
    }

    /// Writes the 32 bytes of `w`, most significant first, from `addr` on.
    pub fn set_word(&mut self, addr: usize, w: Word)
        requires
            addr + 32 <= old(self)@.len(),
        ensures
            final(self)@ == overwritten(old(self)@, addr as int, be_bytes(w@, 32)),
            word_at(final(self)@, addr as int) == w@,
    {
        let bytes: [u8; 32] = w.to_big_endian();
        let len: usize = self.data.len();
        let mut i: usize = 0;
        while i < 32
            invariant
                i <= 32,
                addr + 32 <= len,
                len == old(self)@.len(),
                bytes@ == be_bytes(w@, 32),
                self.data@ == overwritten(old(self)@, addr as int, bytes@.subrange(0, i as int)),
            decreases 32 - i,
        {
            self.data[addr + i] = bytes[i];
            i += 1;
            assert(self.data@ =~= overwritten(
                old(self)@,
                addr as int,
                bytes@.subrange(0, i as int),
            ));
        }
        assert(bytes@.subrange(0, 32) =~= bytes@);
        proof {
            w.lemma_view_bound();
            lemma_load_after_store(old(self)@, addr as int, w@);
        }
    }
}

} // verus!
