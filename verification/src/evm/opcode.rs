//! The instruction set and how an instruction is shown.

use crate::hex::hex_digits;
use crate::text::usize_lower_hex;
use crate::word::Word;
use vstd::prelude::*;
use vstd::string::StringExecFns;

verus! {

/// One decoded instruction. Every variant but `END` holds the offset at
/// which it was found; a push also holds its immediate value.
#[allow(non_camel_case_types)]
#[derive(Clone, Copy, Debug, PartialEq, Eq)]
pub enum Opcode {
    /// `0x00`: halts execution.
    STOP(usize),
    /// `0x01`: addition modulo 2^256.
    ADD(usize),
    /// `0x02`: multiplication modulo 2^256.
    MUL(usize),
    /// `0x51`: loads a word from memory.
    MLOAD(usize),
    /// `0x52`: stores a word to memory.
    MSTORE(usize),
    /// `0x53`: stores a byte to memory.
    MSTORE8(usize),
    /// `0x60`: pushes the next byte.
    PUSH1(usize, Word),
    /// `0x61`: pushes the next two bytes.
    PUSH2(usize, Word),
    /// `0x7f`: pushes the next 32 bytes.
    PUSH32(usize, Word),
    /// Any other byte: no instruction of this machine.
    UNKNOWN(usize),
    /// Not an encoded instruction: the program counter is at or past the end.
    END,
}

/// How an offset is shown: `0x` and its hexadecimal digits.
pub open spec fn address_text(addr: usize) -> Seq<char> {
    "0x"@ + hex_digits(addr as nat)
}

impl Opcode {
    /// The number of bytes the instruction takes in the bytecode: the opcode
    /// byte and its immediate. `END` takes none.
    pub open spec fn width(self) -> nat {
        match self {
            Opcode::END => 0,
            Opcode::PUSH1(_, _) => 2,
            Opcode::PUSH2(_, _) => 3,
            Opcode::PUSH32(_, _) => 33,
            _ => 1,
        }
    }

    /// The number of bytes the instruction takes in the bytecode.
    pub fn encoded_width(&self) -> (r: usize)
        ensures
            r == self.width(),
    {
        match self {
            Opcode::END => 0,
            Opcode::PUSH1(_, _) => 2,
            Opcode::PUSH2(_, _) => 3,
            Opcode::PUSH32(_, _) => 33,
            _ => 1,
        }
    }

    /// The line that shows the instruction: offset, mnemonic and a short
    /// note, tab-separated, with the immediate of a push in hexadecimal at
    /// the end. `END` is shown by its name alone.
    pub open spec fn text(self) -> Seq<char> {
        match self {
            Opcode::STOP(addr) => address_text(addr) + "\tSTOP\tHalts execution"@,
            Opcode::ADD(addr) => address_text(addr) + "\tADD\tAddition operation"@,
            Opcode::MUL(addr) => address_text(addr) + "\tMUL\tMultiplication operation"@,
            Opcode::MLOAD(addr) => address_text(addr) + "\tMLOAD\tRead 256-bit word from memory"@,
            Opcode::MSTORE(addr) => address_text(addr) + "\tMSTORE\tStore 256-bits in memory"@,
            Opcode::MSTORE8(addr) => address_text(addr) + "\tMSTORE8\tStore 8-bits in memory"@,
            Opcode::PUSH1(addr, value) => address_text(addr)
                + "\tPUSH1\tPlace 1-byte item on the stack 0x"@ + hex_digits(value@),
            Opcode::PUSH2(addr, value) => address_text(addr)
                + "\tPUSH2\tPlace 2-bytes item on the stack 0x"@ + hex_digits(value@),
            Opcode::PUSH32(addr, value) => address_text(addr)
                + "\tPUSH32\tPlace 32-bytes item on the stack 0x"@ + hex_digits(value@),
            Opcode::UNKNOWN(addr) => address_text(addr) + "\tUNKNOWN\tOpcode not found"@,
            Opcode::END => "END"@,
        }
    }

    /// The line that shows the instruction.
    pub fn describe(&self) -> (r: String)
        ensures
            r@ == self.text(),
    {
        match self {
            Opcode::STOP(addr) => line(*addr, "\tSTOP\tHalts execution"),
            Opcode::ADD(addr) => line(*addr, "\tADD\tAddition operation"),
            Opcode::MUL(addr) => line(*addr, "\tMUL\tMultiplication operation"),
            Opcode::MLOAD(addr) => line(*addr, "\tMLOAD\tRead 256-bit word from memory"),
            Opcode::MSTORE(addr) => line(*addr, "\tMSTORE\tStore 256-bits in memory"),
            Opcode::MSTORE8(addr) => line(*addr, "\tMSTORE8\tStore 8-bits in memory"),
            Opcode::PUSH1(addr, value) => push_line(
                *addr,
                "\tPUSH1\tPlace 1-byte item on the stack 0x",
                value,
            ),
            Opcode::PUSH2(addr, value) => push_line(
                *addr,
                "\tPUSH2\tPlace 2-bytes item on the stack 0x",
                value,
            ),
            Opcode::PUSH32(addr, value) => push_line(
                *addr,
                "\tPUSH32\tPlace 32-bytes item on the stack 0x",
                value,
            ),
            Opcode::UNKNOWN(addr) => line(*addr, "\tUNKNOWN\tOpcode not found"),
            Opcode::END => String::from_str("END"),
        }
    }
}

/// The offset as shown, followed by `rest`.
fn line(addr: usize, rest: &str) -> (r: String)
    ensures
        r@ == address_text(addr) + rest@,
{
    let mut text: String = String::from_str("0x");
    text.append(usize_lower_hex(addr).as_str());
    text.append(rest);
    text
}

/// The offset as shown, followed by `rest` and the digits of `value`.
fn push_line(addr: usize, rest: &str, value: &Word) -> (r: String)
    ensures
        r@ == address_text(addr) + rest@ + hex_digits(value@),
{
    let mut text: String = line(addr, rest);
    text.append(value.to_hex().as_str());
    text
}

} // verus!
