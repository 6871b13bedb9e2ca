//! The machine: fetching and decoding instructions, executing them on a stack
//! and a memory, and listing them without executing.

use crate::evm::memory::{grown, overwritten, word_at, Memory};
use crate::evm::opcode::Opcode;
use crate::hex::{decode, first_invalid_digit, hex_bytes, is_hex_text, DecodeError};
use crate::text::{byte_list, byte_list_text, decimal_digits, usize_decimal};
use crate::word::{
    be_bytes, be_nat, lemma_be_nat_bound, lemma_pow256_32, lemma_pow256_increases, word_modulus,
    Word,
};
use vstd::prelude::*;
use vstd::slice::slice_subrange;
use vstd::string::StringExecFns;

verus! {

/// Why the machine cannot take its next step.
#[derive(Clone, Copy, Debug, PartialEq, Eq)]
pub enum VmError {
    /// The instruction needs more values than the stack holds.
    StackUnderflow(Opcode),
    /// The immediate of the push at `addr` runs past the end of the bytecode.
    OutOfBoundsImmediate { addr: usize },
    /// The memory that the instruction accesses ends beyond the largest
    /// address of this platform.
    MemoryOverflow(Opcode),
}

/// The state of a machine in mathematical terms.
pub struct VmState {
    /// The bytecode.
    pub code: Seq<u8>,
    /// The offset of the next instruction.
    pub pc: nat,
    /// The values on the stack, the top last.
    pub stack: Seq<nat>,
    /// The memory, by address.
    pub memory: Seq<u8>,
    /// Whether the machine has halted.
    pub halted: bool,
}

/// The number of immediate bytes that follow the opcode byte `tag`.
pub open spec fn immediate_len(tag: u8) -> nat {
    if tag == 0x60 {
        1
    } else if tag == 0x61 {
        2
    } else if tag == 0x7f {
        32
    } else {
        0
    }
}

/// Whether the byte is the opcode of an instruction of this machine.
pub open spec fn is_known_tag(tag: u8) -> bool {
    tag == 0x00 || tag == 0x01 || tag == 0x02 || tag == 0x51 || tag == 0x52 || tag == 0x53 || tag
        == 0x60 || tag == 0x61 || tag == 0x7f
}

/// The word that the `len` bytes after the opcode byte at `pc` denote, read
/// big-endian.
pub open spec fn immediate(code: Seq<u8>, pc: nat, len: nat) -> Word {
    Word::from_nat(be_nat(code.subrange(pc as int + 1, pc as int + 1 + len as int)))
}

/// The instruction at `pc`: `END` at or past the end of the bytecode, an
/// error where an immediate would run past the end, and else the instruction
/// that the byte at `pc` encodes, with its immediate.
pub open spec fn fetch(code: Seq<u8>, pc: nat) -> Result<Opcode, VmError> {
    if pc >= code.len() {
        Ok(Opcode::END)
    } else {
        let tag = code[pc as int];
        let addr = pc as usize;
        if pc + 1 + immediate_len(tag) > code.len() {
            Err(VmError::OutOfBoundsImmediate { addr })
        } else {
            let value = immediate(code, pc, immediate_len(tag));
            Ok(
                if tag == 0x00 {
                    Opcode::STOP(addr)
                } else if tag == 0x01 {
                    Opcode::ADD(addr)
                } else if tag == 0x02 {
                    Opcode::MUL(addr)
                } else if tag == 0x51 {
                    Opcode::MLOAD(addr)
                } else if tag == 0x52 {
                    Opcode::MSTORE(addr)
                } else if tag == 0x53 {
                    Opcode::MSTORE8(addr)
                } else if tag == 0x60 {
                    Opcode::PUSH1(addr, value)
                } else if tag == 0x61 {
                    Opcode::PUSH2(addr, value)
                } else if tag == 0x7f {
                    Opcode::PUSH32(addr, value)
                } else {
                    Opcode::UNKNOWN(addr)
                },
            )
        }
    }
}

/// Where an access of `width` bytes at the offset on top of the stack ends.
pub open spec fn access_end(op: Opcode, stack: Seq<nat>, width: nat) -> Result<
    Option<nat>,
    VmError,
> {
    if stack.len() == 0 {
        Err(VmError::StackUnderflow(op))
    } else if stack.last() + width > usize::MAX {
        Err(VmError::MemoryOverflow(op))
    } else {
        Ok(Some(stack.last() + width))
    }
}

/// The size that memory must have before `op` executes: for a load or a
/// store, the end of the bytes it accesses; for any other instruction, none.
pub open spec fn required_size(op: Opcode, stack: Seq<nat>) -> Result<Option<nat>, VmError> {
    match op {
        Opcode::MLOAD(_) | Opcode::MSTORE(_) => access_end(op, stack, 32),
        Opcode::MSTORE8(_) => access_end(op, stack, 1),
        _ => Ok(None),
    }
}

/// The state after `op`, fetched at `s.pc`, has executed in state `s`.
///
/// Memory first grows to the size the instruction requires. A binary
/// operation takes the top of the stack as its first operand and the value
/// below it as its second; a store takes the offset from the top and the
/// value from below it.
pub open spec fn execute(s: VmState, op: Opcode) -> Result<VmState, VmError> {
    match required_size(op, s.stack) {
        Err(e) => Err(e),
        Ok(size) => {
            let memory = match size {
                Some(n) => grown(s.memory, n),
                None => s.memory,
            };
            let pc = s.pc + op.width();
            let n = s.stack.len() as int;
            let below = s.stack.subrange(0, n - 2);
            match op {
                Opcode::STOP(_) | Opcode::END => Ok(VmState { pc, halted: true, ..s }),
                Opcode::UNKNOWN(_) => Ok(VmState { pc, ..s }),
                Opcode::PUSH1(_, value) | Opcode::PUSH2(_, value) | Opcode::PUSH32(_, value) => Ok(
                    VmState { pc, stack: s.stack.push(value@), ..s },
                ),
                Opcode::ADD(_) => if n < 2 {
                    Err(VmError::StackUnderflow(op))
                } else {
                    Ok(
                        VmState {
                            pc,
                            stack: below.push((s.stack[n - 1] + s.stack[n - 2]) % word_modulus()),
                            ..s
                        },
                    )
                },
                Opcode::MUL(_) => if n < 2 {
                    Err(VmError::StackUnderflow(op))
                } else {
                    Ok(
                        VmState {
                            pc,
                            stack: below.push((s.stack[n - 1] * s.stack[n - 2]) % word_modulus()),
                            ..s
                        },
                    )
                },
                Opcode::MLOAD(_) => Ok(
                    VmState {
                        pc,
                        stack: s.stack.drop_last().push(word_at(memory, s.stack[n - 1] as int)),
                        memory,
                        ..s
                    },
                ),
                Opcode::MSTORE(_) => if n < 2 {
                    Err(VmError::StackUnderflow(op))
                } else {
                    Ok(
                        VmState {
                            pc,
                            stack: below,
                            memory: overwritten(
                                memory,
                                s.stack[n - 1] as int,
                                be_bytes(s.stack[n - 2], 32),
                            ),
                            ..s
                        },
                    )
                },
                Opcode::MSTORE8(_) => if n < 2 {
                    Err(VmError::StackUnderflow(op))
                } else {
                    Ok(
                        VmState {
                            pc,
                            stack: below,
                            memory: memory.update(
                                s.stack[n - 1] as int,
                                (s.stack[n - 2] % 256) as u8,
                            ),
                            ..s
                        },
                    )
                },
            }
        },
    }
}

/// One step of the machine: fetch the instruction at `s.pc` and execute it.
pub open spec fn step(s: VmState) -> Result<VmState, VmError> {
    match fetch(s.code, s.pc) {
        Err(e) => Err(e),
        Ok(op) => execute(s, op),
    }
}

/// An addition or a multiplication on a stack of fewer than two values is a
/// stack underflow, whatever the values: the step fails and yields no state.
pub proof fn lemma_binary_operation_underflow(s: VmState)
    requires
        s.pc < s.code.len(),
        s.code[s.pc as int] == 0x01 || s.code[s.pc as int] == 0x02,
        s.stack.len() < 2,
    ensures
        s.code[s.pc as int] == 0x01 ==> step(s) == Err::<VmState, VmError>(
            VmError::StackUnderflow(Opcode::ADD(s.pc as usize)),
        ),
        s.code[s.pc as int] == 0x02 ==> step(s) == Err::<VmState, VmError>(
            VmError::StackUnderflow(Opcode::MUL(s.pc as usize)),
        ),
{
}

/// A byte that is no opcode of this machine moves the program counter on by
/// one and changes nothing else.
pub proof fn lemma_unknown_is_skipped(s: VmState)
    requires
        s.pc < s.code.len(),
        !is_known_tag(s.code[s.pc as int]),
    ensures
        fetch(s.code, s.pc) == Ok::<Opcode, VmError>(Opcode::UNKNOWN(s.pc as usize)),
        step(s) == Ok::<VmState, VmError>(VmState { pc: s.pc + 1, ..s }),
{
}

/// A step that succeeds keeps the bytecode, and from inside the bytecode it
/// moves the program counter forward, to no further than the end. At or past
/// the end it halts the machine where it stands.
pub proof fn lemma_step_advances(s: VmState)
    requires
        step(s) is Ok,
    ensures
        step(s)->Ok_0.code == s.code,
        s.pc < s.code.len() ==> s.pc < step(s)->Ok_0.pc <= s.code.len(),
        s.pc >= s.code.len() ==> step(s)->Ok_0 == (VmState { halted: true, ..s }),
{
}

/// A step never shrinks memory, and what it does not store to stays as it
/// was: outside of the bytes that a store writes, the old bytes are kept.
pub proof fn lemma_step_keeps_memory(s: VmState)
    requires
        step(s) is Ok,
    ensures
        s.memory.len() <= step(s)->Ok_0.memory.len(),
        s.pc < s.code.len() && s.code[s.pc as int] != 0x52 && s.code[s.pc as int] != 0x53
            ==> forall|i: int|
            0 <= i < s.memory.len() ==> step(s)->Ok_0.memory[i] == s.memory[i],
{
}

/// The immediate of a push of at most 32 bytes stands for the number that
/// its bytes denote, read big-endian.
pub proof fn lemma_immediate_value(code: Seq<u8>, pc: nat, len: nat)
    requires
        len <= 32,
        pc + 1 + len <= code.len(),
    ensures
        immediate(code, pc, len)@ == be_nat(code.subrange(pc as int + 1, pc as int + 1 + len)),
{
    let bytes = code.subrange(pc as int + 1, pc as int + 1 + len);
    lemma_be_nat_bound(bytes);
    lemma_pow256_increases(len, 32);
    lemma_pow256_32();
    Word::lemma_view_from_nat(be_nat(bytes));
}

/// The state of a machine that is about to start on `code`.
pub open spec fn initial_state(code: Seq<u8>) -> VmState {
    VmState { code, pc: 0, stack: Seq::empty(), memory: Seq::empty(), halted: false }
}

/// How far a machine is from halting: zero when halted, else one more than
/// the bytes left before the end of the bytecode.
pub open spec fn steps_bound(s: VmState) -> nat {
    if s.halted {
        0
    } else if s.pc >= s.code.len() {
        1
    } else {
        (s.code.len() - s.pc + 1) as nat
    }
}

/// Where a run from `s` ends: the machine steps until it has halted or a
/// step fails. The result is the last state reached and the error of the
/// step that failed, if one did.
pub open spec fn run_from(s: VmState) -> (VmState, Option<VmError>)
    decreases steps_bound(s),
{
    if s.halted {
        (s, None)
    } else {
        match step(s) {
            Err(e) => (s, Some(e)),
            Ok(t) => run_from(t),
        }
    }
}

/// Every step of a machine that has not halted brings it nearer to halting,
/// so a run is the repetition of steps and nothing else.
pub proof fn lemma_run_unfolds(s: VmState)
    requires
        !s.halted,
    ensures
        step(s) matches Ok(t) ==> steps_bound(t) < steps_bound(s) && run_from(s) == run_from(t),
        step(s) matches Err(e) ==> run_from(s) == (s, Some(e)),
{
    if step(s) is Ok {
        lemma_step_advances(s);
    }
}

/// A run keeps the bytecode, never moves the program counter back, never
/// shrinks memory, and ends either halted or with the error of a step.
pub proof fn lemma_run_ends(s: VmState)
    ensures
        run_from(s).0.code == s.code,
        s.pc <= run_from(s).0.pc,
        s.memory.len() <= run_from(s).0.memory.len(),
        run_from(s).1 is None ==> run_from(s).0.halted,
        run_from(s).1 matches Some(e) ==> step(run_from(s).0) == Err::<VmState, VmError>(e),
    decreases steps_bound(s),
{
    if !s.halted {
        lemma_run_unfolds(s);
        if step(s) is Ok {
            lemma_step_advances(s);
            lemma_step_keeps_memory(s);
            lemma_run_ends(step(s)->Ok_0);
        }
    }
}

/// Where the program counter stands after a listing from `pc`: at the end of
/// the bytecode, or at the instruction that could not be fetched.
pub open spec fn listing_end(code: Seq<u8>, pc: nat) -> nat {
    match listing(code, pc) {
        Ok(_) => if pc <= code.len() {
            code.len()
        } else {
            pc
        },
        Err(VmError::OutOfBoundsImmediate { addr }) => addr as nat,
        Err(_) => pc,
    }
}

/// `ops`, followed by what `rest` lists, where it lists anything.
pub open spec fn listed_after(ops: Seq<Opcode>, rest: Result<Seq<Opcode>, VmError>) -> Result<
    Seq<Opcode>,
    VmError,
> {
    match rest {
        Ok(more) => Ok(ops + more),
        Err(e) => Err(e),
    }
}

/// The instructions from `pc` to the end of the bytecode, in order, with
/// `END` as the last; the error of the first fetch that fails, if one does.
/// `STOP` does not end the listing.
pub open spec fn listing(code: Seq<u8>, pc: nat) -> Result<Seq<Opcode>, VmError>
    decreases code.len() - pc,
{
    match fetch(code, pc) {
        Err(e) => Err(e),
        Ok(op) => if pc >= code.len() {
            Ok(seq![op])
        } else {
            listed_after(seq![op], listing(code, pc + op.width()))
        },
    }
}

/// The line that shows the stack entry `value` at `depth`: the depth in
/// decimal, then the 32 bytes of the value, most significant first.
pub open spec fn stack_line(depth: nat, value: nat) -> Seq<char> {
    "|"@ + decimal_digits(depth) + ":\t"@ + byte_list_text(be_bytes(value, 32)) + "|"@
}

/// A rudimentary virtual machine.
#[derive(Debug, Default)]
pub struct Vm {
    /// The bytecode.
    pub code: Vec<u8>,
    /// The program counter: the offset in `code` of the next instruction.
    pub pc: usize,
    /// The stack, the top last.
    pub stack: Vec<Word>,
    /// The memory.
    pub mem: Memory,
    /// Whether the machine has halted.
    pub halted: bool,
}

impl View for Vm {
    type V = VmState;

    open spec fn view(&self) -> VmState {
        VmState {
            code: self.code@,
            pc: self.pc as nat,
            stack: self.stack@.map_values(|w: Word| w@),
            memory: self.mem@,
            halted: self.halted,
        }
    }
}

impl Vm {
    /// A machine at the start of `code`, with an empty stack and memory.
    pub fn new(code: Vec<u8>) -> (r: Vm)
        ensures
            r@ == initial_state(code@),
    {
        let vm = Vm { code, pc: 0, stack: Vec::new(), mem: Memory::new(), halted: false };
        assert(vm@.stack =~= Seq::empty());
        vm
    }

    /// A machine at the start of the bytecode that `text` denotes in
    /// hexadecimal; the error of [`decode`] where it denotes none.
    pub fn from_hex(text: &str) -> (r: Result<Vm, DecodeError>)
        ensures
            r is Ok <==> is_hex_text(text@),
            match r {
                Ok(vm) => vm@ == initial_state(hex_bytes(text@)),
                Err(DecodeError::OddLength { len }) => text@.len() % 2 == 1 && len == text@.len(),
                Err(DecodeError::InvalidDigit { index }) => text@.len() % 2 == 0
                    && first_invalid_digit(text@, index as int),
            },
    {
        match decode(text) {
            Ok(code) => Ok(Vm::new(code)),
            Err(e) => Err(e),
        }
    }

    /// Reads the `to_extract` bytes after the opcode byte at the program
    /// counter as a big-endian word.
    pub fn extract_u256(&self, to_extract: usize) -> (r: Result<Word, VmError>)
        requires
            to_extract <= 32,
        ensures
            r == (if self.pc + 1 + to_extract <= self.code@.len() {
                Ok::<Word, VmError>(immediate(self.code@, self.pc as nat, to_extract as nat))
            } else {
                Err::<Word, VmError>(VmError::OutOfBoundsImmediate { addr: self.pc })
            }),
    {
        let len: usize = self.code.len();
        if self.pc >= len || to_extract > len - self.pc - 1 {
            return Err(VmError::OutOfBoundsImmediate { addr: self.pc });
        }
        let start: usize = self.pc + 1;
        Ok(Word::from_big_endian(slice_subrange(self.code.as_slice(), start, start + to_extract)))
    }

    /// Decodes the instruction at the program counter, which stays where it
    /// is.
    pub fn peek(&self) -> (r: Result<Opcode, VmError>)
        ensures
            r == fetch(self.code@, self.pc as nat),
    {
        if self.pc >= self.code.len() {
            return Ok(Opcode::END);
        }
        let addr: usize = self.pc;
        match self.code[addr] {
            0x00 => Ok(Opcode::STOP(addr)),
            0x01 => Ok(Opcode::ADD(addr)),
            0x02 => Ok(Opcode::MUL(addr)),
            0x51 => Ok(Opcode::MLOAD(addr)),
            0x52 => Ok(Opcode::MSTORE(addr)),
            0x53 => Ok(Opcode::MSTORE8(addr)),
            0x60 => match self.extract_u256(1) {
                Ok(value) => Ok(Opcode::PUSH1(addr, value)),
                Err(e) => Err(e),
            },
            0x61 => match self.extract_u256(2) {
                Ok(value) => Ok(Opcode::PUSH2(addr, value)),
                Err(e) => Err(e),
            },
            0x7f => match self.extract_u256(32) {
                Ok(value) => Ok(Opcode::PUSH32(addr, value)),
                Err(e) => Err(e),
            },
            _ => Ok(Opcode::UNKNOWN(addr)),
        }
    }

    /// Decodes the instruction at the program counter and moves the counter
    /// past it. On an error the counter stays.
    pub fn next(&mut self) -> (r: Result<Opcode, VmError>)
        ensures
            r == fetch(old(self).code@, old(self).pc as nat),
            r matches Ok(op) ==> *final(self) == (Vm {
                pc: (old(self).pc + op.width()) as usize,
                ..*old(self)
            }) && old(self).pc + op.width() <= usize::MAX,
            r is Err ==> *final(self) == *old(self),
    {
        match self.peek() {
            Ok(op) => {
                let len: usize = self.code.len();
                assert(op.width() == 0 || self.pc + op.width() <= len);
                self.pc = self.pc + op.encoded_width();
                Ok(op)
            },
            Err(e) => Err(e),
        }
    }

    /// The size that memory must have before `code` executes on the present
    /// stack, if it accesses memory.
    pub fn get_new_size(&self, code: &Opcode) -> (r: Result<Option<usize>, VmError>)
        ensures
            r == (match required_size(*code, self@.stack) {
                Ok(Some(n)) => Ok::<Option<usize>, VmError>(Some(n as usize)),
                Ok(None) => Ok::<Option<usize>, VmError>(None),
                Err(e) => Err::<Option<usize>, VmError>(e),
            }),
            required_size(*code, self@.stack) matches Ok(Some(n)) ==> n <= usize::MAX,
    {
        let width: usize = match code {
            Opcode::MLOAD(_) | Opcode::MSTORE(_) => 32,
            Opcode::MSTORE8(_) => 1,
            _ => {
                return Ok(None);
            },
        };
        let depth: usize = self.stack.len();
        if depth == 0 {
            return Err(VmError::StackUnderflow(*code));
        }
        match self.stack[depth - 1].to_usize() {
            Some(offset) => {
                if offset > usize::MAX - width {
                    Err(VmError::MemoryOverflow(*code))
                } else {
                    Ok(Some(offset + width))
                }
            },
            None => Err(VmError::MemoryOverflow(*code)),
        }
    }

    /// Executes one instruction: fetches it, grows memory to the size it
    /// requires, and applies its effect. A step that fails leaves the machine
    /// as it was.
    pub fn interpret(&mut self) -> (r: Result<(), VmError>)
        ensures
            match step(old(self)@) {
                Ok(t) => r is Ok && final(self)@ == t,
                Err(e) => r == Err::<(), VmError>(e) && *final(self) == *old(self),
            },
    {
        let op: Opcode = match self.peek() {
            Ok(op) => op,
            Err(e) => {
                return Err(e);
            },
        };
        let size: Option<usize> = match self.get_new_size(&op) {
            Ok(size) => size,
            Err(e) => {
                return Err(e);
            },
        };
        let depth: usize = self.stack.len();
        match op {
            Opcode::ADD(_) | Opcode::MUL(_) | Opcode::MSTORE(_) | Opcode::MSTORE8(_) => {
                if depth < 2 {
                    return Err(VmError::StackUnderflow(op));
                }
            },
            _ => {},
        }
        let len: usize = self.code.len();
        assert(op.width() == 0 || self.pc + op.width() <= len);
        let ghost before = self@;
        match size {
            Some(n) => {
                self.mem.resize(n);
            },
            None => {},
        }
        self.pc = self.pc + op.encoded_width();
        match op {
            Opcode::STOP(_) | Opcode::END => {
                self.halted = true;
            },
            Opcode::UNKNOWN(_) => {},
            Opcode::PUSH1(_, value) | Opcode::PUSH2(_, value) | Opcode::PUSH32(_, value) => {
                self.stack.push(value);
            },
            Opcode::ADD(_) => {
                let a: Word = self.stack.pop().unwrap();
                let b: Word = self.stack.pop().unwrap();
                self.stack.push(a.wrapping_add(b));
            },
            Opcode::MUL(_) => {
                let a: Word = self.stack.pop().unwrap();
                let b: Word = self.stack.pop().unwrap();
                self.stack.push(a.wrapping_mul(b));
            },
            Opcode::MLOAD(_) => {
                let offset: Word = self.stack.pop().unwrap();
                let loaded: Word = self.mem.get_word(offset.to_usize().unwrap());
                self.stack.push(loaded);
            },
            Opcode::MSTORE(_) => {
                let offset: Word = self.stack.pop().unwrap();
                let value: Word = self.stack.pop().unwrap();
                self.mem.set_word(offset.to_usize().unwrap(), value);
            },
            Opcode::MSTORE8(_) => {
                let offset: Word = self.stack.pop().unwrap();
                let value: Word = self.stack.pop().unwrap();
                self.mem.set_byte(offset.to_usize().unwrap(), value.low_byte());
            },
        }
        assert(self@.stack =~= step(before)->Ok_0.stack);
        Ok(())
    }

    /// Runs the machine until it has halted or a step fails. After a failure
    /// the machine is as it was before the step that failed.
    pub fn run(&mut self) -> (r: Result<(), VmError>)
        ensures
            final(self)@ == run_from(old(self)@).0,
            r == (match run_from(old(self)@).1 {
                Some(e) => Err::<(), VmError>(e),
                None => Ok::<(), VmError>(()),
            }),
    {
        while !self.halted
            invariant
                run_from(self@) == run_from(old(self)@),
            decreases steps_bound(self@),
        {
            proof {
                lemma_run_unfolds(self@);
            }
            match self.interpret() {
                Ok(()) => {},
                Err(e) => {
                    return Err(e);
                },
            }
        }
        Ok(())
    }

    /// Lists the instructions from the program counter to the end of the
    /// bytecode without executing any, and leaves the counter at the end. A
    /// fetch that fails ends the listing with its error, the counter at the
    /// instruction that could not be fetched.
    pub fn disassemble(&mut self) -> (r: Result<Vec<Opcode>, VmError>)
        ensures
            match listing(old(self).code@, old(self).pc as nat) {
                Ok(ops) => r matches Ok(found) && found@ == ops,
                Err(e) => r == Err::<Vec<Opcode>, VmError>(e),
            },
            *final(self) == (Vm {
                pc: listing_end(old(self).code@, old(self).pc as nat) as usize,
                ..*old(self)
            }),
    {
        let mut found: Vec<Opcode> = Vec::new();
        loop
            invariant
                *self == (Vm { pc: self.pc, ..*old(self) }),
                old(self).pc <= old(self).code@.len() ==> self.pc <= self.code@.len(),
                old(self).pc > old(self).code@.len() ==> self.pc == old(self).pc,
                listing(old(self).code@, old(self).pc as nat) == listed_after(
                    found@,
                    listing(self.code@, self.pc as nat),
                ),
            decreases self.code@.len() - self.pc,
        {
            let ghost at = self.pc as nat;
            let ghost earlier = found@;
            let at_end: bool = self.pc >= self.code.len();
            match self.next() {
                Err(e) => {
                    return Err(e);
                },
                Ok(op) => {
                    found.push(op);
                    if at_end {
                        assert(found@ =~= earlier + seq![op]);
                        return Ok(found);
                    }
                    proof {
                        let rest = listing(self.code@, self.pc as nat);
                        assert(listing(self.code@, at) == listed_after(seq![op], rest));
                        if rest is Ok {
                            assert(earlier + (seq![op] + rest->Ok_0) =~= found@ + rest->Ok_0);
                        }
                    }
                },
            }
        }
    }

    /// The lines that show the stack, from the top down: each entry with its
    /// depth, counted from the bottom, and its 32 bytes.
    pub fn stack_lines(&self) -> (r: Vec<String>)
        ensures
            r@.len() == self@.stack.len(),
            forall|i: int|
                0 <= i < r@.len() ==> (#[trigger] r@[i])@ == stack_line(
                    (r@.len() - 1 - i) as nat,
                    self@.stack[r@.len() - 1 - i],
                ),
    {
        let depth: usize = self.stack.len();
        let mut lines: Vec<String> = Vec::new();
        let mut done: usize = 0;
        while done < depth
            invariant
                depth == self.stack@.len(),
                done <= depth,
                lines@.len() == done,
                forall|i: int|
                    0 <= i < done ==> (#[trigger] lines@[i])@ == stack_line(
                        (depth - 1 - i) as nat,
                        self@.stack[depth - 1 - i],
                    ),
            decreases depth - done,
        {
            let index: usize = depth - 1 - done;
            let bytes: [u8; 32] = self.stack[index].to_big_endian();
            let mut line: String = String::from_str("|");
            line.append(usize_decimal(index).as_str());
            line.append(":\t");
            line.append(byte_list(bytes.as_slice()).as_str());
            line.append("|");
            lines.push(line);
            done += 1;
        }
        lines
    }
}

/// Lists the machine's bytecode from the program counter on: one line for
/// each instruction and a last line for `END`.
pub fn debug(vm: &mut Vm) -> (r: Result<Vec<String>, VmError>)
    ensures
        match listing(old(vm).code@, old(vm).pc as nat) {
            Ok(ops) => r matches Ok(lines) && lines@.len() == ops.len() && forall|i: int|
                0 <= i < ops.len() ==> (#[trigger] lines@[i])@ == ops[i].text(),
            Err(e) => r == Err::<Vec<String>, VmError>(e),
        },
        *final(vm) == (Vm {
            pc: listing_end(old(vm).code@, old(vm).pc as nat) as usize,
            ..*old(vm)
        }),
{
    let ops: Vec<Opcode> = match vm.disassemble() {
        Ok(ops) => ops,
        Err(e) => {
            return Err(e);
        },
    };
    let mut lines: Vec<String> = Vec::new();
    let mut i: usize = 0;
    while i < ops.len()
        invariant
            i <= ops@.len(),
            lines@.len() == i,
            forall|k: int| 0 <= k < i ==> (#[trigger] lines@[k])@ == ops@[k].text(),
        decreases ops@.len() - i,
    {
        lines.push(ops[i].describe());
        i += 1;
    }
    Ok(lines)
}

/// Runs the machine until it halts and shows the stack it ends with, from
/// the top down.
pub fn interpret(vm: &mut Vm) -> (r: Result<Vec<String>, VmError>)
    ensures
        final(vm)@ == run_from(old(vm)@).0,
        match run_from(old(vm)@).1 {
            Some(e) => r == Err::<Vec<String>, VmError>(e),
            None => r matches Ok(lines) && lines@.len() == final(vm)@.stack.len() && forall|i: int|
                0 <= i < lines@.len() ==> (#[trigger] lines@[i])@ == stack_line(
                    (lines@.len() - 1 - i) as nat,
                    final(vm)@.stack[lines@.len() - 1 - i],
                ),
        },
{
    match vm.run() {
        Ok(()) => Ok(vm.stack_lines()),
        Err(e) => Err(e),
    }
}

} // verus!
