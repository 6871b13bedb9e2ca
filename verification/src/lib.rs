//! A small stack machine over 256-bit words: hex decoding of bytecode, a
//! fetch-decode step, an interpreter with growable byte memory, and a
//! disassembler, each with a machine-checked contract.

pub mod evm;
pub mod hex;
pub mod text;
pub mod word;
