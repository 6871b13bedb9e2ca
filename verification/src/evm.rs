//! The virtual machine: its memory, its instruction set and its execution.

pub mod memory;
pub mod opcode;
pub mod vm;
