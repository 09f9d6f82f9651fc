//! A structural simulator of a simple 64-bit von Neumann computer, built
//! bottom-up from modelled transistors.
//!
//! Every numeric quantity is a little-endian boolean sequence (bit 0 least
//! significant).  An assembler turns source lines into 64-bit instruction
//! words in a sparse main memory; a clock then drives a five-state control
//! unit through fetch, decode, execute and stall phases, with a two-level
//! LRU cache hierarchy between the CPU and the RAM.  The contracts state
//! each component's behaviour over the bit-sequence model in `bits`.

use vstd::prelude::*;

pub mod bits;
pub mod transistors;
pub mod logic_gates;
pub mod adders;
pub mod converter;
pub mod memory_chips;
pub mod reg64;
pub mod reg_bank;
pub mod assembler;
pub mod bitwise_operator;
pub mod multiplier;
pub mod alu;
pub mod buses;
pub mod main_memory;
pub mod caches;
pub mod output;
pub mod control_unit;
pub mod clock;
pub mod loader;

verus! {

} // verus!
