//! An instruction-level simulator for a small RISC-V-like integer ISA.
//!
//! The simulator executes a fixed, pre-decoded program against a register
//! file and a cached, word-addressable memory, and records every observable
//! micro-effect of each instruction (register reads and writes, memory
//! writes, branch targets, cache stall cycles, faults) in an append-only
//! action log precise enough to support exact forward stepping and
//! step-back.

pub mod cache;
pub mod interpreter;
pub mod isa;
pub mod machine;
pub mod memory;
pub mod subword;
pub mod types;
