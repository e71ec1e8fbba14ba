//! A 16-bit word-addressable puzzle virtual machine, together with the
//! machinery needed to debug running programs: an instruction interpreter,
//! an execution controller driven by control messages, a reachability-based
//! disassembler, an instruction tracer, a memory dumper, a binary patcher,
//! and the keyboard-input handler model of the debugger front end.
//!
//! Arithmetic is modulo 2^15: every stored result is masked with 0x7FFF.
//! Words 0x8000..=0x8007 name the eight registers; anything above is an
//! operand error.

pub mod instruction;
pub mod render;
pub mod interface;
pub mod controller;
pub mod loader;
pub mod machine;
pub mod tracer;
pub mod dump;
pub mod analysis;
pub mod patch;
pub mod route;
pub mod ui_input;
