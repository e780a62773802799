//! A toolchain and virtual machine for the LC-3, a 16-bit word-addressed
//! educational computer: a two-pass assembler, a disassembler, and an
//! emulator with memory-mapped console I/O, exceptions, and a two-level
//! privilege model.
//!
//! The assembly grammar lives in [`asm_lexer`] and [`asm_parser`], the
//! encoder in [`assembler`], the decoder and listing in [`disasm`], and
//! the machine itself in [`emulator`]; [`isa`] describes the bit-level
//! layout of instruction words that ties the three together.

pub mod asm_lexer;
pub mod asm_parser;
pub mod assembler;
pub mod bit_twiddling;
pub mod disasm;
pub mod emulator;
pub mod errors;
pub mod isa;
pub mod opcode;
