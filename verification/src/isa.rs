//! The bit-level layout of LC-3 instruction words, described
//! arithmetically: every field of a word is a quotient-remainder window,
//! and PC-relative fields are read through two's-complement
//! sign-extension.
//!
//! Both the assembler's encoder and the disassembler's and emulator's
//! decoders are specified against these functions, which is what makes
//! the round-trip law provable.

use vstd::prelude::*;
use vstd::arithmetic::div_mod::lemma_fundamental_div_mod_converse;

use crate::bit_twiddling::sext_word;

verus! {

/// Bits 12 through 15: the opcode nibble.
pub open spec fn op_of(w: u16) -> int {
    (w / 0x1000) as int
}

/// Bits 9 through 11: the destination register of loads and arithmetic,
/// the source register of stores, and the `nzp` mask of `BR`.
pub open spec fn reg_hi(w: u16) -> int {
    ((w / 0x200) % 8) as int
}

/// Bits 6 through 8: the first source register, or the base register of
/// `JMP`, `JSRR`, `LDR` and `STR`.
pub open spec fn reg_lo(w: u16) -> int {
    ((w / 0x40) % 8) as int
}

/// Bits 0 through 2: the second source register of register-mode `ADD`
/// and `AND`.
pub open spec fn low3(w: u16) -> int {
    (w % 8) as int
}

/// Bit 5: set when `ADD`/`AND` take an immediate instead of a register.
pub open spec fn imm_mode(w: u16) -> bool {
    (w / 0x20) % 2 == 1
}

/// Bit 11: set for PC-relative `JSR`, clear for register-indirect `JSRR`.
pub open spec fn jsr_mode(w: u16) -> bool {
    (w / 0x800) % 2 == 1
}

/// The 5-bit immediate of `ADD`/`AND`, sign-extended to a full word.
pub open spec fn imm5_word(w: u16) -> u16 {
    sext_word(w, 5)
}

/// The 6-bit offset of `LDR`/`STR`, sign-extended to a full word.
pub open spec fn off6_word(w: u16) -> u16 {
    sext_word(w, 6)
}

/// The 9-bit PC-relative offset, sign-extended to a full word.
pub open spec fn off9_word(w: u16) -> u16 {
    sext_word(w, 9)
}

/// The 11-bit PC-relative offset of `JSR`, sign-extended to a full word.
pub open spec fn off11_word(w: u16) -> u16 {
    sext_word(w, 11)
}

/// Bits 0 through 7: the trap vector.
pub open spec fn vec8_of(w: u16) -> int {
    (w % 0x100) as int
}

/// Recovers the fields of a word assembled as
/// `opcode * 0x1000 + hi * 0x200 + lo * 0x40 + rest`.
pub proof fn lemma_fields_rrr(w: u16, a: int, b: int, c: int, d: int)
    requires
        w == a * 0x1000 + b * 0x200 + c * 0x40 + d,
        0 <= a < 16,
        0 <= b < 8,
        0 <= c < 8,
        0 <= d < 64,
    ensures
        op_of(w) == a,
        reg_hi(w) == b,
        reg_lo(w) == c,
        (w % 64) as int == d,
        low3(w) == d % 8,
        imm_mode(w) == (d / 32 == 1),
        jsr_mode(w) == (b / 4 == 1),
        (w % 0x20) as int == d % 0x20,
        (w as nat) % 0x20 == d % 0x20,
        (w as nat) % 0x40 == d,
{
    lemma_fundamental_div_mod_converse(w as int, 0x1000, a, b * 0x200 + c * 0x40 + d);
    lemma_fundamental_div_mod_converse(w as int, 0x200, a * 8 + b, c * 0x40 + d);
    lemma_fundamental_div_mod_converse(a * 8 + b, 8, a, b);
    lemma_fundamental_div_mod_converse(w as int, 0x40, (a * 8 + b) * 8 + c, d);
    lemma_fundamental_div_mod_converse((a * 8 + b) * 8 + c, 8, a * 8 + b, c);
    lemma_fundamental_div_mod_converse(w as int, 64, (a * 8 + b) * 8 + c, d);
    lemma_fundamental_div_mod_converse(w as int, 8, ((a * 8 + b) * 8 + c) * 8 + d / 8, d % 8);
    lemma_fundamental_div_mod_converse(w as int, 0x20, (((a * 8 + b) * 8 + c) * 2 + d / 32), d % 32);
    lemma_fundamental_div_mod_converse((((a * 8 + b) * 8 + c) * 2 + d / 32), 2, (a * 8 + b) * 8 + c, d / 32);
    lemma_fundamental_div_mod_converse(w as int, 0x800, a * 2 + b / 4, (b % 4) * 0x200 + c * 0x40 + d);
    lemma_fundamental_div_mod_converse(a * 2 + b / 4, 2, a, b / 4);
}

/// Recovers the fields of a word assembled as
/// `opcode * 0x1000 + hi * 0x200 + off` with a 9-bit trailing field.
pub proof fn lemma_fields_off9(w: u16, a: int, b: int, e: int)
    requires
        w == a * 0x1000 + b * 0x200 + e,
        0 <= a < 16,
        0 <= b < 8,
        0 <= e < 0x200,
    ensures
        op_of(w) == a,
        reg_hi(w) == b,
        (w % 0x200) as int == e,
        (w as nat) % 0x200 == e,
{
    lemma_fundamental_div_mod_converse(w as int, 0x1000, a, b * 0x200 + e);
    lemma_fundamental_div_mod_converse(w as int, 0x200, a * 8 + b, e);
    lemma_fundamental_div_mod_converse(a * 8 + b, 8, a, b);
}

/// Recovers the fields of a `JSR` word assembled as
/// `0x4000 + 0x800 + off` with an 11-bit trailing field.
pub proof fn lemma_fields_jsr(w: u16, e: int)
    requires
        w == 4 * 0x1000 + 0x800 + e,
        0 <= e < 0x800,
    ensures
        op_of(w) == 4,
        jsr_mode(w),
        (w % 0x800) as int == e,
        (w as nat) % 0x800 == e,
{
    lemma_fundamental_div_mod_converse(w as int, 0x1000, 4, 0x800 + e);
    lemma_fundamental_div_mod_converse(w as int, 0x800, 9, e);
}

/// Recovers the fields of a `TRAP` word assembled as
/// `0xF000 + vector` with an 8-bit trailing field.
pub proof fn lemma_fields_trap(w: u16, e: int)
    requires
        w == 15 * 0x1000 + e,
        0 <= e < 0x100,
    ensures
        op_of(w) == 15,
        vec8_of(w) == e,
        reg_hi(w) == 0,
{
    lemma_fundamental_div_mod_converse(w as int, 0x1000, 15, e);
    lemma_fundamental_div_mod_converse(w as int, 0x100, 15int * 16, e);
    lemma_fundamental_div_mod_converse(w as int, 0x200, 15int * 8, e);
}

} // verus!
