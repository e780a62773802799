//! The disassembler: structural decoding of 16-bit instruction words,
//! the encoder/decoder round-trip law, and the textual listing.
//!
//! Decoding inverts the assembler's encoding up to normalisation: a `BR`
//! with an empty condition mask reads back as `BRnzp`, `JMP R7` reads
//! back as `RET`, and every immediate comes back sign-extended to a full
//! word.

use vstd::prelude::*;
use vstd::arithmetic::power2::{pow2, lemma2_to64, lemma_pow2_pos};

use crate::asm_parser::{Location, LocationV, Nzp, Operation, OperationV, RegOrImm, Register};
use crate::assembler::{nzp_mask, spec_encode_operation, spec_encode_pcrel};
use vstd::string::StringExecFns;

use crate::bit_twiddling::{
    fits_signed, lemma_sext_fits, lemma_sext_low_bits, lemma_sext_word_val, sign_extend_word,
};
use crate::isa::{
    imm5_word, imm_mode, jsr_mode, lemma_fields_jsr, lemma_fields_off9, lemma_fields_rrr,
    lemma_fields_trap, low3, off11_word, off6_word, off9_word, op_of, reg_hi, reg_lo, vec8_of,
};
use crate::asm_parser::ProgramV;

verus! {

// ------------------------------------------------------------------
// Structural decoding
// ------------------------------------------------------------------

/// The operation a word decodes to, with every offset and immediate
/// sign-extended to a full word and carried as a literal.  The reserved
/// opcode 13 decodes to nothing.
pub open spec fn spec_decode(w: u16) -> Option<OperationV> {
    let op = op_of(w);
    let hi = Register(reg_hi(w) as u16);
    let lo = Register(reg_lo(w) as u16);
    if op == 0 {
        Some(
            OperationV::Br {
                nzp: Nzp {
                    n: reg_hi(w) / 4 == 1,
                    z: (reg_hi(w) / 2) % 2 == 1,
                    p: reg_hi(w) % 2 == 1,
                },
                pc_offset: LocationV::Literal(off9_word(w)),
            },
        )
    } else if op == 1 || op == 5 {
        let sr2 = if imm_mode(w) {
            RegOrImm::Immediate(imm5_word(w))
        } else {
            RegOrImm::Register(Register(low3(w) as u16))
        };
        if op == 1 {
            Some(OperationV::Add { dr: hi, sr1: lo, sr2 })
        } else {
            Some(OperationV::And { dr: hi, sr1: lo, sr2 })
        }
    } else if op == 2 {
        Some(OperationV::Ld { dr: hi, pc_offset: LocationV::Literal(off9_word(w)) })
    } else if op == 3 {
        Some(OperationV::St { sr: hi, pc_offset: LocationV::Literal(off9_word(w)) })
    } else if op == 4 {
        if jsr_mode(w) {
            Some(OperationV::Jsr { pc_offset: LocationV::Literal(off11_word(w)) })
        } else {
            Some(OperationV::Jsrr { base_r: lo })
        }
    } else if op == 6 {
        Some(OperationV::Ldr { dr: hi, base_r: lo, offset: off6_word(w) })
    } else if op == 7 {
        Some(OperationV::Str { sr: hi, base_r: lo, offset: off6_word(w) })
    } else if op == 8 {
        Some(OperationV::Rti)
    } else if op == 9 {
        Some(OperationV::Not { dr: hi, sr: lo })
    } else if op == 10 {
        Some(OperationV::Ldi { dr: hi, pc_offset: LocationV::Literal(off9_word(w)) })
    } else if op == 11 {
        Some(OperationV::Sti { sr: hi, pc_offset: LocationV::Literal(off9_word(w)) })
    } else if op == 12 {
        if reg_lo(w) == 7 {
            Some(OperationV::Ret)
        } else {
            Some(OperationV::Jmp { base_r: lo })
        }
    } else if op == 13 {
        None
    } else if op == 14 {
        Some(OperationV::Lea { dr: hi, pc_offset: LocationV::Literal(off9_word(w)) })
    } else {
        Some(OperationV::Trap { vector: vec8_of(w) as u16 })
    }
}

/// Decodes one instruction word into its syntactic form, or nothing for
/// the reserved opcode.
pub fn decode(w: u16) -> (r: Option<Operation>)
    ensures
        r is Some <==> spec_decode(w) is Some,
        r matches Some(op) ==> spec_decode(w) == Some(op@),
{
    let op: u16 = w / 0x1000;
    let hi = Register((w / 0x200) % 8);
    let lo = Register((w / 0x40) % 8);
    if op == 0 {
        let mask: u16 = (w / 0x200) % 8;
        Some(
            Operation::Br {
                nzp: Nzp { n: mask / 4 == 1, z: (mask / 2) % 2 == 1, p: mask % 2 == 1 },
                pc_offset: Location::Literal(sign_extend_word(w, 9)),
            },
        )
    } else if op == 1 || op == 5 {
        let sr2 = if (w / 0x20) % 2 == 1 {
            RegOrImm::Immediate(sign_extend_word(w, 5))
        } else {
            RegOrImm::Register(Register(w % 8))
        };
        if op == 1 {
            Some(Operation::Add { dr: hi, sr1: lo, sr2 })
        } else {
            Some(Operation::And { dr: hi, sr1: lo, sr2 })
        }
    } else if op == 2 {
        Some(Operation::Ld { dr: hi, pc_offset: Location::Literal(sign_extend_word(w, 9)) })
    } else if op == 3 {
        Some(Operation::St { sr: hi, pc_offset: Location::Literal(sign_extend_word(w, 9)) })
    } else if op == 4 {
        if (w / 0x800) % 2 == 1 {
            Some(Operation::Jsr { pc_offset: Location::Literal(sign_extend_word(w, 11)) })
        } else {
            Some(Operation::Jsrr { base_r: lo })
        }
    } else if op == 6 {
        Some(Operation::Ldr { dr: hi, base_r: lo, offset: sign_extend_word(w, 6) })
    } else if op == 7 {
        Some(Operation::Str { sr: hi, base_r: lo, offset: sign_extend_word(w, 6) })
    } else if op == 8 {
        Some(Operation::Rti)
    } else if op == 9 {
        Some(Operation::Not { dr: hi, sr: lo })
    } else if op == 10 {
        Some(Operation::Ldi { dr: hi, pc_offset: Location::Literal(sign_extend_word(w, 9)) })
    } else if op == 11 {
        Some(Operation::Sti { sr: hi, pc_offset: Location::Literal(sign_extend_word(w, 9)) })
    } else if op == 12 {
        if (w / 0x40) % 8 == 7 {
            Some(Operation::Ret)
        } else {
            Some(Operation::Jmp { base_r: lo })
        }
    } else if op == 13 {
        None
    } else if op == 14 {
        Some(Operation::Lea { dr: hi, pc_offset: Location::Literal(sign_extend_word(w, 9)) })
    } else {
        Some(Operation::Trap { vector: w % 0x100 })
    }
}

// ------------------------------------------------------------------
// The round-trip law
// ------------------------------------------------------------------

/// The syntactic normal form that survives the encoder: an empty `BR`
/// mask becomes `nzp`, `JMP R7` becomes `RET`, and a trap vector keeps
/// only its low byte.  Everything else is already canonical.
pub open spec fn norm_op(op: OperationV) -> OperationV {
    match op {
        OperationV::Br { nzp, pc_offset } => {
            if !nzp.n && !nzp.z && !nzp.p {
                OperationV::Br { nzp: Nzp { n: true, z: true, p: true }, pc_offset }
            } else {
                op
            }
        },
        OperationV::Jmp { base_r } => {
            if base_r.0 == 7 {
                OperationV::Ret
            } else {
                op
            }
        },
        OperationV::Trap { vector } => OperationV::Trap { vector: vector % 0x100 },
        _ => op,
    }
}

/// The operation can be encoded with no symbol table: every register
/// names `R0` through `R7`, every PC-relative operand is a literal that
/// fits its field, and every immediate fits its width.
pub open spec fn op_encodable(op: OperationV) -> bool {
    match op {
        OperationV::Add { sr1, sr2, dr } | OperationV::And { sr1, sr2, dr } => {
            sr1.0 < 8 && dr.0 < 8 && (match sr2 {
                RegOrImm::Register(r) => r.0 < 8,
                RegOrImm::Immediate(imm) => fits_signed(imm, 5),
            })
        },
        OperationV::Br { nzp, pc_offset } => pc_offset matches LocationV::Literal(v)
            && fits_signed(pc_offset->Literal_0, 9),
        OperationV::Jmp { base_r } | OperationV::Jsrr { base_r } => base_r.0 < 8,
        OperationV::Jsr { pc_offset } => pc_offset matches LocationV::Literal(v) && fits_signed(
            pc_offset->Literal_0,
            11,
        ),
        OperationV::Ld { dr, pc_offset } | OperationV::Ldi { dr, pc_offset }
        | OperationV::Lea { dr, pc_offset } => dr.0 < 8 && (pc_offset matches LocationV::Literal(v))
            && fits_signed(pc_offset->Literal_0, 9),
        OperationV::St { sr, pc_offset } | OperationV::Sti { sr, pc_offset } => sr.0 < 8 && (
        pc_offset matches LocationV::Literal(v)) && fits_signed(pc_offset->Literal_0, 9),
        OperationV::Ldr { dr, base_r, offset } => dr.0 < 8 && base_r.0 < 8 && fits_signed(
            offset,
            6,
        ),
        OperationV::Str { sr, base_r, offset } => sr.0 < 8 && base_r.0 < 8 && fits_signed(
            offset,
            6,
        ),
        OperationV::Not { dr, sr } => dr.0 < 8 && sr.0 < 8,
        OperationV::Ret => true,
        OperationV::Rti => true,
        OperationV::Trap { vector } => fits_signed(vector, 8),
    }
}

/// Encoder/decoder round trip: every encodable operation assembles, and
/// decoding the assembled word yields the operation back in normal form,
/// offsets preserved.
pub proof fn lemma_round_trip(p: ProgramV, op: OperationV, line_loc: u16)
    requires
        op_encodable(op),
    ensures
        spec_encode_operation(p, op, line_loc) is Ok,
        spec_decode(spec_encode_operation(p, op, line_loc)->Ok_0) == Some(norm_op(op)),
{
    lemma2_to64();
    match op {
        OperationV::Add { sr1, sr2, dr } | OperationV::And { sr1, sr2, dr } => {
            let opv: int = if op is Add {
                1
            } else {
                5
            };
            match sr2 {
                RegOrImm::Register(r) => {
                    let w = (opv * 0x1000 + dr.0 * 0x200 + sr1.0 * 0x40 + r.0) as u16;
                    lemma_fields_rrr(w, opv, dr.0 as int, sr1.0 as int, r.0 as int);
                },
                RegOrImm::Immediate(imm) => {
                    let t = ((imm as nat) % pow2(5)) as u16;
                    lemma_pow2_pos(5);
                    let w = (opv * 0x1000 + dr.0 * 0x200 + sr1.0 * 0x40 + 0x20 + t) as u16;
                    lemma_fields_rrr(
                        w,
                        opv,
                        dr.0 as int,
                        sr1.0 as int,
                        0x20 + t,
                    );
                    lemma_sext_low_bits(w, imm, 5);
                    lemma_sext_fits(imm, 5);
                },
            }
        },
        OperationV::Br { nzp, pc_offset } => {
            let v = pc_offset->Literal_0;
            let t = ((v as nat) % pow2(9)) as u16;
            lemma_pow2_pos(9);
            let m = nzp_mask(nzp);
            let w = (m * 0x200 + t) as u16;
            lemma_fields_off9(w, 0, m, t as int);
            lemma_sext_low_bits(w, v, 9);
            lemma_sext_fits(v, 9);
        },
        OperationV::Jmp { base_r } => {
            let w = (12 * 0x1000 + base_r.0 * 0x40) as u16;
            lemma_fields_rrr(w, 12, 0, base_r.0 as int, 0);
        },
        OperationV::Jsr { pc_offset } => {
            let v = pc_offset->Literal_0;
            let t = ((v as nat) % pow2(11)) as u16;
            lemma_pow2_pos(11);
            let w = (4 * 0x1000 + 0x800 + t) as u16;
            lemma_fields_jsr(w, t as int);
            lemma_sext_low_bits(w, v, 11);
            lemma_sext_fits(v, 11);
        },
        OperationV::Jsrr { base_r } => {
            let w = (4 * 0x1000 + base_r.0 * 0x40) as u16;
            lemma_fields_rrr(w, 4, 0, base_r.0 as int, 0);
        },
        OperationV::Ld { dr, pc_offset } => {
            lemma_pcrel_round_trip(p, 2, dr, pc_offset, line_loc);
        },
        OperationV::Ldi { dr, pc_offset } => {
            lemma_pcrel_round_trip(p, 10, dr, pc_offset, line_loc);
        },
        OperationV::Lea { dr, pc_offset } => {
            lemma_pcrel_round_trip(p, 14, dr, pc_offset, line_loc);
        },
        OperationV::St { sr, pc_offset } => {
            lemma_pcrel_round_trip(p, 3, sr, pc_offset, line_loc);
        },
        OperationV::Sti { sr, pc_offset } => {
            lemma_pcrel_round_trip(p, 11, sr, pc_offset, line_loc);
        },
        OperationV::Ldr { dr, base_r, offset } => {
            let t = ((offset as nat) % pow2(6)) as u16;
            lemma_pow2_pos(6);
            let w = (6 * 0x1000 + dr.0 * 0x200 + base_r.0 * 0x40 + t) as u16;
            lemma_fields_rrr(w, 6, dr.0 as int, base_r.0 as int, t as int);
            lemma_sext_low_bits(w, offset, 6);
            lemma_sext_fits(offset, 6);
        },
        OperationV::Str { sr, base_r, offset } => {
            let t = ((offset as nat) % pow2(6)) as u16;
            lemma_pow2_pos(6);
            let w = (7 * 0x1000 + sr.0 * 0x200 + base_r.0 * 0x40 + t) as u16;
            lemma_fields_rrr(w, 7, sr.0 as int, base_r.0 as int, t as int);
            lemma_sext_low_bits(w, offset, 6);
            lemma_sext_fits(offset, 6);
        },
        OperationV::Not { dr, sr } => {
            let w = (9 * 0x1000 + dr.0 * 0x200 + sr.0 * 0x40 + 0x3F) as u16;
            lemma_fields_rrr(w, 9, dr.0 as int, sr.0 as int, 0x3F);
        },
        OperationV::Ret => {
            let w = (12 * 0x1000 + 7 * 0x40) as u16;
            lemma_fields_rrr(w, 12, 0, 7, 0);
        },
        OperationV::Rti => {
            let w = (8 * 0x1000) as u16;
            lemma_fields_rrr(w, 8, 0, 0, 0);
        },
        OperationV::Trap { vector } => {
            let t = ((vector as nat) % pow2(8)) as u16;
            lemma_pow2_pos(8);
            let w = (15 * 0x1000 + t) as u16;
            lemma_fields_trap(w, t as int);
        },
    }
}

/// The round trip for the shared `op DR offset9` layout.
proof fn lemma_pcrel_round_trip(p: ProgramV, opv: int, reg: Register, loc: LocationV, line_loc: u16)
    requires
        reg.0 < 8,
        loc is Literal,
        fits_signed(loc->Literal_0, 9),
        1 <= opv < 16,
    ensures
        spec_encode_pcrel(p, opv, reg, loc, line_loc) is Ok,
        ({
            let w = spec_encode_pcrel(p, opv, reg, loc, line_loc)->Ok_0;
            op_of(w) == opv && reg_hi(w) == reg.0 && off9_word(w) == loc->Literal_0
        }),
{
    lemma2_to64();
    let v = loc->Literal_0;
    let t = ((v as nat) % pow2(9)) as u16;
    lemma_pow2_pos(9);
    let w = (opv * 0x1000 + reg.0 * 0x200 + t) as u16;
    lemma_fields_off9(w, opv, reg.0 as int, t as int);
    lemma_sext_low_bits(w, v, 9);
    lemma_sext_fits(v, 9);
}

// ------------------------------------------------------------------
// Textual listing
// ------------------------------------------------------------------

/// The character for one digit or hex digit value.
pub open spec fn hex_digit(d: int) -> char {
    if d == 0 {
        '0'
    } else if d == 1 {
        '1'
    } else if d == 2 {
        '2'
    } else if d == 3 {
        '3'
    } else if d == 4 {
        '4'
    } else if d == 5 {
        '5'
    } else if d == 6 {
        '6'
    } else if d == 7 {
        '7'
    } else if d == 8 {
        '8'
    } else if d == 9 {
        '9'
    } else if d == 10 {
        'a'
    } else if d == 11 {
        'b'
    } else if d == 12 {
        'c'
    } else if d == 13 {
        'd'
    } else if d == 14 {
        'e'
    } else {
        'f'
    }
}

/// A register name, `R0` through `R7`.
pub open spec fn render_reg(r: int) -> Seq<char> {
    seq!['R', hex_digit(r)]
}

/// A full word in the listing's hex format: `0x` and four lowercase hex
/// digits (negative offsets appear in two's complement).
pub open spec fn render_hex4(v: u16) -> Seq<char> {
    seq![
        '0',
        'x',
        hex_digit((v / 0x1000) as int),
        hex_digit(((v / 0x100) % 16) as int),
        hex_digit(((v / 16) % 16) as int),
        hex_digit((v % 16) as int),
    ]
}

/// A trap vector in the listing's hex format: `0x` and two digits.
pub open spec fn render_hex2(v: int) -> Seq<char> {
    seq!['0', 'x', hex_digit(v / 16), hex_digit(v % 16)]
}

/// A decimal numeral for a magnitude no greater than 16.
pub open spec fn render_dec16(n: int) -> Seq<char> {
    if n < 10 {
        seq![hex_digit(n)]
    } else {
        seq!['1', hex_digit(n - 10)]
    }
}

/// A signed decimal numeral for a sign-extended 5-bit immediate.
pub open spec fn render_imm5(v: u16) -> Seq<char> {
    if v >= 0x8000 {
        seq!['-'] + render_dec16(0x10000 - v)
    } else {
        render_dec16(v as int)
    }
}

/// The textual listing of one instruction word: the mnemonic and its
/// operands separated by single spaces, registers as `R0` through `R7`,
/// the `ADD`/`AND` immediate in signed decimal, offsets and trap vectors
/// in hex, and `[reserved]` for opcode 13.
pub open spec fn spec_render(w: u16) -> Seq<char> {
    let op = op_of(w);
    if op == 1 || op == 5 {
        (if op == 1 {
            "ADD"@
        } else {
            "AND"@
        }) + " "@ + render_reg(reg_hi(w)) + " "@ + render_reg(reg_lo(w)) + " "@ + (if imm_mode(w) {
            render_imm5(imm5_word(w))
        } else {
            render_reg(low3(w))
        })
    } else if op == 9 {
        "NOT"@ + " "@ + render_reg(reg_hi(w)) + " "@ + render_reg(reg_lo(w))
    } else if op == 0 {
        "BR"@ + (if reg_hi(w) / 4 == 1 {
            "n"@
        } else {
            Seq::empty()
        }) + (if (reg_hi(w) / 2) % 2 == 1 {
            "z"@
        } else {
            Seq::empty()
        }) + (if reg_hi(w) % 2 == 1 {
            "p"@
        } else {
            Seq::empty()
        }) + " "@ + render_hex4(off9_word(w))
    } else if op == 12 {
        if reg_lo(w) == 7 {
            "RET"@
        } else {
            "JMP"@ + " "@ + render_reg(reg_lo(w))
        }
    } else if op == 4 {
        if jsr_mode(w) {
            "JSR"@ + " "@ + render_hex4(off11_word(w))
        } else {
            "JSRR"@ + " "@ + render_reg(reg_lo(w))
        }
    } else if op == 2 || op == 10 || op == 14 || op == 3 || op == 11 {
        (if op == 2 {
            "LD"@
        } else if op == 10 {
            "LDI"@
        } else if op == 14 {
            "LEA"@
        } else if op == 3 {
            "ST"@
        } else {
            "STI"@
        }) + " "@ + render_reg(reg_hi(w)) + " "@ + render_hex4(off9_word(w))
    } else if op == 6 || op == 7 {
        (if op == 6 {
            "LDR"@
        } else {
            "STR"@
        }) + " "@ + render_reg(reg_hi(w)) + " "@ + render_reg(reg_lo(w)) + " "@ + render_hex4(
            off6_word(w),
        )
    } else if op == 8 {
        "RTI"@
    } else if op == 13 {
        "[reserved]"@
    } else {
        "TRAP"@ + " "@ + render_hex2(vec8_of(w))
    }
}

/// Appends one hex digit character.
fn append_hex_digit(s: &mut String, d: u16)
    requires
        d < 16,
    ensures
        final(s)@ == old(s)@ + seq![hex_digit(d as int)],
{
    proof {
        reveal_strlit("0");
        reveal_strlit("1");
        reveal_strlit("2");
        reveal_strlit("3");
        reveal_strlit("4");
        reveal_strlit("5");
        reveal_strlit("6");
        reveal_strlit("7");
        reveal_strlit("8");
        reveal_strlit("9");
        reveal_strlit("a");
        reveal_strlit("b");
        reveal_strlit("c");
        reveal_strlit("d");
        reveal_strlit("e");
        reveal_strlit("f");
    }
    match d {
        0 => s.append("0"),
        1 => s.append("1"),
        2 => s.append("2"),
        3 => s.append("3"),
        4 => s.append("4"),
        5 => s.append("5"),
        6 => s.append("6"),
        7 => s.append("7"),
        8 => s.append("8"),
        9 => s.append("9"),
        10 => s.append("a"),
        11 => s.append("b"),
        12 => s.append("c"),
        13 => s.append("d"),
        14 => s.append("e"),
        _ => s.append("f"),
    }
    proof {
        assert(s@ =~= old(s)@ + seq![hex_digit(d as int)]);
    }
}

/// Appends a register name.
fn append_reg(s: &mut String, r: u16)
    requires
        r < 8,
    ensures
        final(s)@ == old(s)@ + render_reg(r as int),
{
    proof {
        reveal_strlit("R");
    }
    s.append("R");
    append_hex_digit(s, r);
    proof {
        assert(s@ =~= old(s)@ + render_reg(r as int));
    }
}

/// Appends a word in `0x....` form.
fn append_hex4(s: &mut String, v: u16)
    ensures
        final(s)@ == old(s)@ + render_hex4(v),
{
    proof {
        reveal_strlit("0x");
    }
    s.append("0x");
    append_hex_digit(s, v / 0x1000);
    append_hex_digit(s, (v / 0x100) % 16);
    append_hex_digit(s, (v / 16) % 16);
    append_hex_digit(s, v % 16);
    proof {
        assert(s@ =~= old(s)@ + render_hex4(v));
    }
}

/// Appends a decimal numeral no greater than 16.
fn append_dec16(s: &mut String, n: u16)
    requires
        n <= 16,
    ensures
        final(s)@ == old(s)@ + render_dec16(n as int),
{
    if n < 10 {
        append_hex_digit(s, n);
    } else {
        proof {
            reveal_strlit("1");
        }
        s.append("1");
        append_hex_digit(s, n - 10);
        proof {
            assert(s@ =~= old(s)@ + render_dec16(n as int));
        }
    }
}

/// Appends a sign-extended 5-bit immediate in signed decimal.
fn append_imm5(s: &mut String, v: u16)
    requires
        v < 0x10 || v >= 0xFFF0,
    ensures
        final(s)@ == old(s)@ + render_imm5(v),
{
    if v >= 0x8000 {
        proof {
            reveal_strlit("-");
        }
        s.append("-");
        append_dec16(s, (0xFFFF - v) + 1);
        proof {
            assert(s@ =~= old(s)@ + render_imm5(v));
        }
    } else {
        append_dec16(s, v);
    }
}

/// Reconstructs a textual line from one instruction word: mnemonic and
/// operands, registers by name, the `ADD`/`AND` immediate in signed
/// decimal, offsets sign-extended and printed in hex.  `JMP R7` prints
/// as `RET`; the reserved opcode prints `[reserved]`.
pub fn disassemble_instruction(instruction: u16) -> (r: String)
    ensures
        r@ == spec_render(instruction),
{
    let w: u16 = instruction;
    let mut s = String::new();
    let op: u16 = w / 0x1000;
    let hi: u16 = (w / 0x200) % 8;
    let lo: u16 = (w / 0x40) % 8;
    proof {
        reveal_strlit(" ");
    }
    if op == 1 || op == 5 {
        if op == 1 {
            s.append("ADD");
        } else {
            s.append("AND");
        }
        s.append(" ");
        append_reg(&mut s, hi);
        s.append(" ");
        append_reg(&mut s, lo);
        s.append(" ");
        if (w / 0x20) % 2 == 1 {
            let imm: u16 = sign_extend_word(w, 5);
            proof {
                lemma_sext_word_val(w, 5);
                lemma2_to64();
            }
            append_imm5(&mut s, imm);
        } else {
            append_reg(&mut s, w % 8);
        }
        proof {
            assert(s@ =~= spec_render(w));
        }
    } else if op == 9 {
        s.append("NOT");
        s.append(" ");
        append_reg(&mut s, hi);
        s.append(" ");
        append_reg(&mut s, lo);
        proof {
            assert(s@ =~= spec_render(w));
        }
    } else if op == 0 {
        s.append("BR");
        if hi / 4 == 1 {
            s.append("n");
        }
        if (hi / 2) % 2 == 1 {
            s.append("z");
        }
        if hi % 2 == 1 {
            s.append("p");
        }
        s.append(" ");
        append_hex4(&mut s, sign_extend_word(w, 9));
        proof {
            assert(s@ =~= spec_render(w));
        }
    } else if op == 12 {
        if lo == 7 {
            s.append("RET");
        } else {
            s.append("JMP");
            s.append(" ");
            append_reg(&mut s, lo);
        }
        proof {
            assert(s@ =~= spec_render(w));
        }
    } else if op == 4 {
        if (w / 0x800) % 2 == 1 {
            s.append("JSR");
            s.append(" ");
            append_hex4(&mut s, sign_extend_word(w, 11));
        } else {
            s.append("JSRR");
            s.append(" ");
            append_reg(&mut s, lo);
        }
        proof {
            assert(s@ =~= spec_render(w));
        }
    } else if op == 2 || op == 10 || op == 14 || op == 3 || op == 11 {
        if op == 2 {
            s.append("LD");
        } else if op == 10 {
            s.append("LDI");
        } else if op == 14 {
            s.append("LEA");
        } else if op == 3 {
            s.append("ST");
        } else {
            s.append("STI");
        }
        s.append(" ");
        append_reg(&mut s, hi);
        s.append(" ");
        append_hex4(&mut s, sign_extend_word(w, 9));
        proof {
            assert(s@ =~= spec_render(w));
        }
    } else if op == 6 || op == 7 {
        if op == 6 {
            s.append("LDR");
        } else {
            s.append("STR");
        }
        s.append(" ");
        append_reg(&mut s, hi);
        s.append(" ");
        append_reg(&mut s, lo);
        s.append(" ");
        append_hex4(&mut s, sign_extend_word(w, 6));
        proof {
            assert(s@ =~= spec_render(w));
        }
    } else if op == 8 {
        s.append("RTI");
        proof {
            assert(s@ =~= spec_render(w));
        }
    } else if op == 13 {
        s.append("[reserved]");
        proof {
            assert(s@ =~= spec_render(w));
        }
    } else {
        s.append("TRAP");
        s.append(" ");
        proof {
            reveal_strlit("0x");
        }
        s.append("0x");
        append_hex_digit(&mut s, (w % 0x100) / 16);
        append_hex_digit(&mut s, (w % 0x100) % 16);
        proof {
            assert(op == 15);
            assert(s@ =~= spec_render(w));
        }
    }
    s
}

/// Named traps survive the round trip too: the word a trap alias
/// emits decodes to `TRAP` with that alias's vector.
pub proof fn lemma_trap_alias_round_trip(t: crate::asm_parser::Trap)
    ensures
        spec_decode((15 * 0x1000 + crate::asm_parser::trap_vector(t)) as u16) == Some(
            OperationV::Trap { vector: crate::asm_parser::trap_vector(t) },
        ),
{
    let v = crate::asm_parser::trap_vector(t);
    crate::isa::lemma_fields_trap((15 * 0x1000 + v) as u16, v as int);
}

} // verus!
