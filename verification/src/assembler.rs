//! The assembler's second pass: label resolution and word emission.
//!
//! Each parsed line is encoded into one or more 16-bit words.
//! PC-relative targets are computed as `target - (line_location + 1)`
//! modulo 2^16 and width-checked against the instruction field (9 or 11
//! bits; 6 bits for `LDR`/`STR`, 5 for immediates, 8 for trap vectors).
//! The emitted image starts with the origin word.

use vstd::prelude::*;
use vstd::arithmetic::power2::lemma2_to64;
use vstd::wrapping::u16_specs;

use crate::asm_lexer::TokenV;
use crate::asm_parser::{
    lemma_parse_cursor, line_regs_wf, lookup_label, op_regs_wf, program_regs_wf, sp_final_cursor,
    sp_program, total_size, trap_vector, CodeLineV, Instruction, InstructionV, Location, LocationV,
    Nzp, Operation, OperationV, Program, ProgramV, PseudoOp, PseudoOpV, RegOrImm, Register, Trap,
};
use crate::bit_twiddling::{fits_signed, trunc_spec, truncate};
use crate::errors::AsmError;
use crate::opcode::Opcode;

verus! {

// ------------------------------------------------------------------
// What assembly produces, as mathematics
// ------------------------------------------------------------------

/// The PC-relative displacement from the word after `line_loc` to
/// `target`, modulo 2^16.
pub open spec fn pc_rel(target: u16, line_loc: u16) -> u16 {
    u16_specs::wrapping_sub(u16_specs::wrapping_sub(target, line_loc), 1)
}

/// Label resolution: the last binding in the symbol table wins.
pub open spec fn spec_resolve_label(p: ProgramV, name: Seq<u8>) -> Result<u16, AsmError> {
    match lookup_label(p.labels, name) {
        Some(v) => Ok(v),
        None => Err(AsmError::UnresolvedLabel),
    }
}

/// A location used absolutely: a label denotes its address unchanged.
pub open spec fn spec_resolve_absolute(p: ProgramV, loc: LocationV) -> Result<u16, AsmError> {
    match loc {
        LocationV::Label(name) => spec_resolve_label(p, name),
        LocationV::Literal(v) => Ok(v),
    }
}

/// A location used PC-relatively: a label denotes its displacement from
/// the word after the line; a literal is taken as the displacement
/// itself.
pub open spec fn spec_resolve_relative(p: ProgramV, loc: LocationV, line_loc: u16) -> Result<
    u16,
    AsmError,
> {
    match loc {
        LocationV::Label(name) => match lookup_label(p.labels, name) {
            Some(v) => Ok(pc_rel(v, line_loc)),
            None => Err(AsmError::UnresolvedLabel),
        },
        LocationV::Literal(v) => Ok(v),
    }
}

/// The `nzp` field of an assembled `BR`: an empty mask is rewritten to
/// `111` (branch always).
pub open spec fn nzp_mask(nzp: Nzp) -> int {
    let m = (if nzp.n {
        4int
    } else {
        0int
    }) + (if nzp.z {
        2int
    } else {
        0int
    }) + (if nzp.p {
        1int
    } else {
        0int
    });
    if m == 0 {
        7
    } else {
        m
    }
}

/// Register-mode or immediate-mode `ADD`/`AND`.
pub open spec fn spec_encode_arith(opv: int, dr: Register, sr1: Register, sr2: RegOrImm) -> Result<
    u16,
    AsmError,
> {
    let hi = opv * 0x1000 + dr.0 * 0x200 + sr1.0 * 0x40;
    match sr2 {
        RegOrImm::Register(r) => Ok((hi + r.0) as u16),
        RegOrImm::Immediate(imm) => match trunc_spec(imm, 5) {
            Ok(t) => Ok((hi + 0x20 + t) as u16),
            Err(e) => Err(e),
        },
    }
}

/// The common `op DR offset9` layout of `LD`, `LDI`, `LEA`, `ST`, `STI`.
pub open spec fn spec_encode_pcrel(
    p: ProgramV,
    opv: int,
    reg: Register,
    loc: LocationV,
    line_loc: u16,
) -> Result<u16, AsmError> {
    match spec_resolve_relative(p, loc, line_loc) {
        Ok(v) => match trunc_spec(v, 9) {
            Ok(t) => Ok((opv * 0x1000 + reg.0 * 0x200 + t) as u16),
            Err(e) => Err(e),
        },
        Err(e) => Err(e),
    }
}

/// The `op DR BaseR offset6` layout of `LDR` and `STR`.
pub open spec fn spec_encode_based(opv: int, reg: Register, base: Register, offset: u16) -> Result<
    u16,
    AsmError,
> {
    match trunc_spec(offset, 6) {
        Ok(t) => Ok((opv * 0x1000 + reg.0 * 0x200 + base.0 * 0x40 + t) as u16),
        Err(e) => Err(e),
    }
}

/// The word an operation encodes to, or the first error met while
/// resolving and width-checking its operands.
pub open spec fn spec_encode_operation(p: ProgramV, op: OperationV, line_loc: u16) -> Result<
    u16,
    AsmError,
>
    recommends
        op_regs_wf(op),
{
    match op {
        OperationV::Add { sr1, sr2, dr } => spec_encode_arith(1, dr, sr1, sr2),
        OperationV::And { sr1, sr2, dr } => spec_encode_arith(5, dr, sr1, sr2),
        OperationV::Br { nzp, pc_offset } => match spec_resolve_relative(p, pc_offset, line_loc) {
            Ok(v) => match trunc_spec(v, 9) {
                Ok(t) => Ok((nzp_mask(nzp) * 0x200 + t) as u16),
                Err(e) => Err(e),
            },
            Err(e) => Err(e),
        },
        OperationV::Jmp { base_r } => Ok((12 * 0x1000 + base_r.0 * 0x40) as u16),
        OperationV::Jsr { pc_offset } => match spec_resolve_relative(p, pc_offset, line_loc) {
            Ok(v) => match trunc_spec(v, 11) {
                Ok(t) => Ok((4 * 0x1000 + 0x800 + t) as u16),
                Err(e) => Err(e),
            },
            Err(e) => Err(e),
        },
        OperationV::Jsrr { base_r } => Ok((4 * 0x1000 + base_r.0 * 0x40) as u16),
        OperationV::Ld { dr, pc_offset } => spec_encode_pcrel(p, 2, dr, pc_offset, line_loc),
        OperationV::Ldi { dr, pc_offset } => spec_encode_pcrel(p, 10, dr, pc_offset, line_loc),
        OperationV::Lea { dr, pc_offset } => spec_encode_pcrel(p, 14, dr, pc_offset, line_loc),
        OperationV::St { sr, pc_offset } => spec_encode_pcrel(p, 3, sr, pc_offset, line_loc),
        OperationV::Sti { sr, pc_offset } => spec_encode_pcrel(p, 11, sr, pc_offset, line_loc),
        OperationV::Ldr { dr, base_r, offset } => spec_encode_based(6, dr, base_r, offset),
        OperationV::Str { sr, base_r, offset } => spec_encode_based(7, sr, base_r, offset),
        OperationV::Not { dr, sr } => Ok((9 * 0x1000 + dr.0 * 0x200 + sr.0 * 0x40 + 0x3F) as u16),
        OperationV::Ret => Ok((12 * 0x1000 + 7 * 0x40) as u16),
        OperationV::Rti => Ok((8 * 0x1000) as u16),
        OperationV::Trap { vector } => match trunc_spec(vector, 8) {
            Ok(t) => Ok((15 * 0x1000 + t) as u16),
            Err(e) => Err(e),
        },
    }
}

/// The words one line emits: the resolved value for `.FILL`, `n` zeros
/// for `.BLKW n`, one word per byte for `.STRINGZ`, one encoded word for
/// an operation or a named trap.  `.ORIG` may not appear here again.
pub open spec fn spec_line_words(p: ProgramV, line: CodeLineV) -> Result<Seq<u16>, AsmError> {
    match line.instruction {
        InstructionV::PseudoOp(PseudoOpV::Fill(loc)) => match spec_resolve_absolute(p, loc) {
            Ok(v) => Ok(seq![v]),
            Err(e) => Err(e),
        },
        InstructionV::PseudoOp(PseudoOpV::Blkw(n)) => Ok(Seq::new(n as nat, |k: int| 0u16)),
        InstructionV::PseudoOp(PseudoOpV::Stringz(s)) => Ok(s.map_values(|c: u8| c as u16)),
        InstructionV::PseudoOp(PseudoOpV::End) => Ok(Seq::empty()),
        InstructionV::PseudoOp(PseudoOpV::Orig(_)) => Err(AsmError::UnexpectedOrig),
        InstructionV::Operation(op) => match spec_encode_operation(p, op, line.location) {
            Ok(w) => Ok(seq![w]),
            Err(e) => Err(e),
        },
        InstructionV::Trap(t) => Ok(seq![(15 * 0x1000 + trap_vector(t)) as u16]),
    }
}

/// The words emitted by the lines from index `i` on, stopping at the
/// first `.END` line.
pub open spec fn spec_assemble_lines(p: ProgramV, i: nat) -> Result<Seq<u16>, AsmError>
    decreases p.lines.len() - i,
{
    if i >= p.lines.len() {
        Ok(Seq::empty())
    } else {
        let line = p.lines[i as int];
        match line.instruction {
            InstructionV::PseudoOp(PseudoOpV::End) => Ok(Seq::empty()),
            _ => match spec_line_words(p, line) {
                Ok(ws) => match spec_assemble_lines(p, i + 1) {
                    Ok(rest) => Ok(ws + rest),
                    Err(e) => Err(e),
                },
                Err(e) => Err(e),
            },
        }
    }
}

/// The whole object image: the origin word, then the words of every line
/// up to `.END`, in source order.
pub open spec fn spec_assemble(p: ProgramV) -> Result<Seq<u16>, AsmError> {
    match spec_assemble_lines(p, 0) {
        Ok(ws) => Ok(seq![p.origin] + ws),
        Err(e) => Err(e),
    }
}

/// Glues an already-emitted prefix onto the outcome of the remaining
/// lines.
pub open spec fn prepend_words(prefix: Seq<u16>, r: Result<Seq<u16>, AsmError>) -> Result<
    Seq<u16>,
    AsmError,
> {
    match r {
        Ok(s) => Ok(prefix + s),
        Err(e) => Err(e),
    }
}

// ------------------------------------------------------------------
// Executable second pass
// ------------------------------------------------------------------

/// Bytewise equality of two label names.
fn bytes_eq(a: &Vec<u8>, b: &Vec<u8>) -> (r: bool)
    ensures
        r == (a@ == b@),
{
    if a.len() != b.len() {
        return false;
    }
    let mut i: usize = 0;
    while i < a.len()
        invariant
            i <= a.len(),
            a@.len() == b@.len(),
            forall|k: int| 0 <= k < i ==> a@[k] == b@[k],
        decreases a.len() - i,
    {
        if a[i] != b[i] {
            return false;
        }
        i += 1;
    }
    proof {
        assert(a@ =~= b@);
    }
    true
}

/// Looks a label up in the symbol table; the last binding wins.
pub fn resolve_label(pgm: &Program, label: &Vec<u8>) -> (r: Result<u16, AsmError>)
    ensures
        r == spec_resolve_label(pgm@, label@),
{
    let mut i: usize = pgm.labels.len();
    proof {
        assert(pgm@.labels =~= pgm@.labels.take(i as int));
    }
    while i > 0
        invariant
            i <= pgm.labels.len(),
            pgm@.labels.len() == pgm.labels@.len(),
            lookup_label(pgm@.labels, label@) == lookup_label(pgm@.labels.take(i as int), label@),
        decreases i,
    {
        i = i - 1;
        let hit: bool = bytes_eq(&pgm.labels[i].0, label);
        proof {
            assert(pgm@.labels.take(i + 1 as int).last() == pgm@.labels[i as int]);
            assert(pgm@.labels.take(i + 1 as int).drop_last() =~= pgm@.labels.take(i as int));
            assert(pgm@.labels[i as int].0 == pgm.labels@[i as int].0@);
        }
        if hit {
            return Ok(pgm.labels[i].1);
        }
    }
    proof {
        assert(pgm@.labels.take(0) =~= Seq::<(Seq<u8>, u16)>::empty());
    }
    Err(AsmError::UnresolvedLabel)
}

/// Resolves a location used absolutely: a label denotes its address.
pub fn resolve_location_absolute(pgm: &Program, loc: &Location) -> (r: Result<u16, AsmError>)
    ensures
        r == spec_resolve_absolute(pgm@, loc@),
{
    match loc {
        Location::Label(label) => resolve_label(pgm, label),
        Location::Literal(v) => Ok(*v),
    }
}

/// Resolves a location used PC-relatively from `line_loc`.
pub fn resolve_location_relative(pgm: &Program, loc: &Location, line_loc: u16) -> (r: Result<
    u16,
    AsmError,
>)
    ensures
        r == spec_resolve_relative(pgm@, loc@, line_loc),
{
    match loc {
        Location::Label(label) => match resolve_label(pgm, label) {
            Ok(target) => Ok(u16::wrapping_sub(u16::wrapping_sub(target, line_loc), 1)),
            Err(e) => Err(e),
        },
        Location::Literal(v) => Ok(*v),
    }
}

/// Encodes one operation into its instruction word, resolving labels
/// against `pgm` and width-checking every immediate and offset.
pub fn encode_operation(pgm: &Program, op: &Operation, line_loc: u16) -> (r: Result<u16, AsmError>)
    requires
        op_regs_wf(op@),
    ensures
        r == spec_encode_operation(pgm@, op@, line_loc),
{
    proof {
        lemma2_to64();
    }
    match op {
        Operation::Add { sr1, sr2, dr } | Operation::And { sr1, sr2, dr } => {
            let opv: u16 = match op {
                Operation::Add { .. } => Opcode::Add.to_int(),
                _ => Opcode::And.to_int(),
            };
            let inst_hi: u16 = opv * 0x1000 + dr.0 * 0x200 + sr1.0 * 0x40;
            match sr2 {
                RegOrImm::Register(reg) => Ok(inst_hi + reg.0),
                RegOrImm::Immediate(imm) => match truncate::<5>(*imm) {
                    Ok(t) => Ok(inst_hi + 0x20 + t),
                    Err(e) => Err(e),
                },
            }
        },
        Operation::Br { nzp, pc_offset } => {
            let mut mask: u16 = 0;
            if nzp.n {
                mask += 4;
            }
            if nzp.z {
                mask += 2;
            }
            if nzp.p {
                mask += 1;
            }
            if mask == 0 {
                mask = 0b111;
            }
            match resolve_location_relative(pgm, pc_offset, line_loc) {
                Ok(v) => match truncate::<9>(v) {
                    Ok(t) => Ok(mask * 0x200 + t),
                    Err(e) => Err(e),
                },
                Err(e) => Err(e),
            }
        },
        Operation::Jmp { base_r } => Ok(Opcode::Jmp.to_int() * 0x1000 + base_r.0 * 0x40),
        Operation::Jsr { pc_offset } => match resolve_location_relative(pgm, pc_offset, line_loc) {
            Ok(v) => match truncate::<11>(v) {
                Ok(t) => Ok(Opcode::Jsr.to_int() * 0x1000 + 0x800 + t),
                Err(e) => Err(e),
            },
            Err(e) => Err(e),
        },
        Operation::Jsrr { base_r } => Ok(Opcode::Jsr.to_int() * 0x1000 + base_r.0 * 0x40),
        Operation::Ld { dr, pc_offset } => encode_pcrel(pgm, Opcode::Ld.to_int(), dr, pc_offset, line_loc),
        Operation::Ldi { dr, pc_offset } => encode_pcrel(pgm, Opcode::Ldi.to_int(), dr, pc_offset, line_loc),
        Operation::Lea { dr, pc_offset } => encode_pcrel(pgm, Opcode::Lea.to_int(), dr, pc_offset, line_loc),
        Operation::St { sr, pc_offset } => encode_pcrel(pgm, Opcode::St.to_int(), sr, pc_offset, line_loc),
        Operation::Sti { sr, pc_offset } => encode_pcrel(pgm, Opcode::Sti.to_int(), sr, pc_offset, line_loc),
        Operation::Ldr { dr, base_r, offset } => match truncate::<6>(*offset) {
            Ok(t) => Ok(Opcode::Ldr.to_int() * 0x1000 + dr.0 * 0x200 + base_r.0 * 0x40 + t),
            Err(e) => Err(e),
        },
        Operation::Str { sr, base_r, offset } => match truncate::<6>(*offset) {
            Ok(t) => Ok(Opcode::Str.to_int() * 0x1000 + sr.0 * 0x200 + base_r.0 * 0x40 + t),
            Err(e) => Err(e),
        },
        Operation::Not { dr, sr } => Ok(
            Opcode::Not.to_int() * 0x1000 + dr.0 * 0x200 + sr.0 * 0x40 + 0x3F,
        ),
        Operation::Ret => Ok(Opcode::Jmp.to_int() * 0x1000 + 7 * 0x40),
        Operation::Rti => Ok(Opcode::Rti.to_int() * 0x1000),
        Operation::Trap { vector } => match truncate::<8>(*vector) {
            Ok(t) => Ok(Opcode::Trap.to_int() * 0x1000 + t),
            Err(e) => Err(e),
        },
    }
}

/// Encodes the `op DR offset9` layout shared by `LD`, `LDI`, `LEA`,
/// `ST` and `STI`.
fn encode_pcrel(
    pgm: &Program,
    opv: u16,
    reg: &Register,
    loc: &Location,
    line_loc: u16,
) -> (r: Result<u16, AsmError>)
    requires
        opv <= 15,
        reg.0 < 8,
    ensures
        r == spec_encode_pcrel(pgm@, opv as int, *reg, loc@, line_loc),
{
    proof {
        lemma2_to64();
    }
    match resolve_location_relative(pgm, loc, line_loc) {
        Ok(v) => match truncate::<9>(v) {
            Ok(t) => Ok(opv * 0x1000 + reg.0 * 0x200 + t),
            Err(e) => Err(e),
        },
        Err(e) => Err(e),
    }
}

/// Assembles a parsed program into its object image: the origin word
/// first, then the words of every line in source order, stopping at
/// `.END`.  Fails on the first unresolved label, out-of-range immediate
/// or offset, or repeated `.ORIG`.
///
/// Register fields must name `R0` through `R7`; the grammar admits
/// nothing else, and `lemma_parsed_registers_wf` proves every parsed
/// program meets this.
pub fn assemble(pgm: Program) -> (r: Result<Vec<u16>, AsmError>)
    requires
        program_regs_wf(pgm@),
    ensures
        r is Ok <==> spec_assemble(pgm@) is Ok,
        r is Ok ==> r->Ok_0@ == spec_assemble(pgm@)->Ok_0,
        r is Err ==> r->Err_0 == spec_assemble(pgm@)->Err_0,
{
    let mut machine_code: Vec<u16> = Vec::new();
    // Object files start with the program's memory origin.
    machine_code.push(pgm.origin);
    proof {
        assert(machine_code@ =~= seq![pgm@.origin]);
    }
    let mut i: usize = 0;
    while i < pgm.lines.len()
        invariant
            i <= pgm.lines.len(),
            pgm@.lines.len() == pgm.lines@.len(),
            program_regs_wf(pgm@),
            spec_assemble(pgm@) == prepend_words(
                machine_code@,
                spec_assemble_lines(pgm@, i as nat),
            ),
        decreases pgm.lines.len() - i,
    {
        let ghost before = machine_code@;
        let ghost rest = spec_assemble_lines(pgm@, i as nat);
        proof {
            assert(pgm@.lines[i as int] == pgm.lines@[i as int]@);
        }
        let line = &pgm.lines[i];
        match &line.instruction {
            Instruction::PseudoOp(PseudoOp::End) => {
                proof {
                    assert(rest == Ok::<Seq<u16>, AsmError>(Seq::<u16>::empty()));
                    assert(before + Seq::<u16>::empty() =~= before);
                }
                return Ok(machine_code);
            },
            Instruction::PseudoOp(PseudoOp::Orig(_)) => {
                return Err(AsmError::UnexpectedOrig);
            },
            Instruction::PseudoOp(PseudoOp::Fill(loc)) => {
                match resolve_location_absolute(&pgm, loc) {
                    Ok(v) => {
                        machine_code.push(v);
                        proof {
                            assert(machine_code@ =~= before + seq![v]);
                        }
                    },
                    Err(e) => {
                        return Err(e);
                    },
                }
            },
            Instruction::PseudoOp(PseudoOp::Blkw(n)) => {
                let count: u16 = *n;
                let mut j: u16 = 0;
                while j < count
                    invariant
                        j <= count,
                        machine_code@ =~= before + Seq::new(j as nat, |k: int| 0u16),
                    decreases count - j,
                {
                    machine_code.push(0);
                    proof {
                        assert(machine_code@ =~= before + Seq::new((j + 1) as nat, |k: int| 0u16));
                    }
                    j += 1;
                }
                proof {
                    assert(machine_code@ =~= before + Seq::new(count as nat, |k: int| 0u16));
                }
            },
            Instruction::PseudoOp(PseudoOp::Stringz(string)) => {
                let mut j: usize = 0;
                while j < string.len()
                    invariant
                        j <= string@.len(),
                        machine_code@ =~= before + string@.take(j as int).map_values(
                            |c: u8| c as u16,
                        ),
                    decreases string@.len() - j,
                {
                    let c: u8 = string[j];
                    machine_code.push(c as u16);
                    proof {
                        assert(string@.take(j + 1 as int).map_values(|c: u8| c as u16) =~= string@.take(
                            j as int,
                        ).map_values(|c: u8| c as u16) + seq![string@[j as int] as u16]);
                        assert(machine_code@ =~= before + string@.take(j + 1 as int).map_values(
                            |c: u8| c as u16,
                        ));
                    }
                    j += 1;
                }
                proof {
                    assert(string@.take(string@.len() as int) =~= string@);
                    assert(machine_code@ =~= before + string@.map_values(|c: u8| c as u16));
                }
            },
            Instruction::Operation(operation) => {
                proof {
                    assert(line_regs_wf(pgm@.lines[i as int]));
                }
                match encode_operation(&pgm, operation, line.location) {
                    Ok(w) => {
                        machine_code.push(w);
                        proof {
                            assert(machine_code@ =~= before + seq![w]);
                        }
                    },
                    Err(e) => {
                        return Err(e);
                    },
                }
            },
            Instruction::Trap(trap) => {
                let vector: u16 = match trap {
                    Trap::Getc => 0x20,
                    Trap::Out => 0x21,
                    Trap::Puts => 0x22,
                    Trap::In => 0x23,
                    Trap::Putsp => 0x24,
                    Trap::Halt => 0x25,
                };
                machine_code.push(0xF000 + vector);
                proof {
                    assert(machine_code@ =~= before + seq![(15 * 0x1000 + trap_vector(*trap)) as u16]);
                }
            },
        }
        proof {
            lemma_assemble_step(pgm@, i as nat, before, machine_code@);
        }
        i += 1;
    }
    proof {
        assert(spec_assemble_lines(pgm@, i as nat) == Ok::<Seq<u16>, AsmError>(Seq::<u16>::empty()));
        assert(machine_code@ + Seq::<u16>::empty() =~= machine_code@);
    }
    Ok(machine_code)
}

/// One unfolding step of `spec_assemble_lines`: a non-`.END` line whose
/// words were just appended keeps the emission invariant.
proof fn lemma_assemble_step(p: ProgramV, i: nat, before: Seq<u16>, after: Seq<u16>)
    requires
        i < p.lines.len(),
        !(p.lines[i as int].instruction is PseudoOp
            && p.lines[i as int].instruction->PseudoOp_0 is End),
        spec_line_words(p, p.lines[i as int]) is Ok,
        after == before + spec_line_words(p, p.lines[i as int])->Ok_0,
    ensures
        prepend_words(before, spec_assemble_lines(p, i)) == prepend_words(
            after,
            spec_assemble_lines(p, i + 1),
        ),
{
    let ws = spec_line_words(p, p.lines[i as int])->Ok_0;
    match spec_assemble_lines(p, i + 1) {
        Ok(rest) => {
            assert(spec_assemble_lines(p, i) == Ok::<Seq<u16>, AsmError>(ws + rest));
            assert(before + (ws + rest) =~= (before + ws) + rest);
        },
        Err(e) => {
            assert(spec_assemble_lines(p, i) == Err::<Seq<u16>, AsmError>(e));
        },
    }
}

// ------------------------------------------------------------------
// Laws of the second pass
// ------------------------------------------------------------------

/// Each emitting line contributes exactly its size in words.
proof fn lemma_assemble_len(p: ProgramV, i: int)
    requires
        0 <= i <= p.lines.len(),
        spec_assemble_lines(p, i as nat) is Ok,
        forall|t: int|
            i <= t < p.lines.len() ==> !((#[trigger] p.lines[t]).instruction is PseudoOp
                && p.lines[t].instruction->PseudoOp_0 is End),
    ensures
        spec_assemble_lines(p, i as nat)->Ok_0.len() == total_size(
            p.lines.skip(i),
        ),
    decreases p.lines.len() - i,
{
    if i >= p.lines.len() {
        assert(p.lines.skip(i) =~= Seq::<CodeLineV>::empty());
    } else {
        let line = p.lines[i];
        lemma_assemble_len(p, i + 1);
        assert(p.lines.skip(i).drop_first() =~= p.lines.skip(i + 1));
        assert(p.lines.skip(i)[0] == line);
        match spec_line_words(p, line) {
            Ok(ws) => {
                match line.instruction {
                    InstructionV::PseudoOp(PseudoOpV::Blkw(n)) => {
                        assert(ws.len() == n as nat);
                    },
                    InstructionV::PseudoOp(PseudoOpV::Stringz(str)) => {
                        assert(ws.len() == str.len());
                    },
                    _ => {},
                }
            },
            Err(_) => {},
        }
    }
}

/// Location counter law: when a parsed program assembles, the image
/// holds one word more (the origin) than the distance the location
/// counter travelled, which is the total size of the program's lines.
pub proof fn lemma_location_counter(ts: Seq<TokenV>)
    requires
        sp_program(ts) is Ok,
    ensures
        ({
            let (origin, lines, labels) = sp_program(ts)->Ok_0;
            let p = ProgramV { origin, lines, labels };
            &&& sp_final_cursor(ts) == origin + total_size(
                lines,
            )
            &&& (spec_assemble(p) is Ok ==> spec_assemble(p)->Ok_0.len() == 1
                + total_size(lines))
        }),
{
    lemma_parse_cursor(ts);
    let (origin, lines, labels) = sp_program(ts)->Ok_0;
    let p = ProgramV { origin, lines, labels };
    if spec_assemble(p) is Ok {
        lemma_assemble_len(p, 0);
        assert(p.lines.skip(0) =~= p.lines);
        assert(spec_assemble(p)->Ok_0.len() == 1 + spec_assemble_lines(p, 0)->Ok_0.len());
    }
}

/// The PC-relative operand of an operation, where it has one.
pub open spec fn op_pc_offset(op: OperationV) -> LocationV
    recommends
        op is Br || op is Jsr || op is Ld || op is Ldi || op is Lea || op is St || op is Sti,
{
    match op {
        OperationV::Br { pc_offset, .. } => pc_offset,
        OperationV::Jsr { pc_offset } => pc_offset,
        OperationV::Ld { pc_offset, .. } => pc_offset,
        OperationV::Ldi { pc_offset, .. } => pc_offset,
        OperationV::Lea { pc_offset, .. } => pc_offset,
        OperationV::St { pc_offset, .. } => pc_offset,
        OperationV::Sti { pc_offset, .. } => pc_offset,
        _ => LocationV::Literal(0),
    }
}

/// The width of an operation's PC-relative field: 11 bits for `JSR`,
/// 9 for the rest.
pub open spec fn op_field_width(op: OperationV) -> nat {
    if op is Jsr {
        11
    } else {
        9
    }
}

/// Bit width law: a PC-relative operation whose label resolves to a
/// displacement outside its field's two's-complement range does not
/// assemble.
pub proof fn lemma_offset_width(p: ProgramV, op: OperationV, line_loc: u16, target: u16)
    requires
        op is Br || op is Jsr || op is Ld || op is Ldi || op is Lea || op is St || op is Sti,
        op_pc_offset(op) is Label,
        lookup_label(p.labels, op_pc_offset(op)->Label_0) == Some(target),
        !fits_signed(pc_rel(target, line_loc), op_field_width(op)),
    ensures
        spec_encode_operation(p, op, line_loc) == Err::<u16, AsmError>(
            AsmError::DoesNotFit {
                value: pc_rel(target, line_loc),
                width: op_field_width(op) as u16,
            },
        ),
{
}

} // verus!
