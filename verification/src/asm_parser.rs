//! The assembly-language syntax tree: registers, operands, operations,
//! pseudo-ops and named traps, together with the parser that builds a
//! [`Program`] from source text.
//!
//! Each owned syntax type has a mathematical view (`...V`) over `Seq`,
//! which the parser's and assembler's contracts are stated against.

use vstd::prelude::*;

use vstd::slice::slice_to_vec;
use vstd::string::StringSliceAdditionalSpecFns;

use crate::asm_lexer::{spec_lex, Token, TokenV, view_tokens, tokenize};
use crate::errors::AsmError;

verus! {

// ------------------------------------------------------------------
// Syntax tree
// ------------------------------------------------------------------

/// A general-purpose register, `R0` through `R7`.
#[derive(Debug, Clone, Copy, PartialEq, Eq, Structural)]
pub struct Register(pub u16);

/// The branch condition mask of `BR`: test negative, zero, positive.
#[derive(Debug, Clone, Copy, PartialEq, Eq, Structural)]
pub struct Nzp {
    pub n: bool,
    pub z: bool,
    pub p: bool,
}

/// The last operand of `ADD`/`AND`: a register or an immediate.
#[derive(Debug, Clone, Copy, PartialEq, Eq, Structural)]
pub enum RegOrImm {
    Register(Register),
    Immediate(u16),
}

/// A place in memory, written either as a literal value or as a label
/// to be resolved against the symbol table.
#[derive(Debug, Clone, PartialEq, Eq)]
pub enum Location {
    Literal(u16),
    Label(Vec<u8>),
}

/// One machine operation, as parsed.  PC-relative operands are
/// [`Location`]s; register fields are [`Register`]s.
#[derive(Debug, Clone, PartialEq, Eq)]
pub enum Operation {
    Add { sr1: Register, sr2: RegOrImm, dr: Register },
    And { sr1: Register, sr2: RegOrImm, dr: Register },
    Br { nzp: Nzp, pc_offset: Location },
    Jmp { base_r: Register },
    Jsr { pc_offset: Location },
    Jsrr { base_r: Register },
    Ld { dr: Register, pc_offset: Location },
    Ldi { dr: Register, pc_offset: Location },
    Ldr { dr: Register, base_r: Register, offset: u16 },
    Lea { dr: Register, pc_offset: Location },
    Not { dr: Register, sr: Register },
    Ret,
    Rti,
    St { sr: Register, pc_offset: Location },
    Sti { sr: Register, pc_offset: Location },
    Str { sr: Register, base_r: Register, offset: u16 },
    Trap { vector: u16 },
}

/// An assembler directive.
#[derive(Debug, Clone, PartialEq, Eq)]
pub enum PseudoOp {
    Orig(u16),
    Fill(Location),
    Blkw(u16),
    Stringz(Vec<u8>),
    End,
}

/// A named trap alias; each encodes to `TRAP` with a fixed vector.
#[derive(Debug, Clone, Copy, PartialEq, Eq, Structural)]
pub enum Trap {
    Getc,
    Halt,
    In,
    Out,
    Puts,
    Putsp,
}

/// One parsed line: an operation, a directive, or a named trap.
#[derive(Debug, Clone, PartialEq, Eq)]
pub enum Instruction {
    Operation(Operation),
    PseudoOp(PseudoOp),
    Trap(Trap),
}

/// A line of code bundled with its optional label and the
/// location-counter value at which it was placed.
#[derive(Debug, Clone, PartialEq, Eq)]
pub struct CodeLine {
    pub label: Option<Vec<u8>>,
    pub instruction: Instruction,
    pub location: u16,
}

/// A parsed program: the origin, the lines in source order, and the
/// symbol table built during the first pass.  Labels map to the location
/// of the line that bears them; a repeated label keeps its last binding.
#[derive(Debug, Clone, PartialEq, Eq)]
pub struct Program {
    pub origin: u16,
    pub lines: Vec<CodeLine>,
    pub labels: Vec<(Vec<u8>, u16)>,
}

// ------------------------------------------------------------------
// Views
// ------------------------------------------------------------------

/// The view of a [`Location`].
pub enum LocationV {
    Literal(u16),
    Label(Seq<u8>),
}

/// The view of an [`Operation`].
pub enum OperationV {
    Add { sr1: Register, sr2: RegOrImm, dr: Register },
    And { sr1: Register, sr2: RegOrImm, dr: Register },
    Br { nzp: Nzp, pc_offset: LocationV },
    Jmp { base_r: Register },
    Jsr { pc_offset: LocationV },
    Jsrr { base_r: Register },
    Ld { dr: Register, pc_offset: LocationV },
    Ldi { dr: Register, pc_offset: LocationV },
    Ldr { dr: Register, base_r: Register, offset: u16 },
    Lea { dr: Register, pc_offset: LocationV },
    Not { dr: Register, sr: Register },
    Ret,
    Rti,
    St { sr: Register, pc_offset: LocationV },
    Sti { sr: Register, pc_offset: LocationV },
    Str { sr: Register, base_r: Register, offset: u16 },
    Trap { vector: u16 },
}

/// The view of a [`PseudoOp`].
pub enum PseudoOpV {
    Orig(u16),
    Fill(LocationV),
    Blkw(u16),
    Stringz(Seq<u8>),
    End,
}

/// The view of an [`Instruction`].
pub enum InstructionV {
    Operation(OperationV),
    PseudoOp(PseudoOpV),
    Trap(Trap),
}

/// The view of a [`CodeLine`].
pub struct CodeLineV {
    pub label: Option<Seq<u8>>,
    pub instruction: InstructionV,
    pub location: u16,
}

/// The view of a [`Program`].
pub struct ProgramV {
    pub origin: u16,
    pub lines: Seq<CodeLineV>,
    pub labels: Seq<(Seq<u8>, u16)>,
}

impl View for Location {
    type V = LocationV;

    open spec fn view(&self) -> LocationV {
        match self {
            Location::Literal(v) => LocationV::Literal(*v),
            Location::Label(l) => LocationV::Label(l@),
        }
    }
}

impl View for Operation {
    type V = OperationV;

    open spec fn view(&self) -> OperationV {
        match self {
            Operation::Add { sr1, sr2, dr } => OperationV::Add { sr1: *sr1, sr2: *sr2, dr: *dr },
            Operation::And { sr1, sr2, dr } => OperationV::And { sr1: *sr1, sr2: *sr2, dr: *dr },
            Operation::Br { nzp, pc_offset } => OperationV::Br { nzp: *nzp, pc_offset: pc_offset@ },
            Operation::Jmp { base_r } => OperationV::Jmp { base_r: *base_r },
            Operation::Jsr { pc_offset } => OperationV::Jsr { pc_offset: pc_offset@ },
            Operation::Jsrr { base_r } => OperationV::Jsrr { base_r: *base_r },
            Operation::Ld { dr, pc_offset } => OperationV::Ld { dr: *dr, pc_offset: pc_offset@ },
            Operation::Ldi { dr, pc_offset } => OperationV::Ldi { dr: *dr, pc_offset: pc_offset@ },
            Operation::Ldr { dr, base_r, offset } => OperationV::Ldr {
                dr: *dr,
                base_r: *base_r,
                offset: *offset,
            },
            Operation::Lea { dr, pc_offset } => OperationV::Lea { dr: *dr, pc_offset: pc_offset@ },
            Operation::Not { dr, sr } => OperationV::Not { dr: *dr, sr: *sr },
            Operation::Ret => OperationV::Ret,
            Operation::Rti => OperationV::Rti,
            Operation::St { sr, pc_offset } => OperationV::St { sr: *sr, pc_offset: pc_offset@ },
            Operation::Sti { sr, pc_offset } => OperationV::Sti { sr: *sr, pc_offset: pc_offset@ },
            Operation::Str { sr, base_r, offset } => OperationV::Str {
                sr: *sr,
                base_r: *base_r,
                offset: *offset,
            },
            Operation::Trap { vector } => OperationV::Trap { vector: *vector },
        }
    }
}

impl View for PseudoOp {
    type V = PseudoOpV;

    open spec fn view(&self) -> PseudoOpV {
        match self {
            PseudoOp::Orig(v) => PseudoOpV::Orig(*v),
            PseudoOp::Fill(loc) => PseudoOpV::Fill(loc@),
            PseudoOp::Blkw(n) => PseudoOpV::Blkw(*n),
            PseudoOp::Stringz(s) => PseudoOpV::Stringz(s@),
            PseudoOp::End => PseudoOpV::End,
        }
    }
}

impl View for Instruction {
    type V = InstructionV;

    open spec fn view(&self) -> InstructionV {
        match self {
            Instruction::Operation(op) => InstructionV::Operation(op@),
            Instruction::PseudoOp(p) => InstructionV::PseudoOp(p@),
            Instruction::Trap(t) => InstructionV::Trap(*t),
        }
    }
}

impl View for CodeLine {
    type V = CodeLineV;

    open spec fn view(&self) -> CodeLineV {
        CodeLineV {
            label: match &self.label {
                Some(l) => Some(l@),
                None => None,
            },
            instruction: self.instruction@,
            location: self.location,
        }
    }
}

impl View for Program {
    type V = ProgramV;

    open spec fn view(&self) -> ProgramV {
        ProgramV {
            origin: self.origin,
            lines: self.lines@.map_values(|l: CodeLine| l@),
            labels: self.labels@.map_values(|p: (Vec<u8>, u16)| (p.0@, p.1)),
        }
    }
}

// ------------------------------------------------------------------
// Spec-level structure of programs
// ------------------------------------------------------------------

/// The fixed vector of each named trap.
pub open spec fn trap_vector(t: Trap) -> u16 {
    match t {
        Trap::Getc => 0x20,
        Trap::Out => 0x21,
        Trap::Puts => 0x22,
        Trap::In => 0x23,
        Trap::Putsp => 0x24,
        Trap::Halt => 0x25,
    }
}

/// The last binding of `name` in the symbol table, if any: a repeated
/// label keeps its most recent binding.
pub open spec fn lookup_label(labels: Seq<(Seq<u8>, u16)>, name: Seq<u8>) -> Option<u16>
    decreases labels.len(),
{
    if labels.len() == 0 {
        None
    } else if labels.last().0 == name {
        Some(labels.last().1)
    } else {
        lookup_label(labels.drop_last(), name)
    }
}

/// How many words of memory a line occupies: `n` for `.BLKW n`, one per
/// byte (terminating NUL included) for `.STRINGZ`, one otherwise.
pub open spec fn line_size(line: CodeLineV) -> nat {
    match line.instruction {
        InstructionV::PseudoOp(PseudoOpV::Blkw(n)) => n as nat,
        InstructionV::PseudoOp(PseudoOpV::Stringz(s)) => s.len(),
        _ => 1,
    }
}

/// Every register field of the operation names one of `R0` through `R7`.
pub open spec fn op_regs_wf(op: OperationV) -> bool {
    match op {
        OperationV::Add { sr1, sr2, dr } | OperationV::And { sr1, sr2, dr } => {
            sr1.0 < 8 && dr.0 < 8 && (match sr2 {
                RegOrImm::Register(r) => r.0 < 8,
                RegOrImm::Immediate(_) => true,
            })
        },
        OperationV::Jmp { base_r } | OperationV::Jsrr { base_r } => base_r.0 < 8,
        OperationV::Ld { dr, .. } | OperationV::Ldi { dr, .. } | OperationV::Lea { dr, .. } => dr.0
            < 8,
        OperationV::St { sr, .. } | OperationV::Sti { sr, .. } => sr.0 < 8,
        OperationV::Ldr { dr, base_r, .. } => dr.0 < 8 && base_r.0 < 8,
        OperationV::Str { sr, base_r, .. } => sr.0 < 8 && base_r.0 < 8,
        OperationV::Not { dr, sr } => dr.0 < 8 && sr.0 < 8,
        _ => true,
    }
}

/// Every register field of the line is a real register.
pub open spec fn line_regs_wf(line: CodeLineV) -> bool {
    match line.instruction {
        InstructionV::Operation(op) => op_regs_wf(op),
        _ => true,
    }
}

/// Every register field anywhere in the program is a real register.
/// The parser only ever produces such programs.
pub open spec fn program_regs_wf(p: ProgramV) -> bool {
    forall|i: int| 0 <= i < p.lines.len() ==> line_regs_wf(#[trigger] p.lines[i])
}

// ------------------------------------------------------------------
// What parsing means
// ------------------------------------------------------------------

/// The view of a sequence of parsed lines.
pub open spec fn view_lines(ls: Seq<CodeLine>) -> Seq<CodeLineV> {
    ls.map_values(|l: CodeLine| l@)
}

/// A separator token is consumed if present; its absence is never an
/// error.
pub open spec fn sp_sep(ts: Seq<TokenV>, i: int) -> int {
    if 0 <= i < ts.len() && ts[i] is Sep {
        i + 1
    } else {
        i
    }
}

/// A numeric operand: a number token whose value fits the accepted
/// literal range `i16::MIN ..= u16::MAX`, taken modulo 2^16.
pub open spec fn sp_number(ts: Seq<TokenV>, i: int) -> Result<Option<(u16, int)>, AsmError> {
    if 0 <= i < ts.len() && ts[i] is Number {
        let n = ts[i]->Number_0;
        if -32768 <= n <= 65535 {
            Ok(
                Some(
                    (
                        if n < 0 {
                            (n + 0x10000) as u16
                        } else {
                            n as u16
                        },
                        i + 1,
                    ),
                ),
            )
        } else {
            Err(AsmError::NumberTooWide(n))
        }
    } else {
        Ok(None)
    }
}

/// One escape sequence: the recognised C escapes, with a permissive
/// fallback that keeps the escaped byte itself.
pub open spec fn escape_byte(c: u8) -> u8 {
    if c == 97 {
        7
    } else if c == 98 {
        8
    } else if c == 102 {
        12
    } else if c == 110 {
        10
    } else if c == 114 {
        13
    } else if c == 116 {
        9
    } else if c == 118 {
        11
    } else {
        c
    }
}

/// The bytes a string literal's raw body denotes: a backslash eats the
/// following byte and replaces the pair by its escape; a trailing
/// backslash vanishes.
pub open spec fn unescape(s: Seq<u8>) -> Seq<u8>
    decreases s.len(),
{
    if s.len() == 0 {
        Seq::empty()
    } else if s[0] == 92 {
        if s.len() == 1 {
            Seq::empty()
        } else {
            seq![escape_byte(s[1])] + unescape(s.skip(2))
        }
    } else {
        seq![s[0]] + unescape(s.skip(1))
    }
}

/// A string operand: the unescaped body with its terminating NUL, which
/// must fit in memory.
pub open spec fn sp_string(ts: Seq<TokenV>, i: int) -> Result<Option<(Seq<u8>, int)>, AsmError> {
    if 0 <= i < ts.len() && ts[i] is StrLit {
        let chars = unescape(ts[i]->StrLit_0) + seq![0u8];
        if chars.len() >= 0xFFFF {
            Err(AsmError::StringTooLong)
        } else {
            Ok(Some((chars, i + 1)))
        }
    } else {
        Ok(None)
    }
}

/// A label operand.
pub open spec fn sp_label(ts: Seq<TokenV>, i: int) -> Option<(Seq<u8>, int)> {
    if 0 <= i < ts.len() && ts[i] is Label {
        Some((ts[i]->Label_0, i + 1))
    } else {
        None
    }
}

/// A register operand.
pub open spec fn sp_register(ts: Seq<TokenV>, i: int) -> Option<(Register, int)> {
    if 0 <= i < ts.len() && ts[i] is Register {
        Some((Register(ts[i]->Register_0), i + 1))
    } else {
        None
    }
}

/// A location operand: a literal number, or a label to resolve later.
pub open spec fn sp_location(ts: Seq<TokenV>, i: int) -> Result<
    Option<(LocationV, int)>,
    AsmError,
> {
    match sp_number(ts, i) {
        Err(e) => Err(e),
        Ok(Some((n, j))) => Ok(Some((LocationV::Literal(n), j))),
        Ok(None) => match sp_label(ts, i) {
            Some((l, j)) => Ok(Some((LocationV::Label(l), j))),
            None => Ok(None),
        },
    }
}

/// A register followed by a PC-relative location, with an optional
/// separator between them: the operand list of `LD`, `LDI`, `LEA`,
/// `ST` and `STI`.
pub open spec fn sp_reg_loc(ts: Seq<TokenV>, i: int) -> Result<
    Option<(Register, LocationV, int)>,
    AsmError,
> {
    match sp_register(ts, i) {
        None => Err(AsmError::ExpectedRegister),
        Some((reg, j)) => {
            let j2 = sp_sep(ts, j);
            match sp_location(ts, j2) {
                Err(e) => Err(e),
                Ok(None) => Err(AsmError::ExpectedNumberOrLabel),
                Ok(Some((loc, k))) => Ok(Some((reg, loc, k))),
            }
        },
    }
}

/// Two registers then a number, separators optional: the operand list
/// of `LDR` and `STR`.
pub open spec fn sp_reg_reg_num(ts: Seq<TokenV>, i: int) -> Result<
    Option<(Register, Register, u16, int)>,
    AsmError,
> {
    match sp_register(ts, i) {
        None => Err(AsmError::ExpectedRegister),
        Some((r1, j)) => {
            let j2 = sp_sep(ts, j);
            match sp_register(ts, j2) {
                None => Err(AsmError::ExpectedRegister),
                Some((r2, k)) => {
                    let k2 = sp_sep(ts, k);
                    match sp_number(ts, k2) {
                        Err(e) => Err(e),
                        Ok(None) => Err(AsmError::ExpectedNumber),
                        Ok(Some((n, m))) => Ok(Some((r1, r2, n, m))),
                    }
                },
            }
        },
    }
}

/// One instruction: the mnemonic or directive token followed by its
/// operands in order, any two of which a comma may separate.  A token
/// that opens no instruction yields nothing; a missing or ill-formed
/// operand is an error.
pub open spec fn sp_instruction(ts: Seq<TokenV>, i: int) -> Result<
    Option<(InstructionV, int)>,
    AsmError,
> {
    if !(0 <= i < ts.len()) {
        Ok(None)
    } else {
        match ts[i] {
            TokenV::Add | TokenV::And => {
                match sp_register(ts, i + 1) {
                    None => Err(AsmError::ExpectedRegister),
                    Some((dr, j)) => {
                        let j2 = sp_sep(ts, j);
                        match sp_register(ts, j2) {
                            None => Err(AsmError::ExpectedRegister),
                            Some((sr1, k)) => {
                                let k2 = sp_sep(ts, k);
                                match sp_register(ts, k2) {
                                    Some((r2, m)) => Ok(
                                        Some(
                                            (
                                                InstructionV::Operation(
                                                    if ts[i] is Add {
                                                        OperationV::Add {
                                                            dr,
                                                            sr1,
                                                            sr2: RegOrImm::Register(r2),
                                                        }
                                                    } else {
                                                        OperationV::And {
                                                            dr,
                                                            sr1,
                                                            sr2: RegOrImm::Register(r2),
                                                        }
                                                    },
                                                ),
                                                m,
                                            ),
                                        ),
                                    ),
                                    None => match sp_number(ts, k2) {
                                        Err(e) => Err(e),
                                        Ok(None) => Err(AsmError::ExpectedRegisterOrNumber),
                                        Ok(Some((n, m))) => Ok(
                                            Some(
                                                (
                                                    InstructionV::Operation(
                                                        if ts[i] is Add {
                                                            OperationV::Add {
                                                                dr,
                                                                sr1,
                                                                sr2: RegOrImm::Immediate(n),
                                                            }
                                                        } else {
                                                            OperationV::And {
                                                                dr,
                                                                sr1,
                                                                sr2: RegOrImm::Immediate(n),
                                                            }
                                                        },
                                                    ),
                                                    m,
                                                ),
                                            ),
                                        ),
                                    },
                                }
                            },
                        }
                    },
                }
            },
            TokenV::Br(nzp) => match sp_location(ts, i + 1) {
                Err(e) => Err(e),
                Ok(None) => Err(AsmError::ExpectedNumberOrLabel),
                Ok(Some((loc, j))) => Ok(
                    Some((InstructionV::Operation(OperationV::Br { nzp, pc_offset: loc }), j)),
                ),
            },
            TokenV::Jmp => match sp_register(ts, i + 1) {
                None => Err(AsmError::ExpectedRegister),
                Some((base_r, j)) => Ok(
                    Some((InstructionV::Operation(OperationV::Jmp { base_r }), j)),
                ),
            },
            TokenV::Jsr => match sp_location(ts, i + 1) {
                Err(e) => Err(e),
                Ok(None) => Err(AsmError::ExpectedNumberOrLabel),
                Ok(Some((loc, j))) => Ok(
                    Some((InstructionV::Operation(OperationV::Jsr { pc_offset: loc }), j)),
                ),
            },
            TokenV::Jsrr => match sp_register(ts, i + 1) {
                None => Err(AsmError::ExpectedRegister),
                Some((base_r, j)) => Ok(
                    Some((InstructionV::Operation(OperationV::Jsrr { base_r }), j)),
                ),
            },
            TokenV::Ld => match sp_reg_loc(ts, i + 1) {
                Err(e) => Err(e),
                Ok(Some((dr, loc, j))) => Ok(
                    Some((InstructionV::Operation(OperationV::Ld { dr, pc_offset: loc }), j)),
                ),
                Ok(None) => Err(AsmError::ExpectedRegister),
            },
            TokenV::Ldi => match sp_reg_loc(ts, i + 1) {
                Err(e) => Err(e),
                Ok(Some((dr, loc, j))) => Ok(
                    Some((InstructionV::Operation(OperationV::Ldi { dr, pc_offset: loc }), j)),
                ),
                Ok(None) => Err(AsmError::ExpectedRegister),
            },
            TokenV::Ldr => match sp_reg_reg_num(ts, i + 1) {
                Err(e) => Err(e),
                Ok(Some((dr, base_r, offset, j))) => Ok(
                    Some((InstructionV::Operation(OperationV::Ldr { dr, base_r, offset }), j)),
                ),
                Ok(None) => Err(AsmError::ExpectedRegister),
            },
            TokenV::Lea => match sp_reg_loc(ts, i + 1) {
                Err(e) => Err(e),
                Ok(Some((dr, loc, j))) => Ok(
                    Some((InstructionV::Operation(OperationV::Lea { dr, pc_offset: loc }), j)),
                ),
                Ok(None) => Err(AsmError::ExpectedRegister),
            },
            TokenV::Not => match sp_register(ts, i + 1) {
                None => Err(AsmError::ExpectedRegister),
                Some((dr, j)) => {
                    let j2 = sp_sep(ts, j);
                    match sp_register(ts, j2) {
                        None => Err(AsmError::ExpectedRegister),
                        Some((sr, k)) => Ok(
                            Some((InstructionV::Operation(OperationV::Not { dr, sr }), k)),
                        ),
                    }
                },
            },
            TokenV::Ret => Ok(Some((InstructionV::Operation(OperationV::Ret), i + 1))),
            TokenV::Rti => Ok(Some((InstructionV::Operation(OperationV::Rti), i + 1))),
            TokenV::St => match sp_reg_loc(ts, i + 1) {
                Err(e) => Err(e),
                Ok(Some((sr, loc, j))) => Ok(
                    Some((InstructionV::Operation(OperationV::St { sr, pc_offset: loc }), j)),
                ),
                Ok(None) => Err(AsmError::ExpectedRegister),
            },
            TokenV::Sti => match sp_reg_loc(ts, i + 1) {
                Err(e) => Err(e),
                Ok(Some((sr, loc, j))) => Ok(
                    Some((InstructionV::Operation(OperationV::Sti { sr, pc_offset: loc }), j)),
                ),
                Ok(None) => Err(AsmError::ExpectedRegister),
            },
            TokenV::Str => match sp_reg_reg_num(ts, i + 1) {
                Err(e) => Err(e),
                Ok(Some((sr, base_r, offset, j))) => Ok(
                    Some((InstructionV::Operation(OperationV::Str { sr, base_r, offset }), j)),
                ),
                Ok(None) => Err(AsmError::ExpectedRegister),
            },
            TokenV::Trap => match sp_number(ts, i + 1) {
                Err(e) => Err(e),
                Ok(None) => Err(AsmError::ExpectedNumber),
                Ok(Some((vector, j))) => Ok(
                    Some((InstructionV::Operation(OperationV::Trap { vector }), j)),
                ),
            },
            TokenV::Orig => match sp_number(ts, i + 1) {
                Err(e) => Err(e),
                Ok(None) => Err(AsmError::ExpectedNumber),
                Ok(Some((v, j))) => Ok(Some((InstructionV::PseudoOp(PseudoOpV::Orig(v)), j))),
            },
            TokenV::Fill => match sp_location(ts, i + 1) {
                Err(e) => Err(e),
                Ok(None) => Err(AsmError::ExpectedNumberOrLabel),
                Ok(Some((loc, j))) => Ok(Some((InstructionV::PseudoOp(PseudoOpV::Fill(loc)), j))),
            },
            TokenV::Blkw => match sp_number(ts, i + 1) {
                Err(e) => Err(e),
                Ok(None) => Err(AsmError::ExpectedNumber),
                Ok(Some((n, j))) => Ok(Some((InstructionV::PseudoOp(PseudoOpV::Blkw(n)), j))),
            },
            TokenV::Stringz => match sp_string(ts, i + 1) {
                Err(e) => Err(e),
                Ok(None) => Err(AsmError::ExpectedString),
                Ok(Some((sv, j))) => Ok(
                    Some((InstructionV::PseudoOp(PseudoOpV::Stringz(sv)), j)),
                ),
            },
            TokenV::End => Ok(Some((InstructionV::PseudoOp(PseudoOpV::End), i + 1))),
            TokenV::Getc => Ok(Some((InstructionV::Trap(Trap::Getc), i + 1))),
            TokenV::Halt => Ok(Some((InstructionV::Trap(Trap::Halt), i + 1))),
            TokenV::In => Ok(Some((InstructionV::Trap(Trap::In), i + 1))),
            TokenV::Out => Ok(Some((InstructionV::Trap(Trap::Out), i + 1))),
            TokenV::Puts => Ok(Some((InstructionV::Trap(Trap::Puts), i + 1))),
            TokenV::Putsp => Ok(Some((InstructionV::Trap(Trap::Putsp), i + 1))),
            _ => Ok(None),
        }
    }
}

/// One line: an optional leading label, then exactly one instruction,
/// placed at the current location counter.
pub open spec fn sp_code_line(ts: Seq<TokenV>, i: int, cursor: u16) -> Result<
    (CodeLineV, int),
    AsmError,
> {
    let lbl = sp_label(ts, i);
    let j = match lbl {
        Some((_, j)) => j,
        None => i,
    };
    match sp_instruction(ts, j) {
        Err(e) => Err(e),
        Ok(None) => Err(AsmError::ExpectedInstruction),
        Ok(Some((instr, k))) => Ok(
            (
                CodeLineV {
                    label: match lbl {
                        Some((l, _)) => Some(l),
                        None => None,
                    },
                    instruction: instr,
                    location: cursor,
                },
                k,
            ),
        ),
    }
}

/// Every operand parser moves forward and stays inside the tokens.
pub proof fn lemma_instruction_advances(ts: Seq<TokenV>, i: int)
    requires
        0 <= i <= ts.len(),
    ensures
        sp_instruction(ts, i) matches Ok(Some((instr, j))) ==> i < j <= ts.len(),
{
}

/// One parsed line consumes at least one token.
pub proof fn lemma_code_line_advances(ts: Seq<TokenV>, i: int, cursor: u16)
    requires
        0 <= i <= ts.len(),
    ensures
        sp_code_line(ts, i, cursor) matches Ok((line, j)) ==> i < j <= ts.len(),
{
    match sp_label(ts, i) {
        Some((_, j)) => {
            lemma_instruction_advances(ts, j);
        },
        None => {
            lemma_instruction_advances(ts, i);
        },
    }
}

/// The first pass from token `i` on, with the location counter at
/// `cursor` and the lines and labels gathered so far.  Stops at `.END`;
/// advances the counter by each line's size, failing if it overflows
/// the address space or reaches the device registers at 0xFE00; a
/// label binds to the location of its own line, the last writer
/// winning.
pub open spec fn sp_lines(
    ts: Seq<TokenV>,
    i: int,
    cursor: u16,
    labels: Seq<(Seq<u8>, u16)>,
    lines: Seq<CodeLineV>,
) -> Result<(Seq<CodeLineV>, Seq<(Seq<u8>, u16)>, u16, int), AsmError>
    decreases ts.len() - i,
        when 0 <= i <= ts.len()
        via sp_lines_decreases
{
    match sp_code_line(ts, i, cursor) {
        Err(e) => Err(e),
        Ok((line, j)) => {
            if line.instruction is PseudoOp && line.instruction->PseudoOp_0 is End {
                Ok((lines, labels, cursor, j))
            } else {
                let inc = line_size(line);
                if cursor + inc > 0xFFFF {
                    Err(AsmError::ProgramTooLarge)
                } else if cursor + inc >= 0xFE00 {
                    Err(AsmError::ProgramEntersDeviceSpace)
                } else {
                    let labels2 = match line.label {
                        Some(l) => labels.push((l, line.location)),
                        None => labels,
                    };
                    sp_lines(ts, j, (cursor + inc) as u16, labels2, lines.push(line))
                }
            }
        },
    }
}

#[via_fn]
proof fn sp_lines_decreases(
    ts: Seq<TokenV>,
    i: int,
    cursor: u16,
    labels: Seq<(Seq<u8>, u16)>,
    lines: Seq<CodeLineV>,
) {
    lemma_code_line_advances(ts, i, cursor);
}

/// A whole program: `.ORIG` sets the origin and the location counter;
/// lines follow until `.END`.
pub open spec fn sp_program(ts: Seq<TokenV>) -> Result<
    (u16, Seq<CodeLineV>, Seq<(Seq<u8>, u16)>),
    AsmError,
> {
    match sp_instruction(ts, 0) {
        Err(e) => Err(e),
        Ok(Some((instr, j))) => {
            if instr is PseudoOp && instr->PseudoOp_0 is Orig {
                let origin = instr->PseudoOp_0->Orig_0;
                match sp_lines(ts, j, origin, Seq::empty(), Seq::empty()) {
                    Err(e) => Err(e),
                    Ok((lines, labels, _, _)) => Ok((origin, lines, labels)),
                }
            } else {
                Err(AsmError::ExpectedOrig)
            }
        },
        Ok(None) => Err(AsmError::ExpectedOrig),
    }
}

/// What parsing a source text yields: the lexer's tokens run through
/// the first pass.
pub open spec fn spec_parse(src: Seq<u8>) -> Result<ProgramV, AsmError> {
    match sp_program(spec_lex(src, 0)) {
        Err(e) => Err(e),
        Ok((origin, lines, labels)) => Ok(ProgramV { origin, lines, labels }),
    }
}

// ------------------------------------------------------------------
// Executable parser
// ------------------------------------------------------------------

/// The instruction-opening class of one token, copied out of the
/// stream so the operand parsers may advance it.  Tokens that never
/// open an instruction fall together.
#[derive(Debug, Clone, Copy, PartialEq, Eq, Structural)]
enum Lookahead {
    Add,
    And,
    Br(Nzp),
    Jmp,
    Jsr,
    Jsrr,
    Ld,
    Ldi,
    Ldr,
    Lea,
    Not,
    Ret,
    Rti,
    St,
    Sti,
    Str,
    Trap,
    Orig,
    Fill,
    Blkw,
    Stringz,
    End,
    Getc,
    Halt,
    In,
    Out,
    Puts,
    Putsp,
    Other,
}

/// The class of one token.
spec fn lookahead_of(t: TokenV) -> Lookahead {
    match t {
        TokenV::Add => Lookahead::Add,
        TokenV::And => Lookahead::And,
        TokenV::Br(nzp) => Lookahead::Br(nzp),
        TokenV::Jmp => Lookahead::Jmp,
        TokenV::Jsr => Lookahead::Jsr,
        TokenV::Jsrr => Lookahead::Jsrr,
        TokenV::Ld => Lookahead::Ld,
        TokenV::Ldi => Lookahead::Ldi,
        TokenV::Ldr => Lookahead::Ldr,
        TokenV::Lea => Lookahead::Lea,
        TokenV::Not => Lookahead::Not,
        TokenV::Ret => Lookahead::Ret,
        TokenV::Rti => Lookahead::Rti,
        TokenV::St => Lookahead::St,
        TokenV::Sti => Lookahead::Sti,
        TokenV::Str => Lookahead::Str,
        TokenV::Trap => Lookahead::Trap,
        TokenV::Orig => Lookahead::Orig,
        TokenV::Fill => Lookahead::Fill,
        TokenV::Blkw => Lookahead::Blkw,
        TokenV::Stringz => Lookahead::Stringz,
        TokenV::End => Lookahead::End,
        TokenV::Getc => Lookahead::Getc,
        TokenV::Halt => Lookahead::Halt,
        TokenV::In => Lookahead::In,
        TokenV::Out => Lookahead::Out,
        TokenV::Puts => Lookahead::Puts,
        TokenV::Putsp => Lookahead::Putsp,
        _ => Lookahead::Other,
    }
}

/// A copy of a label or string body.
fn copy_bytes(v: &Vec<u8>) -> (r: Vec<u8>)
    ensures
        r@ == v@,
{
    slice_to_vec(v.as_slice())
}

/// One escape sequence, executably.
fn escape_byte_of(c: u8) -> (r: u8)
    ensures
        r == escape_byte(c),
{
    if c == 97 {
        7
    } else if c == 98 {
        8
    } else if c == 102 {
        12
    } else if c == 110 {
        10
    } else if c == 114 {
        13
    } else if c == 116 {
        9
    } else if c == 118 {
        11
    } else {
        c
    }
}

/// The single-pass, one-token-lookahead parser: the token stream, the
/// read position, the location counter, and the symbol table built
/// during the pass.
pub struct Parser {
    tokens: Vec<Token>,
    pos: usize,
    location_cursor: u16,
    labels: Vec<(Vec<u8>, u16)>,
}

/// The view of a [`Parser`].
pub struct ParserV {
    pub tokens: Seq<TokenV>,
    pub pos: int,
    pub cursor: u16,
    pub labels: Seq<(Seq<u8>, u16)>,
}

impl View for Parser {
    type V = ParserV;

    closed spec fn view(&self) -> ParserV {
        ParserV {
            tokens: view_tokens(self.tokens@),
            pos: self.pos as int,
            cursor: self.location_cursor,
            labels: self.labels@.map_values(|p: (Vec<u8>, u16)| (p.0@, p.1)),
        }
    }
}

/// The read position stays inside the token stream.
pub open spec fn parser_wf(p: ParserV) -> bool {
    0 <= p.pos <= p.tokens.len()
}

/// The parts of the parser an operand parser never touches.
pub open spec fn same_stream(a: ParserV, b: ParserV) -> bool {
    a.tokens == b.tokens && a.cursor == b.cursor && a.labels == b.labels
}

impl Parser {
    /// The class of the token under the cursor.
    fn lookahead(&self) -> (h: Lookahead)
        requires
            parser_wf(self@),
            self@.pos < self@.tokens.len(),
        ensures
            h == lookahead_of(self@.tokens[self@.pos]),
    {
        proof {
            assert(self@.tokens[self@.pos] == self.tokens@[self.pos as int]@);
        }
        match &self.tokens[self.pos] {
            Token::Add => Lookahead::Add,
            Token::And => Lookahead::And,
            Token::Br(nzp) => Lookahead::Br(*nzp),
            Token::Jmp => Lookahead::Jmp,
            Token::Jsr => Lookahead::Jsr,
            Token::Jsrr => Lookahead::Jsrr,
            Token::Ld => Lookahead::Ld,
            Token::Ldi => Lookahead::Ldi,
            Token::Ldr => Lookahead::Ldr,
            Token::Lea => Lookahead::Lea,
            Token::Not => Lookahead::Not,
            Token::Ret => Lookahead::Ret,
            Token::Rti => Lookahead::Rti,
            Token::St => Lookahead::St,
            Token::Sti => Lookahead::Sti,
            Token::Str => Lookahead::Str,
            Token::Trap => Lookahead::Trap,
            Token::Orig => Lookahead::Orig,
            Token::Fill => Lookahead::Fill,
            Token::Blkw => Lookahead::Blkw,
            Token::Stringz => Lookahead::Stringz,
            Token::End => Lookahead::End,
            Token::Getc => Lookahead::Getc,
            Token::Halt => Lookahead::Halt,
            Token::In => Lookahead::In,
            Token::Out => Lookahead::Out,
            Token::Puts => Lookahead::Puts,
            Token::Putsp => Lookahead::Putsp,
            _ => Lookahead::Other,
        }
    }

    /// Consumes a separator if one is next; its absence is never an
    /// error.
    fn parse_separator(&mut self) -> (r: bool)
        requires
            parser_wf(old(self)@),
        ensures
            parser_wf(final(self)@),
            same_stream(old(self)@, final(self)@),
            final(self)@.pos == sp_sep(old(self)@.tokens, old(self)@.pos),
            r == (final(self)@.pos != old(self)@.pos),
    {
        if self.pos < self.tokens.len() {
            proof {
                assert(self@.tokens[self@.pos] == self.tokens@[self.pos as int]@);
            }
            match &self.tokens[self.pos] {
                Token::Sep => {
                    self.pos = self.pos + 1;
                    return true;
                },
                _ => {
                    return false;
                },
            }
        }
        false
    }

    /// Consumes a numeric operand if one is next, rejecting literals
    /// outside `i16::MIN ..= u16::MAX`.
    fn parse_number(&mut self) -> (r: Result<Option<u16>, AsmError>)
        requires
            parser_wf(old(self)@),
        ensures
            parser_wf(final(self)@),
            same_stream(old(self)@, final(self)@),
            match sp_number(old(self)@.tokens, old(self)@.pos) {
                Err(e) => r == Err::<Option<u16>, AsmError>(e),
                Ok(None) => r == Ok::<Option<u16>, AsmError>(None)
                    && final(self)@.pos == old(self)@.pos,
                Ok(Some((n, j))) => r == Ok::<Option<u16>, AsmError>(Some(n)) && final(self)@.pos
                    == j,
            },
    {
        if self.pos < self.tokens.len() {
            proof {
                assert(self@.tokens[self@.pos] == self.tokens@[self.pos as int]@);
            }
            match &self.tokens[self.pos] {
                Token::Number(nr) => {
                    let n: i64 = *nr;
                    if -32768 <= n && n <= 65535 {
                        self.pos = self.pos + 1;
                        let v: u16 = if n < 0 {
                            (n + 0x10000) as u16
                        } else {
                            n as u16
                        };
                        return Ok(Some(v));
                    } else {
                        return Err(AsmError::NumberTooWide(n));
                    }
                },
                _ => {
                    return Ok(None);
                },
            }
        }
        Ok(None)
    }

    /// Consumes a string operand if one is next, processing escape
    /// sequences and appending the terminating NUL; a string of 0xFFFF
    /// or more words cannot fit in memory.
    fn parse_string(&mut self) -> (r: Result<Option<Vec<u8>>, AsmError>)
        requires
            parser_wf(old(self)@),
        ensures
            parser_wf(final(self)@),
            same_stream(old(self)@, final(self)@),
            match sp_string(old(self)@.tokens, old(self)@.pos) {
                Err(e) => r is Err && r->Err_0 == e,
                Ok(None) => r is Ok && r->Ok_0 is None && final(self)@.pos == old(self)@.pos,
                Ok(Some((sv, j))) => r is Ok && r->Ok_0 is Some && r->Ok_0->Some_0@ == sv
                    && final(self)@.pos == j,
            },
    {
        if self.pos >= self.tokens.len() {
            return Ok(None);
        }
        proof {
            assert(self@.tokens[self@.pos] == self.tokens@[self.pos as int]@);
        }
        let raw: Vec<u8> = match &self.tokens[self.pos] {
            Token::StrLit(sraw) => copy_bytes(sraw),
            _ => {
                return Ok(None);
            },
        };
        let mut chars: Vec<u8> = Vec::new();
        let mut k: usize = 0;
        proof {
            assert(chars@ + unescape(raw@.skip(0)) =~= unescape(raw@.skip(0)));
            assert(raw@.skip(0) =~= raw@);
        }
        while k < raw.len()
            invariant
                k <= raw@.len(),
                unescape(raw@) == chars@ + unescape(raw@.skip(k as int)),
            decreases raw@.len() - k,
        {
            let ghost pre = chars@;
            let c: u8 = raw[k];
            if c == 92 {
                if k + 1 < raw.len() {
                    chars.push(escape_byte_of(raw[k + 1]));
                    proof {
                        assert(raw@.skip(k as int)[0] == raw@[k as int]);
                        assert(raw@.skip(k as int)[1] == raw@[k + 1 as int]);
                        assert(raw@.skip(k as int).skip(2) =~= raw@.skip(k + 2 as int));
                        assert(chars@ =~= pre + seq![escape_byte(raw@[k + 1 as int])]);
                        assert(unescape(raw@.skip(k as int)) == seq![
                            escape_byte(raw@[k + 1 as int]),
                        ] + unescape(raw@.skip(k + 2 as int)));
                        assert(pre + (seq![escape_byte(raw@[k + 1 as int])] + unescape(
                            raw@.skip(k + 2 as int),
                        )) =~= chars@ + unescape(raw@.skip(k + 2 as int)));
                    }
                    k = k + 2;
                } else {
                    proof {
                        assert(raw@.skip(k as int)[0] == raw@[k as int]);
                        assert(raw@.skip(k as int).len() == 1);
                        assert(unescape(raw@.skip(k as int)) =~= Seq::<u8>::empty());
                        assert(chars@ + unescape(raw@.skip(k + 1 as int)) =~= chars@ + unescape(
                            raw@.skip(k as int),
                        ));
                    }
                    k = k + 1;
                }
            } else {
                chars.push(c);
                proof {
                    assert(raw@.skip(k as int)[0] == raw@[k as int]);
                    assert(raw@.skip(k as int).skip(1) =~= raw@.skip(k + 1 as int));
                    assert(chars@ =~= pre + seq![raw@[k as int]]);
                    assert(unescape(raw@.skip(k as int)) == seq![raw@[k as int]] + unescape(
                        raw@.skip(k + 1 as int),
                    ));
                    assert(pre + (seq![raw@[k as int]] + unescape(raw@.skip(k + 1 as int))) =~= chars@
                        + unescape(raw@.skip(k + 1 as int)));
                }
                k = k + 1;
            }
        }
        proof {
            assert(raw@.skip(raw@.len() as int) =~= Seq::<u8>::empty());
            assert(chars@ + Seq::<u8>::empty() =~= chars@);
        }
        chars.push(0);
        proof {
            assert(chars@ =~= unescape(raw@) + seq![0u8]);
        }
        if chars.len() >= 0xFFFF {
            return Err(AsmError::StringTooLong);
        }
        self.pos = self.pos + 1;
        Ok(Some(chars))
    }

    /// Consumes a label if one is next.
    fn parse_label(&mut self) -> (r: Option<Vec<u8>>)
        requires
            parser_wf(old(self)@),
        ensures
            parser_wf(final(self)@),
            same_stream(old(self)@, final(self)@),
            match sp_label(old(self)@.tokens, old(self)@.pos) {
                None => r is None && final(self)@.pos == old(self)@.pos,
                Some((l, j)) => r is Some && r->Some_0@ == l && final(self)@.pos == j,
            },
    {
        if self.pos >= self.tokens.len() {
            return None;
        }
        proof {
            assert(self@.tokens[self@.pos] == self.tokens@[self.pos as int]@);
        }
        let owned: Vec<u8> = match &self.tokens[self.pos] {
            Token::Label(l) => copy_bytes(l),
            _ => {
                return None;
            },
        };
        self.pos = self.pos + 1;
        Some(owned)
    }

    /// Consumes a register if one is next.
    fn parse_register(&mut self) -> (r: Option<Register>)
        requires
            parser_wf(old(self)@),
        ensures
            parser_wf(final(self)@),
            same_stream(old(self)@, final(self)@),
            match sp_register(old(self)@.tokens, old(self)@.pos) {
                None => r is None && final(self)@.pos == old(self)@.pos,
                Some((reg, j)) => r == Some(reg) && final(self)@.pos == j,
            },
    {
        if self.pos >= self.tokens.len() {
            return None;
        }
        proof {
            assert(self@.tokens[self@.pos] == self.tokens@[self.pos as int]@);
        }
        match &self.tokens[self.pos] {
            Token::Register(n) => {
                let reg = Register(*n);
                self.pos = self.pos + 1;
                Some(reg)
            },
            _ => None,
        }
    }

    /// Consumes a location operand - a literal or a label - if one is
    /// next.
    fn parse_location(&mut self) -> (r: Result<Option<Location>, AsmError>)
        requires
            parser_wf(old(self)@),
        ensures
            parser_wf(final(self)@),
            same_stream(old(self)@, final(self)@),
            match sp_location(old(self)@.tokens, old(self)@.pos) {
                Err(e) => r is Err && r->Err_0 == e,
                Ok(None) => r is Ok && r->Ok_0 is None && final(self)@.pos == old(self)@.pos,
                Ok(Some((loc, j))) => r is Ok && r->Ok_0 is Some && r->Ok_0->Some_0@ == loc
                    && final(self)@.pos == j,
            },
    {
        match self.parse_number() {
            Err(e) => Err(e),
            Ok(Some(n)) => Ok(Some(Location::Literal(n))),
            Ok(None) => match self.parse_label() {
                Some(label) => Ok(Some(Location::Label(label))),
                None => Ok(None),
            },
        }
    }
}

impl Parser {
    /// Parses one instruction: a mnemonic, directive or named trap and
    /// its operands.  A token that opens no instruction yields nothing;
    /// a missing or ill-formed operand is an error.
    fn parse_instruction(&mut self) -> (r: Result<Option<Instruction>, AsmError>)
        requires
            parser_wf(old(self)@),
        ensures
            parser_wf(final(self)@),
            same_stream(old(self)@, final(self)@),
            match sp_instruction(old(self)@.tokens, old(self)@.pos) {
                Err(e) => r is Err && r->Err_0 == e,
                Ok(None) => r is Ok && r->Ok_0 is None && final(self)@.pos == old(self)@.pos,
                Ok(Some((instr, j))) => r is Ok && r->Ok_0 is Some && r->Ok_0->Some_0@ == instr
                    && final(self)@.pos == j,
            },
    {
        if self.pos >= self.tokens.len() {
            return Ok(None);
        }
        let head = self.lookahead();
        match head {
            Lookahead::Add | Lookahead::And => {
                self.pos = self.pos + 1;
                let dr = match self.parse_register() {
                    Some(reg) => reg,
                    None => {
                        return Err(AsmError::ExpectedRegister);
                    },
                };
                let _ = self.parse_separator();
                let sr1 = match self.parse_register() {
                    Some(reg) => reg,
                    None => {
                        return Err(AsmError::ExpectedRegister);
                    },
                };
                let _ = self.parse_separator();
                let sr2 = match self.parse_register() {
                    Some(reg) => RegOrImm::Register(reg),
                    None => match self.parse_number() {
                        Err(e) => {
                            return Err(e);
                        },
                        Ok(None) => {
                            return Err(AsmError::ExpectedRegisterOrNumber);
                        },
                        Ok(Some(n)) => RegOrImm::Immediate(n),
                    },
                };
                let operation = match head {
                    Lookahead::Add => Operation::Add { dr, sr1, sr2 },
                    _ => Operation::And { dr, sr1, sr2 },
                };
                Ok(Some(Instruction::Operation(operation)))
            },
            Lookahead::Br(nzp) => {
                self.pos = self.pos + 1;
                match self.parse_location() {
                    Err(e) => Err(e),
                    Ok(None) => Err(AsmError::ExpectedNumberOrLabel),
                    Ok(Some(pc_offset)) => Ok(
                        Some(Instruction::Operation(Operation::Br { nzp, pc_offset })),
                    ),
                }
            },
            Lookahead::Jmp => {
                self.pos = self.pos + 1;
                match self.parse_register() {
                    None => Err(AsmError::ExpectedRegister),
                    Some(base_r) => Ok(Some(Instruction::Operation(Operation::Jmp { base_r }))),
                }
            },
            Lookahead::Jsr => {
                self.pos = self.pos + 1;
                match self.parse_location() {
                    Err(e) => Err(e),
                    Ok(None) => Err(AsmError::ExpectedNumberOrLabel),
                    Ok(Some(pc_offset)) => Ok(
                        Some(Instruction::Operation(Operation::Jsr { pc_offset })),
                    ),
                }
            },
            Lookahead::Jsrr => {
                self.pos = self.pos + 1;
                match self.parse_register() {
                    None => Err(AsmError::ExpectedRegister),
                    Some(base_r) => Ok(Some(Instruction::Operation(Operation::Jsrr { base_r }))),
                }
            },
            Lookahead::Ld | Lookahead::Ldi | Lookahead::Lea | Lookahead::St | Lookahead::Sti => {
                self.pos = self.pos + 1;
                let reg = match self.parse_register() {
                    Some(reg) => reg,
                    None => {
                        return Err(AsmError::ExpectedRegister);
                    },
                };
                let _ = self.parse_separator();
                match self.parse_location() {
                    Err(e) => Err(e),
                    Ok(None) => Err(AsmError::ExpectedNumberOrLabel),
                    Ok(Some(pc_offset)) => {
                        let operation = match head {
                            Lookahead::Ld => Operation::Ld { dr: reg, pc_offset },
                            Lookahead::Ldi => Operation::Ldi { dr: reg, pc_offset },
                            Lookahead::Lea => Operation::Lea { dr: reg, pc_offset },
                            Lookahead::St => Operation::St { sr: reg, pc_offset },
                            _ => Operation::Sti { sr: reg, pc_offset },
                        };
                        Ok(Some(Instruction::Operation(operation)))
                    },
                }
            },
            Lookahead::Ldr | Lookahead::Str => {
                self.pos = self.pos + 1;
                let reg = match self.parse_register() {
                    Some(reg) => reg,
                    None => {
                        return Err(AsmError::ExpectedRegister);
                    },
                };
                let _ = self.parse_separator();
                let base_r = match self.parse_register() {
                    Some(reg) => reg,
                    None => {
                        return Err(AsmError::ExpectedRegister);
                    },
                };
                let _ = self.parse_separator();
                match self.parse_number() {
                    Err(e) => Err(e),
                    Ok(None) => Err(AsmError::ExpectedNumber),
                    Ok(Some(offset)) => {
                        let operation = match head {
                            Lookahead::Ldr => Operation::Ldr { dr: reg, base_r, offset },
                            _ => Operation::Str { sr: reg, base_r, offset },
                        };
                        Ok(Some(Instruction::Operation(operation)))
                    },
                }
            },
            Lookahead::Not => {
                self.pos = self.pos + 1;
                let dr = match self.parse_register() {
                    Some(reg) => reg,
                    None => {
                        return Err(AsmError::ExpectedRegister);
                    },
                };
                let _ = self.parse_separator();
                match self.parse_register() {
                    None => Err(AsmError::ExpectedRegister),
                    Some(sr) => Ok(Some(Instruction::Operation(Operation::Not { dr, sr }))),
                }
            },
            Lookahead::Ret => {
                self.pos = self.pos + 1;
                Ok(Some(Instruction::Operation(Operation::Ret)))
            },
            Lookahead::Rti => {
                self.pos = self.pos + 1;
                Ok(Some(Instruction::Operation(Operation::Rti)))
            },
            Lookahead::Trap => {
                self.pos = self.pos + 1;
                match self.parse_number() {
                    Err(e) => Err(e),
                    Ok(None) => Err(AsmError::ExpectedNumber),
                    Ok(Some(vector)) => Ok(
                        Some(Instruction::Operation(Operation::Trap { vector })),
                    ),
                }
            },
            Lookahead::Orig => {
                self.pos = self.pos + 1;
                match self.parse_number() {
                    Err(e) => Err(e),
                    Ok(None) => Err(AsmError::ExpectedNumber),
                    Ok(Some(v)) => Ok(Some(Instruction::PseudoOp(PseudoOp::Orig(v)))),
                }
            },
            Lookahead::Fill => {
                self.pos = self.pos + 1;
                match self.parse_location() {
                    Err(e) => Err(e),
                    Ok(None) => Err(AsmError::ExpectedNumberOrLabel),
                    Ok(Some(loc)) => Ok(Some(Instruction::PseudoOp(PseudoOp::Fill(loc)))),
                }
            },
            Lookahead::Blkw => {
                self.pos = self.pos + 1;
                match self.parse_number() {
                    Err(e) => Err(e),
                    Ok(None) => Err(AsmError::ExpectedNumber),
                    Ok(Some(n)) => Ok(Some(Instruction::PseudoOp(PseudoOp::Blkw(n)))),
                }
            },
            Lookahead::Stringz => {
                self.pos = self.pos + 1;
                match self.parse_string() {
                    Err(e) => Err(e),
                    Ok(None) => Err(AsmError::ExpectedString),
                    Ok(Some(string)) => Ok(Some(Instruction::PseudoOp(PseudoOp::Stringz(string)))),
                }
            },
            Lookahead::End => {
                self.pos = self.pos + 1;
                Ok(Some(Instruction::PseudoOp(PseudoOp::End)))
            },
            Lookahead::Getc => {
                self.pos = self.pos + 1;
                Ok(Some(Instruction::Trap(Trap::Getc)))
            },
            Lookahead::Halt => {
                self.pos = self.pos + 1;
                Ok(Some(Instruction::Trap(Trap::Halt)))
            },
            Lookahead::In => {
                self.pos = self.pos + 1;
                Ok(Some(Instruction::Trap(Trap::In)))
            },
            Lookahead::Out => {
                self.pos = self.pos + 1;
                Ok(Some(Instruction::Trap(Trap::Out)))
            },
            Lookahead::Puts => {
                self.pos = self.pos + 1;
                Ok(Some(Instruction::Trap(Trap::Puts)))
            },
            Lookahead::Putsp => {
                self.pos = self.pos + 1;
                Ok(Some(Instruction::Trap(Trap::Putsp)))
            },
            Lookahead::Other => Ok(None),
        }
    }

    /// Parses one line: an optional leading label, then exactly one
    /// instruction, placed at the current location counter.
    fn parse_code_line(&mut self) -> (r: Result<CodeLine, AsmError>)
        requires
            parser_wf(old(self)@),
        ensures
            parser_wf(final(self)@),
            same_stream(old(self)@, final(self)@),
            match sp_code_line(old(self)@.tokens, old(self)@.pos, old(self)@.cursor) {
                Err(e) => r is Err && r->Err_0 == e,
                Ok((line, j)) => r is Ok && r->Ok_0@ == line && final(self)@.pos == j,
            },
    {
        let label = self.parse_label();
        let instruction = match self.parse_instruction() {
            Err(e) => {
                return Err(e);
            },
            Ok(None) => {
                return Err(AsmError::ExpectedInstruction);
            },
            Ok(Some(instr)) => instr,
        };
        Ok(CodeLine { label, instruction, location: self.location_cursor })
    }

    /// Parses a whole program: `.ORIG` first, then lines until `.END`,
    /// keeping track of each instruction's location in memory and
    /// collecting the labels.
    #[verifier::loop_isolation(false)]
    fn parse_program(&mut self) -> (r: Result<(u16, Vec<CodeLine>), AsmError>)
        requires
            parser_wf(old(self)@),
            old(self)@.pos == 0,
            old(self)@.labels == Seq::<(Seq<u8>, u16)>::empty(),
        ensures
            parser_wf(final(self)@),
            final(self)@.tokens == old(self)@.tokens,
            match sp_program(old(self)@.tokens) {
                Err(e) => r is Err && r->Err_0 == e,
                Ok((origin, lines, labels)) => r is Ok && r->Ok_0.0 == origin && view_lines(
                    r->Ok_0.1@,
                ) == lines && final(self)@.labels == labels,
            },
    {
        let origin: u16 = match self.parse_instruction() {
            Err(e) => {
                return Err(e);
            },
            Ok(Some(Instruction::PseudoOp(PseudoOp::Orig(origin)))) => origin,
            Ok(_) => {
                return Err(AsmError::ExpectedOrig);
            },
        };
        self.location_cursor = origin;
        let mut lines: Vec<CodeLine> = Vec::new();
        let ghost ts = old(self)@.tokens;
        let ghost target = sp_lines(ts, self@.pos, origin, Seq::empty(), Seq::empty());
        proof {
            assert(view_lines(lines@) =~= Seq::<CodeLineV>::empty());
        }
        loop
            invariant
                parser_wf(self@),
                self@.tokens == ts,
                target == sp_lines(ts, self@.pos, self@.cursor, self@.labels, view_lines(lines@)),
            decreases ts.len() - self@.pos,
        {
            let ghost pos0 = self@.pos;
            let ghost cursor0 = self@.cursor;
            let ghost labels0 = self@.labels;
            let ghost lines0 = view_lines(lines@);
            proof {
                lemma_code_line_advances(ts, pos0, cursor0);
            }
            let line = match self.parse_code_line() {
                Err(e) => {
                    return Err(e);
                },
                Ok(line) => line,
            };
            if matches!(&line.instruction, Instruction::PseudoOp(PseudoOp::End)) {
                return Ok((origin, lines));
            }
            // Keep track of instructions' locations in memory.
            let inc: u128 = match &line.instruction {
                Instruction::PseudoOp(PseudoOp::Blkw(n)) => *n as u128,
                Instruction::PseudoOp(PseudoOp::Stringz(string)) => string.len() as u128,
                _ => 1,
            };
            let newc: u128 = (self.location_cursor as u128) + inc;
            if newc > 0xFFFF {
                return Err(AsmError::ProgramTooLarge);
            }
            if newc >= 0xFE00 {
                return Err(AsmError::ProgramEntersDeviceSpace);
            }
            self.location_cursor = newc as u16;
            match &line.label {
                Some(label) => {
                    let name = copy_bytes(label);
                    self.labels.push((name, line.location));
                    proof {
                        assert(self@.labels =~= labels0.push((label@, line.location)));
                    }
                },
                None => (),
            }
            lines.push(line);
            proof {
                assert(view_lines(lines@) =~= lines0.push(line@));
            }
        }
    }

    /// Parses assembly source into a program: the origin, the lines in
    /// source order, and the symbol table.
    pub fn parse(string: &str) -> (r: Result<Program, AsmError>)
        ensures
            match spec_parse(string.spec_bytes()) {
                Err(e) => r is Err && r->Err_0 == e,
                Ok(p) => r is Ok && r->Ok_0@ == p,
            },
    {
        let bytes: &[u8] = string.as_bytes();
        let tokens: Vec<Token> = tokenize(bytes);
        let mut parser = Parser {
            tokens,
            pos: 0,
            location_cursor: 0,
            labels: Vec::new(),
        };
        proof {
            assert(parser@.labels =~= Seq::<(Seq<u8>, u16)>::empty());
        }
        match parser.parse_program() {
            Err(e) => Err(e),
            Ok((origin, lines)) => {
                let program = Program { origin, lines, labels: parser.labels };
                Ok(program)
            },
        }
    }
}

/// The number of memory words a sequence of lines occupies.
pub open spec fn total_size(lines: Seq<CodeLineV>) -> nat
    decreases lines.len(),
{
    if lines.len() == 0 {
        0
    } else {
        line_size(lines[0]) + total_size(lines.drop_first())
    }
}

/// The location counter after the first pass, for a token stream whose
/// parse succeeds.
pub open spec fn sp_final_cursor(ts: Seq<TokenV>) -> u16
    recommends
        sp_program(ts) is Ok,
{
    match sp_instruction(ts, 0) {
        Ok(Some((instr, j))) => {
            let origin = instr->PseudoOp_0->Orig_0;
            match sp_lines(ts, j, origin, Seq::empty(), Seq::empty()) {
                Ok((lines, labels, cursor, k)) => cursor,
                Err(_) => 0,
            }
        },
        _ => 0,
    }
}

/// The first pass's location counter arithmetic: a successful pass ends
/// with the counter advanced by exactly the size of the lines it
/// gathered beyond the accumulator, none of which is `.END`.
pub proof fn lemma_sp_lines_cursor(
    ts: Seq<TokenV>,
    i: int,
    cursor: u16,
    labels: Seq<(Seq<u8>, u16)>,
    acc: Seq<CodeLineV>,
)
    requires
        0 <= i <= ts.len(),
        sp_lines(ts, i, cursor, labels, acc) is Ok,
    ensures
        ({
            let (lns, lbls, c_end, k) = sp_lines(ts, i, cursor, labels, acc)->Ok_0;
            &&& lns.len() >= acc.len()
            &&& lns.take(acc.len() as int) == acc
            &&& c_end == cursor + total_size(lns.skip(acc.len() as int))
            &&& forall|t: int|
                acc.len() <= t < lns.len() ==> !((#[trigger] lns[t]).instruction is PseudoOp
                    && lns[t].instruction->PseudoOp_0 is End)
        }),
    decreases ts.len() - i,
{
    lemma_code_line_advances(ts, i, cursor);
    let (lns, lbls, c_end, k) = sp_lines(ts, i, cursor, labels, acc)->Ok_0;
    match sp_code_line(ts, i, cursor) {
        Err(_) => {},
        Ok((line, j)) => {
            if line.instruction is PseudoOp && line.instruction->PseudoOp_0 is End {
                assert(lns == acc);
                assert(lns.take(acc.len() as int) =~= acc);
                assert(lns.skip(acc.len() as int) =~= Seq::<CodeLineV>::empty());
            } else {
                let inc = line_size(line);
                let labels2 = match line.label {
                    Some(l) => labels.push((l, line.location)),
                    None => labels,
                };
                lemma_sp_lines_cursor(ts, j, (cursor + inc) as u16, labels2, acc.push(line));
                assert(lns.take(acc.len() as int + 1) == acc.push(line));
                assert forall|t: int| 0 <= t < acc.len() implies lns[t] == acc[t] by {
                    assert(lns.take(acc.len() as int + 1)[t] == lns[t]);
                    assert(acc.push(line)[t] == acc[t]);
                }
                assert(lns.take(acc.len() as int) =~= acc);
                assert(lns[acc.len() as int] == lns.take(acc.len() as int + 1)[acc.len() as int]);
                assert(lns[acc.len() as int] == line);
                assert(lns.skip(acc.len() as int).drop_first() =~= lns.skip(acc.len() as int + 1));
                assert(lns.skip(acc.len() as int)[0] == line);
                assert(total_size(lns.skip(acc.len() as int)) == line_size(line) + total_size(
                    lns.skip(acc.len() as int + 1),
                ));
            }
        },
    }
}

/// A successful parse leaves the location counter exactly the program's
/// size past its origin, and yields no `.END` line.
pub proof fn lemma_parse_cursor(ts: Seq<TokenV>)
    requires
        sp_program(ts) is Ok,
    ensures
        ({
            let (origin, lines, labels) = sp_program(ts)->Ok_0;
            &&& sp_final_cursor(ts) == origin + total_size(lines)
            &&& forall|t: int|
                0 <= t < lines.len() ==> !((#[trigger] lines[t]).instruction is PseudoOp
                    && lines[t].instruction->PseudoOp_0 is End)
        }),
{
    match sp_instruction(ts, 0) {
        Ok(Some((instr, j))) => {
            lemma_instruction_advances(ts, 0);
            let origin = instr->PseudoOp_0->Orig_0;
            lemma_sp_lines_cursor(ts, j, origin, Seq::empty(), Seq::empty());
            let (lns, lbls, c_end, k) = sp_lines(ts, j, origin, Seq::empty(), Seq::empty())->Ok_0;
            assert(lns.skip(0) =~= lns);
        },
        _ => {},
    }
}

/// With well-formed tokens, every register operand the parser reads
/// names one of the eight real registers.
proof fn lemma_instruction_regs_wf(ts: Seq<TokenV>, i: int)
    requires
        0 <= i <= ts.len(),
        crate::asm_lexer::tokens_wf(ts),
    ensures
        ({
            match sp_instruction(ts, i) {
                Ok(Some((instr, j))) => match instr {
                    InstructionV::Operation(op) => op_regs_wf(op),
                    _ => true,
                },
                _ => true,
            }
        }),
{
}

/// With well-formed tokens, every line the first pass gathers is
/// register-well-formed.
proof fn lemma_lines_regs_wf(
    ts: Seq<TokenV>,
    i: int,
    cursor: u16,
    labels: Seq<(Seq<u8>, u16)>,
    lines: Seq<CodeLineV>,
)
    requires
        0 <= i <= ts.len(),
        crate::asm_lexer::tokens_wf(ts),
        forall|t: int| 0 <= t < lines.len() ==> line_regs_wf(#[trigger] lines[t]),
    ensures
        ({
            match sp_lines(ts, i, cursor, labels, lines) {
                Ok((lns, lbls, c, j)) => forall|t: int|
                    0 <= t < lns.len() ==> line_regs_wf(#[trigger] lns[t]),
                _ => true,
            }
        }),
    decreases ts.len() - i,
{
    lemma_code_line_advances(ts, i, cursor);
    match sp_code_line(ts, i, cursor) {
        Err(_) => {},
        Ok((line, j)) => {
            let lbl = sp_label(ts, i);
            let at = match lbl {
                Some((_, k)) => k,
                None => i,
            };
            lemma_instruction_advances(ts, at);
            lemma_instruction_regs_wf(ts, at);
            if line.instruction is PseudoOp && line.instruction->PseudoOp_0 is End {
            } else {
                let inc = line_size(line);
                if cursor + inc > 0xFFFF {
                } else if cursor + inc >= 0xFE00 {
                } else {
                    let labels2 = match line.label {
                        Some(l) => labels.push((l, line.location)),
                        None => labels,
                    };
                    assert(line_regs_wf(line));
                    assert forall|t: int|
                        0 <= t < lines.push(line).len() implies line_regs_wf(
                        #[trigger] lines.push(line)[t],
                    ) by {
                        if t < lines.len() {
                            assert(lines.push(line)[t] == lines[t]);
                        }
                    }
                    lemma_lines_regs_wf(ts, j, (cursor + inc) as u16, labels2, lines.push(line));
                }
            }
        },
    }
}

/// A program the parser accepts meets the assembler's register
/// precondition: the grammar only ever names `R0` through `R7`.
pub proof fn lemma_parsed_registers_wf(src: Seq<u8>)
    requires
        spec_parse(src) is Ok,
    ensures
        program_regs_wf(spec_parse(src)->Ok_0),
{
    let ts = spec_lex(src, 0);
    crate::asm_lexer::lemma_lex_wf(src, 0);
    match sp_instruction(ts, 0) {
        Ok(Some((instr, j))) => {
            lemma_instruction_advances(ts, 0);
            let origin = instr->PseudoOp_0->Orig_0;
            lemma_lines_regs_wf(ts, j, origin, Seq::empty(), Seq::empty());
        },
        _ => {},
    }
}

} // verus!
