//! The closed set of 16 LC-3 opcode tags and its bijection with the
//! nibble values 0 through 15.

use vstd::prelude::*;

verus! {

/// One of the 16 LC-3 opcodes, identified by the top nibble of an
/// instruction word.  Opcode 13 is architecturally reserved; executing it
/// raises the illegal-opcode exception.
#[derive(Clone, Copy, Debug, PartialEq, Eq, Structural)]
pub enum Opcode {
    Br,
    Add,
    Ld,
    St,
    Jsr,
    And,
    Ldr,
    Str,
    Rti,
    Not,
    Ldi,
    Sti,
    Jmp,
    Reserved,
    Lea,
    Trap,
}

/// The nibble value that encodes each opcode.
pub open spec fn opcode_value(op: Opcode) -> u16 {
    match op {
        Opcode::Br => 0,
        Opcode::Add => 1,
        Opcode::Ld => 2,
        Opcode::St => 3,
        Opcode::Jsr => 4,
        Opcode::And => 5,
        Opcode::Ldr => 6,
        Opcode::Str => 7,
        Opcode::Rti => 8,
        Opcode::Not => 9,
        Opcode::Ldi => 10,
        Opcode::Sti => 11,
        Opcode::Jmp => 12,
        Opcode::Reserved => 13,
        Opcode::Lea => 14,
        Opcode::Trap => 15,
    }
}

impl Opcode {
    /// The opcode whose encoding is the nibble `i`.
    pub fn from_int(i: u8) -> (r: Self)
        requires
            i <= 15,
        ensures
            opcode_value(r) == i as u16,
    {
        match i {
            0 => Self::Br,
            1 => Self::Add,
            2 => Self::Ld,
            3 => Self::St,
            4 => Self::Jsr,
            5 => Self::And,
            6 => Self::Ldr,
            7 => Self::Str,
            8 => Self::Rti,
            9 => Self::Not,
            10 => Self::Ldi,
            11 => Self::Sti,
            12 => Self::Jmp,
            13 => Self::Reserved,
            14 => Self::Lea,
            _ => Self::Trap,
        }
    }

    /// The nibble that encodes this opcode.
    pub fn to_int(&self) -> (r: u16)
        ensures
            r == opcode_value(*self),
            r <= 15,
    {
        match self {
            Self::Br => 0,
            Self::Add => 1,
            Self::Ld => 2,
            Self::St => 3,
            Self::Jsr => 4,
            Self::And => 5,
            Self::Ldr => 6,
            Self::Str => 7,
            Self::Rti => 8,
            Self::Not => 9,
            Self::Ldi => 10,
            Self::Sti => 11,
            Self::Jmp => 12,
            Self::Reserved => 13,
            Self::Lea => 14,
            Self::Trap => 15,
        }
    }
}

} // verus!
