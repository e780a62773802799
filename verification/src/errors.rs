//! Errors surfaced by the assembler toolchain.

use vstd::prelude::*;

verus! {

/// Everything that can go wrong while lexing, parsing or encoding an
/// assembly program.  The emulator never returns these: runtime faults in
/// the emulated program are handled inside the machine via exception
/// vectors.
#[derive(Debug, Clone, Copy, PartialEq, Eq, Structural)]
pub enum AsmError {
    /// A value does not fit in the instruction field of the given bit width.
    DoesNotFit { value: u16, width: u16 },
    /// A numeric literal lies outside `i16::MIN ..= u16::MAX`.
    NumberTooWide(i64),
    /// A `.STRINGZ` literal would occupy 0xFFFF or more words of memory.
    StringTooLong,
    /// An operand position where a register was required held something else.
    ExpectedRegister,
    /// An operand position where a number was required held something else.
    ExpectedNumber,
    /// `ADD`/`AND` require a register or an immediate as their last operand.
    ExpectedRegisterOrNumber,
    /// A PC-relative operand must be a number or a label.
    ExpectedNumberOrLabel,
    /// `.STRINGZ` requires a quoted string.
    ExpectedString,
    /// A line held no recognisable instruction.
    ExpectedInstruction,
    /// The program did not begin with `.ORIG`.
    ExpectedOrig,
    /// The location counter overflowed the 16-bit address space.
    ProgramTooLarge,
    /// The location counter reached the device register space at 0xFE00.
    ProgramEntersDeviceSpace,
    /// A label was used but never defined.
    UnresolvedLabel,
    /// `.ORIG` appeared again after the first line.
    UnexpectedOrig,
}

} // verus!
