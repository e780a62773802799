//! Decoding words back into syntax, and the textual listing.

use alic3::asm_parser::{Location, Nzp, Operation, Parser, RegOrImm, Register};
use alic3::assembler::assemble;
use alic3::disasm::{decode, disassemble_instruction};

#[test]
fn listing_of_arithmetic() {
    assert_eq!(disassemble_instruction(0x1021), "ADD R0 R0 1");
    assert_eq!(disassemble_instruction(0x103F), "ADD R0 R0 -1");
    assert_eq!(disassemble_instruction(0x1030), "ADD R0 R0 -16");
    assert_eq!(disassemble_instruction(0x1283), "ADD R1 R2 R3");
    assert_eq!(disassemble_instruction(0x5967), "AND R4 R5 7");
    assert_eq!(disassemble_instruction(0x947F), "NOT R2 R1");
}

#[test]
fn listing_of_branches_and_jumps() {
    assert_eq!(disassemble_instruction(0x0FFE), "BRnzp 0xfffe");
    assert_eq!(disassemble_instruction(0x09FD), "BRn 0xfffd");
    assert_eq!(disassemble_instruction(0x0601), "BRzp 0x0001");
    assert_eq!(disassemble_instruction(0xC1C0), "RET");
    assert_eq!(disassemble_instruction(0xC080), "JMP R2");
    assert_eq!(disassemble_instruction(0x4FFB), "JSR 0xfffb");
    assert_eq!(disassemble_instruction(0x40C0), "JSRR R3");
}

#[test]
fn listing_of_memory_operations() {
    assert_eq!(disassemble_instruction(0x23F9), "LD R1 0xfff9");
    assert_eq!(disassemble_instruction(0xA5F8), "LDI R2 0xfff8");
    assert_eq!(disassemble_instruction(0x673F), "LDR R3 R4 0xffff");
    assert_eq!(disassemble_instruction(0xEBF6), "LEA R5 0xfff6");
    assert_eq!(disassemble_instruction(0x33F2), "ST R1 0xfff2");
    assert_eq!(disassemble_instruction(0xB5F1), "STI R2 0xfff1");
    assert_eq!(disassemble_instruction(0x7701), "STR R3 R4 0x0001");
}

#[test]
fn listing_of_system_words() {
    assert_eq!(disassemble_instruction(0x8000), "RTI");
    assert_eq!(disassemble_instruction(0xD000), "[reserved]");
    assert_eq!(disassemble_instruction(0xF025), "TRAP 0x25");
    assert_eq!(disassemble_instruction(0xF0FF), "TRAP 0xff");
}

#[test]
fn decode_is_structural() {
    assert_eq!(
        decode(0x1021),
        Some(Operation::Add {
            dr: Register(0),
            sr1: Register(0),
            sr2: RegOrImm::Immediate(1),
        })
    );
    assert_eq!(
        decode(0x0FFE),
        Some(Operation::Br {
            nzp: Nzp { n: true, z: true, p: true },
            pc_offset: Location::Literal(0xFFFE),
        })
    );
    assert_eq!(decode(0xC1C0), Some(Operation::Ret));
    assert_eq!(decode(0xD123), None);
}

#[test]
fn decoding_inverts_assembly() {
    let source = ".ORIG x3000\nADD R1,R2,#-2\nLDR R3,R4,#5\nJSRR R6\nTRAP x23\n.END";
    let words = assemble(Parser::parse(source).unwrap()).unwrap();
    assert_eq!(
        decode(words[1]),
        Some(Operation::Add {
            dr: Register(1),
            sr1: Register(2),
            sr2: RegOrImm::Immediate(0xFFFE),
        })
    );
    assert_eq!(
        decode(words[2]),
        Some(Operation::Ldr { dr: Register(3), base_r: Register(4), offset: 5 })
    );
    assert_eq!(decode(words[3]), Some(Operation::Jsrr { base_r: Register(6) }));
    assert_eq!(decode(words[4]), Some(Operation::Trap { vector: 0x23 }));
}
