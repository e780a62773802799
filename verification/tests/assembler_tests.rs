//! Assembling whole programs: the object image, the location counter,
//! and every rejection the assembler owes.

use alic3::asm_parser::{
    CodeLine, Instruction, Location, Operation, Parser, Program, PseudoOp, RegOrImm, Register,
};
use alic3::assembler::assemble;
use alic3::errors::AsmError;

fn assemble_source(src: &str) -> Result<Vec<u16>, AsmError> {
    let program = Parser::parse(src)?;
    assemble(program)
}

#[test]
fn add_and_halt_image() {
    let words = assemble_source(".ORIG x3000\nADD R0,R0,#1\nHALT\n.END").unwrap();
    assert_eq!(words, vec![0x3000, 0x1021, 0xF025]);
}

#[test]
fn backward_branch_offset() {
    let words =
        assemble_source(".ORIG x3000\nAND R0,R0,#0\nLOOP ADD R0,R0,#1\nBRnzp LOOP\n.END").unwrap();
    assert_eq!(words, vec![0x3000, 0x5020, 0x1021, 0x0FFE]);
}

#[test]
fn stringz_and_lea() {
    let words = assemble_source(
        ".ORIG x3000\nLEA R0, MSG\nPUTS\nHALT\nMSG .STRINGZ \"hi\"\n.END",
    )
    .unwrap();
    assert_eq!(
        words,
        vec![0x3000, 0xE002, 0xF022, 0xF025, 'h' as u16, 'i' as u16, 0]
    );
}

#[test]
fn imm5_sixteen_is_out_of_range() {
    let r = assemble_source(".ORIG x3000\nADD R0,R0,#16\n.END");
    assert_eq!(r, Err(AsmError::DoesNotFit { value: 16, width: 5 }));
}

#[test]
fn imm5_minus_sixteen_is_in_range() {
    let words = assemble_source(".ORIG x3000\nADD R0,R0,#-16\n.END").unwrap();
    assert_eq!(words, vec![0x3000, 0x1030]);
}

#[test]
fn branch_offset_too_far() {
    let r = assemble_source(".ORIG x3000\nBRnzp FAR\n.BLKW #300\nFAR HALT\n.END");
    assert_eq!(r, Err(AsmError::DoesNotFit { value: 300, width: 9 }));
}

#[test]
fn unresolved_label() {
    let r = assemble_source(".ORIG x3000\nBRnzp NOWHERE\n.END");
    assert_eq!(r, Err(AsmError::UnresolvedLabel));
}

#[test]
fn second_orig_is_rejected() {
    let r = assemble_source(".ORIG x3000\n.ORIG x4000\n.END");
    assert_eq!(r, Err(AsmError::UnexpectedOrig));
}

#[test]
fn literal_too_wide_for_a_word() {
    let r = assemble_source(".ORIG x3000\n.FILL #70000\n.END");
    assert_eq!(r, Err(AsmError::NumberTooWide(70000)));
}

#[test]
fn program_enters_device_space() {
    let r = assemble_source(".ORIG xFD00\n.BLKW x200\n.END");
    assert_eq!(r, Err(AsmError::ProgramEntersDeviceSpace));
}

#[test]
fn program_overflows_memory() {
    let r = assemble_source(".ORIG xFFFF\n.BLKW #2\n.END");
    assert_eq!(r, Err(AsmError::ProgramTooLarge));
}

#[test]
fn string_too_long_for_memory() {
    let big = "a".repeat(0xFFFF);
    let src = format!(".ORIG x3000\n.STRINGZ \"{}\"\n.END", big);
    let r = assemble_source(&src);
    assert_eq!(r, Err(AsmError::StringTooLong));
}

#[test]
fn missing_orig() {
    let r = assemble_source("ADD R0,R0,R0\n.END");
    assert_eq!(r, Err(AsmError::ExpectedOrig));
}

#[test]
fn missing_register_operand() {
    let r = assemble_source(".ORIG x3000\nADD #1,#2,#3\n.END");
    assert_eq!(r, Err(AsmError::ExpectedRegister));
}

#[test]
fn missing_instruction_after_label() {
    let r = assemble_source(".ORIG x3000\nFOO BAR\n.END");
    assert_eq!(r, Err(AsmError::ExpectedInstruction));
}

#[test]
fn missing_string_operand() {
    let r = assemble_source(".ORIG x3000\n.STRINGZ #5\n.END");
    assert_eq!(r, Err(AsmError::ExpectedString));
}

#[test]
fn missing_trap_vector() {
    let r = assemble_source(".ORIG x3000\nTRAP FOO\n.END");
    assert_eq!(r, Err(AsmError::ExpectedNumber));
}

#[test]
fn missing_branch_target() {
    let r = assemble_source(".ORIG x3000\nBRnzp ,\n.END");
    assert_eq!(r, Err(AsmError::ExpectedNumberOrLabel));
}

#[test]
fn missing_second_source() {
    let r = assemble_source(".ORIG x3000\nADD R0,R0,\"x\"\n.END");
    assert_eq!(r, Err(AsmError::ExpectedRegisterOrNumber));
}

#[test]
fn commas_are_optional() {
    let with = assemble_source(".ORIG x3000\nADD R0,R0,#1\n.END").unwrap();
    let without = assemble_source(".ORIG x3000\nADD R0 R0 #1\n.END").unwrap();
    assert_eq!(with, without);
}

#[test]
fn keywords_are_case_insensitive() {
    let lower = assemble_source(".orig x3000\nadd r0,r0,#1\nhalt\n.end").unwrap();
    let upper = assemble_source(".ORIG x3000\nADD R0,R0,#1\nHALT\n.END").unwrap();
    assert_eq!(lower, upper);
}

#[test]
fn br_suffix_is_case_insensitive() {
    let lower =
        assemble_source(".ORIG x3000\nLOOP ADD R0,R0,#1\nbrn LOOP\n.END").unwrap();
    let upper =
        assemble_source(".ORIG x3000\nLOOP ADD R0,R0,#1\nBRN LOOP\n.END").unwrap();
    assert_eq!(lower, upper);
    assert_eq!(lower[2], 0x09FE);
}

#[test]
fn comments_and_blank_lines_are_skipped() {
    let words = assemble_source(
        "; a whole-line comment\n.ORIG x3000 ; origin\n\n  ADD R0,R0,#1 ; bump\n.END",
    )
    .unwrap();
    assert_eq!(words, vec![0x3000, 0x1021]);
}

#[test]
fn text_after_end_is_ignored() {
    let words = assemble_source(".ORIG x3000\nHALT\n.END\ngarbage $$$ \"unterminated").unwrap();
    assert_eq!(words, vec![0x3000, 0xF025]);
}

#[test]
fn hex_sign_follows_the_x() {
    let words = assemble_source(".ORIG x3000\nADD R0,R0,x-10\n.END").unwrap();
    assert_eq!(words, vec![0x3000, 0x1030]);
}

#[test]
fn fill_takes_the_absolute_label_address() {
    let words = assemble_source(
        ".ORIG x3000\nHERE .FILL HERE\n.BLKW #2\n.FILL xBEEF\n.END",
    )
    .unwrap();
    assert_eq!(words, vec![0x3000, 0x3000, 0, 0, 0xBEEF]);
}

#[test]
fn string_escapes() {
    let words = assemble_source(".ORIG x3000\n.STRINGZ \"a\\n\\\"q\\\\\"\n.END").unwrap();
    assert_eq!(
        words,
        vec![0x3000, 'a' as u16, 10, '"' as u16, 'q' as u16, 0x5C, 0]
    );
}

#[test]
fn image_length_tracks_the_location_counter() {
    // one word per operation, n per .BLKW n, byte count plus NUL per
    // .STRINGZ: 1 + 1 + 3 + 4 words after the origin
    let words = assemble_source(
        ".ORIG x3000\nADD R0,R0,#1\nHALT\n.BLKW #3\n.STRINGZ \"xyz\"\n.END",
    )
    .unwrap();
    assert_eq!(words.len(), 1 + 1 + 1 + 3 + 4);
}

#[test]
fn every_operation_encodes() {
    let words = assemble_source(
        ".ORIG x3000\nL ADD R1,R2,R3\nAND R4,R5,#7\nBRn L\nJMP R2\nJSR L\nJSRR R3\nLD R1,L\nLDI R2,L\nLDR R3,R4,#-1\nLEA R5,L\nNOT R6,R7\nRET\nRTI\nST R1,L\nSTI R2,L\nSTR R3,R4,#1\nTRAP x21\nGETC\nOUT\nPUTS\nIN\nPUTSP\nHALT\n.END",
    )
    .unwrap();
    assert_eq!(words[0], 0x3000);
    assert_eq!(words[1], 0x1283); // ADD R1,R2,R3
    assert_eq!(words[2], 0x5967); // AND R4,R5,#7
    assert_eq!(words[3], 0x09FD); // BRn L
    assert_eq!(words[4], 0xC080); // JMP R2
    assert_eq!(words[5], 0x4FFB); // JSR L
    assert_eq!(words[6], 0x40C0); // JSRR R3
    assert_eq!(words[7], 0x23F9); // LD R1,L
    assert_eq!(words[8], 0xA5F8); // LDI R2,L
    assert_eq!(words[9], 0x673F); // LDR R3,R4,#-1
    assert_eq!(words[10], 0xEBF6); // LEA R5,L
    assert_eq!(words[11], 0x9DFF); // NOT R6,R7
    assert_eq!(words[12], 0xC1C0); // RET
    assert_eq!(words[13], 0x8000); // RTI
    assert_eq!(words[14], 0x33F2); // ST R1,L
    assert_eq!(words[15], 0xB5F1); // STI R2,L
    assert_eq!(words[16], 0x7701); // STR R3,R4,#1
    assert_eq!(words[17], 0xF021); // TRAP x21
    assert_eq!(words[18], 0xF020); // GETC
    assert_eq!(words[19], 0xF021); // OUT
    assert_eq!(words[20], 0xF022); // PUTS
    assert_eq!(words[21], 0xF023); // IN
    assert_eq!(words[22], 0xF024); // PUTSP
    assert_eq!(words[23], 0xF025); // HALT
}

#[test]
fn assemble_a_hand_built_program() {
    let program = Program {
        origin: 0x4000,
        lines: vec![
            CodeLine {
                label: None,
                instruction: Instruction::Operation(Operation::Add {
                    dr: Register(0),
                    sr1: Register(0),
                    sr2: RegOrImm::Immediate(1),
                }),
                location: 0x4000,
            },
            CodeLine {
                label: None,
                instruction: Instruction::PseudoOp(PseudoOp::Fill(Location::Literal(0xCAFE))),
                location: 0x4001,
            },
        ],
        labels: vec![],
    };
    assert_eq!(assemble(program), Ok(vec![0x4000, 0x1021, 0xCAFE]));
}

#[test]
fn parser_places_labels_on_their_own_line() {
    let program = Parser::parse(
        ".ORIG x3000\nA ADD R0,R0,#1\nB .BLKW #2\nC HALT\n.END",
    )
    .unwrap();
    assert_eq!(program.origin, 0x3000);
    assert_eq!(program.labels.len(), 3);
    assert_eq!(program.labels[0], (b"A".to_vec(), 0x3000));
    assert_eq!(program.labels[1], (b"B".to_vec(), 0x3001));
    assert_eq!(program.labels[2], (b"C".to_vec(), 0x3003));
    assert_eq!(program.lines.len(), 3);
    assert_eq!(program.lines[2].location, 0x3003);
}

#[test]
fn missing_end_is_rejected() {
    let r = assemble_source(".ORIG x3000\nADD R0,R0,#1");
    assert_eq!(r, Err(AsmError::ExpectedInstruction));
}
