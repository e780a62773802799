//! The shapes of tokens: numeral forms, register names, the `BR`
//! family, labels and strings.

use alic3::asm_parser::{Instruction, Location, Operation, Parser, PseudoOp};
use alic3::errors::AsmError;

fn first_line_instruction(src: &str) -> Instruction {
    let program = Parser::parse(src).unwrap();
    program.lines[0].instruction.clone()
}

#[test]
fn numeral_forms() {
    // decimal with and without '#', hex with and without the leading 0
    for (lit, value) in [
        ("#5", 5u16),
        ("5", 5),
        ("#-1", 0xFFFF),
        ("-1", 0xFFFF),
        ("x1F", 0x1F),
        ("0x1F", 0x1F),
        ("x-10", 0xFFF0),
        ("xFFFF", 0xFFFF),
        ("#65535", 0xFFFF),
        ("#-32768", 0x8000),
    ] {
        let src = format!(".ORIG x3000\n.FILL {}\n.END", lit);
        match first_line_instruction(&src) {
            Instruction::PseudoOp(PseudoOp::Fill(Location::Literal(v))) => {
                assert_eq!(v, value, "literal {}", lit)
            },
            other => panic!("{} parsed as {:?}", lit, other),
        }
    }
}

#[test]
fn numerals_just_outside_the_range_are_rejected() {
    for lit in ["#65536", "#-32769", "x10000"] {
        let src = format!(".ORIG x3000\n.FILL {}\n.END", lit);
        let r = Parser::parse(&src);
        assert!(
            matches!(r, Err(AsmError::NumberTooWide(_))),
            "literal {} gave {:?}",
            lit,
            r
        );
    }
}

#[test]
fn a_huge_numeral_is_no_number() {
    // overflows a signed 64-bit reader: the word is no token at all
    let r = Parser::parse(".ORIG x3000\n.FILL #99999999999999999999\n.END");
    assert_eq!(r, Err(AsmError::ExpectedNumberOrLabel));
}

#[test]
fn labels_are_case_sensitive() {
    // `foo` and `FOO` are different labels
    let r = Parser::parse(".ORIG x3000\nBRnzp foo\nFOO HALT\n.END");
    let program = r.unwrap();
    assert_eq!(program.labels, vec![(b"FOO".to_vec(), 0x3001)]);
    assert_eq!(
        alic3::assembler::assemble(program),
        Err(AsmError::UnresolvedLabel)
    );
}

#[test]
fn a_word_that_outgrows_a_register_is_a_label() {
    // R08 is not a register name; it parses as a label
    let program = Parser::parse(".ORIG x3000\nR08 HALT\n.END").unwrap();
    assert_eq!(program.labels, vec![(b"R08".to_vec(), 0x3000)]);
}

#[test]
fn a_word_that_outgrows_the_br_family_is_a_label() {
    let program = Parser::parse(".ORIG x3000\nbrick HALT\n.END").unwrap();
    assert_eq!(program.labels, vec![(b"brick".to_vec(), 0x3000)]);
}

#[test]
fn plain_br_branches_always() {
    let words =
        alic3::assembler::assemble(Parser::parse(".ORIG x3000\nL BR L\n.END").unwrap()).unwrap();
    assert_eq!(words[1], 0x0FFF); // nzp rewritten to 111, offset -1
}

#[test]
fn unterminated_string_is_rejected() {
    let r = Parser::parse(".ORIG x3000\n.STRINGZ \"oops\n.END");
    assert_eq!(r, Err(AsmError::ExpectedString));
}

#[test]
fn unknown_characters_are_rejected() {
    let r = Parser::parse(".ORIG x3000\n@@@\n.END");
    assert_eq!(r, Err(AsmError::ExpectedInstruction));
}
