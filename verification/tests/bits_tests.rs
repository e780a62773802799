//! Bit utilities and the opcode table.

use alic3::bit_twiddling::{get_bits, sign_extend, sign_extend_word, truncate};
use alic3::errors::AsmError;
use alic3::opcode::Opcode;

#[test]
fn get_bits_windows() {
    assert_eq!(get_bits::<0, 3>(0xABCD), 0xD);
    assert_eq!(get_bits::<4, 7>(0xABCD), 0xC);
    assert_eq!(get_bits::<12, 15>(0xABCD), 0xA);
    assert_eq!(get_bits::<0, 15>(0xABCD), 0xABCD);
    assert_eq!(get_bits::<5, 5>(0x0020), 1);
    assert_eq!(get_bits::<5, 5>(0x0000), 0);
}

#[test]
fn sign_extension() {
    assert_eq!(sign_extend::<5>(0x10), -16);
    assert_eq!(sign_extend::<5>(0x0F), 15);
    assert_eq!(sign_extend::<9>(0x1FF), -1);
    assert_eq!(sign_extend::<9>(0x0FF), 255);
    assert_eq!(sign_extend::<16>(-5), -5);
    assert_eq!(sign_extend_word(0x1FE, 9), 0xFFFE);
    assert_eq!(sign_extend_word(0x002, 9), 0x0002);
}

#[test]
fn truncation_checks_the_signed_range() {
    assert_eq!(truncate::<5>(15), Ok(15));
    assert_eq!(truncate::<5>(0xFFF0), Ok(0x10)); // -16 fits
    assert_eq!(truncate::<5>(16), Err(AsmError::DoesNotFit { value: 16, width: 5 }));
    assert_eq!(
        truncate::<5>(0xFFEF),
        Err(AsmError::DoesNotFit { value: 0xFFEF, width: 5 })
    );
    assert_eq!(truncate::<8>(0x25), Ok(0x25));
    assert_eq!(truncate::<9>(0x1FE), Err(AsmError::DoesNotFit { value: 0x1FE, width: 9 }));
    assert_eq!(truncate::<9>(0xFFFE), Ok(0x1FE));
    assert_eq!(truncate::<16>(0xFFFF), Ok(0xFFFF));
}

#[test]
fn opcode_nibbles_round_trip() {
    let mut i: u8 = 0;
    while i < 16 {
        let op = Opcode::from_int(i);
        assert_eq!(op.to_int(), i as u16);
        i += 1;
    }
    assert_eq!(Opcode::Add.to_int(), 1);
    assert_eq!(Opcode::Reserved.to_int(), 13);
    assert!(Opcode::from_int(15) == Opcode::Trap);
}
