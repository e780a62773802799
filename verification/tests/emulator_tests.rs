//! Running object images on the virtual machine: arithmetic, condition
//! codes, memory-mapped keyboard and display I/O, privilege, traps and
//! subroutine calls.

use alic3::emulator::Cpu;

/// Builds the byte image of an origin followed by words, big-endian.
fn image(origin: u16, words: &[u16]) -> Vec<u8> {
    let mut bytes = Vec::new();
    bytes.push((origin >> 8) as u8);
    bytes.push((origin & 0xFF) as u8);
    for w in words {
        bytes.push((w >> 8) as u8);
        bytes.push((w & 0xFF) as u8);
    }
    bytes
}

#[test]
fn add_then_halt() {
    // ADD R0,R0,#1 ; HALT - after three steps R0 is 1 and the
    // condition codes read positive
    let mut cpu = Cpu::new();
    cpu.load_image(&image(0x3000, &[0x1021, 0xF025]));
    cpu.pc = 0x3000;
    cpu.step();
    cpu.step();
    cpu.step();
    assert_eq!(cpu.register(0), 1);
    assert_eq!(cpu.memory_word(0xFFFC) & 0b111, 0b001);
}

#[test]
fn condition_codes_cover_all_three() {
    let mut cpu = Cpu::new();
    // AND R0,R0,#0 (zero); ADD R1,R0,#-5 (negative); ADD R2,R0,#3 (positive)
    cpu.load_image(&image(0x3000, &[0x5020, 0x123B, 0x1423]));
    cpu.pc = 0x3000;
    cpu.step();
    assert_eq!(cpu.memory_word(0xFFFC) & 0b111, 0b010);
    cpu.step();
    assert_eq!(cpu.register(1), 0xFFFB);
    assert_eq!(cpu.memory_word(0xFFFC) & 0b111, 0b100);
    cpu.step();
    assert_eq!(cpu.register(2), 3);
    assert_eq!(cpu.memory_word(0xFFFC) & 0b111, 0b001);
}

#[test]
fn keyboard_status_data_status() {
    // LDI R0,KBSR ; LDI R1,KBDR ; LDI R2,KBSR with one byte pending
    let mut cpu = Cpu::new();
    cpu.load_image(&image(
        0x3000,
        &[0xA002, 0xA202, 0xA402, 0xFE00, 0xFE02, 0xFE00],
    ));
    cpu.push_input(0x41);
    cpu.pc = 0x3000;
    cpu.step();
    assert_eq!(cpu.register(0), 0x8000);
    cpu.step();
    assert_eq!(cpu.register(1), 0x41);
    cpu.step();
    assert_eq!(cpu.register(2), 0x0000);
}

#[test]
fn display_gets_cr_before_lf() {
    // AND R0,R0,#0 ; ADD R0,R0,#10 ; STI R0,DDR
    let mut cpu = Cpu::new();
    cpu.load_image(&image(0x3000, &[0x5020, 0x102A, 0xB000, 0xFE06]));
    cpu.pc = 0x3000;
    cpu.step();
    cpu.step();
    cpu.step();
    assert_eq!(cpu.take_output(), vec![13, 10]);
    assert_eq!(cpu.take_output(), Vec::<u8>::new());
}

#[test]
fn display_status_always_ready() {
    // LDI R0,DSR
    let mut cpu = Cpu::new();
    cpu.load_image(&image(0x3000, &[0xA000, 0xFE04]));
    cpu.pc = 0x3000;
    cpu.step();
    assert_eq!(cpu.register(0), 0x8000);
}

#[test]
fn user_mode_load_outside_user_space_traps() {
    // PSR gains the user bit, then LDR R0,R1,#0 reads address 0
    let mut cpu = Cpu::new();
    cpu.load_image(&image(0xFFFC, &[0x8000]));
    cpu.load_image(&image(0x3000, &[0x6040]));
    cpu.pc = 0x3000;
    cpu.step();
    // access-control violation: vector 0x02, supervisor entered
    assert_eq!(cpu.pc, 0x0102);
    assert_eq!(cpu.register(0), 0);
    assert_eq!(cpu.register(6), 0x2FFE);
    assert_eq!(cpu.memory_word(0x2FFF), 0x8000); // pushed PSR
    assert_eq!(cpu.memory_word(0x2FFE), 0x3001); // pushed PC
    assert_eq!(cpu.memory_word(0xFFFC) & 0x8000, 0); // user bit cleared
}

#[test]
fn user_mode_store_into_device_space_traps() {
    // ST R0 at a PC-relative address inside the device range
    let mut cpu = Cpu::new();
    cpu.load_image(&image(0xFFFC, &[0x8000]));
    // STR R0,R1,#0 with R1 = 0: address 0 again but via STR
    cpu.load_image(&image(0x3000, &[0x7040]));
    cpu.pc = 0x3000;
    cpu.step();
    assert_eq!(cpu.pc, 0x0102);
}

#[test]
fn rti_in_user_mode_traps() {
    let mut cpu = Cpu::new();
    cpu.load_image(&image(0xFFFC, &[0x8000]));
    cpu.load_image(&image(0x3000, &[0x8000]));
    cpu.pc = 0x3000;
    cpu.step();
    assert_eq!(cpu.pc, 0x0100);
}

#[test]
fn reserved_opcode_traps() {
    let mut cpu = Cpu::new();
    cpu.load_image(&image(0x3000, &[0xD000]));
    cpu.pc = 0x3000;
    cpu.step();
    assert_eq!(cpu.pc, 0x0101);
}

#[test]
fn jsrr_r7_jumps_to_the_old_value() {
    // JSR #1 leaves R7 = 0x3001 and lands at 0x3002, where JSRR R7
    // must jump to 0x3001 - the value before the save - and then leave
    // the return address 0x3003 in R7
    let mut cpu = Cpu::new();
    cpu.load_image(&image(0x3000, &[0x4801, 0x0000, 0x41C0]));
    cpu.pc = 0x3000;
    cpu.step();
    assert_eq!(cpu.pc, 0x3002);
    assert_eq!(cpu.register(7), 0x3001);
    cpu.step();
    assert_eq!(cpu.pc, 0x3001);
    assert_eq!(cpu.register(7), 0x3003);
}

#[test]
fn trap_saves_r7_in_the_second_edition() {
    let mut cpu = Cpu::new();
    cpu.load_image(&image(0x0025, &[0x1234]));
    cpu.load_image(&image(0x3000, &[0xF025]));
    cpu.pc = 0x3000;
    cpu.step();
    assert_eq!(cpu.register(7), 0x3001);
    assert_eq!(cpu.pc, 0x1234);
    // no supervisor entry: nothing pushed, R6 untouched
    assert_eq!(cpu.register(6), 0);
}

#[test]
fn trap_enters_supervisor_mode_by_the_book() {
    let mut cpu = Cpu::new();
    cpu.by_the_book = true;
    cpu.load_image(&image(0x0025, &[0x1234]));
    // LD R6,#1 -> 0x2F00 ; TRAP x25 ; .FILL x2F00
    cpu.load_image(&image(0x3000, &[0x2C01, 0xF025, 0x2F00]));
    cpu.pc = 0x3000;
    cpu.step();
    assert_eq!(cpu.register(6), 0x2F00);
    cpu.step();
    assert_eq!(cpu.pc, 0x1234);
    // R7 is left alone; the old PSR and PC are pushed instead
    assert_eq!(cpu.register(7), 0);
    assert_eq!(cpu.register(6), 0x2EFE);
    assert_eq!(cpu.memory_word(0x2EFE), 0x3002);
}

#[test]
fn lea_sets_condition_codes_only_in_the_second_edition() {
    let mut cpu = Cpu::new();
    cpu.load_image(&image(0x3000, &[0xE002]));
    cpu.pc = 0x3000;
    cpu.step();
    assert_eq!(cpu.register(0), 0x3003);
    assert_eq!(cpu.memory_word(0xFFFC) & 0b111, 0b001);

    let mut third = Cpu::new();
    third.by_the_book = true;
    third.load_image(&image(0x3000, &[0xE002]));
    third.pc = 0x3000;
    third.step();
    assert_eq!(third.register(0), 0x3003);
    assert_eq!(third.memory_word(0xFFFC) & 0b111, 0b000);
}

#[test]
fn rti_restores_pc_and_psr_and_user_stack() {
    let mut cpu = Cpu::new();
    // supervisor stack at 0x2F00 holds PC then PSR (user bit set)
    cpu.load_image(&image(0x2F00, &[0x4242, 0x8001]));
    // point R6 at it by running from a tiny stub: LDR cannot set R6
    // without a base, so load R6 via LD
    cpu.load_image(&image(0x3000, &[0x2C01, 0x8000, 0x2F00]));
    cpu.pc = 0x3000;
    cpu.step(); // LD R6, #1 -> R6 = 0x2F00
    assert_eq!(cpu.register(6), 0x2F00);
    cpu.step(); // RTI
    assert_eq!(cpu.pc, 0x4242);
    assert_eq!(cpu.memory_word(0xFFFC), 0x8001);
    // back to user mode: R6 takes the saved user stack pointer
    assert_eq!(cpu.register(6), 0xFE00);
}

#[test]
fn branches_respect_the_condition_mask() {
    let mut cpu = Cpu::new();
    // AND R0,R0,#0 ; BRp +1 (not taken) ; BRz +1 (taken)
    cpu.load_image(&image(0x3000, &[0x5020, 0x0201, 0x0401]));
    cpu.pc = 0x3000;
    cpu.step();
    cpu.step();
    assert_eq!(cpu.pc, 0x3002); // BRp fell through
    cpu.step();
    assert_eq!(cpu.pc, 0x3004); // BRz taken
}

#[test]
fn interrupts_respect_priority() {
    let mut cpu = Cpu::new();
    cpu.handle_interrupt(0x80, 0);
    assert_eq!(cpu.pc, 0); // level 0 does not beat level 0
    cpu.handle_interrupt(0x80, 3);
    assert_eq!(cpu.pc, 0x0180);
    assert_eq!((cpu.memory_word(0xFFFC) >> 8) & 0b111, 3);
    cpu.handle_interrupt(0x90, 2);
    assert_eq!(cpu.pc, 0x0180); // lower priority is ignored
}

#[test]
fn writes_to_readonly_device_registers_are_ignored() {
    // STI R0 -> KBSR leaves the machine readable and unchanged
    let mut cpu = Cpu::new();
    cpu.load_image(&image(0x3000, &[0x1025, 0xB002, 0xA001, 0x0000, 0xFE00]));
    cpu.pc = 0x3000;
    cpu.step(); // R0 = 5
    cpu.step(); // STI R0 -> KBSR (ignored)
    cpu.step(); // LDI R0 <- KBSR: no input pending
    assert_eq!(cpu.register(0), 0x0000);
}

#[test]
fn halts_when_the_mcr_bit_clears() {
    let mut cpu = Cpu::new();
    assert!(!cpu.should_halt());
    // AND R0,R0,#0 ; STI R0 -> MCR
    cpu.load_image(&image(0x3000, &[0x5020, 0xB000, 0xFFFE]));
    cpu.pc = 0x3000;
    cpu.step();
    cpu.step();
    assert!(cpu.should_halt());
}

#[test]
fn wrapping_addition() {
    let mut cpu = Cpu::new();
    // LD R0, #1 -> 0xFFFF ; ADD R0,R0,#1 wraps to 0 and reads zero
    cpu.load_image(&image(0x3000, &[0x2001, 0x1021, 0xFFFF]));
    cpu.pc = 0x3000;
    cpu.step();
    cpu.step();
    assert_eq!(cpu.register(0), 0);
    assert_eq!(cpu.memory_word(0xFFFC) & 0b111, 0b010);
}

#[test]
fn not_complements() {
    let mut cpu = Cpu::new();
    // LD R1, #1 -> 0x00FF ; NOT R2,R1
    cpu.load_image(&image(0x3000, &[0x2201, 0x947F, 0x00FF]));
    cpu.pc = 0x3000;
    cpu.step();
    cpu.step();
    assert_eq!(cpu.register(2), 0xFF00);
    assert_eq!(cpu.memory_word(0xFFFC) & 0b111, 0b100);
}

#[test]
fn loads_compose_by_overwrite() {
    let mut cpu = Cpu::new();
    cpu.load_image(&image(0x3000, &[1, 2, 3]));
    cpu.load_image(&image(0x3001, &[9]));
    assert_eq!(cpu.memory_word(0x3000), 1);
    assert_eq!(cpu.memory_word(0x3001), 9);
    assert_eq!(cpu.memory_word(0x3002), 3);
}
