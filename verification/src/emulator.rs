//! The LC-3 virtual machine: memory with memory-mapped console I/O, the
//! keyboard input buffer, the CPU register file, the dispatch loop, and
//! exception, trap and privilege handling.
//!
//! The machine is pure state: the host feeds keyboard bytes in through
//! [`Cpu::push_input`] and drains display bytes out through
//! [`Cpu::take_output`], so every transition is a mathematical function
//! of the previous state, given below as `spec` functions.

use vstd::prelude::*;
use vstd::arithmetic::div_mod::lemma_fundamental_div_mod_converse;
use vstd::wrapping::u16_specs;

use crate::bit_twiddling::sign_extend_word;
use crate::opcode::Opcode;
use crate::isa::{imm5_word, imm_mode, jsr_mode, low3, off11_word, off6_word, off9_word, op_of, reg_hi, reg_lo, vec8_of};

verus! {

/// Program status register address.
/// `PSR[15]` is 1 in user mode, 0 in supervisor mode; `PSR[10:8]` is the
/// priority of the running process; `PSR[2:0]` holds the condition codes.
pub const PSR: u16 = 0xFFFC;

/// Machine control register address.  When its top bit is cleared the
/// machine halts.
pub const MCR: u16 = 0xFFFE;

/// Keyboard status register: bit 15 set when a key is buffered.
pub const KBSR: u16 = 0xFE00;

/// Keyboard data register: the low 8 bits hold the last keycode.
pub const KBDR: u16 = 0xFE02;

/// Display status register: reads as 0x8000 (always ready).
pub const DSR: u16 = 0xFE04;

/// Display data register: writing its low byte emits a character.
pub const DDR: u16 = 0xFE06;

/// One word past the last memory address.
pub const MEMORY_SIZE: usize = 0x10000;

// ------------------------------------------------------------------
// Keyboard input buffer
// ------------------------------------------------------------------

/// A buffered non-blocking keyboard reader.  `pending` holds the bytes
/// the host has made available and not yet consumed, oldest first.
pub struct KeyboardIO {
    need_more_input: bool,
    kbsr: bool,
    kbdr: u16,
    pending: Vec<u8>,
}

/// The view of a [`KeyboardIO`].
pub struct KeyboardV {
    pub need_more_input: bool,
    pub kbsr: bool,
    pub kbdr: u16,
    pub pending: Seq<u8>,
}

impl View for KeyboardIO {
    type V = KeyboardV;

    closed spec fn view(&self) -> KeyboardV {
        KeyboardV {
            need_more_input: self.need_more_input,
            kbsr: self.kbsr,
            kbdr: self.kbdr,
            pending: self.pending@,
        }
    }
}

/// One attempted non-blocking read: an available byte is latched into
/// `kbdr` and sets the ready bit; with no byte available the ready bit
/// is cleared and another attempt stays due.
pub open spec fn kb_fill(kb: KeyboardV) -> KeyboardV {
    if kb.pending.len() > 0 {
        KeyboardV {
            need_more_input: false,
            kbsr: true,
            kbdr: kb.pending[0] as u16,
            pending: kb.pending.drop_first(),
        }
    } else {
        KeyboardV { kbsr: false, ..kb }
    }
}

/// The read attempt made lazily by the status and data registers: only
/// when more input is due.
pub open spec fn kb_probe(kb: KeyboardV) -> KeyboardV {
    if kb.need_more_input {
        kb_fill(kb)
    } else {
        kb
    }
}

/// What reading `KBSR` returns and leaves behind: 0x8000 exactly when a
/// key is buffered.
pub open spec fn spec_read_kbsr(kb: KeyboardV) -> (u16, KeyboardV) {
    let k2 = kb_probe(kb);
    (
        if k2.kbsr {
            0x8000u16
        } else {
            0u16
        },
        k2,
    )
}

/// What reading `KBDR` returns and leaves behind: the buffered keycode;
/// the next status read will attempt another byte.
pub open spec fn spec_read_kbdr(kb: KeyboardV) -> (u16, KeyboardV) {
    let k2 = kb_probe(kb);
    (k2.kbdr, KeyboardV { need_more_input: true, ..k2 })
}

impl KeyboardIO {
    /// A fresh buffer: no key latched, first read attempt still due.
    pub fn new() -> (r: KeyboardIO)
        ensures
            r@ == (KeyboardV { need_more_input: true, kbsr: false, kbdr: 0, pending: Seq::empty() }),
    {
        let r = KeyboardIO { need_more_input: true, kbsr: false, kbdr: 0, pending: Vec::new() };
        proof {
            assert(r@.pending =~= Seq::<u8>::empty());
        }
        r
    }

    /// Attempts one non-blocking read from the pending queue.
    fn update_input(&mut self)
        ensures
            final(self)@ == kb_fill(old(self)@),
    {
        if self.pending.len() > 0 {
            let keycode: u8 = self.pending.remove(0);
            self.kbdr = keycode as u16;
            self.kbsr = true;
            self.need_more_input = false;
        } else {
            self.kbsr = false;
        }
    }

    /// Reads the keyboard status register.
    fn read_kbsr(&mut self) -> (r: u16)
        ensures
            (r, final(self)@) == spec_read_kbsr(old(self)@),
    {
        if self.need_more_input {
            self.update_input();
        }
        if self.kbsr {
            0x8000
        } else {
            0x0000
        }
    }

    /// Reads the keyboard data register, consuming the buffered key.
    fn read_kbdr(&mut self) -> (r: u16)
        ensures
            (r, final(self)@) == spec_read_kbdr(old(self)@),
    {
        if self.need_more_input {
            self.update_input();
        }
        self.need_more_input = true;
        self.kbdr
    }
}

// ------------------------------------------------------------------
// Memory and memory-mapped I/O
// ------------------------------------------------------------------

/// The 65536-word memory array with the device registers gated in front
/// of it, plus the display output buffer the host drains.
pub struct Memory {
    cells: Vec<u16>,
    keyboard_io: KeyboardIO,
    output: Vec<u8>,
}

/// The view of a [`Memory`].
pub struct MemoryV {
    pub cells: Seq<u16>,
    pub kb: KeyboardV,
    pub output: Seq<u8>,
}

impl View for Memory {
    type V = MemoryV;

    closed spec fn view(&self) -> MemoryV {
        MemoryV { cells: self.cells@, kb: self.keyboard_io@, output: self.output@ }
    }
}

/// The memory array spans the full 16-bit address space.
pub open spec fn mem_wf(m: MemoryV) -> bool {
    m.cells.len() == MEMORY_SIZE
}

/// What a load returns and what it does to the keyboard buffer: the
/// keyboard registers consult the buffer, the display status register
/// reads as ready, and every other address reads the memory array.
pub open spec fn spec_mem_read(m: MemoryV, addr: u16) -> (u16, KeyboardV) {
    if addr == KBSR {
        spec_read_kbsr(m.kb)
    } else if addr == KBDR {
        spec_read_kbdr(m.kb)
    } else if addr == DSR {
        (0x8000u16, m.kb)
    } else {
        (m.cells[addr as int], m.kb)
    }
}

/// What a store does: writes into status registers are ignored, a write
/// to the display data register emits its low byte (a newline is
/// preceded by a carriage return for the raw-mode terminal), and every
/// other address writes the memory array.
pub open spec fn spec_mem_write(m: MemoryV, addr: u16, value: u16) -> MemoryV {
    if addr == KBSR || addr == KBDR || addr == DSR {
        m
    } else if addr == DDR {
        let b = (value % 0x100) as u8;
        MemoryV {
            output: if b == 10 {
                m.output + seq![13u8, b]
            } else {
                m.output + seq![b]
            },
            ..m
        }
    } else {
        MemoryV { cells: m.cells.update(addr as int, value), ..m }
    }
}

impl Memory {
    /// Loads one word, servicing the memory-mapped device registers.
    fn get(&mut self, addr: u16) -> (v: u16)
        requires
            mem_wf(old(self)@),
        ensures
            (v, final(self)@.kb) == spec_mem_read(old(self)@, addr),
            final(self)@.cells == old(self)@.cells,
            final(self)@.output == old(self)@.output,
    {
        if addr == KBSR {
            self.keyboard_io.read_kbsr()
        } else if addr == KBDR {
            self.keyboard_io.read_kbdr()
        } else if addr == DSR {
            0x8000
        } else {
            self.cells[addr as usize]
        }
    }

    /// Stores one word, servicing the memory-mapped device registers.
    fn set(&mut self, addr: u16, value: u16)
        requires
            mem_wf(old(self)@),
        ensures
            final(self)@ == spec_mem_write(old(self)@, addr, value),
            mem_wf(final(self)@),
    {
        if addr == KBSR || addr == KBDR || addr == DSR {
            // Writes into status and read-only registers are ignored.
        } else if addr == DDR {
            let b: u8 = (value % 0x100) as u8;
            if b == 10 {
                self.output.push(13);
            }
            self.output.push(b);
            proof {
                if (value % 0x100) as u8 == 10 {
                    assert(self@.output =~= old(self)@.output + seq![13u8, (value % 0x100) as u8]);
                } else {
                    assert(self@.output =~= old(self)@.output + seq![(value % 0x100) as u8]);
                }
            }
        } else {
            self.cells[addr as usize] = value;
        }
    }
}

// ------------------------------------------------------------------
// The CPU
// ------------------------------------------------------------------

/// The machine: eight general-purpose registers, memory with its
/// devices, the program counter, and the two saved stack pointers.
/// `by_the_book` selects the third-edition semantics: `TRAP` enters
/// supervisor mode instead of saving `R7`, and `LEA` leaves the
/// condition codes alone.
pub struct Cpu {
    registers: Vec<u16>,
    memory: Memory,
    /// Program counter.
    pub pc: u16,
    saved_usp: u16,
    saved_ssp: u16,
    /// Selects third-edition `TRAP` and `LEA` semantics.
    pub by_the_book: bool,
}

/// The view of a [`Cpu`].
pub struct CpuV {
    pub regs: Seq<u16>,
    pub mem: MemoryV,
    pub pc: u16,
    pub saved_usp: u16,
    pub saved_ssp: u16,
    pub by_the_book: bool,
}

impl View for Cpu {
    type V = CpuV;

    closed spec fn view(&self) -> CpuV {
        CpuV {
            regs: self.registers@,
            mem: self.memory@,
            pc: self.pc,
            saved_usp: self.saved_usp,
            saved_ssp: self.saved_ssp,
            by_the_book: self.by_the_book,
        }
    }
}

/// Eight registers and a full 65536-word memory.
pub open spec fn cpu_wf(c: CpuV) -> bool {
    c.regs.len() == 8 && mem_wf(c.mem)
}

/// The current program status register word.
pub open spec fn psr_of(c: CpuV) -> u16 {
    c.mem.cells[PSR as int]
}

/// Bit 15 of the PSR: the machine is running in user mode.
pub open spec fn user_mode(c: CpuV) -> bool {
    psr_of(c) >= 0x8000
}

/// Bits 8 through 10 of the PSR: the current priority level.
pub open spec fn priority_of(c: CpuV) -> u16 {
    (psr_of(c) / 0x100) % 8
}

/// An address may be touched: always in supervisor mode, and only in
/// the user program space `0x3000 ..= 0xFDFF` in user mode.
pub open spec fn accessible(c: CpuV, addr: u16) -> bool {
    !user_mode(c) || (0x3000 <= addr && addr <= 0xFDFF)
}

/// Addition modulo 2^16.
pub open spec fn wadd(a: u16, b: u16) -> u16 {
    u16_specs::wrapping_add(a, b)
}

/// Subtraction modulo 2^16.
pub open spec fn wsub(a: u16, b: u16) -> u16 {
    u16_specs::wrapping_sub(a, b)
}

/// The state with the keyboard buffer replaced.
pub open spec fn with_kb(c: CpuV, kb: KeyboardV) -> CpuV {
    CpuV { mem: MemoryV { kb, ..c.mem }, ..c }
}

/// One load, threaded through the whole machine state.
pub open spec fn read_c(c: CpuV, addr: u16) -> (u16, CpuV) {
    let (v, kb) = spec_mem_read(c.mem, addr);
    (v, with_kb(c, kb))
}

/// One store, threaded through the whole machine state.
pub open spec fn write_c(c: CpuV, addr: u16, value: u16) -> CpuV {
    CpuV { mem: spec_mem_write(c.mem, addr, value), ..c }
}

/// The state with one register replaced.
pub open spec fn set_reg(c: CpuV, r: int, v: u16) -> CpuV {
    CpuV { regs: c.regs.update(r, v), ..c }
}

/// The condition-code triple denoting the signum of `result`: exactly
/// one of N (0b100), Z (0b010), P (0b001).
pub open spec fn cc_of(result: u16) -> u16 {
    if result >= 0x8000 {
        4
    } else if result == 0 {
        2
    } else {
        1
    }
}

/// The low three PSR bits replaced by the condition codes of `result`.
pub open spec fn spec_set_cc(c: CpuV, result: u16) -> CpuV {
    let psr = psr_of(c);
    write_c(c, PSR, (psr - psr % 8 + cc_of(result)) as u16)
}

/// Entering supervisor mode: the old PSR is remembered; coming from
/// user mode, `R6` is swapped from the user to the system stack pointer
/// and the user-mode bit cleared; then the old PSR and the old PC are
/// pushed (decrement-then-store) onto the supervisor stack.
pub open spec fn spec_enter_supervisor(c: CpuV) -> CpuV {
    let old_psr = psr_of(c);
    let old_pc = c.pc;
    let c1 = if old_psr >= 0x8000 {
        write_c(
            set_reg(CpuV { saved_usp: c.regs[6], ..c }, 6, c.saved_ssp),
            PSR,
            (old_psr - 0x8000) as u16,
        )
    } else {
        c
    };
    let sp1 = wsub(c1.regs[6], 1);
    let c2 = write_c(set_reg(c1, 6, sp1), sp1, old_psr);
    let sp2 = wsub(sp1, 1);
    write_c(set_reg(c2, 6, sp2), sp2, old_pc)
}

/// An exception: enter supervisor mode and jump through the exception
/// vector table at `0x0100`.
pub open spec fn spec_handle_exception(c: CpuV, vector: u8) -> CpuV {
    CpuV { pc: (0x100 + vector) as u16, ..spec_enter_supervisor(c) }
}

/// Bits 8 through 10 of the PSR replaced by `level`.
pub open spec fn spec_set_priority(c: CpuV, level: u16) -> CpuV {
    let psr = psr_of(c);
    write_c(c, PSR, ((psr / 0x800) * 0x800 + level * 0x100 + psr % 0x100) as u16)
}

/// An interrupt at `level`: ignored unless it beats the current
/// priority, else taken like an exception at the new priority.
pub open spec fn spec_handle_interrupt(c: CpuV, vector: u8, level: u16) -> CpuV {
    if level <= priority_of(c) {
        c
    } else {
        spec_set_priority(spec_handle_exception(c, vector), level)
    }
}

/// The branch is taken when the `nzp` mask meets a set condition code.
pub open spec fn br_taken(mask: int, psr: u16) -> bool {
    let cc = psr % 8;
    (mask / 4 == 1 && cc / 4 == 1) || ((mask / 2) % 2 == 1 && (cc / 2) % 2 == 1) || (mask % 2 == 1
        && cc % 2 == 1)
}

/// What one instruction does to the machine, with the PC already
/// advanced past it.  `opn` is the opcode nibble of `w`.
pub open spec fn spec_execute(c: CpuV, opn: u8, w: u16) -> CpuV
    recommends
        cpu_wf(c),
        opn == op_of(w),
{
    if opn == 1 || opn == 5 {
        // ADD / AND
        let src2 = if imm_mode(w) {
            imm5_word(w)
        } else {
            c.regs[low3(w)]
        };
        let result = if opn == 1 {
            wadd(c.regs[reg_lo(w)], src2)
        } else {
            c.regs[reg_lo(w)] & src2
        };
        spec_set_cc(set_reg(c, reg_hi(w), result), result)
    } else if opn == 9 {
        // NOT
        let result = (0xFFFF - c.regs[reg_lo(w)]) as u16;
        spec_set_cc(set_reg(c, reg_hi(w), result), result)
    } else if opn == 14 {
        // LEA; only the second edition updates the condition codes
        let result = wadd(c.pc, off9_word(w));
        if c.by_the_book {
            set_reg(c, reg_hi(w), result)
        } else {
            spec_set_cc(set_reg(c, reg_hi(w), result), result)
        }
    } else if opn == 2 {
        // LD
        let addr = wadd(c.pc, off9_word(w));
        if !accessible(c, addr) {
            spec_handle_exception(c, 0x02)
        } else {
            let (v, c1) = read_c(c, addr);
            spec_set_cc(set_reg(c1, reg_hi(w), v), v)
        }
    } else if opn == 10 {
        // LDI
        let addr = wadd(c.pc, off9_word(w));
        if !accessible(c, addr) {
            spec_handle_exception(c, 0x02)
        } else {
            let (ind, c1) = read_c(c, addr);
            if !accessible(c1, ind) {
                spec_handle_exception(c1, 0x02)
            } else {
                let (v, c2) = read_c(c1, ind);
                spec_set_cc(set_reg(c2, reg_hi(w), v), v)
            }
        }
    } else if opn == 6 {
        // LDR
        let addr = wadd(c.regs[reg_lo(w)], off6_word(w));
        if !accessible(c, addr) {
            spec_handle_exception(c, 0x02)
        } else {
            let (v, c1) = read_c(c, addr);
            spec_set_cc(set_reg(c1, reg_hi(w), v), v)
        }
    } else if opn == 0 {
        // BR
        if br_taken(reg_hi(w), psr_of(c)) {
            CpuV { pc: wadd(c.pc, off9_word(w)), ..c }
        } else {
            c
        }
    } else if opn == 12 {
        // JMP (and RET)
        CpuV { pc: c.regs[reg_lo(w)], ..c }
    } else if opn == 4 {
        // JSR / JSRR: the target is read before R7 is clobbered
        let old_pc = c.pc;
        let c1 = if jsr_mode(w) {
            CpuV { pc: wadd(c.pc, off11_word(w)), ..c }
        } else {
            CpuV { pc: c.regs[reg_lo(w)], ..c }
        };
        set_reg(c1, 7, old_pc)
    } else if opn == 3 || opn == 11 {
        // ST / STI
        let addr = wadd(c.pc, off9_word(w));
        if !accessible(c, addr) {
            spec_handle_exception(c, 0x02)
        } else if opn == 11 {
            let (ind, c1) = read_c(c, addr);
            if !accessible(c1, ind) {
                spec_handle_exception(c1, 0x02)
            } else {
                write_c(c1, ind, c1.regs[reg_hi(w)])
            }
        } else {
            write_c(c, addr, c.regs[reg_hi(w)])
        }
    } else if opn == 7 {
        // STR
        let addr = wadd(c.regs[reg_lo(w)], off6_word(w));
        if !accessible(c, addr) {
            spec_handle_exception(c, 0x02)
        } else {
            write_c(c, addr, c.regs[reg_hi(w)])
        }
    } else if opn == 8 {
        // RTI: pop PC, pop PSR, and return to the user stack if the
        // restored PSR says so
        if user_mode(c) {
            spec_handle_exception(c, 0x00)
        } else {
            let sp = c.regs[6];
            let (new_pc, c1) = read_c(c, sp);
            let sp1 = wadd(sp, 1);
            let (new_psr, c2) = read_c(c1, sp1);
            let sp2 = wadd(sp1, 1);
            let c3 = write_c(CpuV { pc: new_pc, ..set_reg(c2, 6, sp2) }, PSR, new_psr);
            if psr_of(c3) >= 0x8000 {
                CpuV { regs: c3.regs.update(6, c3.saved_usp), saved_ssp: c3.regs[6], ..c3 }
            } else {
                c3
            }
        }
    } else if opn == 13 {
        // reserved opcode: illegal-opcode exception
        spec_handle_exception(c, 0x01)
    } else {
        // TRAP: the second edition saves the PC in R7; the third instead
        // enters supervisor mode.  Both jump through the vector table.
        if c.by_the_book {
            let c1 = spec_enter_supervisor(c);
            let (target, c2) = read_c(c1, vec8_of(w) as u16);
            CpuV { pc: target, ..c2 }
        } else {
            let c1 = set_reg(c, 7, c.pc);
            let (target, c2) = read_c(c1, vec8_of(w) as u16);
            CpuV { pc: target, ..c2 }
        }
    }
}

/// One step of the dispatch loop: fetch (which may touch the keyboard
/// registers), advance the PC, and execute.
pub open spec fn spec_step(c: CpuV) -> CpuV {
    let (w, c1) = read_c(c, c.pc);
    let c2 = CpuV { pc: wadd(c1.pc, 1), ..c1 };
    spec_execute(c2, op_of(w) as u8, w)
}

/// The origin word at the head of an object image.
pub open spec fn image_origin(b: Seq<u8>) -> int {
    b[0] * 0x100 + b[1]
}

/// The big-endian 16-bit words following the origin word of an image.
pub open spec fn image_words(b: Seq<u8>) -> Seq<u16> {
    Seq::new(((b.len() - 2) / 2) as nat, |k: int| (b[2 + 2 * k] * 0x100 + b[3 + 2 * k]) as u16)
}

impl Cpu {
    /// A fresh machine: all registers and memory zero except the
    /// machine-control register, whose halt bit starts set; supervisor
    /// mode; the saved stack pointers one past their stacks' bases
    /// (stacks grow downward, and pushes decrement before storing).
    pub fn new() -> (r: Cpu)
        ensures
            cpu_wf(r@),
            forall|i: int| 0 <= i < 8 ==> r@.regs[i] == 0,
            forall|a: int|
                0 <= a < 0x10000 ==> r@.mem.cells[a] == (if a == MCR as int {
                    0xFFFFu16
                } else {
                    0u16
                }),
            r@.mem.kb == (KeyboardV {
                need_more_input: true,
                kbsr: false,
                kbdr: 0,
                pending: Seq::empty(),
            }),
            r@.mem.output == Seq::<u8>::empty(),
            r@.pc == 0,
            r@.saved_ssp == 0x3000,
            r@.saved_usp == 0xFE00,
            r@.by_the_book == false,
    {
        let mut cells: Vec<u16> = Vec::new();
        while cells.len() < MEMORY_SIZE
            invariant
                cells@.len() <= MEMORY_SIZE,
                forall|a: int| 0 <= a < cells@.len() ==> cells@[a] == 0u16,
            decreases MEMORY_SIZE - cells@.len(),
        {
            cells.push(0);
        }
        // Initialise the MCR so the machine does not halt immediately.
        cells[MCR as usize] = 0xFFFF;
        let mut registers: Vec<u16> = Vec::new();
        let mut k: usize = 0;
        while k < 8
            invariant
                registers@.len() == k,
                k <= 8,
                forall|i: int| 0 <= i < k ==> registers@[i] == 0u16,
            decreases 8 - k,
        {
            registers.push(0);
            k += 1;
        }
        let r = Cpu {
            registers,
            memory: Memory { cells, keyboard_io: KeyboardIO::new(), output: Vec::new() },
            pc: 0,
            saved_ssp: 0x3000,
            saved_usp: 0xFE00,
            by_the_book: false,
        };
        proof {
            assert(r@.mem.output =~= Seq::<u8>::empty());
        }
        r
    }

    /// Hands the machine one keyboard byte; it will be consumed by a
    /// later read of the keyboard registers.
    pub fn push_input(&mut self, byte: u8)
        requires
            cpu_wf(old(self)@),
        ensures
            cpu_wf(final(self)@),
            final(self)@ == (CpuV {
                mem: MemoryV {
                    kb: KeyboardV {
                        pending: old(self)@.mem.kb.pending + seq![byte],
                        ..old(self)@.mem.kb
                    },
                    ..old(self)@.mem
                },
                ..old(self)@
            }),
    {
        self.memory.keyboard_io.pending.push(byte);
        proof {
            assert(self@.mem.kb.pending =~= old(self)@.mem.kb.pending + seq![byte]);
        }
    }

    /// Drains and returns everything the display has emitted so far.
    pub fn take_output(&mut self) -> (r: Vec<u8>)
        requires
            cpu_wf(old(self)@),
        ensures
            cpu_wf(final(self)@),
            r@ == old(self)@.mem.output,
            final(self)@ == (CpuV {
                mem: MemoryV { output: Seq::empty(), ..old(self)@.mem },
                ..old(self)@
            }),
    {
        let mut out: Vec<u8> = Vec::new();
        core::mem::swap(&mut self.memory.output, &mut out);
        proof {
            assert(self@.mem.output =~= Seq::<u8>::empty());
        }
        out
    }

    /// One general-purpose register.
    pub fn register(&self, r: u16) -> (v: u16)
        requires
            cpu_wf(self@),
            r < 8,
        ensures
            v == self@.regs[r as int],
    {
        self.registers[r as usize]
    }

    /// The raw memory word at `addr`, read without waking the devices.
    pub fn memory_word(&self, addr: u16) -> (v: u16)
        requires
            cpu_wf(self@),
        ensures
            v == self@.mem.cells[addr as int],
    {
        self.memory.cells[addr as usize]
    }

    /// Places an object image in memory: a big-endian origin word, then
    /// big-endian words stored from that origin on.  Loads compose by
    /// overwrite, so an OS image and a user image may be loaded in turn.
    pub fn load_image(&mut self, bytes: &Vec<u8>)
        requires
            cpu_wf(old(self)@),
            bytes@.len() >= 2,
            bytes@.len() % 2 == 0,
            image_origin(bytes@) + (bytes@.len() - 2) / 2 <= 0x10000,
        ensures
            cpu_wf(final(self)@),
            forall|a: int|
                0 <= a < 0x10000 ==> final(self)@.mem.cells[a] == (if image_origin(bytes@) <= a
                    < image_origin(bytes@) + (bytes@.len() - 2) / 2 {
                    image_words(bytes@)[a - image_origin(bytes@)]
                } else {
                    old(self)@.mem.cells[a]
                }),
            final(self)@.regs == old(self)@.regs,
            final(self)@.mem.kb == old(self)@.mem.kb,
            final(self)@.mem.output == old(self)@.mem.output,
            final(self)@.pc == old(self)@.pc,
            final(self)@.saved_usp == old(self)@.saved_usp,
            final(self)@.saved_ssp == old(self)@.saved_ssp,
            final(self)@.by_the_book == old(self)@.by_the_book,
    {
        let origin: u16 = ((bytes[0] as u16) * 0x100) + (bytes[1] as u16);
        let n: usize = (bytes.len() - 2) / 2;
        let mut i: usize = 0;
        while i < n
            invariant
                cpu_wf(self@),
                i <= n,
                n == (bytes@.len() - 2) / 2,
                bytes@.len() % 2 == 0,
                bytes@.len() >= 2,
                origin as int == image_origin(bytes@),
                origin + n <= 0x10000,
                forall|a: int|
                    0 <= a < 0x10000 ==> self@.mem.cells[a] == (if origin <= a < origin + i {
                        image_words(bytes@)[a - origin]
                    } else {
                        old(self)@.mem.cells[a]
                    }),
                self@.regs == old(self)@.regs,
                self@.mem.kb == old(self)@.mem.kb,
                self@.mem.output == old(self)@.mem.output,
                self@.pc == old(self)@.pc,
                self@.saved_usp == old(self)@.saved_usp,
                self@.saved_ssp == old(self)@.saved_ssp,
                self@.by_the_book == old(self)@.by_the_book,
            decreases n - i,
        {
            let hi: u8 = bytes[2 + 2 * i];
            let lo: u8 = bytes[3 + 2 * i];
            let w: u16 = (hi as u16) * 0x100 + (lo as u16);
            self.memory.cells[origin as usize + i] = w;
            proof {
                assert(image_words(bytes@)[i as int] == w);
            }
            i += 1;
        }
    }

    /// True when `addr` may be touched under the current privilege:
    /// memory is only protected in user mode, where accesses must stay
    /// inside `0x3000 ..= 0xFDFF`.
    pub fn address_accessible(&self, addr: u16) -> (r: bool)
        requires
            cpu_wf(self@),
        ensures
            r == accessible(self@, addr),
    {
        let psr: u16 = self.memory.cells[PSR as usize];
        if psr < 0x8000 {
            return true;
        }
        addr >= 0x3000 && addr <= 0xFDFF
    }

    /// Switches to supervisor mode, swapping in the system stack pointer
    /// when coming from user mode, and pushes the old PSR and PC.
    pub fn enter_supervisor_mode(&mut self)
        requires
            cpu_wf(old(self)@),
        ensures
            cpu_wf(final(self)@),
            final(self)@ == spec_enter_supervisor(old(self)@),
    {
        let old_psr: u16 = self.memory.get(PSR);
        let old_pc: u16 = self.pc;
        if old_psr >= 0x8000 {
            // Switch from the user stack pointer to the system stack pointer.
            self.saved_usp = self.registers[6];
            self.registers[6] = self.saved_ssp;
            self.memory.set(PSR, old_psr - 0x8000);
        }
        // Push the old PSR, then the old PC.
        let sp1: u16 = u16::wrapping_sub(self.registers[6], 1);
        self.registers[6] = sp1;
        self.memory.set(sp1, old_psr);
        let sp2: u16 = u16::wrapping_sub(sp1, 1);
        self.registers[6] = sp2;
        self.memory.set(sp2, old_pc);
    }

    /// Jumps through the exception vector table at `0x0100`, entering
    /// supervisor mode first.
    pub fn handle_exception(&mut self, exception_vector: u8)
        requires
            cpu_wf(old(self)@),
        ensures
            cpu_wf(final(self)@),
            final(self)@ == spec_handle_exception(old(self)@, exception_vector),
    {
        self.enter_supervisor_mode();
        let exception_addr: u16 = 0x0100 + (exception_vector as u16);
        self.pc = exception_addr;
    }

    /// Takes an interrupt when its priority beats the running one,
    /// raising the priority level; otherwise ignores it.
    pub fn handle_interrupt(&mut self, interrupt_vector: u8, priority_level: u16)
        requires
            cpu_wf(old(self)@),
            priority_level <= 7,
        ensures
            cpu_wf(final(self)@),
            final(self)@ == spec_handle_interrupt(old(self)@, interrupt_vector, priority_level),
    {
        if priority_level <= self.get_priority_level() {
            return;
        }
        self.handle_exception(interrupt_vector);
        self.set_priority_level(priority_level);
    }

    /// Bits 8 through 10 of the PSR.
    pub fn get_priority_level(&self) -> (r: u16)
        requires
            cpu_wf(self@),
        ensures
            r == priority_of(self@),
    {
        (self.memory.cells[PSR as usize] / 0x100) % 8
    }

    /// Replaces bits 8 through 10 of the PSR with `level`.
    pub fn set_priority_level(&mut self, level: u16)
        requires
            cpu_wf(old(self)@),
            level <= 7,
        ensures
            cpu_wf(final(self)@),
            final(self)@ == spec_set_priority(old(self)@, level),
    {
        let psr: u16 = self.memory.get(PSR);
        self.memory.set(PSR, (psr / 0x800) * 0x800 + level * 0x100 + psr % 0x100);
    }

    /// The register named by bits 9 through 11 of `instruction`.
    pub fn get_reg_hi(&self, instruction: u16) -> (v: u16)
        requires
            cpu_wf(self@),
        ensures
            v == self@.regs[reg_hi(instruction)],
    {
        self.registers[((instruction / 0x200) % 8) as usize]
    }

    /// The register named by bits 6 through 8 of `instruction`.
    pub fn get_reg_lo(&self, instruction: u16) -> (v: u16)
        requires
            cpu_wf(self@),
        ensures
            v == self@.regs[reg_lo(instruction)],
    {
        self.registers[((instruction / 0x40) % 8) as usize]
    }

    /// Replaces the low three PSR bits with the condition codes of
    /// `result`.
    fn set_condition_codes(&mut self, result: u16)
        requires
            cpu_wf(old(self)@),
        ensures
            cpu_wf(final(self)@),
            final(self)@ == spec_set_cc(old(self)@, result),
    {
        let psr: u16 = self.memory.get(PSR);
        let cc: u16 = if result >= 0x8000 {
            4
        } else if result == 0 {
            2
        } else {
            1
        };
        self.memory.set(PSR, (psr / 8) * 8 + cc);
    }

    /// Executes one instruction whose opcode nibble is `OP`, with the PC
    /// already advanced past it.
    pub fn execute_instruction<const OP: u8>(&mut self, instruction: u16)
        requires
            OP <= 15,
            cpu_wf(old(self)@),
        ensures
            cpu_wf(final(self)@),
            final(self)@ == spec_execute(old(self)@, OP, instruction),
    {
        let opcode = Opcode::from_int(OP);
        match opcode {
            Opcode::Add | Opcode::And | Opcode::Ld | Opcode::Ldi | Opcode::Ldr | Opcode::Lea
            | Opcode::Not => {
                let result: u16 = match opcode {
                    Opcode::Add | Opcode::And => {
                        let src2: u16 = if (instruction / 0x20) % 2 == 1 {
                            // immediate mode
                            sign_extend_word(instruction, 5)
                        } else {
                            self.registers[(instruction % 8) as usize]
                        };
                        match opcode {
                            Opcode::Add => u16::wrapping_add(self.get_reg_lo(instruction), src2),
                            _ => self.get_reg_lo(instruction) & src2,
                        }
                    },
                    Opcode::Ld | Opcode::Ldi | Opcode::Lea => {
                        let pc_offset: u16 = sign_extend_word(instruction, 9);
                        let addr: u16 = u16::wrapping_add(self.pc, pc_offset);
                        match opcode {
                            // load effective address: just the address
                            Opcode::Lea => addr,
                            // load direct
                            Opcode::Ld => {
                                if !self.address_accessible(addr) {
                                    self.handle_exception(0x02);
                                    return;
                                }
                                self.memory.get(addr)
                            },
                            // load indirect
                            _ => {
                                if !self.address_accessible(addr) {
                                    self.handle_exception(0x02);
                                    return;
                                }
                                let indirect_addr: u16 = self.memory.get(addr);
                                if !self.address_accessible(indirect_addr) {
                                    self.handle_exception(0x02);
                                    return;
                                }
                                self.memory.get(indirect_addr)
                            },
                        }
                    },
                    Opcode::Ldr => {
                        let offset: u16 = sign_extend_word(instruction, 6);
                        let addr: u16 = u16::wrapping_add(self.get_reg_lo(instruction), offset);
                        if !self.address_accessible(addr) {
                            self.handle_exception(0x02);
                            return;
                        }
                        self.memory.get(addr)
                    },
                    _ => 0xFFFF - self.get_reg_lo(instruction),
                };
                let dst: u16 = (instruction / 0x200) % 8;
                self.registers[dst as usize] = result;
                // In the third edition LEA leaves the condition codes alone.
                let lea_no_cc: bool = match opcode {
                    Opcode::Lea => self.by_the_book,
                    _ => false,
                };
                if !lea_no_cc {
                    self.set_condition_codes(result);
                }
            },
            Opcode::Br => {
                let mask: u16 = (instruction / 0x200) % 8;
                let cc: u16 = self.memory.cells[PSR as usize] % 8;
                let taken: bool = (mask / 4 == 1 && cc / 4 == 1) || ((mask / 2) % 2 == 1 && (cc
                    / 2) % 2 == 1) || (mask % 2 == 1 && cc % 2 == 1);
                if taken {
                    let pc_offset: u16 = sign_extend_word(instruction, 9);
                    self.pc = u16::wrapping_add(self.pc, pc_offset);
                }
            },
            Opcode::Jmp => {
                self.pc = self.get_reg_lo(instruction);
            },
            Opcode::Jsr => {
                let old_pc: u16 = self.pc;
                if (instruction / 0x800) % 2 == 1 {
                    // JSR: PC-relative
                    let pc_offset: u16 = sign_extend_word(instruction, 11);
                    self.pc = u16::wrapping_add(self.pc, pc_offset);
                } else {
                    // JSRR: absolute; the target is read before R7 is set
                    self.pc = self.get_reg_lo(instruction);
                }
                self.registers[7] = old_pc;
            },
            Opcode::St | Opcode::Sti => {
                let pc_offset: u16 = sign_extend_word(instruction, 9);
                let addr: u16 = u16::wrapping_add(self.pc, pc_offset);
                if !self.address_accessible(addr) {
                    self.handle_exception(0x02);
                    return;
                }
                match opcode {
                    Opcode::Sti => {
                        // read the destination address from memory
                        let indirect: u16 = self.memory.get(addr);
                        if !self.address_accessible(indirect) {
                            self.handle_exception(0x02);
                            return;
                        }
                        let v: u16 = self.get_reg_hi(instruction);
                        self.memory.set(indirect, v);
                    },
                    _ => {
                        let v: u16 = self.get_reg_hi(instruction);
                        self.memory.set(addr, v);
                    },
                }
            },
            Opcode::Str => {
                let offset: u16 = sign_extend_word(instruction, 6);
                let addr: u16 = u16::wrapping_add(self.get_reg_lo(instruction), offset);
                if !self.address_accessible(addr) {
                    self.handle_exception(0x02);
                    return;
                }
                let v: u16 = self.get_reg_hi(instruction);
                self.memory.set(addr, v);
            },
            Opcode::Rti => {
                if self.memory.cells[PSR as usize] >= 0x8000 {
                    // RTI in user mode: privilege violation
                    self.handle_exception(0x00);
                    return;
                }
                // Pop the PC, then the PSR.
                let sp: u16 = self.registers[6];
                let new_pc: u16 = self.memory.get(sp);
                let sp1: u16 = u16::wrapping_add(sp, 1);
                let new_psr: u16 = self.memory.get(sp1);
                let sp2: u16 = u16::wrapping_add(sp1, 1);
                self.registers[6] = sp2;
                self.pc = new_pc;
                self.memory.set(PSR, new_psr);
                if self.memory.cells[PSR as usize] >= 0x8000 {
                    // back in user mode: swap the stack pointers back
                    self.saved_ssp = self.registers[6];
                    self.registers[6] = self.saved_usp;
                }
            },
            Opcode::Reserved => {
                self.handle_exception(0x01);
            },
            Opcode::Trap => {
                if self.by_the_book {
                    self.enter_supervisor_mode();
                } else {
                    // The second edition sets R7 to the previous PC.
                    self.registers[7] = self.pc;
                }
                // Jump through the trap vector table.
                let target: u16 = self.memory.get(instruction % 0x100);
                self.pc = target;
            },
        }
    }

    /// One step of the dispatch loop: fetch, advance the PC, and branch
    /// on the top nibble to the matching decoder.
    pub fn step(&mut self)
        requires
            cpu_wf(old(self)@),
        ensures
            cpu_wf(final(self)@),
            final(self)@ == spec_step(old(self)@),
    {
        let instruction: u16 = self.memory.get(self.pc);
        self.pc = u16::wrapping_add(self.pc, 1);
        let op: u16 = instruction / 0x1000;
        match op {
            0 => self.execute_instruction::<0>(instruction),
            1 => self.execute_instruction::<1>(instruction),
            2 => self.execute_instruction::<2>(instruction),
            3 => self.execute_instruction::<3>(instruction),
            4 => self.execute_instruction::<4>(instruction),
            5 => self.execute_instruction::<5>(instruction),
            6 => self.execute_instruction::<6>(instruction),
            7 => self.execute_instruction::<7>(instruction),
            8 => self.execute_instruction::<8>(instruction),
            9 => self.execute_instruction::<9>(instruction),
            10 => self.execute_instruction::<10>(instruction),
            11 => self.execute_instruction::<11>(instruction),
            12 => self.execute_instruction::<12>(instruction),
            13 => self.execute_instruction::<13>(instruction),
            14 => self.execute_instruction::<14>(instruction),
            _ => {
                proof {
                    assert(op == 15);
                }
                self.execute_instruction::<15>(instruction)
            },
        }
    }

    /// True when the machine-control register's halt bit is clear.
    pub fn should_halt(&mut self) -> (r: bool)
        requires
            cpu_wf(old(self)@),
        ensures
            cpu_wf(final(self)@),
            final(self)@ == old(self)@,
            r == (old(self)@.mem.cells[MCR as int] < 0x8000),
    {
        let v: u16 = self.memory.get(MCR);
        v < 0x8000
    }
}

// ------------------------------------------------------------------
// Laws of the machine
// ------------------------------------------------------------------

/// Condition codes: after `ADD`, `AND`, `NOT`, `LD`, `LDI` or `LDR`
/// completes without an access violation, the low three PSR bits hold
/// exactly one of N (0b100), Z (0b010), P (0b001), reflecting the signum
/// of the value just written to the destination register.
pub proof fn lemma_condition_codes(c: CpuV, opn: u8, w: u16)
    requires
        cpu_wf(c),
        opn == 1 || opn == 5 || opn == 9 || opn == 2 || opn == 10 || opn == 6,
        opn == 2 || opn == 10 ==> accessible(c, wadd(c.pc, off9_word(w))),
        opn == 10 ==> accessible(c, read_c(c, wadd(c.pc, off9_word(w))).0),
        opn == 6 ==> accessible(c, wadd(c.regs[reg_lo(w)], off6_word(w))),
    ensures
        ({
            let c2 = spec_execute(c, opn, w);
            let cc = psr_of(c2) % 8;
            &&& (cc == 4 || cc == 2 || cc == 1)
            &&& cc == cc_of(c2.regs[reg_hi(w)])
        }),
{
    if opn == 1 || opn == 5 {
        let src2 = if imm_mode(w) {
            imm5_word(w)
        } else {
            c.regs[low3(w)]
        };
        let res = if opn == 1 {
            wadd(c.regs[reg_lo(w)], src2)
        } else {
            c.regs[reg_lo(w)] & src2
        };
        lemma_set_cc_bits(set_reg(c, reg_hi(w), res), res);
    } else if opn == 9 {
        let res = (0xFFFF - c.regs[reg_lo(w)]) as u16;
        lemma_set_cc_bits(set_reg(c, reg_hi(w), res), res);
    } else if opn == 2 {
        let addr = wadd(c.pc, off9_word(w));
        let (v, c1) = read_c(c, addr);
        lemma_set_cc_bits(set_reg(c1, reg_hi(w), v), v);
    } else if opn == 10 {
        let addr = wadd(c.pc, off9_word(w));
        let (ind, c1) = read_c(c, addr);
        let (v, c2) = read_c(c1, ind);
        lemma_set_cc_bits(set_reg(c2, reg_hi(w), v), v);
    } else {
        let addr = wadd(c.regs[reg_lo(w)], off6_word(w));
        let (v, c1) = read_c(c, addr);
        lemma_set_cc_bits(set_reg(c1, reg_hi(w), v), v);
    }
}

/// Replacing the low three PSR bits changes no register and leaves
/// exactly the new condition codes in them.
proof fn lemma_set_cc_bits(cb: CpuV, res: u16)
    requires
        cpu_wf(cb),
    ensures
        psr_of(spec_set_cc(cb, res)) % 8 == cc_of(res),
        spec_set_cc(cb, res).regs == cb.regs,
{
    let psr = psr_of(cb);
    lemma_fundamental_div_mod_converse(
        psr - psr % 8 + cc_of(res),
        8,
        (psr / 8) as int,
        cc_of(res) as int,
    );
}

/// Privilege: in user mode, a load or store whose effective address lies
/// outside the user space (below 0x3000 or at 0xFE00 and above) raises
/// the access-control-violation exception through vector 0x02, leaving
/// every general register except the swapped stack pointer `R6`
/// unchanged.
pub proof fn lemma_privilege_violation(c: CpuV, opn: u8, w: u16)
    requires
        cpu_wf(c),
        user_mode(c),
        opn == 2 || opn == 10 || opn == 3 || opn == 11 || opn == 6 || opn == 7,
        (opn == 2 || opn == 10 || opn == 3 || opn == 11) ==> !(0x3000 <= wadd(
            c.pc,
            off9_word(w),
        ) <= 0xFDFF),
        (opn == 6 || opn == 7) ==> !(0x3000 <= wadd(c.regs[reg_lo(w)], off6_word(w)) <= 0xFDFF),
    ensures
        spec_execute(c, opn, w) == spec_handle_exception(c, 0x02),
        spec_execute(c, opn, w).pc == 0x0102,
        forall|r: int| 0 <= r < 8 && r != 6 ==> spec_execute(c, opn, w).regs[r] == c.regs[r],
{
    lemma_exception_keeps_registers(c, 0x02);
}

/// Privilege, indirect addressing: when the first address of `LDI` or
/// `STI` is accessible but the address fetched through it is not, the
/// access-control-violation exception is raised; only the keyboard
/// buffer (consulted by the fetch) and the exception side-effects
/// change, and every general register except `R6` is unchanged.
pub proof fn lemma_privilege_violation_indirect(c: CpuV, opn: u8, w: u16)
    requires
        cpu_wf(c),
        user_mode(c),
        opn == 10 || opn == 11,
        accessible(c, wadd(c.pc, off9_word(w))),
        !(0x3000 <= read_c(c, wadd(c.pc, off9_word(w))).0 <= 0xFDFF),
    ensures
        spec_execute(c, opn, w) == spec_handle_exception(
            read_c(c, wadd(c.pc, off9_word(w))).1,
            0x02,
        ),
        spec_execute(c, opn, w).pc == 0x0102,
        forall|r: int| 0 <= r < 8 && r != 6 ==> spec_execute(c, opn, w).regs[r] == c.regs[r],
{
    let addr = wadd(c.pc, off9_word(w));
    let c1 = read_c(c, addr).1;
    assert(psr_of(c1) == psr_of(c));
    assert(!accessible(c1, read_c(c, addr).0));
    lemma_exception_keeps_registers(c1, 0x02);
}

/// An exception changes no general register but `R6` (the stack
/// pointer, which moves to the supervisor stack), and lands on
/// `0x0100 | vector`.
pub proof fn lemma_exception_keeps_registers(c: CpuV, vector: u8)
    requires
        cpu_wf(c),
    ensures
        spec_handle_exception(c, vector).pc == 0x100 + vector,
        forall|r: int|
            0 <= r < 8 && r != 6 ==> spec_handle_exception(c, vector).regs[r] == c.regs[r],
{
}

/// `JSR`/`JSRR` ordering: `JSRR R7` jumps to the value `R7` held before
/// the return address was saved into it.
pub proof fn lemma_jsrr_uses_old_r7(c: CpuV, w: u16)
    requires
        cpu_wf(c),
        op_of(w) == 4,
        !jsr_mode(w),
        reg_lo(w) == 7,
    ensures
        spec_execute(c, 4, w).pc == c.regs[7],
        spec_execute(c, 4, w).regs[7] == c.pc,
{
}

} // verus!
