//! The machine cycle: fetch the line at the program counter, advance the
//! counter (or take the branch decided one instruction earlier, which gives
//! every jump a delay slot), then execute the instruction.
use vstd::prelude::*;
use vstd::slice::slice_to_vec;

use crate::bits::{
    lemma_i32_cast, lemma_i64_cast, lemma_mask_shift, lemma_pack_halves, lemma_u32_of_i32,
    signed32, wrap32, wrap64,
};
use crate::instruction::{instruction_parts, opcode, opcode_of, split_instruction, Opcode};
use crate::labels::LabelTable;
use crate::laws::{law_load_delay_slot, law_step_keeps_machine_shape};
use crate::memory::{Memory, MEMORY_SIZE};
use crate::number::{
    immediate_value, offset_cuttable, offset_is_cuttable, offset_operand, parse_imm,
    parse_imm_signed, parse_offset, parse_reg, register_number, signed_immediate_value,
};
use crate::registers::{RegisterState, Registers};
use crate::text::views;

verus! {

/// A condition under which the machine cannot go on at all.
#[derive(Clone, Copy)]
pub enum Fault {
    /// The instruction has fewer operands than it reads.
    MissingOperand,
    /// A register number above 31 was read or written.
    RegisterIndex(usize),
    /// A byte store outside data memory.
    MemoryIndex(usize),
    /// Division by zero.
    DivideByZero,
    /// A memory operand whose parentheses do not cut it on character boundaries.
    OffsetSlice,
}

/// What one machine cycle ended with.
pub enum Event<T> {
    /// The instruction completed; the registers are shown.
    Executed,
    /// A load completed; its register is now in the load-delay slot.
    Loaded,
    /// `add`, `addi` or `sub` overflowed; execution stops.
    Overflow,
    /// A memory operand without both parentheses; execution stops.
    BadOffset,
    /// A misaligned word or halfword access; execution stops.
    Unaligned,
    /// A word, halfword or byte load or store past data memory; execution stops.
    OutOfBounds,
    /// A jump to an unknown label, which is the text. Execution stops.
    LabelNotFound(T),
    /// An unknown mnemonic; execution stops.
    UnknownOpcode(T),
    /// The machine cannot go on; `Machine::fault_ahead` reports this before
    /// the cycle is run.
    Crash(Fault),
}

impl View for Event<Vec<char>> {
    type V = Event<Seq<char>>;

    open spec fn view(&self) -> Event<Seq<char>> {
        match self {
            Event::Executed => Event::Executed,
            Event::Loaded => Event::Loaded,
            Event::Overflow => Event::Overflow,
            Event::BadOffset => Event::BadOffset,
            Event::Unaligned => Event::Unaligned,
            Event::OutOfBounds => Event::OutOfBounds,
            Event::LabelNotFound(t) => Event::LabelNotFound(t@),
            Event::UnknownOpcode(t) => Event::UnknownOpcode(t@),
            Event::Crash(f) => Event::Crash(*f),
        }
    }
}

/// The machine as a value.
#[verifier::ext_equal]
pub struct MachineState {
    pub regs: RegisterState,
    pub mem: Seq<u8>,
    /// Index of the next line to fetch.
    pub pc: usize,
    /// Where a taken branch goes once its delay slot has run.
    pub jmp_pc: usize,
    /// Whether a taken branch waits for its delay slot.
    pub is_jmp: bool,
    /// Whether a load ran since the last completed instruction.
    pub is_delay: bool,
}

impl MachineState {
    pub open spec fn wf(self) -> bool {
        self.regs.wf() && self.mem.len() == MEMORY_SIZE
    }

    /// A register is in the load-delay slot only while a load is pending.
    pub open spec fn delay_tracked(self) -> bool {
        !self.is_delay ==> self.regs.delay_reg == 0
    }
}

/// The result of a machine cycle as a value: the state after it, the number of
/// load-delay hazards it ran into, and how it ended.
pub struct Effect {
    pub state: MachineState,
    pub hazards: nat,
    pub event: Event<Seq<char>>,
}

/// An assembled program as a value: its instruction lines and its labels.
pub struct ProgramText {
    pub lines: Seq<Seq<char>>,
    pub labels: Map<Seq<char>, usize>,
}

/// An assembled program: the instruction lines in order, and the labels with
/// the line index or data address each stands for.
pub struct Program {
    pub lines: Vec<Vec<char>>,
    pub labels: LabelTable,
}

impl View for Program {
    type V = ProgramText;

    open spec fn view(&self) -> ProgramText {
        ProgramText { lines: views(self.lines@), labels: self.labels@ }
    }
}

/// The machine: registers, data memory and control state.
pub struct Machine {
    pub registers: Registers,
    pub memory: Memory,
    pub pc: usize,
    pub jmp_pc: usize,
    pub is_jmp: bool,
    pub is_delay: bool,
}

impl View for Machine {
    type V = MachineState;

    open spec fn view(&self) -> MachineState {
        MachineState {
            regs: self.registers@,
            mem: self.memory@,
            pc: self.pc,
            jmp_pc: self.jmp_pc,
            is_jmp: self.is_jmp,
            is_delay: self.is_delay,
        }
    }
}

/// What a machine cycle reports: the number of load-delay hazards and how the
/// cycle ended.
pub struct StepReport {
    pub hazards: usize,
    pub event: Event<Vec<char>>,
}

/// 1 where an access to register `i` is a load-delay hazard, else 0.
pub open spec fn hz(s: MachineState, i: int) -> nat {
    if s.regs.is_hazard(i) {
        1
    } else {
        0
    }
}

/// The instruction stops with `event`, the state as it was.
pub open spec fn stop(s: MachineState, h: nat, event: Event<Seq<char>>) -> Effect {
    Effect { state: s, hazards: h, event }
}

/// The instruction completed in state `s`.
pub open spec fn done(s: MachineState, h: nat) -> Effect {
    Effect { state: s, hazards: h, event: Event::Executed }
}

pub open spec fn set_reg(s: MachineState, i: int, v: u32) -> MachineState {
    MachineState { regs: s.regs.with_reg(i, v), ..s }
}

pub open spec fn missing_operand() -> Event<Seq<char>> {
    Event::Crash(Fault::MissingOperand)
}

pub open spec fn bad_register(i: usize) -> Event<Seq<char>> {
    Event::Crash(Fault::RegisterIndex(i))
}

/// The immediate operand of an immediate-form arithmetic, logic or shift
/// instruction.
pub open spec fn imm_operand(op: Opcode, field: Seq<char>) -> u32 {
    match op {
        Opcode::Sll | Opcode::Srl | Opcode::Sra => immediate_value(field) & 31,
        Opcode::Addiu | Opcode::Addi | Opcode::Slti => signed_immediate_value(field) as u32,
        _ => immediate_value(field),
    }
}

/// Whether `v` is a value of `i32`.
pub open spec fn fits_i32(v: int) -> bool {
    i32::MIN <= v <= i32::MAX
}

/// The value an arithmetic, logic, shift or compare instruction computes from
/// `a` and `b`; `None` where `add`, `addi` or `sub` overflows as two's
/// complement 32-bit numbers.
pub open spec fn alu_result(op: Opcode, a: u32, b: u32) -> Option<u32> {
    match op {
        Opcode::Ori | Opcode::Or => Some(a | b),
        Opcode::Andi | Opcode::And => Some(a & b),
        Opcode::Xori | Opcode::Xor => Some(a ^ b),
        Opcode::Nor => Some(!(a | b)),
        Opcode::Sll => Some(a << b),
        Opcode::Srl => Some(a >> b),
        Opcode::Sra => Some(((a as i32) >> b) as u32),
        Opcode::Addu | Opcode::Addiu => Some(wrap32(a + b)),
        Opcode::Add | Opcode::Addi => if fits_i32(signed32(a) + signed32(b)) {
            Some(wrap32(a + b))
        } else {
            None
        },
        Opcode::Subu => Some(wrap32(a - b)),
        Opcode::Sub => if fits_i32(signed32(a) - signed32(b)) {
            Some(wrap32(a - b))
        } else {
            None
        },
        Opcode::Slt | Opcode::Slti => Some(
            if signed32(a) < signed32(b) {
                1
            } else {
                0
            },
        ),
        Opcode::Sltu | Opcode::Sltiu => Some(
            if a < b {
                1
            } else {
                0
            },
        ),
        _ => None,
    }
}

pub open spec fn is_alu_imm(op: Opcode) -> bool {
    op is Ori || op is Andi || op is Xori || op is Sll || op is Srl || op is Sra || op is Addiu
        || op is Addi || op is Slti || op is Sltiu
}

pub open spec fn is_alu_reg(op: Opcode) -> bool {
    op is Or || op is And || op is Xor || op is Nor || op is Addu || op is Add || op is Subu
        || op is Sub || op is Slt || op is Sltu
}

pub open spec fn is_shift(op: Opcode) -> bool {
    op is Sll || op is Srl || op is Sra
}

/// Writes the result of `alu_result` to `rd`, having read registers with `h`
/// hazards.
pub open spec fn finish_alu(s: MachineState, h: nat, op: Opcode, a: u32, b: u32, rd: usize) -> Effect {
    match alu_result(op, a, b) {
        None => stop(s, h, Event::Overflow),
        Some(v) => if rd >= 32 {
            stop(s, h + hz(s, rd as int), bad_register(rd))
        } else {
            done(set_reg(s, rd as int, v), h + hz(s, rd as int))
        },
    }
}

/// `op rt, rs, imm`.
pub open spec fn alu_imm_effect(s: MachineState, op: Opcode, f: Seq<Seq<char>>) -> Effect {
    if f.len() < 3 {
        stop(s, 0, missing_operand())
    } else {
        let rt = register_number(f[0]);
        let rs = register_number(f[1]);
        let imm = imm_operand(op, f[2]);
        if rs >= 32 {
            stop(s, hz(s, rs as int), bad_register(rs))
        } else {
            finish_alu(s, hz(s, rs as int), op, s.regs.at(rs as int), imm, rt)
        }
    }
}

/// `op rd, rs, rt`.
pub open spec fn alu_reg_effect(s: MachineState, op: Opcode, f: Seq<Seq<char>>) -> Effect {
    if f.len() < 3 {
        stop(s, 0, missing_operand())
    } else {
        let rd = register_number(f[0]);
        let rs = register_number(f[1]);
        let rt = register_number(f[2]);
        let h1 = hz(s, rs as int);
        let h2 = h1 + hz(s, rt as int);
        if rs >= 32 {
            stop(s, h1, bad_register(rs))
        } else if rt >= 32 {
            stop(s, h2, bad_register(rt))
        } else {
            finish_alu(s, h2, op, s.regs.at(rs as int), s.regs.at(rt as int), rd)
        }
    }
}

pub open spec fn abs(x: int) -> int {
    if x < 0 {
        -x
    } else {
        x
    }
}

/// Quotient rounded toward zero.
pub open spec fn trunc_div(x: int, y: int) -> int {
    let q = abs(x) / abs(y);
    if (x < 0) != (y < 0) {
        -q
    } else {
        q
    }
}

/// Remainder of the quotient rounded toward zero; it has the sign of `x`.
pub open spec fn trunc_rem(x: int, y: int) -> int {
    let r = abs(x) % abs(y);
    if x < 0 {
        -r
    } else {
        r
    }
}

/// HI/LO after `mult`, `multu`, `div` or `divu` of `a` by `b` (`b` not 0 for
/// a division). A division leaves the remainder in HI and the quotient in
/// LO, each as a 32-bit two's complement number.
pub open spec fn hilo_result(op: Opcode, a: u32, b: u32) -> u64 {
    match op {
        Opcode::Mult => wrap64(signed32(a) * signed32(b)),
        Opcode::Multu => (a * b) as u64,
        Opcode::Div => (wrap32(trunc_rem(signed32(a), signed32(b))) as int * 0x1_0000_0000
            + wrap32(trunc_div(signed32(a), signed32(b))) as int) as u64,
        _ => ((a % b) * 0x1_0000_0000 + a / b) as u64,
    }
}

/// `op rs, rt` for `mult`, `multu`, `div`, `divu`.
pub open spec fn muldiv_effect(s: MachineState, op: Opcode, f: Seq<Seq<char>>) -> Effect {
    if f.len() < 2 {
        stop(s, 0, missing_operand())
    } else {
        let rs = register_number(f[0]);
        let rt = register_number(f[1]);
        let h1 = hz(s, rs as int);
        let h2 = h1 + hz(s, rt as int);
        if rs >= 32 {
            stop(s, h1, bad_register(rs))
        } else if rt >= 32 {
            stop(s, h2, bad_register(rt))
        } else if (op is Div || op is Divu) && s.regs.at(rt as int) == 0 {
            stop(s, h2, Event::Crash(Fault::DivideByZero))
        } else {
            done(
                MachineState {
                    regs: RegisterState {
                        hilo: hilo_result(op, s.regs.at(rs as int), s.regs.at(rt as int)),
                        ..s.regs
                    },
                    ..s
                },
                h2,
            )
        }
    }
}

/// `mfhi rd` or `mflo rd`.
pub open spec fn move_from_effect(s: MachineState, op: Opcode, f: Seq<Seq<char>>) -> Effect {
    if f.len() < 1 {
        stop(s, 0, missing_operand())
    } else {
        let rd = register_number(f[0]);
        let v = if op is Mfhi {
            s.regs.hi()
        } else {
            s.regs.lo()
        };
        if rd >= 32 {
            stop(s, hz(s, rd as int), bad_register(rd))
        } else {
            done(set_reg(s, rd as int, v), hz(s, rd as int))
        }
    }
}

/// `lui rt, imm`: the immediate in the upper 16 bits.
pub open spec fn lui_effect(s: MachineState, f: Seq<Seq<char>>) -> Effect {
    if f.len() < 2 {
        stop(s, 0, missing_operand())
    } else {
        let rt = register_number(f[0]);
        let v = immediate_value(f[1]) << 16u32;
        if rt >= 32 {
            stop(s, hz(s, rt as int), bad_register(rt))
        } else {
            done(set_reg(s, rt as int, v), hz(s, rt as int))
        }
    }
}

pub open spec fn is_load(op: Opcode) -> bool {
    op is Lw || op is Lh || op is Lhu || op is Lb || op is Lbu
}

pub open spec fn is_store(op: Opcode) -> bool {
    op is Sw || op is Sh || op is Sb
}

/// Bytes a memory instruction moves.
pub open spec fn access_width(op: Opcode) -> int {
    match op {
        Opcode::Lw | Opcode::Sw => 4,
        Opcode::Lh | Opcode::Lhu | Opcode::Sh => 2,
        _ => 1,
    }
}

/// Base register value plus offset, modulo 2^32.
pub open spec fn effective_address(base: u32, offset: i32) -> int {
    (base as int + offset as int) % 0x1_0000_0000
}

/// The little-endian 16-bit number at `a`.
pub open spec fn half_at(mem: Seq<u8>, a: int) -> int {
    mem[a] + mem[a + 1] * 0x100
}

/// The little-endian 32-bit number at `a`.
pub open spec fn word_at(mem: Seq<u8>, a: int) -> int {
    mem[a] + mem[a + 1] * 0x100 + mem[a + 2] * 0x1_0000 + mem[a + 3] * 0x100_0000
}

/// What a load puts in its register: halfwords and bytes sign-extended by
/// `lh` and `lb`, zero-extended by `lhu` and `lbu`.
pub open spec fn load_value(op: Opcode, mem: Seq<u8>, a: int) -> u32 {
    match op {
        Opcode::Lw => word_at(mem, a) as u32,
        Opcode::Lh => if half_at(mem, a) < 0x8000 {
            half_at(mem, a) as u32
        } else {
            (half_at(mem, a) + 0xffff_0000) as u32
        },
        Opcode::Lhu => half_at(mem, a) as u32,
        Opcode::Lb => if mem[a] < 0x80 {
            mem[a] as u32
        } else {
            (mem[a] + 0xffff_ff00) as u32
        },
        _ => mem[a] as u32,
    }
}

/// Memory after a store of the low `access_width(op)` bytes of `v` at `a`,
/// least significant first.
pub open spec fn store_bytes(op: Opcode, mem: Seq<u8>, a: int, v: u32) -> Seq<u8> {
    let m1 = mem.update(a, (v % 0x100) as u8);
    match op {
        Opcode::Sw => m1.update(a + 1, ((v / 0x100) % 0x100) as u8).update(
            a + 2,
            ((v / 0x1_0000) % 0x100) as u8,
        ).update(a + 3, (v / 0x100_0000) as u8),
        Opcode::Sh => m1.update(a + 1, ((v / 0x100) % 0x100) as u8),
        _ => m1,
    }
}

/// The state after a load of `v` into `rt`: `rt` waits in the load-delay slot.
pub open spec fn loaded(s: MachineState, rt: usize, v: u32) -> MachineState {
    MachineState {
        regs: RegisterState {
            delay_reg: if rt > 0 {
                rt
            } else {
                s.regs.delay_reg
            },
            ..s.regs.with_reg(rt as int, v)
        },
        is_delay: true,
        ..s
    }
}

/// A load or store `op rt, offset(base)`. Word and halfword accesses must be
/// aligned; loads and word and halfword stores must lie in data memory.
pub open spec fn memory_effect(s: MachineState, op: Opcode, f: Seq<Seq<char>>) -> Effect {
    if f.len() < 2 {
        stop(s, 0, missing_operand())
    } else if !offset_cuttable(f[1]) {
        stop(s, 0, Event::Crash(Fault::OffsetSlice))
    } else {
        let rt = register_number(f[0]);
        match offset_operand(f[1]) {
            None => stop(s, 0, Event::BadOffset),
            Some((off, base)) => {
                let h1 = hz(s, base as int);
                let h2 = h1 + hz(s, rt as int);
                if base >= 32 {
                    stop(s, h1, bad_register(base))
                } else {
                    let a = effective_address(s.regs.at(base as int), off);
                    if a % access_width(op) != 0 {
                        stop(s, h1, Event::Unaligned)
                    } else if !(op is Sb) && a + access_width(op) - 1 >= MEMORY_SIZE {
                        stop(s, h1, Event::OutOfBounds)
                    } else if rt >= 32 {
                        stop(s, h2, bad_register(rt))
                    } else if is_load(op) {
                        Effect { state: loaded(s, rt, load_value(op, s.mem, a)), hazards: h2, event: Event::Loaded }
                    } else if a >= MEMORY_SIZE {
                        stop(s, h2, Event::Crash(Fault::MemoryIndex(a as usize)))
                    } else {
                        done(
                            MachineState { mem: store_bytes(op, s.mem, a, s.regs.at(rt as int)), ..s },
                            h2,
                        )
                    }
                }
            },
        }
    }
}

/// The state with a taken branch to `t` waiting for its delay slot.
pub open spec fn jump_to(s: MachineState, t: usize) -> MachineState {
    MachineState { is_jmp: true, jmp_pc: t, ..s }
}

/// A taken branch to the label in operand `k`.
pub open spec fn take_branch(
    s: MachineState,
    h: nat,
    f: Seq<Seq<char>>,
    k: int,
    labels: Map<Seq<char>, usize>,
) -> Effect {
    if f.len() <= k {
        stop(s, h, missing_operand())
    } else if labels.contains_key(f[k]) {
        done(jump_to(s, labels[f[k]]), h)
    } else {
        stop(s, h, Event::LabelNotFound(f[k]))
    }
}

/// `j label`.
pub open spec fn jump_effect(s: MachineState, f: Seq<Seq<char>>, labels: Map<Seq<char>, usize>) -> Effect {
    take_branch(s, 0, f, 0, labels)
}

/// `beq rs, rt, label` or `bne rs, rt, label`.
pub open spec fn branch_effect(
    s: MachineState,
    op: Opcode,
    f: Seq<Seq<char>>,
    labels: Map<Seq<char>, usize>,
) -> Effect {
    if f.len() < 2 {
        stop(s, 0, missing_operand())
    } else {
        let rs = register_number(f[0]);
        let rt = register_number(f[1]);
        let h1 = hz(s, rs as int);
        let h2 = h1 + hz(s, rt as int);
        if rs >= 32 {
            stop(s, h1, bad_register(rs))
        } else if rt >= 32 {
            stop(s, h2, bad_register(rt))
        } else if (s.regs.at(rs as int) == s.regs.at(rt as int)) == (op is Beq) {
            take_branch(s, h2, f, 2, labels)
        } else {
            done(s, h2)
        }
    }
}

/// `bltz rs, label` or `bgez rs, label`, on the register as a signed number.
pub open spec fn branch_zero_effect(
    s: MachineState,
    op: Opcode,
    f: Seq<Seq<char>>,
    labels: Map<Seq<char>, usize>,
) -> Effect {
    if f.len() < 1 {
        stop(s, 0, missing_operand())
    } else {
        let rs = register_number(f[0]);
        let h1 = hz(s, rs as int);
        if rs >= 32 {
            stop(s, h1, bad_register(rs))
        } else if (signed32(s.regs.at(rs as int)) < 0) == (op is Bltz) {
            take_branch(s, h1, f, 1, labels)
        } else {
            done(s, h1)
        }
    }
}

/// Executing `op` with operands `f`.
pub open spec fn execute_effect(
    s: MachineState,
    op: Opcode,
    f: Seq<Seq<char>>,
    labels: Map<Seq<char>, usize>,
) -> Effect {
    if is_alu_imm(op) {
        alu_imm_effect(s, op, f)
    } else if is_alu_reg(op) {
        alu_reg_effect(s, op, f)
    } else if op is Mult || op is Multu || op is Div || op is Divu {
        muldiv_effect(s, op, f)
    } else if op is Mfhi || op is Mflo {
        move_from_effect(s, op, f)
    } else if op is Lui {
        lui_effect(s, f)
    } else if is_load(op) || is_store(op) {
        memory_effect(s, op, f)
    } else if op is J {
        jump_effect(s, f, labels)
    } else if op is Beq || op is Bne {
        branch_effect(s, op, f, labels)
    } else {
        branch_zero_effect(s, op, f, labels)
    }
}

/// The counter moves on: to the waiting branch target, else to the next line.
pub open spec fn advance(m: MachineState) -> MachineState {
    if m.is_jmp {
        MachineState { is_jmp: false, pc: m.jmp_pc, ..m }
    } else {
        MachineState { pc: (m.pc + 1) as usize, ..m }
    }
}

/// A completed instruction ends the load-delay slot a load opened.
pub open spec fn settle(e: Effect) -> Effect {
    if e.event is Executed && e.state.is_delay {
        Effect {
            state: MachineState {
                regs: RegisterState { delay_reg: 0, ..e.state.regs },
                is_delay: false,
                ..e.state
            },
            ..e
        }
    } else {
        e
    }
}

/// One machine cycle on the line at the program counter.
pub open spec fn step_effect(m: MachineState, p: ProgramText) -> Effect {
    let (mnemonic, f) = instruction_parts(p.lines[m.pc as int]);
    let s = advance(m);
    settle(
        match opcode_of(mnemonic) {
            Some(op) => execute_effect(s, op, f, p.labels),
            None => stop(s, 0, Event::UnknownOpcode(mnemonic)),
        },
    )
}

/// Whether the machine ended in `m` with report `hazards`/`event` as `e` says.
pub open spec fn produced(m: MachineState, hazards: usize, event: Event<Seq<char>>, e: Effect) -> bool {
    m == e.state && hazards as nat == e.hazards && event == e.event
}

/// `a + b` modulo 2^32.
fn add_wrapping(a: u32, b: u32) -> (r: u32)
    ensures
        r == wrap32(a + b),
{
    if a > 0xffff_ffff - b {
        a - (0xffff_ffff - b) - 1
    } else {
        a + b
    }
}

/// `a - b` modulo 2^32.
fn sub_wrapping(a: u32, b: u32) -> (r: u32)
    ensures
        r == wrap32(a - b),
{
    if a >= b {
        a - b
    } else {
        (0xffff_ffff - b) + a + 1
    }
}

/// The value `alu_result` gives.
fn alu_value(op: Opcode, a: u32, b: u32) -> (r: Option<u32>)
    requires
        is_alu_imm(op) || is_alu_reg(op),
        is_shift(op) ==> b < 32,
    ensures
        r == alu_result(op, a, b),
{
    match op {
        Opcode::Ori | Opcode::Or => Some(a | b),
        Opcode::Andi | Opcode::And => Some(a & b),
        Opcode::Xori | Opcode::Xor => Some(a ^ b),
        Opcode::Nor => Some(!(a | b)),
        Opcode::Sll => Some(a << b),
        Opcode::Srl => Some(a >> b),
        Opcode::Sra => Some(((a as i32) >> b) as u32),
        Opcode::Addu | Opcode::Addiu => Some(add_wrapping(a, b)),
        Opcode::Add | Opcode::Addi => {
            proof {
                lemma_i32_cast(a);
                lemma_i32_cast(b);
            }
            let sum = (a as i32) as i64 + (b as i32) as i64;
            if sum < i32::MIN as i64 || sum > i32::MAX as i64 {
                None
            } else {
                Some(add_wrapping(a, b))
            }
        },
        Opcode::Subu => Some(sub_wrapping(a, b)),
        Opcode::Sub => {
            proof {
                lemma_i32_cast(a);
                lemma_i32_cast(b);
            }
            let difference = (a as i32) as i64 - (b as i32) as i64;
            if difference < i32::MIN as i64 || difference > i32::MAX as i64 {
                None
            } else {
                Some(sub_wrapping(a, b))
            }
        },
        Opcode::Slt | Opcode::Slti => {
            proof {
                lemma_i32_cast(a);
                lemma_i32_cast(b);
            }
            Some(
                if (a as i32) < (b as i32) {
                    1
                } else {
                    0
                },
            )
        },
        _ => Some(
            if a < b {
                1
            } else {
                0
            },
        ),
    }
}

/// HI/LO as `hilo_result` gives it.
fn hilo_value(op: Opcode, a: u32, b: u32) -> (r: u64)
    requires
        op is Mult || op is Multu || op is Div || op is Divu,
        (op is Div || op is Divu) ==> b != 0,
    ensures
        r == hilo_result(op, a, b),
{
    match op {
        Opcode::Mult => {
            let x = (a as i32) as i64;
            let y = (b as i32) as i64;
            proof {
                lemma_i32_cast(a);
                lemma_i32_cast(b);
                assert(-0x4000_0000_0000_0000 <= x * y <= 0x4000_0000_0000_0000) by (nonlinear_arith)
                    requires
                        -0x8000_0000 <= x <= 0x8000_0000,
                        -0x8000_0000 <= y <= 0x8000_0000,
                ;
            }
            let p = x * y;
            proof {
                lemma_i64_cast(p);
            }
            p as u64
        },
        Opcode::Multu => {
            let x = a as u64;
            let y = b as u64;
            proof {
                assert(x * y <= 0xffff_ffff * 0xffff_ffff) by (nonlinear_arith)
                    requires
                        x <= 0xffff_ffff,
                        y <= 0xffff_ffff,
                ;
            }
            x * y
        },
        Opcode::Div => {
            let x = (a as i32) as i64;
            let y = (b as i32) as i64;
            proof {
                lemma_i32_cast(a);
                lemma_i32_cast(b);
            }
            let ax: u64 = if x < 0 {
                (0 - x) as u64
            } else {
                x as u64
            };
            let ay: u64 = if y < 0 {
                (0 - y) as u64
            } else {
                y as u64
            };
            let qm = ax / ay;
            let rm = ax % ay;
            proof {
                assert(qm <= ax) by (nonlinear_arith)
                    requires
                        ay >= 1,
                        qm == ax / ay,
                ;
            }
            let q: i64 = if (x < 0) != (y < 0) {
                0 - (qm as i64)
            } else {
                qm as i64
            };
            let r: i64 = if x < 0 {
                0 - (rm as i64)
            } else {
                rm as i64
            };
            let qw: u64 = if q < 0 {
                (q + 0x1_0000_0000) as u64
            } else {
                q as u64
            };
            let rw: u64 = if r < 0 {
                (r + 0x1_0000_0000) as u64
            } else {
                r as u64
            };
            rw * 0x1_0000_0000 + qw
        },
        _ => {
            let q = (a / b) as u64;
            let r = (a % b) as u64;
            proof {
                lemma_pack_halves(r, q);
            }
            (r << 32) | q
        },
    }
}

impl Machine {
    /// A machine with zero registers, the given data memory, and the counter
    /// at the first line.
    pub fn new(memory: Memory) -> (r: Self)
        ensures
            r@.regs.wf(),
            forall|i: int| 0 <= i < 32 ==> r@.regs.at(i) == 0,
            r@.regs.hilo == 0,
            r@.regs.delay_reg == 0,
            r@.mem == memory@,
            r@.pc == 0,
            r@.jmp_pc == 0,
            !r@.is_jmp,
            !r@.is_delay,
            r@.wf(),
            r@.delay_tracked(),
    {
        proof {
            Memory::lemma_len(&memory);
        }
        Machine {
            registers: Registers::new(),
            memory,
            pc: 0,
            jmp_pc: 0,
            is_jmp: false,
            is_delay: false,
        }
    }

    /// 1 where an access to register `i` now is a load-delay hazard.
    fn hazard(&self, i: usize) -> (r: usize)
        ensures
            r == hz(self@, i as int),
    {
        if self.registers.is_delay_hazard(i) {
            1
        } else {
            0
        }
    }

    fn finish_alu(&mut self, h: usize, op: Opcode, a: u32, b: u32, rd: usize) -> (r: (
        usize,
        Event<Vec<char>>,
    ))
        requires
            h <= 2,
            is_alu_imm(op) || is_alu_reg(op),
            is_shift(op) ==> b < 32,
        ensures
            produced(final(self)@, r.0, r.1@, finish_alu(old(self)@, h as nat, op, a, b, rd)),
    {
        match alu_value(op, a, b) {
            None => (h, Event::Overflow),
            Some(v) => {
                let h2 = h + self.hazard(rd);
                if rd >= 32 {
                    (h2, Event::Crash(Fault::RegisterIndex(rd)))
                } else {
                    self.registers.set(rd, v);
                    (h2, Event::Executed)
                }
            },
        }
    }

    fn exec_alu_imm(&mut self, op: Opcode, fields: &Vec<Vec<char>>) -> (r: (
        usize,
        Event<Vec<char>>,
    ))
        requires
            is_alu_imm(op),
        ensures
            produced(final(self)@, r.0, r.1@, alu_imm_effect(old(self)@, op, views(fields@))),
    {
        if fields.len() < 3 {
            return (0, Event::Crash(Fault::MissingOperand));
        }
        let rt = parse_reg(fields[0].as_slice());
        let rs = parse_reg(fields[1].as_slice());
        let imm = match op {
            Opcode::Sll | Opcode::Srl | Opcode::Sra => {
                let v = parse_imm(fields[2].as_slice());
                proof {
                    lemma_mask_shift(v);
                }
                v & 31
            },
            Opcode::Addiu | Opcode::Addi | Opcode::Slti => parse_imm_signed(fields[2].as_slice()) as u32,
            _ => parse_imm(fields[2].as_slice()),
        };
        let h1 = self.hazard(rs);
        if rs >= 32 {
            return (h1, Event::Crash(Fault::RegisterIndex(rs)));
        }
        let a = self.registers.get(rs);
        self.finish_alu(h1, op, a, imm, rt)
    }

    fn exec_alu_reg(&mut self, op: Opcode, fields: &Vec<Vec<char>>) -> (r: (
        usize,
        Event<Vec<char>>,
    ))
        requires
            is_alu_reg(op),
        ensures
            produced(final(self)@, r.0, r.1@, alu_reg_effect(old(self)@, op, views(fields@))),
    {
        if fields.len() < 3 {
            return (0, Event::Crash(Fault::MissingOperand));
        }
        let rd = parse_reg(fields[0].as_slice());
        let rs = parse_reg(fields[1].as_slice());
        let rt = parse_reg(fields[2].as_slice());
        let h1 = self.hazard(rs);
        let h2 = h1 + self.hazard(rt);
        if rs >= 32 {
            return (h1, Event::Crash(Fault::RegisterIndex(rs)));
        }
        if rt >= 32 {
            return (h2, Event::Crash(Fault::RegisterIndex(rt)));
        }
        let a = self.registers.get(rs);
        let b = self.registers.get(rt);
        self.finish_alu(h2, op, a, b, rd)
    }

    fn exec_muldiv(&mut self, op: Opcode, fields: &Vec<Vec<char>>) -> (r: (
        usize,
        Event<Vec<char>>,
    ))
        requires
            op is Mult || op is Multu || op is Div || op is Divu,
        ensures
            produced(final(self)@, r.0, r.1@, muldiv_effect(old(self)@, op, views(fields@))),
    {
        if fields.len() < 2 {
            return (0, Event::Crash(Fault::MissingOperand));
        }
        let rs = parse_reg(fields[0].as_slice());
        let rt = parse_reg(fields[1].as_slice());
        let h1 = self.hazard(rs);
        let h2 = h1 + self.hazard(rt);
        if rs >= 32 {
            return (h1, Event::Crash(Fault::RegisterIndex(rs)));
        }
        if rt >= 32 {
            return (h2, Event::Crash(Fault::RegisterIndex(rt)));
        }
        let a = self.registers.get(rs);
        let b = self.registers.get(rt);
        let is_division = match op {
            Opcode::Div | Opcode::Divu => true,
            _ => false,
        };
        if is_division && b == 0 {
            return (h2, Event::Crash(Fault::DivideByZero));
        }
        let v = hilo_value(op, a, b);
        self.registers.set_hilo(v);
        (h2, Event::Executed)
    }

    fn exec_move_from(&mut self, op: Opcode, fields: &Vec<Vec<char>>) -> (r: (
        usize,
        Event<Vec<char>>,
    ))
        requires
            op is Mfhi || op is Mflo,
        ensures
            produced(final(self)@, r.0, r.1@, move_from_effect(old(self)@, op, views(fields@))),
    {
        if fields.len() < 1 {
            return (0, Event::Crash(Fault::MissingOperand));
        }
        let rd = parse_reg(fields[0].as_slice());
        let v = match op {
            Opcode::Mfhi => self.registers.get_hi(),
            _ => self.registers.get_lo(),
        };
        let h = self.hazard(rd);
        if rd >= 32 {
            return (h, Event::Crash(Fault::RegisterIndex(rd)));
        }
        self.registers.set(rd, v);
        (h, Event::Executed)
    }

    fn exec_lui(&mut self, fields: &Vec<Vec<char>>) -> (r: (usize, Event<Vec<char>>))
        ensures
            produced(final(self)@, r.0, r.1@, lui_effect(old(self)@, views(fields@))),
    {
        if fields.len() < 2 {
            return (0, Event::Crash(Fault::MissingOperand));
        }
        let rt = parse_reg(fields[0].as_slice());
        let v = parse_imm(fields[1].as_slice()) << 16;
        let h = self.hazard(rt);
        if rt >= 32 {
            return (h, Event::Crash(Fault::RegisterIndex(rt)));
        }
        self.registers.set(rt, v);
        (h, Event::Executed)
    }

    /// The value `load_value` gives.
    fn load(&self, op: Opcode, a: usize) -> (r: u32)
        requires
            is_load(op),
            a + access_width(op) <= MEMORY_SIZE,
        ensures
            r == load_value(op, self@.mem, a as int),
    {
        match op {
            Opcode::Lw => {
                let b0 = self.memory.get(a) as u32;
                let b1 = self.memory.get(a + 1) as u32;
                let b2 = self.memory.get(a + 2) as u32;
                let b3 = self.memory.get(a + 3) as u32;
                b0 + b1 * 0x100 + b2 * 0x1_0000 + b3 * 0x100_0000
            },
            Opcode::Lh | Opcode::Lhu => {
                let b0 = self.memory.get(a) as u32;
                let b1 = self.memory.get(a + 1) as u32;
                let h = b0 + b1 * 0x100;
                match op {
                    Opcode::Lh => if h < 0x8000 {
                        h
                    } else {
                        h + 0xffff_0000
                    },
                    _ => h,
                }
            },
            Opcode::Lb => {
                let b = self.memory.get(a) as u32;
                if b < 0x80 {
                    b
                } else {
                    b + 0xffff_ff00
                }
            },
            _ => self.memory.get(a) as u32,
        }
    }

    /// Stores the low bytes of `v` at `a` as `store_bytes` says.
    fn store(&mut self, op: Opcode, a: usize, v: u32)
        requires
            is_store(op),
            a + access_width(op) <= MEMORY_SIZE,
        ensures
            final(self)@ == (MachineState { mem: store_bytes(op, old(self)@.mem, a as int, v), ..old(self)@ }),
    {
        self.memory.set(a, (v % 0x100) as u8);
        match op {
            Opcode::Sw => {
                self.memory.set(a + 1, ((v / 0x100) % 0x100) as u8);
                self.memory.set(a + 2, ((v / 0x1_0000) % 0x100) as u8);
                self.memory.set(a + 3, (v / 0x100_0000) as u8);
            },
            Opcode::Sh => {
                self.memory.set(a + 1, ((v / 0x100) % 0x100) as u8);
            },
            _ => {},
        }
    }

    fn exec_memory(&mut self, op: Opcode, fields: &Vec<Vec<char>>) -> (r: (
        usize,
        Event<Vec<char>>,
    ))
        requires
            is_load(op) || is_store(op),
            old(self)@.wf(),
        ensures
            produced(final(self)@, r.0, r.1@, memory_effect(old(self)@, op, views(fields@))),
    {
        if fields.len() < 2 {
            return (0, Event::Crash(Fault::MissingOperand));
        }
        let rt = parse_reg(fields[0].as_slice());
        if !offset_is_cuttable(fields[1].as_slice()) {
            return (0, Event::Crash(Fault::OffsetSlice));
        }
        let (off, base) = match parse_offset(fields[1].as_slice()) {
            Some(p) => p,
            None => {
                return (0, Event::BadOffset);
            },
        };
        let h1 = self.hazard(base);
        if base >= 32 {
            return (h1, Event::Crash(Fault::RegisterIndex(base)));
        }
        let b = self.registers.get(base);
        proof {
            lemma_u32_of_i32(off);
        }
        let sum = add_wrapping(b, off as u32);
        let a = sum as usize;
        assert(a == effective_address(b, off));
        let width: usize = match op {
            Opcode::Lw | Opcode::Sw => 4,
            Opcode::Lh | Opcode::Lhu | Opcode::Sh => 2,
            _ => 1,
        };
        if a % width != 0 {
            return (h1, Event::Unaligned);
        }
        let checks_bounds = match op {
            Opcode::Sb => false,
            _ => true,
        };
        if checks_bounds && (a as u64) + (width as u64) - 1 >= MEMORY_SIZE as u64 {
            return (h1, Event::OutOfBounds);
        }
        let h2 = h1 + self.hazard(rt);
        if rt >= 32 {
            return (h2, Event::Crash(Fault::RegisterIndex(rt)));
        }
        match op {
            Opcode::Lw | Opcode::Lh | Opcode::Lhu | Opcode::Lb | Opcode::Lbu => {
                let v = self.load(op, a);
                self.registers.set(rt, v);
                self.registers.set_delay(rt);
                self.is_delay = true;
                (h2, Event::Loaded)
            },
            _ => {
                if a >= MEMORY_SIZE {
                    return (h2, Event::Crash(Fault::MemoryIndex(a)));
                }
                let v = self.registers.get(rt);
                self.store(op, a, v);
                (h2, Event::Executed)
            },
        }
    }

    fn exec_take_branch(
        &mut self,
        h: usize,
        fields: &Vec<Vec<char>>,
        k: usize,
        labels: &LabelTable,
    ) -> (r: (usize, Event<Vec<char>>))
        ensures
            produced(
                final(self)@,
                r.0,
                r.1@,
                take_branch(old(self)@, h as nat, views(fields@), k as int, labels@),
            ),
    {
        if fields.len() <= k {
            return (h, Event::Crash(Fault::MissingOperand));
        }
        match labels.get(fields[k].as_slice()) {
            Some(t) => {
                self.is_jmp = true;
                self.jmp_pc = t;
                (h, Event::Executed)
            },
            None => (h, Event::LabelNotFound(slice_to_vec(fields[k].as_slice()))),
        }
    }

    fn exec_jump(&mut self, fields: &Vec<Vec<char>>, labels: &LabelTable) -> (r: (
        usize,
        Event<Vec<char>>,
    ))
        ensures
            produced(final(self)@, r.0, r.1@, jump_effect(old(self)@, views(fields@), labels@)),
    {
        self.exec_take_branch(0, fields, 0, labels)
    }

    fn exec_branch(&mut self, op: Opcode, fields: &Vec<Vec<char>>, labels: &LabelTable) -> (r: (
        usize,
        Event<Vec<char>>,
    ))
        requires
            op is Beq || op is Bne,
        ensures
            produced(
                final(self)@,
                r.0,
                r.1@,
                branch_effect(old(self)@, op, views(fields@), labels@),
            ),
    {
        if fields.len() < 2 {
            return (0, Event::Crash(Fault::MissingOperand));
        }
        let rs = parse_reg(fields[0].as_slice());
        let rt = parse_reg(fields[1].as_slice());
        let h1 = self.hazard(rs);
        let h2 = h1 + self.hazard(rt);
        if rs >= 32 {
            return (h1, Event::Crash(Fault::RegisterIndex(rs)));
        }
        if rt >= 32 {
            return (h2, Event::Crash(Fault::RegisterIndex(rt)));
        }
        let equal = self.registers.get(rs) == self.registers.get(rt);
        let wants_equal = match op {
            Opcode::Beq => true,
            _ => false,
        };
        if equal == wants_equal {
            self.exec_take_branch(h2, fields, 2, labels)
        } else {
            (h2, Event::Executed)
        }
    }

    fn exec_branch_zero(&mut self, op: Opcode, fields: &Vec<Vec<char>>, labels: &LabelTable) -> (r: (
        usize,
        Event<Vec<char>>,
    ))
        requires
            op is Bltz || op is Bgez,
        ensures
            produced(
                final(self)@,
                r.0,
                r.1@,
                branch_zero_effect(old(self)@, op, views(fields@), labels@),
            ),
    {
        if fields.len() < 1 {
            return (0, Event::Crash(Fault::MissingOperand));
        }
        let rs = parse_reg(fields[0].as_slice());
        let h1 = self.hazard(rs);
        if rs >= 32 {
            return (h1, Event::Crash(Fault::RegisterIndex(rs)));
        }
        let a = self.registers.get(rs);
        proof {
            lemma_i32_cast(a);
        }
        let negative = (a as i32) < 0;
        let wants_negative = match op {
            Opcode::Bltz => true,
            _ => false,
        };
        if negative == wants_negative {
            self.exec_take_branch(h1, fields, 1, labels)
        } else {
            (h1, Event::Executed)
        }
    }

    fn execute(&mut self, op: Opcode, fields: &Vec<Vec<char>>, labels: &LabelTable) -> (r: (
        usize,
        Event<Vec<char>>,
    ))
        requires
            old(self)@.wf(),
        ensures
            produced(
                final(self)@,
                r.0,
                r.1@,
                execute_effect(old(self)@, op, views(fields@), labels@),
            ),
    {
        match op {
            Opcode::Ori | Opcode::Andi | Opcode::Xori | Opcode::Sll | Opcode::Srl | Opcode::Sra
            | Opcode::Addiu | Opcode::Addi | Opcode::Slti | Opcode::Sltiu => self.exec_alu_imm(
                op,
                fields,
            ),
            Opcode::Or | Opcode::And | Opcode::Xor | Opcode::Nor | Opcode::Addu | Opcode::Add
            | Opcode::Subu | Opcode::Sub | Opcode::Slt | Opcode::Sltu => self.exec_alu_reg(
                op,
                fields,
            ),
            Opcode::Mult | Opcode::Multu | Opcode::Div | Opcode::Divu => self.exec_muldiv(
                op,
                fields,
            ),
            Opcode::Mfhi | Opcode::Mflo => self.exec_move_from(op, fields),
            Opcode::Lui => self.exec_lui(fields),
            Opcode::Lw | Opcode::Sw | Opcode::Lb | Opcode::Lbu | Opcode::Sb | Opcode::Lh
            | Opcode::Lhu | Opcode::Sh => self.exec_memory(op, fields),
            Opcode::J => self.exec_jump(fields, labels),
            Opcode::Beq | Opcode::Bne => self.exec_branch(op, fields, labels),
            _ => self.exec_branch_zero(op, fields, labels),
        }
    }

    /// A machine cycle, whatever it ends with.
    fn cycle(&mut self, program: &Program) -> (r: StepReport)
        requires
            old(self)@.pc < program@.lines.len(),
        ensures
            produced(final(self)@, r.hazards, r.event@, step_effect(old(self)@, program@)),
    {
        proof {
            self.registers.lemma_wf();
        }
        let n = program.lines.len();
        assert(self.pc < n);
        let (mnemonic, fields) = split_instruction(program.lines[self.pc].as_slice());
        if self.is_jmp {
            self.is_jmp = false;
            self.pc = self.jmp_pc;
        } else {
            self.pc = self.pc + 1;
        }
        let (hazards, event) = match opcode(mnemonic.as_slice()) {
            Some(op) => self.execute(op, &fields, &program.labels),
            None => (0, Event::UnknownOpcode(mnemonic)),
        };
        let completed = match event {
            Event::Executed => true,
            _ => false,
        };
        if completed && self.is_delay {
            self.registers.reset_delay();
            self.is_delay = false;
        }
        StepReport { hazards, event }
    }

    /// One machine cycle: fetches the line at the counter, advances the
    /// counter (to the waiting branch target if there is one), executes the
    /// instruction, and ends an open load-delay slot if the instruction
    /// completed. A cycle that cannot go on (see `fault_ahead`) is not run.
    pub fn step(&mut self, program: &Program) -> (r: StepReport)
        requires
            old(self)@.pc < program@.lines.len(),
            !(step_effect(old(self)@, program@).event is Crash),
        ensures
            produced(final(self)@, r.hazards, r.event@, step_effect(old(self)@, program@)),
            final(self)@.wf(),
            old(self)@.delay_tracked() ==> final(self)@.delay_tracked(),
    {
        proof {
            self.registers.lemma_wf();
            self.memory.lemma_len();
            law_step_keeps_machine_shape(self@, program@);
            if self@.delay_tracked() {
                law_load_delay_slot(self@, program@);
            }
        }
        self.cycle(program)
    }

    /// Whether the next machine cycle cannot go on, and then the number of
    /// load-delay hazards it runs into first and the fault.
    pub fn fault_ahead(&self, program: &Program) -> (r: Option<(usize, Fault)>)
        requires
            self@.pc < program@.lines.len(),
        ensures
            r is None <==> !(step_effect(self@, program@).event is Crash),
            r matches Some((h, f)) ==> step_effect(self@, program@).event == Event::<Seq<char>>::Crash(f)
                && step_effect(self@, program@).hazards == h,
    {
        let mut scratch = Machine {
            registers: Registers {
                registers: self.registers.registers,
                hilo: self.registers.hilo,
                delay_reg: self.registers.delay_reg,
            },
            memory: Memory { memory: self.memory.memory },
            pc: self.pc,
            jmp_pc: self.jmp_pc,
            is_jmp: self.is_jmp,
            is_delay: self.is_delay,
        };
        assert(scratch@ == self@);
        let report = scratch.cycle(program);
        match report.event {
            Event::Crash(f) => Some((report.hazards, f)),
            _ => None,
        }
    }

    /// Whether the counter is still inside the program.
    pub fn running(&self, program: &Program) -> (r: bool)
        ensures
            r == (self@.pc < program@.lines.len()),
    {
        self.pc < program.lines.len()
    }
}

} // verus!
