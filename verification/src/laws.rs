//! Properties of the simulator that hold across instructions and states.
use vstd::prelude::*;

use crate::assembler::{
    aligned_address, assemble_spec, directive_parts, drain, is_data_line, is_kept,
    is_label_line, label_name, place_words, read_line, read_lines, word_bytes, words_bytes,
    AsmState,
};
use crate::bits::{lemma_shl16, lemma_sra_logical, signed32, signed64, wrap32};
use vstd::arithmetic::div_mod::{lemma_fundamental_div_mod, lemma_fundamental_div_mod_converse};
use vstd::arithmetic::power2::{lemma_pow2_pos, pow2};
use vstd::bits::lemma_u32_shr_is_div;
use crate::instruction::{instruction_parts, opcode_of, Opcode};
use crate::machine::{
    abs, access_width, advance, alu_imm_effect, alu_reg_effect, alu_result, effective_address,
    execute_effect, finish_alu, fits_i32, half_at, hilo_result, hz, imm_operand, is_alu_imm,
    is_alu_reg, is_load, is_store, lui_effect, memory_effect, step_effect, trunc_div, trunc_rem,
    word_at, MachineState, ProgramText,
};
use crate::memory::MEMORY_SIZE;
use crate::number::{
    immediate_value, offset_cuttable, offset_operand, register_number, signed_immediate_value,
};
use crate::registers::RegisterState;
use crate::text::{split_on, trimmed};

verus! {

/// A call that changes the register file: `Write` is `set`, `WriteHilo` is
/// `set_hilo`, `MarkLoaded` is `set_delay`, `ClearLoaded` is `reset_delay`.
pub enum RegisterCall {
    Write(int, u32),
    WriteHilo(u64),
    MarkLoaded(usize),
    ClearLoaded,
}

/// The register file after `c`, as the call's contract says.
pub open spec fn apply_call(r: RegisterState, c: RegisterCall) -> RegisterState {
    match c {
        RegisterCall::Write(i, v) => r.with_reg(i, v),
        RegisterCall::WriteHilo(v) => RegisterState { hilo: v, ..r },
        RegisterCall::MarkLoaded(k) => RegisterState {
            delay_reg: if k > 0 {
                k
            } else {
                r.delay_reg
            },
            ..r
        },
        RegisterCall::ClearLoaded => RegisterState { delay_reg: 0, ..r },
    }
}

/// The register file after the calls, in order.
pub open spec fn apply_calls(r: RegisterState, calls: Seq<RegisterCall>) -> RegisterState
    decreases calls.len(),
{
    if calls.len() == 0 {
        r
    } else {
        apply_call(apply_calls(r, calls.drop_last()), calls.last())
    }
}

/// The value of the last `set` of register `i` among the calls.
pub open spec fn last_set(calls: Seq<RegisterCall>, i: int) -> Option<u32>
    decreases calls.len(),
{
    if calls.len() == 0 {
        None
    } else {
        match calls.last() {
            RegisterCall::Write(j, v) => if j == i {
                Some(v)
            } else {
                last_set(calls.drop_last(), i)
            },
            _ => last_set(calls.drop_last(), i),
        }
    }
}

/// The instruction lines of a source split at line feeds: trimmed, kept, and
/// neither labels nor data directives.
pub open spec fn code_lines(pieces: Seq<Seq<char>>) -> Seq<Seq<char>>
    decreases pieces.len(),
{
    if pieces.len() == 0 {
        Seq::empty()
    } else {
        let rest = code_lines(pieces.drop_last());
        let line = trimmed(pieces.last());
        if is_kept(line) && !is_label_line(line) && !is_data_line(line) {
            rest.push(line)
        } else {
            rest
        }
    }
}


/// Register 0 reads 0, and a write to it is lost.
pub proof fn law_zero_register(r: RegisterState, v: u32)
    requires
        r.wf(),
    ensures
        r.at(0) == 0,
        r.with_reg(0, v) == r,
{
}

/// A write to register `i` (1 to 31) is read back from `i` and leaves every
/// other register as it was.
pub proof fn law_register_write_read(r: RegisterState, i: int, v: u32, j: int)
    requires
        r.wf(),
        0 < i < 32,
        0 <= j < 32,
        j != i,
    ensures
        r.with_reg(i, v).wf(),
        r.with_reg(i, v).at(i) == v,
        r.with_reg(i, v).at(j) == r.at(j),
{
}

/// HI and LO are the two halves of HI/LO.
pub proof fn law_hi_lo(r: RegisterState)
    ensures
        r.hi() as int * 0x1_0000_0000 + r.lo() as int == r.hilo as int,
{
}

/// What executing any instruction keeps: the machine's shape, the counter,
/// and, unless it is a load, the load-delay state.
proof fn lemma_execute_facts(
    s: MachineState,
    op: Opcode,
    f: Seq<Seq<char>>,
    labels: Map<Seq<char>, usize>,
)
    requires
        s.wf(),
    ensures
        ({
            let e = execute_effect(s, op, f, labels);
            &&& e.state.wf()
            &&& e.state.pc == s.pc
            &&& e.event is Loaded ==> e.state.is_delay
            &&& e.event is Loaded ==> f.len() >= 2 && e.state.regs.delay_reg == (if register_number(
                f[0],
            ) > 0 {
                register_number(f[0])
            } else {
                s.regs.delay_reg
            })
            &&& !(e.event is Loaded) ==> e.state.is_delay == s.is_delay && e.state.regs.delay_reg
                == s.regs.delay_reg
        }),
{
    if is_alu_imm(op) {
        lemma_alu_imm_facts(s, op, f);
    } else if is_alu_reg(op) {
        lemma_alu_reg_facts(s, op, f);
    } else if op is Mult || op is Multu || op is Div || op is Divu {
    } else if op is Mfhi || op is Mflo {
    } else if op is Lui {
    } else if is_load(op) || is_store(op) {
        lemma_memory_facts(s, op, f);
    } else if op is J {
    } else if op is Beq || op is Bne {
    } else {
    }
}

proof fn lemma_finish_alu_facts(s: MachineState, h: nat, op: Opcode, a: u32, b: u32, rd: usize)
    requires
        s.wf(),
    ensures
        ({
            let e = finish_alu(s, h, op, a, b, rd);
            &&& e.state.wf()
            &&& e.state.pc == s.pc
            &&& !(e.event is Loaded)
            &&& e.state.is_delay == s.is_delay
            &&& e.state.regs.delay_reg == s.regs.delay_reg
        }),
{
}

proof fn lemma_alu_imm_facts(s: MachineState, op: Opcode, f: Seq<Seq<char>>)
    requires
        s.wf(),
    ensures
        ({
            let e = alu_imm_effect(s, op, f);
            &&& e.state.wf()
            &&& e.state.pc == s.pc
            &&& !(e.event is Loaded)
            &&& e.state.is_delay == s.is_delay
            &&& e.state.regs.delay_reg == s.regs.delay_reg
        }),
{
    if f.len() >= 3 {
        let rt = register_number(f[0]);
        let rs = register_number(f[1]);
        if rs < 32 {
            lemma_finish_alu_facts(
                s,
                hz(s, rs as int),
                op,
                s.regs.at(rs as int),
                imm_operand(op, f[2]),
                rt,
            );
        }
    }
}

proof fn lemma_alu_reg_facts(s: MachineState, op: Opcode, f: Seq<Seq<char>>)
    requires
        s.wf(),
    ensures
        ({
            let e = alu_reg_effect(s, op, f);
            &&& e.state.wf()
            &&& e.state.pc == s.pc
            &&& !(e.event is Loaded)
            &&& e.state.is_delay == s.is_delay
            &&& e.state.regs.delay_reg == s.regs.delay_reg
        }),
{
    if f.len() >= 3 {
        let rd = register_number(f[0]);
        let rs = register_number(f[1]);
        let rt = register_number(f[2]);
        if rs < 32 && rt < 32 {
            lemma_finish_alu_facts(
                s,
                hz(s, rs as int) + hz(s, rt as int),
                op,
                s.regs.at(rs as int),
                s.regs.at(rt as int),
                rd,
            );
        }
    }
}

proof fn lemma_memory_facts(s: MachineState, op: Opcode, f: Seq<Seq<char>>)
    requires
        s.wf(),
    ensures
        ({
            let e = memory_effect(s, op, f);
            &&& e.state.wf()
            &&& e.state.pc == s.pc
            &&& e.event is Loaded ==> e.state.is_delay
            &&& e.event is Loaded ==> f.len() >= 2 && e.state.regs.delay_reg == (if register_number(
                f[0],
            ) > 0 {
                register_number(f[0])
            } else {
                s.regs.delay_reg
            })
            &&& !(e.event is Loaded) ==> e.state.is_delay == s.is_delay && e.state.regs.delay_reg
                == s.regs.delay_reg
        }),
{
}

/// What a whole cycle keeps, given what executing keeps.
proof fn lemma_step_facts(m: MachineState, p: ProgramText)
    requires
        m.wf(),
        m.pc < p.lines.len(),
    ensures
        ({
            let e = step_effect(m, p);
            let s = advance(m);
            &&& e.state.wf()
            &&& e.state.pc == s.pc
            &&& e.event is Loaded ==> e.state.is_delay
            &&& !(e.event is Loaded) && !(e.event is Executed) ==> e.state.is_delay == m.is_delay
                && e.state.regs.delay_reg == m.regs.delay_reg
            &&& e.event is Executed ==> !e.state.is_delay
            &&& e.event is Executed && m.is_delay ==> e.state.regs.delay_reg == 0
            &&& e.event is Executed && !m.is_delay ==> e.state.regs.delay_reg == m.regs.delay_reg
        }),
{
    let (mnemonic, f) = instruction_parts(p.lines[m.pc as int]);
    let s = advance(m);
    match opcode_of(mnemonic) {
        Some(op) => lemma_execute_facts(s, op, f, p.labels),
        None => {},
    }
}

/// Every machine cycle keeps register 0 at 0 and data memory at 1024 bytes.
pub proof fn law_step_keeps_machine_shape(m: MachineState, p: ProgramText)
    requires
        m.wf(),
        m.pc < p.lines.len(),
    ensures
        step_effect(m, p).state.wf(),
{
    lemma_step_facts(m, p);
}

/// After any completed instruction no load is pending; and, as long as a
/// pending load is always marked, every cycle keeps it so.
pub proof fn law_load_delay_slot(m: MachineState, p: ProgramText)
    requires
        m.wf(),
        m.pc < p.lines.len(),
        !m.is_delay ==> m.regs.delay_reg == 0,
    ensures
        !step_effect(m, p).state.is_delay ==> step_effect(m, p).state.regs.delay_reg == 0,
        step_effect(m, p).event is Executed ==> !step_effect(m, p).state.is_delay
            && step_effect(m, p).state.regs.delay_reg == 0,
        step_effect(m, p).event is Loaded ==> step_effect(m, p).state.is_delay,
{
    lemma_step_facts(m, p);
}

/// A register-form instruction that reads, as its first source, the register
/// the previous load wrote reports a load-delay hazard.
pub proof fn law_hazard_reported(s: MachineState, op: Opcode, f: Seq<Seq<char>>)
    requires
        f.len() >= 3,
        op is Or || op is And || op is Xor || op is Nor || op is Addu || op is Add || op is Subu
            || op is Sub || op is Slt || op is Sltu,
        register_number(f[1]) > 0,
        register_number(f[1]) == s.regs.delay_reg,
    ensures
        alu_reg_effect(s, op, f).hazards >= 1,
{
}

/// A taken branch or jump runs the next line first (its delay slot), and only
/// then moves the counter to the target.
pub proof fn law_branch_delay_slot(m: MachineState, p: ProgramText)
    requires
        m.pc < p.lines.len(),
        !m.is_jmp,
        step_effect(m, p).state.is_jmp,
        step_effect(m, p).state.pc < p.lines.len(),
        p.lines.len() <= usize::MAX,
        m.wf(),
    ensures
        step_effect(m, p).state.pc == m.pc + 1,
        step_effect(step_effect(m, p).state, p).state.pc == step_effect(m, p).state.jmp_pc,
{
    lemma_step_facts(m, p);
    let m2 = step_effect(m, p).state;
    lemma_step_facts(m2, p);
}

/// A word access at an address that is not a multiple of 4, or a halfword
/// access at an odd address, stops the machine and changes nothing.
pub proof fn law_alignment(s: MachineState, op: Opcode, f: Seq<Seq<char>>)
    requires
        op is Lw || op is Sw || op is Lh || op is Lhu || op is Sh,
        f.len() >= 2,
        offset_cuttable(f[1]),
        offset_operand(f[1]) matches Some((off, base)) && base < 32 && effective_address(
            s.regs.at(base as int),
            off,
        ) % access_width(op) != 0,
    ensures
        memory_effect(s, op, f).event is Unaligned,
        memory_effect(s, op, f).state == s,
{
}

/// An aligned load, or an aligned word or halfword store, that would reach
/// past data memory stops the machine and changes nothing.
pub proof fn law_bounds(s: MachineState, op: Opcode, f: Seq<Seq<char>>)
    requires
        !(op is Sb),
        is_load(op) || is_store(op),
        f.len() >= 2,
        offset_cuttable(f[1]),
        offset_operand(f[1]) matches Some((off, base)) && base < 32 && effective_address(
            s.regs.at(base as int),
            off,
        ) % access_width(op) == 0 && effective_address(s.regs.at(base as int), off)
            + access_width(op) - 1 >= MEMORY_SIZE,
    ensures
        memory_effect(s, op, f).event is OutOfBounds,
        memory_effect(s, op, f).state == s,
{
}

/// The load-delay warning across cycles: once an instruction completes, no
/// register access warns in the next cycle; after a load into register `r`
/// (1 to 31), exactly the accesses to `r` warn in the next cycle. Every
/// machine from `Machine::new` on is `delay_tracked`: `new` establishes it and
/// `Machine::step` keeps it.
pub proof fn law_load_delay_warning(m: MachineState, p: ProgramText)
    requires
        m.wf(),
        m.pc < p.lines.len(),
        m.delay_tracked(),
    ensures
        ({
            let e = step_effect(m, p);
            let f = instruction_parts(p.lines[m.pc as int]).1;
            let next = advance(e.state);
            &&& e.event is Executed ==> forall|i: int| !next.regs.is_hazard(i)
            &&& e.event is Loaded ==> f.len() >= 2
            &&& e.event is Loaded && register_number(f[0]) > 0 ==> forall|i: int|
                next.regs.is_hazard(i) <==> i == register_number(f[0])
        }),
{
    lemma_step_facts(m, p);
    let (mnemonic, f) = instruction_parts(p.lines[m.pc as int]);
    match opcode_of(mnemonic) {
        Some(op) => lemma_execute_facts(advance(m), op, f, p.labels),
        None => {},
    }
}

/// A branch that is not taken lets the counter move on to the next line, with
/// no jump waiting.
pub proof fn law_branch_not_taken(m: MachineState, p: ProgramText)
    requires
        m.wf(),
        !m.is_jmp,
        m.pc + 1 < p.lines.len(),
        p.lines.len() <= usize::MAX,
        ({
            let (mnemonic, f) = instruction_parts(p.lines[m.pc as int]);
            let rs = register_number(f[0]) as int;
            let rt = register_number(f[1]) as int;
            ||| (opcode_of(mnemonic) matches Some(op) && (op is Beq || op is Bne) && f.len() >= 2
                && rs < 32 && rt < 32 && (m.regs.at(rs) == m.regs.at(rt)) != (op is Beq))
            ||| (opcode_of(mnemonic) matches Some(op) && (op is Bltz || op is Bgez) && f.len() >= 1
                && rs < 32 && (signed32(m.regs.at(rs)) < 0) != (op is Bltz))
        }),
    ensures
        step_effect(m, p).event is Executed,
        !step_effect(m, p).state.is_jmp,
        step_effect(m, p).state.pc == m.pc + 1,
        step_effect(step_effect(m, p).state, p).state.pc == m.pc + 2,
{
    lemma_step_facts(m, p);
    let m2 = step_effect(m, p).state;
    lemma_step_facts(m2, p);
}

/// `j label` runs the next line, then continues at the line the label names.
pub proof fn law_jump_to_label(m: MachineState, p: ProgramText)
    requires
        m.wf(),
        !m.is_jmp,
        m.pc + 1 < p.lines.len(),
        p.lines.len() <= usize::MAX,
        opcode_of(instruction_parts(p.lines[m.pc as int]).0) == Some(Opcode::J),
        instruction_parts(p.lines[m.pc as int]).1.len() >= 1,
        p.labels.contains_key(instruction_parts(p.lines[m.pc as int]).1[0]),
    ensures
        step_effect(m, p).event is Executed,
        step_effect(m, p).state.pc == m.pc + 1,
        step_effect(step_effect(m, p).state, p).state.pc == p.labels[instruction_parts(
            p.lines[m.pc as int],
        ).1[0]],
{
    lemma_step_facts(m, p);
    let m2 = step_effect(m, p).state;
    lemma_step_facts(m2, p);
}

/// `addu`, `addiu` and `subu` never stop and wrap around modulo 2^32;
/// `add`, `addi` and `sub` stop exactly when the result, as a two's
/// complement number, does not fit in 32 bits, and otherwise give that result.
pub proof fn law_add_overflow(a: u32, b: u32)
    ensures
        alu_result(Opcode::Addu, a, b) == Some(wrap32(a + b)),
        alu_result(Opcode::Addiu, a, b) == Some(wrap32(a + b)),
        alu_result(Opcode::Subu, a, b) == Some(wrap32(a - b)),
        alu_result(Opcode::Add, a, b) is None <==> !fits_i32(signed32(a) + signed32(b)),
        alu_result(Opcode::Addi, a, b) == alu_result(Opcode::Add, a, b),
        alu_result(Opcode::Add, a, b) matches Some(v) ==> signed32(v) == signed32(a) + signed32(b),
        alu_result(Opcode::Sub, a, b) is None <==> !fits_i32(signed32(a) - signed32(b)),
        alu_result(Opcode::Sub, a, b) matches Some(v) ==> signed32(v) == signed32(a) - signed32(b),
{
}

/// `multu` leaves the full 64-bit product in HI/LO.
pub proof fn law_multu(a: u32, b: u32)
    ensures
        hilo_result(Opcode::Multu, a, b) == a * b,
{
    assert(a * b <= 0xffff_ffff * 0xffff_ffff) by (nonlinear_arith)
        requires
            a <= 0xffff_ffff,
            b <= 0xffff_ffff,
    ;
}

/// `divu` leaves the quotient in LO and the remainder in HI.
pub proof fn law_divu(a: u32, b: u32)
    requires
        b != 0,
    ensures
        (RegisterState { gpr: Seq::empty(), hilo: hilo_result(Opcode::Divu, a, b), delay_reg: 0 }).lo()
            == a / b,
        (RegisterState { gpr: Seq::empty(), hilo: hilo_result(Opcode::Divu, a, b), delay_reg: 0 }).hi()
            == a % b,
{
}

/// `div` leaves the quotient, rounded toward zero, in LO and the remainder,
/// which has the dividend's sign, in HI, both as two's complement numbers.
pub proof fn law_div(a: u32, b: u32)
    requires
        b != 0,
    ensures
        ({
            let r = RegisterState { gpr: Seq::empty(), hilo: hilo_result(Opcode::Div, a, b), delay_reg: 0 };
            &&& r.lo() == wrap32(trunc_div(signed32(a), signed32(b)))
            &&& r.hi() == wrap32(trunc_rem(signed32(a), signed32(b)))
            &&& signed32(r.hi()) == trunc_rem(signed32(a), signed32(b))
            &&& signed32(a) == trunc_div(signed32(a), signed32(b)) * signed32(b) + trunc_rem(
                signed32(a),
                signed32(b),
            )
        }),
{
    let x = signed32(a);
    let y = signed32(b);
    let ax = abs(x);
    let ay = abs(y);
    assert(ax == (ax / ay) * ay + ax % ay && 0 <= ax % ay < ay) by (nonlinear_arith)
        requires
            ay > 0,
    ;
    assert(ax / ay <= ax) by (nonlinear_arith)
        requires
            ay > 0,
            ax >= 0,
    ;
    let q = trunc_div(x, y);
    let rm = trunc_rem(x, y);
    if x < 0 && y < 0 {
        assert(x == q * y + rm) by (nonlinear_arith)
            requires
                ax == (ax / ay) * ay + ax % ay,
                ax == -x,
                ay == -y,
                q == ax / ay,
                rm == -(ax % ay),
        ;
    } else if x < 0 {
        assert(x == q * y + rm) by (nonlinear_arith)
            requires
                ax == (ax / ay) * ay + ax % ay,
                ax == -x,
                ay == y,
                q == -(ax / ay),
                rm == -(ax % ay),
        ;
    } else if y < 0 {
        assert(x == q * y + rm) by (nonlinear_arith)
            requires
                ax == (ax / ay) * ay + ax % ay,
                ax == x,
                ay == -y,
                q == -(ax / ay),
                rm == ax % ay,
        ;
    } else {
        assert(x == q * y + rm) by (nonlinear_arith)
            requires
                ax == (ax / ay) * ay + ax % ay,
                ax == x,
                ay == y,
                q == ax / ay,
                rm == ax % ay,
        ;
    }
}

proof fn lemma_word_round_trip(v: u32)
    ensures
        (v % 0x100) as int + ((v / 0x100) % 0x100) as int * 0x100 + ((v / 0x1_0000) % 0x100) as int
            * 0x1_0000 + (v / 0x100_0000) as int * 0x100_0000 == v as int,
{
    assert((v % 0x100) as int + ((v / 0x100) % 0x100) as int * 0x100 + ((v / 0x1_0000) % 0x100) as int
        * 0x1_0000 + (v / 0x100_0000) as int * 0x100_0000 == v as int) by (bit_vector);
}

/// What `lw` reads back of what `sw` wrote: a word stored through an operand
/// `offset(base)` and loaded through the same operand comes back whole.
pub proof fn law_store_word_then_load(
    s: MachineState,
    src: Seq<char>,
    dst: Seq<char>,
    address: Seq<char>,
)
    requires
        s.wf(),
        memory_effect(s, Opcode::Sw, seq![src, address]).event is Executed,
        register_number(dst) < 32,
    ensures
        ({
            let s2 = memory_effect(s, Opcode::Sw, seq![src, address]).state;
            let e = memory_effect(s2, Opcode::Lw, seq![dst, address]);
            &&& e.event is Loaded
            &&& register_number(dst) != 0 ==> e.state.regs.at(register_number(dst) as int) == s.regs.at(
                register_number(src) as int,
            )
        }),
{
    let v = s.regs.at(register_number(src) as int);
    lemma_word_round_trip(v);
}

/// What `lhu` and `lh` read back of what `sh` wrote: the low 16 bits, zero-
/// or sign-extended.
pub proof fn law_store_half_then_load(
    s: MachineState,
    src: Seq<char>,
    dst: Seq<char>,
    address: Seq<char>,
)
    requires
        s.wf(),
        memory_effect(s, Opcode::Sh, seq![src, address]).event is Executed,
        register_number(dst) < 32,
        register_number(dst) != 0,
    ensures
        ({
            let s2 = memory_effect(s, Opcode::Sh, seq![src, address]).state;
            let v = s.regs.at(register_number(src) as int);
            let unsigned = memory_effect(s2, Opcode::Lhu, seq![dst, address]);
            let signed = memory_effect(s2, Opcode::Lh, seq![dst, address]);
            &&& unsigned.event is Loaded
            &&& unsigned.state.regs.at(register_number(dst) as int) == v % 0x1_0000
            &&& signed.event is Loaded
            &&& signed.state.regs.at(register_number(dst) as int) == if v % 0x1_0000 < 0x8000 {
                v % 0x1_0000
            } else {
                (v % 0x1_0000 + 0xffff_0000) as u32
            }
        }),
{
    let v = s.regs.at(register_number(src) as int);
    assert((v % 0x100) as int + ((v / 0x100) % 0x100) as int * 0x100 == (v % 0x1_0000) as int)
        by (bit_vector);
}

/// What `lbu` and `lb` read back of what `sb` wrote: the low 8 bits, zero-
/// or sign-extended.
pub proof fn law_store_byte_then_load(
    s: MachineState,
    src: Seq<char>,
    dst: Seq<char>,
    address: Seq<char>,
)
    requires
        s.wf(),
        memory_effect(s, Opcode::Sb, seq![src, address]).event is Executed,
        register_number(dst) < 32,
        register_number(dst) != 0,
    ensures
        ({
            let s2 = memory_effect(s, Opcode::Sb, seq![src, address]).state;
            let v = s.regs.at(register_number(src) as int);
            let unsigned = memory_effect(s2, Opcode::Lbu, seq![dst, address]);
            let signed = memory_effect(s2, Opcode::Lb, seq![dst, address]);
            &&& unsigned.event is Loaded
            &&& unsigned.state.regs.at(register_number(dst) as int) == v % 0x100
            &&& signed.event is Loaded
            &&& signed.state.regs.at(register_number(dst) as int) == if v % 0x100 < 0x80 {
                v % 0x100
            } else {
                (v % 0x100 + 0xffff_ff00) as u32
            }
        }),
{
}

/// A label line followed by an instruction line names that instruction's
/// index in the program.
pub proof fn law_code_label(st: AsmState, label: Seq<char>, line: Seq<char>)
    requires
        st.fault is None,
        st.queued.len() == 0,
        st.lines.len() < usize::MAX,
        is_label_line(label),
        !is_label_line(line),
        !is_data_line(line),
    ensures
        ({
            let st2 = read_line(read_line(st, label), line);
            &&& st2.labels.contains_key(label_name(label))
            &&& st2.labels[label_name(label)] == st.lines.len()
            &&& st2.lines == st.lines.push(line)
            &&& st2.lines[st.lines.len() as int] == line
        }),
{
    let st1 = read_line(st, label);
    assert(st1.queued =~= seq![label]);
    let x = AsmState {
        labels: st1.labels.insert(label_name(label), st1.lines.len() as usize),
        queued: st1.queued.drop_last(),
        ..st1
    };
    assert(x.queued.len() == 0);
    assert(drain(x, line) == x);
    assert(drain(st1, line) == x);
}

/// A label line followed by `.word v` names an address, a multiple of 4, at
/// which the word `v` lies, least significant byte first.
pub proof fn law_word_data(st: AsmState, label: Seq<char>, line: Seq<char>, value: Seq<char>)
    requires
        st.fault is None,
        st.queued.len() == 0,
        st.mem.len() == MEMORY_SIZE,
        0 <= st.data_address <= 1020,
        is_label_line(label),
        is_data_line(line),
        !is_label_line(line),
        directive_parts(line) == (".word"@, value),
        split_on(value, ',') == seq![value],
    ensures
        ({
            let st2 = read_line(read_line(st, label), line);
            let a = st2.labels[label_name(label)] as int;
            &&& st2.fault is None
            &&& st2.labels.contains_key(label_name(label))
            &&& a % 4 == 0
            &&& word_at(st2.mem, a) == (signed_immediate_value(trimmed(value)) as u32) as int
        }),
{
    reveal_strlit(".word");
    reveal_strlit(".asciiz");
    assert(".word"@.len() == 5);
    assert(".asciiz"@.len() == 7);
    assert(".word"@ != ".asciiz"@);
    let w = signed_immediate_value(trimmed(value));
    let es = seq![value];
    assert(es.drop_last() =~= Seq::<Seq<char>>::empty());
    assert(words_bytes(Seq::<Seq<char>>::empty()) == Seq::<u8>::empty());
    assert(words_bytes(es) =~= word_bytes(w));
    lemma_word_round_trip(w as u32);
    let st1 = read_line(st, label);
    assert(st1.queued =~= seq![label]);
    let st1b = AsmState { queued: st1.queued.drop_last(), ..st1 };
    let x = place_words(st1b, label, value);
    assert(x.fault is None);
    assert(x.queued.len() == 0);
    assert(drain(x, line) == x);
    assert(drain(st1, line) == x);
    let base = aligned_address(st.data_address);
    assert(x.labels[label_name(label)] == base);
    assert(x.mem[base] == word_bytes(w)[0]);
}

/// Read-after-write over any sequence of calls on the register file: register
/// `i` (1 to 31) holds the value of the last `set` of `i`, or what it held
/// before if there was none; the file stays well formed.
pub proof fn law_register_calls(r: RegisterState, calls: Seq<RegisterCall>, i: int)
    requires
        r.wf(),
        1 <= i < 32,
        forall|k: int|
            0 <= k < calls.len() ==> (#[trigger] calls[k] matches RegisterCall::Write(j, v) ==> 0 <= j
                < 32),
    ensures
        apply_calls(r, calls).wf(),
        apply_calls(r, calls).at(i) == match last_set(calls, i) {
            Some(v) => v,
            None => r.at(i),
        },
    decreases calls.len(),
{
    if calls.len() > 0 {
        let rest = calls.drop_last();
        assert forall|k: int|
            0 <= k < rest.len() implies (#[trigger] rest[k] matches RegisterCall::Write(j, v) ==> 0
            <= j < 32) by {
            assert(rest[k] == calls[k]);
        }
        law_register_calls(r, rest, i);
        assert(calls.last() == calls[calls.len() - 1]);
    }
}

proof fn lemma_drain_keeps_lines(st: AsmState, line: Seq<char>)
    ensures
        drain(st, line).lines == st.lines,
        drain(st, line).fault is None ==> st.fault is None,
    decreases st.queued.len(),
{
    if st.queued.len() > 0 && st.fault is None {
        let label = st.queued.last();
        let st1 = AsmState { queued: st.queued.drop_last(), ..st };
        if is_data_line(line) {
            let (directive, value) = directive_parts(line);
            if directive == ".asciiz"@ {
                lemma_drain_keeps_lines(crate::assembler::place_string(st1, label, value), line);
            } else if directive == ".word"@ {
                lemma_drain_keeps_lines(place_words(st1, label, value), line);
            }
        } else {
            lemma_drain_keeps_lines(
                AsmState {
                    labels: st1.labels.insert(label_name(label), st1.lines.len() as usize),
                    ..st1
                },
                line,
            );
        }
    }
}

proof fn lemma_read_lines_code(pieces: Seq<Seq<char>>)
    ensures
        read_lines(pieces).fault is None ==> read_lines(pieces).lines == code_lines(pieces),
    decreases pieces.len(),
{
    if pieces.len() > 0 {
        lemma_read_lines_code(pieces.drop_last());
        let st = read_lines(pieces.drop_last());
        let line = trimmed(pieces.last());
        lemma_drain_keeps_lines(st, line);
    }
}

/// A source read without a fault gives, as its program, its instruction lines
/// in order: trimmed, without blank lines, "//" comments, labels and data
/// directives.
pub proof fn law_program_lines(source: Seq<char>)
    requires
        assemble_spec(source).fault is None,
    ensures
        assemble_spec(source).lines == code_lines(split_on(source, '\n')),
{
    lemma_read_lines_code(split_on(source, '\n'));
}

/// `sra` divides by 2^b rounding down: its result, read as a signed number,
/// is the floor of the register's signed value over 2^b; for a register below
/// 2^31 it is the logical shift.
pub proof fn law_sra(a: u32, b: u32)
    requires
        b < 32,
    ensures
        alu_result(Opcode::Sra, a, b) matches Some(r) && signed32(r) == signed32(a) / (pow2(
            b as nat,
        ) as int),
        a < 0x8000_0000 ==> alu_result(Opcode::Sra, a, b) == Some(a >> b),
{
    lemma_sra_logical(a, b);
    lemma_pow2_pos(b as nat);
    let d = pow2(b as nat) as int;
    if a < 0x8000_0000 {
        lemma_u32_shr_is_div(a, b);
        assert(a as int / d <= a as int) by (nonlinear_arith)
            requires
                d > 0,
                a >= 0,
        ;
    } else {
        let n = !a;
        lemma_u32_shr_is_div(n, b);
        let q = n as int / d;
        assert(q <= n) by (nonlinear_arith)
            requires
                d > 0,
                q == n as int / d,
                n >= 0,
        ;
        lemma_fundamental_div_mod(n as int, d);
        let rm = n as int % d;
        assert(0 <= rm < d);
        assert(-(n as int + 1) == (-q - 1) * d + (d - 1 - rm)) by (nonlinear_arith)
            requires
                n as int == d * q + rm,
        ;
        lemma_fundamental_div_mod_converse(-(n as int + 1), d, -q - 1, d - 1 - rm);
    }
}

/// Set-on-less-than: `slt`/`slti` order registers as signed numbers and
/// `sltu`/`sltiu` as unsigned ones. Both are strict (no value is less than
/// itself) and total (of two different values exactly one is less); on two
/// values of the same sign they agree, and a negative value is less than any
/// non-negative one.
pub proof fn law_set_less_than(a: u32, b: u32)
    ensures
        alu_result(Opcode::Slt, a, a) == Some(0u32),
        alu_result(Opcode::Sltu, a, a) == Some(0u32),
        alu_result(Opcode::Slti, a, b) == alu_result(Opcode::Slt, a, b),
        alu_result(Opcode::Sltiu, a, b) == alu_result(Opcode::Sltu, a, b),
        alu_result(Opcode::Slt, a, b) == Some(0u32) || alu_result(Opcode::Slt, a, b) == Some(1u32),
        alu_result(Opcode::Sltu, a, b) == Some(0u32) || alu_result(Opcode::Sltu, a, b) == Some(
            1u32,
        ),
        a != b ==> (alu_result(Opcode::Slt, a, b) == Some(1u32)) != (alu_result(Opcode::Slt, b, a)
            == Some(1u32)),
        a != b ==> (alu_result(Opcode::Sltu, a, b) == Some(1u32)) != (alu_result(
            Opcode::Sltu,
            b,
            a,
        ) == Some(1u32)),
        alu_result(Opcode::Sltu, a, b) == Some(1u32) <==> a < b,
        (a < 0x8000_0000) == (b < 0x8000_0000) ==> alu_result(Opcode::Slt, a, b) == alu_result(
            Opcode::Sltu,
            a,
            b,
        ),
        a >= 0x8000_0000 && b < 0x8000_0000 ==> alu_result(Opcode::Slt, a, b) == Some(1u32),
{
}

/// `mult` leaves the full signed product in HI/LO: read as a signed 64-bit
/// number, HI/LO is the product of the registers as signed numbers, and so is
/// HI (signed) times 2^32 plus LO.
pub proof fn law_mult(a: u32, b: u32)
    ensures
        signed64(hilo_result(Opcode::Mult, a, b)) == signed32(a) * signed32(b),
        ({
            let r = RegisterState { gpr: Seq::empty(), hilo: hilo_result(Opcode::Mult, a, b), delay_reg: 0 };
            signed32(r.hi()) * 0x1_0000_0000 + r.lo() == signed32(a) * signed32(b)
        }),
{
    let x = signed32(a);
    let y = signed32(b);
    assert(-0x4000_0000_0000_0000 <= x * y <= 0x4000_0000_0000_0000) by (nonlinear_arith)
        requires
            -0x8000_0000 <= x <= 0x8000_0000,
            -0x8000_0000 <= y <= 0x8000_0000,
    ;
}

/// `lui rt, imm` puts the immediate in the upper 16 bits of `rt` and zeros
/// below, whatever `rt` held, and leaves every other register as it was.
pub proof fn law_lui(s: MachineState, f: Seq<Seq<char>>)
    requires
        s.wf(),
        f.len() >= 2,
        1 <= register_number(f[0]) < 32,
    ensures
        ({
            let e = lui_effect(s, f);
            let rt = register_number(f[0]) as int;
            &&& e.event is Executed
            &&& e.state.regs.at(rt) as int == (immediate_value(f[1]) as int * 0x1_0000)
                % 0x1_0000_0000
            &&& e.state.regs.at(rt) % 0x1_0000 == 0
            &&& forall|j: int| 0 <= j < 32 && j != rt ==> e.state.regs.at(j) == s.regs.at(j)
            &&& e.state.mem == s.mem
        }),
{
    lemma_shl16(immediate_value(f[1]));
}

/// A store through `offset(base)` writes at the base register's value plus
/// the whole signed offset, changes no other byte and no register.
pub proof fn law_store_address(s: MachineState, op: Opcode, f: Seq<Seq<char>>)
    requires
        s.wf(),
        is_store(op),
        f.len() >= 2,
        register_number(f[0]) < 32,
        offset_cuttable(f[1]),
        offset_operand(f[1]) matches Some((off, base)) && base < 32 && 0 <= s.regs.at(base as int)
            + off && s.regs.at(base as int) + off + access_width(op) <= MEMORY_SIZE && (s.regs.at(
            base as int,
        ) + off) % access_width(op) == 0,
    ensures
        ({
            let (off, base) = offset_operand(f[1]).unwrap();
            let a = s.regs.at(base as int) + off;
            let v = s.regs.at(register_number(f[0]) as int);
            let e = memory_effect(s, op, f);
            &&& e.event is Executed
            &&& op is Sw ==> word_at(e.state.mem, a) == v
            &&& op is Sh ==> half_at(e.state.mem, a) == v % 0x1_0000
            &&& op is Sb ==> e.state.mem[a] == v % 0x100
            &&& forall|j: int|
                0 <= j < MEMORY_SIZE && !(a <= j < a + access_width(op)) ==> e.state.mem[j]
                    == s.mem[j]
            &&& e.state.regs == s.regs
        }),
{
    let v = s.regs.at(register_number(f[0]) as int);
    lemma_word_round_trip(v);
    assert((v % 0x100) as int + ((v / 0x100) % 0x100) as int * 0x100 == (v % 0x1_0000) as int)
        by (bit_vector);
}

/// A load through `offset(base)` reads at the base register's value plus the
/// whole signed offset.
pub proof fn law_load_address(s: MachineState, op: Opcode, f: Seq<Seq<char>>)
    requires
        s.wf(),
        op is Lw || op is Lhu || op is Lbu,
        f.len() >= 2,
        1 <= register_number(f[0]) < 32,
        offset_cuttable(f[1]),
        offset_operand(f[1]) matches Some((off, base)) && base < 32 && 0 <= s.regs.at(base as int)
            + off && s.regs.at(base as int) + off + access_width(op) <= MEMORY_SIZE && (s.regs.at(
            base as int,
        ) + off) % access_width(op) == 0,
    ensures
        ({
            let (off, base) = offset_operand(f[1]).unwrap();
            let a = s.regs.at(base as int) + off;
            let e = memory_effect(s, op, f);
            let got = e.state.regs.at(register_number(f[0]) as int);
            &&& e.event is Loaded
            &&& op is Lw ==> got == word_at(s.mem, a)
            &&& op is Lhu ==> got == half_at(s.mem, a)
            &&& op is Lbu ==> got == s.mem[a]
            &&& e.state.mem == s.mem
        }),
{
}

} // verus!
