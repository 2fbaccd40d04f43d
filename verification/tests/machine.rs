use lib::assembler::assemble;
use lib::machine::{Event, Fault, Machine};
use lib::memory::Memory;
use lib::registers::Registers;

struct Run {
    machine: Machine,
    events: Vec<Event<Vec<char>>>,
    hazards: Vec<usize>,
}

fn run(src: &str) -> Run {
    let assembly = assemble(src);
    assert!(assembly.fault.is_none());
    let mut machine = Machine::new(assembly.memory);
    let mut events = Vec::new();
    let mut hazards = Vec::new();
    let mut steps = 0;
    while machine.running(&assembly.program) && steps < 1000 {
        if let Some((h, fault)) = machine.fault_ahead(&assembly.program) {
            hazards.push(h);
            events.push(Event::Crash(fault));
            break;
        }
        let report = machine.step(&assembly.program);
        let go_on = matches!(report.event, Event::Executed | Event::Loaded);
        hazards.push(report.hazards);
        events.push(report.event);
        if !go_on {
            break;
        }
        steps += 1;
    }
    Run { machine, events, hazards }
}

fn reg(r: &Run, i: usize) -> u32 {
    r.machine.registers.get(i)
}

fn last(r: &Run) -> &Event<Vec<char>> {
    r.events.last().unwrap()
}

#[test]
fn registers_start_at_zero_and_zero_is_hardwired() {
    let mut regs = Registers::new();
    for i in 0..32 {
        assert_eq!(regs.get(i), 0);
    }
    regs.set(0, 5);
    assert_eq!(regs.get(0), 0);
    regs.set(31, 9);
    assert_eq!(regs.get(31), 9);
    regs.set_hilo(0x1234_5678_9abc_def0);
    assert_eq!(regs.get_hi(), 0x1234_5678);
    assert_eq!(regs.get_lo(), 0x9abc_def0);
}

#[test]
fn delay_register_bookkeeping() {
    let mut regs = Registers::new();
    assert!(regs.check_delay_reg(0));
    regs.set_delay(0);
    assert!(regs.check_delay_reg(0));
    regs.set_delay(7);
    assert!(regs.check_delay_reg(7));
    assert!(!regs.check_delay_reg(6));
    regs.reset_delay();
    assert!(regs.check_delay_reg(0));
}

#[test]
fn memory_reads_back_writes() {
    let mut mem = Memory::new();
    assert_eq!(mem.get_len(), 1024);
    assert_eq!(mem.get(1023), 0);
    mem.set(1023, 200);
    mem.set(0, 1);
    assert_eq!(mem.get(1023), 200);
    assert_eq!(mem.get(0), 1);
}

#[test]
fn logic_immediates() {
    let r = run("ori $1, $0, 0xF0\nandi $2, $1, 0x3C\nxori $3, $1, 255\n");
    assert_eq!(reg(&r, 1), 0xF0);
    assert_eq!(reg(&r, 2), 0x30);
    assert_eq!(reg(&r, 3), 0x0F);
    assert!(r.events.iter().all(|e| matches!(e, Event::Executed)));
}

#[test]
fn shifts() {
    let r = run("addiu $1, $0, -16\nsll $2, $1, 4\nsrl $3, $1, 28\nsra $4, $1, 2\nsll $5, $1, 33\n");
    assert_eq!(reg(&r, 1), 0xFFFF_FFF0);
    assert_eq!(reg(&r, 2), 0xFFFF_FF00);
    assert_eq!(reg(&r, 3), 0xF);
    assert_eq!(reg(&r, 4), 0xFFFF_FFFC);
    assert_eq!(reg(&r, 5), 0xFFFF_FFE0);
}

#[test]
fn register_logic() {
    let r = run("ori $1, $0, 12\nori $2, $0, 10\nor $3, $1, $2\nand $4, $1, $2\nxor $5, $1, $2\nnor $6, $1, $2\n");
    assert_eq!(reg(&r, 3), 14);
    assert_eq!(reg(&r, 4), 8);
    assert_eq!(reg(&r, 5), 6);
    assert_eq!(reg(&r, 6), !14u32);
}

#[test]
fn addu_wraps() {
    let r = run("addiu $1, $0, -1\naddiu $2, $0, 2\naddu $3, $1, $2\nsubu $4, $0, $2\n");
    assert_eq!(reg(&r, 3), 1);
    assert_eq!(reg(&r, 4), 0xFFFF_FFFE);
}

#[test]
fn add_stops_on_signed_overflow() {
    let r = run("lui $1, 0x7fff\nori $1, $1, 0xffff\naddiu $2, $0, 1\nadd $3, $1, $2\naddiu $4, $0, 9\n");
    assert!(matches!(last(&r), Event::Overflow));
    assert_eq!(reg(&r, 3), 0);
    assert_eq!(reg(&r, 4), 0);
    assert_eq!(r.events.len(), 4);
}

#[test]
fn add_of_negative_numbers_without_overflow() {
    let r = run("addiu $1, $0, -1\naddiu $2, $0, 2\nadd $3, $1, $2\nadd $4, $1, $1\n");
    assert_eq!(reg(&r, 3), 1);
    assert_eq!(reg(&r, 4), 0xFFFF_FFFE);
    assert!(r.events.iter().all(|e| matches!(e, Event::Executed)));
}

#[test]
fn add_without_overflow() {
    let r = run("addi $1, $0, 5\naddi $2, $1, 7\nadd $3, $1, $2\nsub $4, $2, $1\n");
    assert_eq!(reg(&r, 2), 12);
    assert_eq!(reg(&r, 3), 17);
    assert_eq!(reg(&r, 4), 7);
}

#[test]
fn addi_with_negative_immediate() {
    let r = run("addiu $8, $0, 5\naddi $9, $8, -1\n");
    assert!(matches!(last(&r), Event::Executed));
    assert_eq!(reg(&r, 9), 4);
    let r = run("lui $1, 0x8000\naddi $2, $1, -1\n");
    assert!(matches!(last(&r), Event::Overflow));
    assert_eq!(reg(&r, 2), 0);
}

#[test]
fn sub_stops_on_signed_overflow_only() {
    let r = run("addi $1, $0, 3\naddi $2, $0, 5\nsub $3, $1, $2\n");
    assert!(matches!(last(&r), Event::Executed));
    assert_eq!(reg(&r, 3), (-2i32) as u32);
    let r = run("lui $1, 0x8000\naddi $2, $0, 1\nsub $3, $1, $2\n");
    assert!(matches!(last(&r), Event::Overflow));
    assert_eq!(reg(&r, 3), 0);
}

#[test]
fn comparisons() {
    let r = run(
        "addiu $1, $0, -1\naddiu $2, $0, 1\nslt $3, $1, $2\nsltu $4, $1, $2\nslti $5, $1, 0\nsltiu $6, $2, 2\nslti $7, $2, -3\n",
    );
    assert_eq!(reg(&r, 3), 1);
    assert_eq!(reg(&r, 4), 0);
    assert_eq!(reg(&r, 5), 1);
    assert_eq!(reg(&r, 6), 1);
    assert_eq!(reg(&r, 7), 0);
}

#[test]
fn load_upper_immediate() {
    let r = run("lui $1, 0x1234\nlui $2, 0x12345\n");
    assert_eq!(reg(&r, 1), 0x1234_0000);
    assert_eq!(reg(&r, 2), 0x2345_0000);
}

#[test]
fn multiplication() {
    let r = run("addiu $1, $0, -3\naddiu $2, $0, 7\nmult $1, $2\nmfhi $3\nmflo $4\nmultu $1, $2\nmfhi $5\nmflo $6\n");
    assert_eq!(reg(&r, 3), 0xFFFF_FFFF);
    assert_eq!(reg(&r, 4), (-21i32) as u32);
    assert_eq!(reg(&r, 5), 6);
    assert_eq!(reg(&r, 6), 0xFFFF_FFEB);
}

#[test]
fn division() {
    let r = run("addiu $1, $0, 17\naddiu $2, $0, 5\ndivu $1, $2\nmflo $3\nmfhi $4\ndiv $1, $2\nmflo $5\nmfhi $6\n");
    assert_eq!(reg(&r, 3), 3);
    assert_eq!(reg(&r, 4), 2);
    assert_eq!(reg(&r, 5), 3);
    assert_eq!(reg(&r, 6), 2);
}

#[test]
fn signed_division_with_negative_quotient() {
    let r = run("addiu $8, $0, 7\naddiu $9, $0, -2\ndiv $8, $9\nmfhi $10\nmflo $11\naddiu $5, $0, -7\naddiu $6, $0, 2\ndiv $5, $6\nmflo $7\nmfhi $12\n");
    assert_eq!(reg(&r, 10), 1);
    assert_eq!(reg(&r, 11), (-3i32) as u32);
    assert_eq!(reg(&r, 7), (-3i32) as u32);
    assert_eq!(reg(&r, 12), (-1i32) as u32);
}

#[test]
fn division_by_zero_crashes() {
    let r = run("addiu $1, $0, 3\ndivu $1, $0\n");
    assert!(matches!(last(&r), Event::Crash(Fault::DivideByZero)));
    let r = run("div $0, $0\n");
    assert!(matches!(last(&r), Event::Crash(Fault::DivideByZero)));
}

#[test]
fn word_store_and_load() {
    let r = run("lui $1, 0x1234\nori $1, $1, 0x5678\nsw $1, 8($0)\nlw $2, 8($0)\naddu $3, $0, $0\n");
    assert_eq!(reg(&r, 2), 0x1234_5678);
    assert_eq!(r.machine.memory.get(8), 0x78);
    assert_eq!(r.machine.memory.get(9), 0x56);
    assert_eq!(r.machine.memory.get(10), 0x34);
    assert_eq!(r.machine.memory.get(11), 0x12);
    assert!(matches!(r.events[3], Event::Loaded));
}

#[test]
fn half_and_byte_loads_extend() {
    let r = run("addiu $1, $0, -2\nsh $1, 4($0)\nlh $2, 4($0)\nlhu $3, 4($0)\nsb $1, 9($0)\nlb $4, 9($0)\nlbu $5, 9($0)\naddu $6, $0, $0\n");
    assert_eq!(reg(&r, 2), 0xFFFF_FFFE);
    assert_eq!(reg(&r, 3), 0xFFFE);
    assert_eq!(reg(&r, 4), 0xFFFF_FFFE);
    assert_eq!(reg(&r, 5), 0xFE);
}

#[test]
fn misaligned_accesses_stop() {
    let r = run("lw $1, 2($0)\n");
    assert!(matches!(last(&r), Event::Unaligned));
    let r = run("sh $1, 3($0)\n");
    assert!(matches!(last(&r), Event::Unaligned));
    let r = run("lhu $1, 1($0)\n");
    assert!(matches!(last(&r), Event::Unaligned));
    let r = run("lb $1, 3($0)\naddu $2, $0, $0\n");
    assert!(matches!(last(&r), Event::Executed));
}

#[test]
fn accesses_past_memory_stop() {
    let r = run("lw $1, 1024($0)\n");
    assert!(matches!(last(&r), Event::OutOfBounds));
    let r = run("lw $1, 1020($0)\naddu $2, $0, $0\n");
    assert!(matches!(last(&r), Event::Executed));
    let r = run("sh $1, 1022($0)\n");
    assert!(matches!(last(&r), Event::Executed));
    let r = run("lbu $1, 1024($0)\n");
    assert!(matches!(last(&r), Event::OutOfBounds));
    let r = run("lw $1, -4($0)\n");
    assert!(matches!(last(&r), Event::OutOfBounds));
}

#[test]
fn byte_store_past_memory_crashes() {
    let r = run("sb $1, 1024($0)\n");
    assert!(matches!(last(&r), Event::Crash(Fault::MemoryIndex(1024))));
    let r = run("sb $1, 1023($0)\n");
    assert!(matches!(last(&r), Event::Executed));
}

#[test]
fn memory_operand_without_parentheses_stops() {
    let r = run("lw $1, 8\n");
    assert!(matches!(last(&r), Event::BadOffset));
}

#[test]
fn memory_operand_with_reversed_parentheses_crashes() {
    let r = run("lw $1, )(\n");
    assert!(matches!(last(&r), Event::Crash(Fault::OffsetSlice)));
}

#[test]
fn register_above_31_crashes() {
    let r = run("addu $32, $0, $0\n");
    assert!(matches!(last(&r), Event::Crash(Fault::RegisterIndex(32))));
    let r = run("ori $1, $40, 1\n");
    assert!(matches!(last(&r), Event::Crash(Fault::RegisterIndex(40))));
}

#[test]
fn missing_operands_crash() {
    let r = run("addu $1, $2\n");
    assert!(matches!(last(&r), Event::Crash(Fault::MissingOperand)));
    let r = run("lw $1\n");
    assert!(matches!(last(&r), Event::Crash(Fault::MissingOperand)));
}

#[test]
fn unknown_mnemonic_stops() {
    let r = run("addu $1, $0, $0\nsyscall\n");
    assert!(matches!(last(&r), Event::UnknownOpcode(t) if t.is_empty()));
    let r = run("foo $1, $2\n");
    assert!(matches!(last(&r), Event::UnknownOpcode(t) if *t == vec!['f', 'o', 'o']));
}

#[test]
fn jump_runs_delay_slot_then_target() {
    let r = run("j skip\naddiu $1, $0, 1\naddiu $2, $0, 2\nskip:\naddiu $3, $0, 3\n");
    assert_eq!(reg(&r, 1), 1);
    assert_eq!(reg(&r, 2), 0);
    assert_eq!(reg(&r, 3), 3);
    assert_eq!(r.events.len(), 3);
}

#[test]
fn unknown_jump_label() {
    let r = run("j nowhere\naddiu $8, $0, 1\n");
    assert!(matches!(last(&r), Event::LabelNotFound(t) if *t == vec!['n', 'o', 'w', 'h', 'e', 'r', 'e']));
    assert_eq!(r.events.len(), 1);
    assert_eq!(reg(&r, 8), 0);
}

#[test]
fn conditional_branches() {
    let r = run("addiu $1, $0, 1\nbeq $1, $0, a\naddiu $2, $0, 2\nbne $1, $0, a\naddiu $3, $0, 3\naddiu $4, $0, 4\na:\naddiu $5, $0, 5\n");
    assert_eq!(reg(&r, 2), 2);
    assert_eq!(reg(&r, 3), 3);
    assert_eq!(reg(&r, 4), 0);
    assert_eq!(reg(&r, 5), 5);
}

#[test]
fn branch_on_sign() {
    let r = run("addiu $8, $0, -1\nbltz $8, skip\naddiu $9, $0, 1\naddiu $10, $0, 2\nskip:\naddiu $11, $0, 3\n");
    assert_eq!(reg(&r, 9), 1);
    assert_eq!(reg(&r, 10), 0);
    assert_eq!(reg(&r, 11), 3);
    assert_eq!(reg(&r, 8), 0xFFFF_FFFF);
    let r = run("addiu $1, $0, -1\nbgez $1, a\naddiu $2, $0, 2\naddiu $3, $0, 3\na:\n");
    assert_eq!(reg(&r, 2), 2);
    assert_eq!(reg(&r, 3), 3);
    let r = run("bltz $0, a\nbgez $0\n");
    assert!(matches!(last(&r), Event::Crash(Fault::MissingOperand)));
    let r = run("bgez $0, nowhere\n");
    assert!(matches!(last(&r), Event::LabelNotFound(t) if *t == vec!['n', 'o', 'w', 'h', 'e', 'r', 'e']));
}

#[test]
fn loop_counts_down() {
    let r = run("addiu $1, $0, 5\nloop:\naddiu $1, $1, -1\nbne $1, $0, loop\naddiu $2, $2, 1\n");
    assert_eq!(reg(&r, 1), 0);
    assert_eq!(reg(&r, 2), 5);
}

#[test]
fn load_delay_hazard_reported() {
    let r = run("sw $0, 0($0)\nlw $1, 0($0)\naddu $2, $1, $1\naddu $3, $1, $0\n");
    assert_eq!(r.hazards, vec![0, 0, 2, 0]);
    assert!(matches!(r.events[1], Event::Loaded));
    assert_eq!(r.machine.registers.delay_reg, 0);
    assert!(!r.machine.is_delay);
}

#[test]
fn consecutive_loads_keep_slot_open() {
    let r = run("lw $1, 0($0)\nlw $2, 0($1)\naddu $3, $2, $0\n");
    assert_eq!(r.hazards, vec![0, 1, 1]);
    assert_eq!(r.machine.registers.delay_reg, 0);
}

#[test]
fn fresh_machine() {
    let m = Machine::new(Memory::new());
    assert_eq!(m.pc, 0);
    assert!(!m.is_jmp);
    assert!(!m.is_delay);
    assert_eq!(m.registers.get(5), 0);
}

#[test]
fn writes_to_register_zero_are_lost() {
    let r = run("addiu $0, $0, 5\nlui $0, 1\naddu $1, $0, $0\n");
    assert_eq!(reg(&r, 0), 0);
    assert_eq!(reg(&r, 1), 0);
}

#[test]
fn hazards_before_a_crash_are_counted() {
    let r = run("lw $1, 0($0)\naddu $1, $1, $40\n");
    assert!(matches!(last(&r), Event::Crash(Fault::RegisterIndex(40))));
    assert_eq!(r.hazards, vec![0, 1]);
}

#[test]
fn hazard_query_on_registers() {
    let mut regs = Registers::new();
    assert!(!regs.is_delay_hazard(0));
    regs.set_delay(5);
    assert!(regs.is_delay_hazard(5));
    assert!(!regs.is_delay_hazard(4));
    assert!(!regs.is_delay_hazard(0));
    regs.set(5, 3);
    assert_eq!(regs.get(5), 3);
    regs.reset_delay();
    assert!(!regs.is_delay_hazard(5));
}

#[test]
fn register_reads_give_last_write() {
    let mut regs = Registers::new();
    regs.set(7, 1);
    regs.set_hilo(9);
    regs.set(7, 2);
    regs.set_delay(7);
    regs.set(8, 3);
    regs.reset_delay();
    assert_eq!(regs.get(7), 2);
    assert_eq!(regs.get(8), 3);
    assert_eq!(regs.get(9), 0);
}
