# MIPS simulator, verified

A simulator for a subset of MIPS assembly: it lays out the `.asciiz` and
`.word` data of a source file in 1024 bytes of data memory, collects the
instruction lines and labels, and runs the instructions one machine cycle at a
time, with the load-delay slot, the branch delay slot, overflow stops for
`add`, `addi` and `sub`, and word/halfword alignment.

- `src/` is the library, verified with Verus:
  - `text.rs`: white space, trimming, splitting, and byte-offset slicing of text;
  - `number.rs`: decimal and hexadecimal literals, register, immediate and
    `offset(base)` operands;
  - `registers.rs`, `memory.rs`, `labels.rs`: the register file, data memory
    and label table;
  - `instruction.rs`: mnemonics and operands of an instruction line;
  - `machine.rs`: the machine cycle, specified per instruction;
  - `assembler.rs`: reading a source into program, labels and data memory;
  - `laws.rs`: properties across instructions (store/load round trips, the
    delay slots, register 0, HI/LO, label layout);
  - `bits.rs`: two's complement facts.
- `tests/` runs the library on concrete programs.
- `app/main.rs` reads `src/test.asm`, prints the first data bytes, and runs the
  program, printing the counter and registers R15..R8 after each instruction.
