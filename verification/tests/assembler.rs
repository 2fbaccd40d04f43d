use lib::assembler::{assemble, AsmFault};

fn cs(s: &str) -> Vec<char> {
    s.chars().collect()
}

#[test]
fn blank_lines_and_comments_are_skipped() {
    let a = assemble("\n  // note\n   addu $1, $0, $0  \r\n\n");
    assert_eq!(a.program.lines, vec![cs("addu $1, $0, $0")]);
    assert!(a.fault.is_none());
}

#[test]
fn code_labels_name_line_indexes() {
    let a = assemble("start:\naddu $1, $0, $0\nnext:\nother:\nj start\n");
    assert_eq!(a.program.labels.get(&cs("start")), Some(0));
    assert_eq!(a.program.labels.get(&cs("next")), Some(1));
    assert_eq!(a.program.labels.get(&cs("other")), Some(1));
    assert_eq!(a.program.labels.get(&cs("j")), None);
    assert_eq!(a.program.lines.len(), 2);
}

#[test]
fn strings_are_laid_out_with_a_gap() {
    let a = assemble("msg:\n.asciiz \"Hi\"\nnum:\n.word 7\n");
    assert_eq!(a.program.labels.get(&cs("msg")), Some(0));
    assert_eq!(a.memory.get(0), b'H');
    assert_eq!(a.memory.get(1), b'i');
    assert_eq!(a.memory.get(2), 0);
    assert_eq!(a.program.labels.get(&cs("num")), Some(4));
    assert_eq!(a.memory.get(4), 7);
    assert!(a.program.lines.is_empty());
}

#[test]
fn words_are_little_endian_and_aligned() {
    let a = assemble("s:\n.asciiz \"a\"\nw:\n.word 1, -2, x\n");
    assert_eq!(a.program.labels.get(&cs("w")), Some(4));
    assert_eq!(a.memory.get(4), 1);
    assert_eq!(a.memory.get(8), 0xFE);
    assert_eq!(a.memory.get(11), 0xFF);
    assert_eq!(a.memory.get(12), 0);
}

#[test]
fn each_queued_label_gets_its_own_copy() {
    let a = assemble("a:\nb:\n.asciiz \"xy\"\n");
    assert_eq!(a.program.labels.get(&cs("b")), Some(0));
    assert_eq!(a.program.labels.get(&cs("a")), Some(3));
    assert_eq!(a.memory.get(3), b'x');
}

#[test]
fn data_without_label_is_ignored() {
    let a = assemble(".word 5\nx:\n.word 6\n");
    assert_eq!(a.program.labels.get(&cs("x")), Some(0));
    assert_eq!(a.memory.get(0), 6);
}

#[test]
fn unknown_directive_is_reported_and_keeps_older_labels() {
    let a = assemble("a:\nb:\n.space 4\naddu $1, $0, $0\n");
    assert_eq!(a.unknown_directives, vec![cs(".space")]);
    assert_eq!(a.program.labels.get(&cs("b")), None);
    assert_eq!(a.program.labels.get(&cs("a")), Some(0));
}

#[test]
fn data_past_memory_is_a_fault() {
    let mut src = String::from("big:\n.asciiz \"");
    for _ in 0..1025 {
        src.push('z');
    }
    src.push_str("\"\n");
    let a = assemble(&src);
    assert!(matches!(a.fault, Some(AsmFault::MemoryIndex(1024))));
}

#[test]
fn trailing_colons_are_dropped_from_label_names() {
    let a = assemble("go::\naddu $1, $0, $0\n");
    assert_eq!(a.program.labels.get(&cs("go")), Some(0));
}

#[test]
fn characters_are_cut_to_bytes() {
    let a = assemble("s:\n.asciiz \"\u{100}A\"\n");
    assert_eq!(a.memory.get(0), 0);
    assert_eq!(a.memory.get(1), b'A');
}

#[test]
fn program_is_the_instruction_lines_in_order() {
    let a = assemble("// c\nx:\n  addu $1, $0, $0\n.word 3\n\nv:\n.word 4\nj x\n");
    assert_eq!(a.program.lines, vec![cs("addu $1, $0, $0"), cs("j x")]);
}
