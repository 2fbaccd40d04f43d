use lib::instruction::{opcode, split_instruction, Opcode};
use lib::number::{offset_is_cuttable, parse_imm, parse_imm_signed, parse_offset, parse_reg};
use lib::text::{
    char_index_at_byte, chars_of, is_whitespace, slice_bytes, split_by, split_once_whitespace,
    trim, trim_hex_prefixes, CharSet, trim_end_matching, trim_start_matching,
};

fn cs(s: &str) -> Vec<char> {
    s.chars().collect()
}

#[test]
fn chars_of_keeps_every_character() {
    assert_eq!(chars_of("aé\u{3000}z"), vec!['a', 'é', '\u{3000}', 'z']);
    assert_eq!(chars_of(""), Vec::<char>::new());
}

#[test]
fn whitespace_follows_unicode() {
    assert!(is_whitespace(' '));
    assert!(is_whitespace('\t'));
    assert!(is_whitespace('\r'));
    assert!(is_whitespace('\u{a0}'));
    assert!(is_whitespace('\u{3000}'));
    assert!(!is_whitespace('a'));
    assert!(!is_whitespace('\u{200b}'));
}

#[test]
fn trimming() {
    assert_eq!(trim(&cs("  add $1 \t")), cs("add $1"));
    assert_eq!(trim(&cs("   ")), cs(""));
    assert_eq!(trim_start_matching(&cs("$$7"), CharSet::Just('$')), cs("7"));
    assert_eq!(trim_end_matching(&cs("loop::"), CharSet::Just(':')), cs("loop"));
    assert_eq!(trim_hex_prefixes(&cs("0x0x1f")), cs("1f"));
    assert_eq!(trim_hex_prefixes(&cs("0y1")), cs("0y1"));
}

#[test]
fn splitting() {
    assert_eq!(split_by(&cs("a,b,,c"), ','), vec![cs("a"), cs("b"), cs(""), cs("c")]);
    assert_eq!(split_by(&cs(""), ','), vec![cs("")]);
    assert_eq!(split_by(&cs("x,"), ','), vec![cs("x"), cs("")]);
    assert_eq!(split_once_whitespace(&cs("lw $1, 0($2)")), Some((cs("lw"), cs("$1, 0($2)"))));
    assert_eq!(split_once_whitespace(&cs("nop")), None);
}

#[test]
fn byte_offsets_follow_utf8() {
    let s = cs("é(1)");
    assert_eq!(char_index_at_byte(&s, 0), Some(0));
    assert_eq!(char_index_at_byte(&s, 1), None);
    assert_eq!(char_index_at_byte(&s, 2), Some(1));
    assert_eq!(char_index_at_byte(&s, 5), Some(4));
    assert_eq!(char_index_at_byte(&s, 6), None);
    assert_eq!(slice_bytes(&s, 2, 3), Some(cs("(")));
    assert_eq!(slice_bytes(&s, 3, 2), None);
    assert_eq!(slice_bytes(&s, 0, 1), None);
}

#[test]
fn register_operands() {
    assert_eq!(parse_reg(&cs("$8")), 8);
    assert_eq!(parse_reg(&cs("$$12")), 12);
    assert_eq!(parse_reg(&cs("31")), 31);
    assert_eq!(parse_reg(&cs("$t0")), 0);
    assert_eq!(parse_reg(&cs("$")), 0);
    assert_eq!(parse_reg(&cs("$+4")), 4);
    assert_eq!(parse_reg(&cs("$-4")), 0);
    assert_eq!(parse_reg(&cs("$99999999999999999999999")), 0);
}

#[test]
fn unsigned_immediates() {
    assert_eq!(parse_imm(&cs("0x1F")), 31);
    assert_eq!(parse_imm(&cs("0xffffffff")), 0xffff_ffff);
    assert_eq!(parse_imm(&cs("0x100000000")), 0);
    assert_eq!(parse_imm(&cs("0x0x10")), 16);
    assert_eq!(parse_imm(&cs("0x")), 0);
    assert_eq!(parse_imm(&cs("4294967295")), 4_294_967_295);
    assert_eq!(parse_imm(&cs("4294967296")), 0);
    assert_eq!(parse_imm(&cs("+5")), 5);
    assert_eq!(parse_imm(&cs("-5")), 0);
    assert_eq!(parse_imm(&cs("0010")), 10);
    assert_eq!(parse_imm(&cs("1_0")), 0);
}

#[test]
fn signed_immediates() {
    assert_eq!(parse_imm_signed(&cs("-5")), -5);
    assert_eq!(parse_imm_signed(&cs("+7")), 7);
    assert_eq!(parse_imm_signed(&cs("-2147483648")), i32::MIN);
    assert_eq!(parse_imm_signed(&cs("2147483647")), i32::MAX);
    assert_eq!(parse_imm_signed(&cs("2147483648")), 0);
    assert_eq!(parse_imm_signed(&cs("-")), 0);
    assert_eq!(parse_imm_signed(&cs("0x10")), 0);
    assert_eq!(parse_imm_signed(&cs("")), 0);
}

#[test]
fn memory_operands() {
    assert_eq!(parse_offset(&cs("4($5)")), Some((4, 5)));
    assert_eq!(parse_offset(&cs("-4($29)")), Some((-4, 29)));
    assert_eq!(parse_offset(&cs("($3)")), Some((0, 3)));
    assert_eq!(parse_offset(&cs("0x10($2)")), Some((16, 2)));
    assert_eq!(parse_offset(&cs("0x-8($2)")), Some((-8, 2)));
    assert_eq!(parse_offset(&cs("0xffffffff($2)")), Some((0, 2)));
    assert_eq!(parse_offset(&cs("()")), Some((0, 0)));
    assert_eq!(parse_offset(&cs("8")), None);
    assert_eq!(parse_offset(&cs("8($1")), None);
    assert!(offset_is_cuttable(&cs("4($5)")));
    assert!(offset_is_cuttable(&cs("8")));
    assert!(!offset_is_cuttable(&cs(")(")));
    assert!(!offset_is_cuttable(&cs("é(1)")));
}

#[test]
fn instruction_lines() {
    let (m, f) = split_instruction(&cs("addu $1, $2,$3"));
    assert_eq!(m, cs("addu"));
    assert_eq!(f, vec![cs("$1"), cs("$2"), cs("$3")]);
    let (m, f) = split_instruction(&cs("mfhi"));
    assert_eq!(m, cs(""));
    assert_eq!(f, vec![cs("")]);
    let (m, f) = split_instruction(&cs("j\tend"));
    assert_eq!(m, cs("j"));
    assert_eq!(f, vec![cs("end")]);
}

#[test]
fn mnemonics() {
    assert!(matches!(opcode(&cs("addiu")), Some(Opcode::Addiu)));
    assert!(matches!(opcode(&cs("sltiu")), Some(Opcode::Sltiu)));
    assert!(matches!(opcode(&cs("lhu")), Some(Opcode::Lhu)));
    assert!(opcode(&cs("ADDU")).is_none());
    assert!(opcode(&cs("syscall")).is_none());
    assert!(opcode(&cs("")).is_none());
}
