//! The shape of an instruction line: the mnemonic before the first white
//! space, then comma-separated operands.
use vstd::prelude::*;

use crate::text::{
    same_text, split_by, split_on, split_once_space, split_once_whitespace, trim, trimmed, views,
};

verus! {

/// The mnemonics the machine executes.
#[derive(Clone, Copy)]
pub enum Opcode {
    Ori,
    Andi,
    Xori,
    Sll,
    Srl,
    Sra,
    Or,
    And,
    Xor,
    Nor,
    Addu,
    Add,
    Addiu,
    Addi,
    Subu,
    Sub,
    Mult,
    Multu,
    Mfhi,
    Mflo,
    Div,
    Divu,
    Lw,
    Sw,
    Lui,
    Lb,
    Lbu,
    Sb,
    Lh,
    Lhu,
    Sh,
    J,
    Beq,
    Bne,
    Bltz,
    Bgez,
    Slt,
    Sltu,
    Slti,
    Sltiu,
}

/// The opcode that the mnemonic `m` names.
pub open spec fn opcode_of(m: Seq<char>) -> Option<Opcode> {
    if m == "ori"@ {
        Some(Opcode::Ori)
    } else if m == "andi"@ {
        Some(Opcode::Andi)
    } else if m == "xori"@ {
        Some(Opcode::Xori)
    } else if m == "sll"@ {
        Some(Opcode::Sll)
    } else if m == "srl"@ {
        Some(Opcode::Srl)
    } else if m == "sra"@ {
        Some(Opcode::Sra)
    } else if m == "or"@ {
        Some(Opcode::Or)
    } else if m == "and"@ {
        Some(Opcode::And)
    } else if m == "xor"@ {
        Some(Opcode::Xor)
    } else if m == "nor"@ {
        Some(Opcode::Nor)
    } else if m == "addu"@ {
        Some(Opcode::Addu)
    } else if m == "add"@ {
        Some(Opcode::Add)
    } else if m == "addiu"@ {
        Some(Opcode::Addiu)
    } else if m == "addi"@ {
        Some(Opcode::Addi)
    } else if m == "subu"@ {
        Some(Opcode::Subu)
    } else if m == "sub"@ {
        Some(Opcode::Sub)
    } else if m == "mult"@ {
        Some(Opcode::Mult)
    } else if m == "multu"@ {
        Some(Opcode::Multu)
    } else if m == "mfhi"@ {
        Some(Opcode::Mfhi)
    } else if m == "mflo"@ {
        Some(Opcode::Mflo)
    } else if m == "div"@ {
        Some(Opcode::Div)
    } else if m == "divu"@ {
        Some(Opcode::Divu)
    } else if m == "lw"@ {
        Some(Opcode::Lw)
    } else if m == "sw"@ {
        Some(Opcode::Sw)
    } else if m == "lui"@ {
        Some(Opcode::Lui)
    } else if m == "lb"@ {
        Some(Opcode::Lb)
    } else if m == "lbu"@ {
        Some(Opcode::Lbu)
    } else if m == "sb"@ {
        Some(Opcode::Sb)
    } else if m == "lh"@ {
        Some(Opcode::Lh)
    } else if m == "lhu"@ {
        Some(Opcode::Lhu)
    } else if m == "sh"@ {
        Some(Opcode::Sh)
    } else if m == "j"@ {
        Some(Opcode::J)
    } else if m == "beq"@ {
        Some(Opcode::Beq)
    } else if m == "bne"@ {
        Some(Opcode::Bne)
    } else if m == "bltz"@ {
        Some(Opcode::Bltz)
    } else if m == "bgez"@ {
        Some(Opcode::Bgez)
    } else if m == "slt"@ {
        Some(Opcode::Slt)
    } else if m == "sltu"@ {
        Some(Opcode::Sltu)
    } else if m == "slti"@ {
        Some(Opcode::Slti)
    } else if m == "sltiu"@ {
        Some(Opcode::Sltiu)
    } else {
        None
    }
}

/// The mnemonic and the trimmed comma-separated operands of an instruction
/// line; a line without white space has an empty mnemonic and one empty
/// operand.
pub open spec fn instruction_parts(line: Seq<char>) -> (Seq<char>, Seq<Seq<char>>) {
    let (m, rest) = match split_once_space(line) {
        Some(p) => p,
        None => (Seq::<char>::empty(), Seq::<char>::empty()),
    };
    (m, split_on(trimmed(rest), ',').map_values(|f: Seq<char>| trimmed(f)))
}

/// The opcode that the mnemonic `m` names.
pub fn opcode(m: &[char]) -> (r: Option<Opcode>)
    ensures
        r == opcode_of(m@),
{
    if same_text(m, "ori") {
        Some(Opcode::Ori)
    } else if same_text(m, "andi") {
        Some(Opcode::Andi)
    } else if same_text(m, "xori") {
        Some(Opcode::Xori)
    } else if same_text(m, "sll") {
        Some(Opcode::Sll)
    } else if same_text(m, "srl") {
        Some(Opcode::Srl)
    } else if same_text(m, "sra") {
        Some(Opcode::Sra)
    } else if same_text(m, "or") {
        Some(Opcode::Or)
    } else if same_text(m, "and") {
        Some(Opcode::And)
    } else if same_text(m, "xor") {
        Some(Opcode::Xor)
    } else if same_text(m, "nor") {
        Some(Opcode::Nor)
    } else if same_text(m, "addu") {
        Some(Opcode::Addu)
    } else if same_text(m, "add") {
        Some(Opcode::Add)
    } else if same_text(m, "addiu") {
        Some(Opcode::Addiu)
    } else if same_text(m, "addi") {
        Some(Opcode::Addi)
    } else if same_text(m, "subu") {
        Some(Opcode::Subu)
    } else if same_text(m, "sub") {
        Some(Opcode::Sub)
    } else if same_text(m, "mult") {
        Some(Opcode::Mult)
    } else if same_text(m, "multu") {
        Some(Opcode::Multu)
    } else if same_text(m, "mfhi") {
        Some(Opcode::Mfhi)
    } else if same_text(m, "mflo") {
        Some(Opcode::Mflo)
    } else if same_text(m, "div") {
        Some(Opcode::Div)
    } else if same_text(m, "divu") {
        Some(Opcode::Divu)
    } else if same_text(m, "lw") {
        Some(Opcode::Lw)
    } else if same_text(m, "sw") {
        Some(Opcode::Sw)
    } else if same_text(m, "lui") {
        Some(Opcode::Lui)
    } else if same_text(m, "lb") {
        Some(Opcode::Lb)
    } else if same_text(m, "lbu") {
        Some(Opcode::Lbu)
    } else if same_text(m, "sb") {
        Some(Opcode::Sb)
    } else if same_text(m, "lh") {
        Some(Opcode::Lh)
    } else if same_text(m, "lhu") {
        Some(Opcode::Lhu)
    } else if same_text(m, "sh") {
        Some(Opcode::Sh)
    } else if same_text(m, "j") {
        Some(Opcode::J)
    } else if same_text(m, "beq") {
        Some(Opcode::Beq)
    } else if same_text(m, "bne") {
        Some(Opcode::Bne)
    } else if same_text(m, "bltz") {
        Some(Opcode::Bltz)
    } else if same_text(m, "bgez") {
        Some(Opcode::Bgez)
    } else if same_text(m, "slt") {
        Some(Opcode::Slt)
    } else if same_text(m, "sltu") {
        Some(Opcode::Sltu)
    } else if same_text(m, "slti") {
        Some(Opcode::Slti)
    } else if same_text(m, "sltiu") {
        Some(Opcode::Sltiu)
    } else {
        None
    }
}

/// The mnemonic and the trimmed operands of an instruction line.
pub fn split_instruction(line: &[char]) -> (r: (Vec<char>, Vec<Vec<char>>))
    ensures
        (r.0@, views(r.1@)) == instruction_parts(line@),
{
    let (m, rest) = match split_once_whitespace(line) {
        Some(p) => p,
        None => (Vec::new(), Vec::new()),
    };
    let body = trim(rest.as_slice());
    let raw = split_by(body.as_slice(), ',');
    let mut fields: Vec<Vec<char>> = Vec::new();
    let mut i: usize = 0;
    while i < raw.len()
        invariant
            i <= raw@.len(),
            fields@.len() == i,
            forall|j: int| 0 <= j < i ==> #[trigger] fields@[j]@ == trimmed(raw@[j]@),
        decreases raw@.len() - i,
    {
        let f = trim(raw[i].as_slice());
        fields.push(f);
        i = i + 1;
    }
    proof {
        assert(views(fields@) =~= views(raw@).map_values(|f: Seq<char>| trimmed(f)));
    }
    (m, fields)
}

} // verus!
