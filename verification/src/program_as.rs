//! The `.program` section of the assembler: registers, operands and instructions.
use vstd::prelude::*;
use crate::data_as::{find_label, undefined_label_message, DataSection};
use crate::text::{owned, push_char, push_str};
use crate::util::{decimal, to_nisvc_as_int, CompilerError};

verus! {

/// A part of a register.
#[derive(Debug, Clone, Copy, PartialEq, Eq, Structural)]
pub enum SubRegister {
    B1,
    B2,
    B3,
    B4,
    B5,
    B6,
    B7,
    B8,
    Q1,
    Q2,
    Q3,
    Q4,
    L,
    H,
    F,
}

/// The assembler name of a register part (`B2`, `B3` and `B4` are written `b3`, `b4` and `b2`).
pub open spec fn sub_register_text(s: SubRegister) -> Seq<char> {
    match s {
        SubRegister::B1 => "b1"@,
        SubRegister::B4 => "b2"@,
        SubRegister::B2 => "b3"@,
        SubRegister::B3 => "b4"@,
        SubRegister::B5 => "b5"@,
        SubRegister::B6 => "b6"@,
        SubRegister::B7 => "b7"@,
        SubRegister::B8 => "b8"@,
        SubRegister::Q1 => "q1"@,
        SubRegister::Q2 => "q2"@,
        SubRegister::Q3 => "q3"@,
        SubRegister::Q4 => "q4"@,
        SubRegister::L => "l"@,
        SubRegister::H => "h"@,
        SubRegister::F => "f"@,
    }
}

impl SubRegister {
    pub fn compile(&self) -> (r: &'static str)
        ensures
            r@ == sub_register_text(*self),
    {
        match self {
            SubRegister::B1 => "b1",
            SubRegister::B4 => "b2",
            SubRegister::B2 => "b3",
            SubRegister::B3 => "b4",
            SubRegister::B5 => "b5",
            SubRegister::B6 => "b6",
            SubRegister::B7 => "b7",
            SubRegister::B8 => "b8",
            SubRegister::Q1 => "q1",
            SubRegister::Q2 => "q2",
            SubRegister::Q3 => "q3",
            SubRegister::Q4 => "q4",
            SubRegister::L => "l",
            SubRegister::H => "h",
            SubRegister::F => "f",
        }
    }
}

/// A whole register.
#[derive(Debug, Clone, Copy, PartialEq, Eq, Structural)]
pub enum FullRegister {
    Null,
    PC,
    SP,
    RSP,
    R1,
    R2,
    R3,
    R4,
    R5,
    R6,
    R7,
    R8,
    R9,
    R10,
    R11,
    R12,
}

/// The assembler name of a register.
pub open spec fn full_register_text(r: FullRegister) -> Seq<char> {
    match r {
        FullRegister::Null => "null"@,
        FullRegister::PC => "pc"@,
        FullRegister::SP => "sp"@,
        FullRegister::RSP => "rsp"@,
        FullRegister::R1 => "r1"@,
        FullRegister::R2 => "r2"@,
        FullRegister::R3 => "r3"@,
        FullRegister::R4 => "r4"@,
        FullRegister::R5 => "r5"@,
        FullRegister::R6 => "r6"@,
        FullRegister::R7 => "r7"@,
        FullRegister::R8 => "r8"@,
        FullRegister::R9 => "r9"@,
        FullRegister::R10 => "r10"@,
        FullRegister::R11 => "r11"@,
        FullRegister::R12 => "r12"@,
    }
}

impl FullRegister {
    pub fn compile(&self) -> (r: &'static str)
        ensures
            r@ == full_register_text(*self),
    {
        match self {
            FullRegister::Null => "null",
            FullRegister::PC => "pc",
            FullRegister::SP => "sp",
            FullRegister::RSP => "rsp",
            FullRegister::R1 => "r1",
            FullRegister::R2 => "r2",
            FullRegister::R3 => "r3",
            FullRegister::R4 => "r4",
            FullRegister::R5 => "r5",
            FullRegister::R6 => "r6",
            FullRegister::R7 => "r7",
            FullRegister::R8 => "r8",
            FullRegister::R9 => "r9",
            FullRegister::R10 => "r10",
            FullRegister::R11 => "r11",
            FullRegister::R12 => "r12",
        }
    }
}

/// A part of a register.
#[derive(Debug, Clone, Copy, PartialEq, Eq, Structural)]
pub struct Register {
    pub full: FullRegister,
    pub sub: SubRegister,
}

/// The assembler name of a register part: the register's name, then the part's.
pub open spec fn register_text(r: Register) -> Seq<char> {
    full_register_text(r.full) + sub_register_text(r.sub)
}

impl Register {
    pub fn new(full: FullRegister, sub: SubRegister) -> (r: Self)
        ensures
            r == (Register { full, sub }),
    {
        Register { full, sub }
    }

    pub fn compile(&self) -> (r: String)
        ensures
            r@ == register_text(*self),
    {
        let full_str = self.full.compile();
        let sub_str = self.sub.compile();
        let mut s = owned(full_str);
        push_str(&mut s, sub_str);
        s
    }
}

/// An operand of an instruction.
pub enum Operand {
    Register(Register),
    Literal(usize),
    Label(String),
}

/// A label in assembler syntax: `@` for relative or `$` for absolute addressing, `!`, and the
/// label's name.
pub open spec fn label_text(name: Seq<char>, is_relative: bool) -> Seq<char> {
    seq![if is_relative { '@' } else { '$' }, '!'] + name
}

/// An operand in assembler syntax, or the error of an undefined label.
pub open spec fn operand_result(op: Operand, data: Seq<(Seq<char>, bool)>) -> Result<Seq<char>, Seq<char>> {
    match op {
        Operand::Register(r) => Ok(register_text(r)),
        Operand::Literal(n) => Ok(seq!['$', 'd'] + decimal(n as nat)),
        Operand::Label(l) => match find_label(data, l@) {
            Some(i) => Ok(label_text(data[i].0, data[i].1)),
            None => Err(undefined_label_message(l@)),
        },
    }
}

impl Operand {
    pub fn compile(&self, data: &DataSection) -> (r: Result<String, CompilerError>)
        ensures
            match operand_result(*self, data@) {
                Ok(t) => r matches Ok(s) && s@ == t,
                Err(m) => r matches Err(e) && e@ == m,
            },
    {
        match self {
            Operand::Register(register) => Ok(register.compile()),
            Operand::Literal(literal) => Ok(to_nisvc_as_int(literal)),
            Operand::Label(label) => Self::_compile_label(label.as_str(), data),
        }
    }

    fn _compile_label(label_name: &str, data: &DataSection) -> (r: Result<String, CompilerError>)
        ensures
            match find_label(data@, label_name@) {
                Some(i) => r matches Ok(s) && s@ == label_text(data@[i].0, data@[i].1),
                None => r matches Err(e) && e@ == undefined_label_message(label_name@),
            },
    {
        let label = match data.get_label(label_name) {
            Ok(l) => l,
            Err(e) => {
                return Err(e);
            },
        };
        let addressing_prefix = if label.is_relative {
            '@'
        } else {
            '$'
        };
        let mut compiled = String::new();
        push_char(&mut compiled, addressing_prefix);
        push_char(&mut compiled, '!');
        push_str(&mut compiled, label.name.as_str());
        assert(compiled@ =~= label_text(label.name@, label.is_relative));
        Ok(compiled)
    }
}

/// An instruction's operation.
#[derive(Debug, Clone, Copy, PartialEq, Eq, Structural)]
pub enum Opcode {
    Ldi,
    Mov,
    Load,
    Store,
}

/// The assembler mnemonic of an operation.
pub open spec fn opcode_text(o: Opcode) -> Seq<char> {
    match o {
        Opcode::Ldi => "ldi"@,
        Opcode::Mov => "mov"@,
        Opcode::Load => "load"@,
        Opcode::Store => "store"@,
    }
}

impl Opcode {
    pub fn compile(&self) -> (r: &'static str)
        ensures
            r@ == opcode_text(*self),
    {
        match self {
            Self::Ldi => "ldi",
            Self::Mov => "mov",
            Self::Load => "load",
            Self::Store => "store",
        }
    }
}

/// An instruction: an operation and its operands.
pub struct Instruction {
    opcode: Opcode,
    operands: Vec<Operand>,
}

/// The operands from the `i`th on in assembler syntax, each followed by a comma, after `acc`;
/// the first error stops it.
pub open spec fn operands_result(
    ops: Seq<Operand>,
    i: int,
    data: Seq<(Seq<char>, bool)>,
    acc: Seq<char>,
) -> Result<Seq<char>, Seq<char>>
    decreases ops.len() - i,
{
    if i < 0 || i >= ops.len() {
        Ok(acc)
    } else {
        match operand_result(ops[i], data) {
            Ok(t) => operands_result(ops, i + 1, data, acc + t + seq![',']),
            Err(m) => Err(m),
        }
    }
}

/// An instruction in assembler syntax: the mnemonic, a space and the operands.
pub open spec fn instruction_result(
    opcode: Opcode,
    ops: Seq<Operand>,
    data: Seq<(Seq<char>, bool)>,
) -> Result<Seq<char>, Seq<char>> {
    match operands_result(ops, 0, data, Seq::empty()) {
        Ok(t) => Ok(opcode_text(opcode) + seq![' '] + t),
        Err(m) => Err(m),
    }
}

impl Instruction {
    pub fn new(opcode: Opcode, operands: Vec<Operand>) -> (r: Self)
        ensures
            r.opcode() == opcode,
            r.operands() == operands@,
    {
        Instruction { opcode, operands }
    }

    pub closed spec fn opcode(&self) -> Opcode {
        self.opcode
    }

    pub closed spec fn operands(&self) -> Seq<Operand> {
        self.operands@
    }

    pub fn compile(&self, data: &DataSection) -> (r: Result<String, CompilerError>)
        ensures
            match instruction_result(self.opcode(), self.operands(), data@) {
                Ok(t) => r matches Ok(s) && s@ == t,
                Err(m) => r matches Err(e) && e@ == m,
            },
    {
        let mut compiled_opcode = owned(self.opcode.compile());
        push_char(&mut compiled_opcode, ' ');
        let compiled_operands = match self._compile_operands(data) {
            Ok(s) => s,
            Err(e) => {
                return Err(e);
            },
        };
        push_str(&mut compiled_opcode, compiled_operands.as_str());
        Ok(compiled_opcode)
    }

    fn _compile_operands(&self, data: &DataSection) -> (r: Result<String, CompilerError>)
        ensures
            match operands_result(self.operands(), 0, data@, Seq::empty()) {
                Ok(t) => r matches Ok(s) && s@ == t,
                Err(m) => r matches Err(e) && e@ == m,
            },
    {
        let mut compiled = String::new();
        let mut i: usize = 0;
        while i < self.operands.len()
            invariant
                i <= self.operands@.len(),
                operands_result(self.operands@, 0, data@, Seq::empty()) == operands_result(
                    self.operands@,
                    i as int,
                    data@,
                    compiled@,
                ),
            decreases self.operands@.len() - i,
        {
            let operand = &self.operands[i];
            match operand.compile(data) {
                Ok(s) => {
                    let ghost before = compiled@;
                    push_str(&mut compiled, s.as_str());
                    push_char(&mut compiled, ',');
                    assert(compiled@ =~= before + s@ + seq![',']);
                },
                Err(e) => {
                    return Err(e);
                },
            }
            i = i + 1;
        }
        Ok(compiled)
    }
}


/// The register that an assembler name is, if any.
pub open spec fn register_named(s: Seq<char>) -> Option<FullRegister> {
    if s == seq!['n', 'u', 'l', 'l'] {
        Some(FullRegister::Null)
    } else if s == seq!['p', 'c'] {
        Some(FullRegister::PC)
    } else if s == seq!['s', 'p'] {
        Some(FullRegister::SP)
    } else if s == seq!['r', 's', 'p'] {
        Some(FullRegister::RSP)
    } else if s == seq!['r', '1'] {
        Some(FullRegister::R1)
    } else if s == seq!['r', '2'] {
        Some(FullRegister::R2)
    } else if s == seq!['r', '3'] {
        Some(FullRegister::R3)
    } else if s == seq!['r', '4'] {
        Some(FullRegister::R4)
    } else if s == seq!['r', '5'] {
        Some(FullRegister::R5)
    } else if s == seq!['r', '6'] {
        Some(FullRegister::R6)
    } else if s == seq!['r', '7'] {
        Some(FullRegister::R7)
    } else if s == seq!['r', '8'] {
        Some(FullRegister::R8)
    } else if s == seq!['r', '9'] {
        Some(FullRegister::R9)
    } else if s == seq!['r', '1', '0'] {
        Some(FullRegister::R10)
    } else if s == seq!['r', '1', '1'] {
        Some(FullRegister::R11)
    } else if s == seq!['r', '1', '2'] {
        Some(FullRegister::R12)
    } else {
        None
    }
}

/// The register part that an assembler name is, if any.
pub open spec fn register_part_named(s: Seq<char>) -> Option<SubRegister> {
    if s == seq!['b', '1'] {
        Some(SubRegister::B1)
    } else if s == seq!['b', '3'] {
        Some(SubRegister::B2)
    } else if s == seq!['b', '4'] {
        Some(SubRegister::B3)
    } else if s == seq!['b', '2'] {
        Some(SubRegister::B4)
    } else if s == seq!['b', '5'] {
        Some(SubRegister::B5)
    } else if s == seq!['b', '6'] {
        Some(SubRegister::B6)
    } else if s == seq!['b', '7'] {
        Some(SubRegister::B7)
    } else if s == seq!['b', '8'] {
        Some(SubRegister::B8)
    } else if s == seq!['q', '1'] {
        Some(SubRegister::Q1)
    } else if s == seq!['q', '2'] {
        Some(SubRegister::Q2)
    } else if s == seq!['q', '3'] {
        Some(SubRegister::Q3)
    } else if s == seq!['q', '4'] {
        Some(SubRegister::Q4)
    } else if s == seq!['l'] {
        Some(SubRegister::L)
    } else if s == seq!['h'] {
        Some(SubRegister::H)
    } else if s == seq!['f'] {
        Some(SubRegister::F)
    } else {
        None
    }
}

/// The operation that an assembler name is, if any.
pub open spec fn operation_named(s: Seq<char>) -> Option<Opcode> {
    if s == seq!['l', 'd', 'i'] {
        Some(Opcode::Ldi)
    } else if s == seq!['m', 'o', 'v'] {
        Some(Opcode::Mov)
    } else if s == seq!['l', 'o', 'a', 'd'] {
        Some(Opcode::Load)
    } else if s == seq!['s', 't', 'o', 'r', 'e'] {
        Some(Opcode::Store)
    } else {
        None
    }
}

/// The number of a general register: 1 to 12 for `R1` to `R12`, 0 for the special ones.
pub open spec fn general_register_number(r: FullRegister) -> nat {
    match r {
        FullRegister::R1 => 1,
        FullRegister::R2 => 2,
        FullRegister::R3 => 3,
        FullRegister::R4 => 4,
        FullRegister::R5 => 5,
        FullRegister::R6 => 6,
        FullRegister::R7 => 7,
        FullRegister::R8 => 8,
        FullRegister::R9 => 9,
        FullRegister::R10 => 10,
        FullRegister::R11 => 11,
        FullRegister::R12 => 12,
        _ => 0,
    }
}

/// A general register is written `r` and its number in decimal.
pub proof fn law_general_register_name(r: FullRegister)
    requires
        general_register_number(r) > 0,
    ensures
        full_register_text(r) == seq!['r'] + decimal(general_register_number(r)),
{
    reveal_strlit("null");
    reveal_strlit("pc");
    reveal_strlit("sp");
    reveal_strlit("rsp");
    reveal_strlit("r1");
    reveal_strlit("r2");
    reveal_strlit("r3");
    reveal_strlit("r4");
    reveal_strlit("r5");
    reveal_strlit("r6");
    reveal_strlit("r7");
    reveal_strlit("r8");
    reveal_strlit("r9");
    reveal_strlit("r10");
    reveal_strlit("r11");
    reveal_strlit("r12");
    reveal_with_fuel(decimal, 3);
    assert(decimal(10) == seq!['1', '0']);
    assert(decimal(11) == seq!['1', '1']);
    assert(decimal(12) == seq!['1', '2']);
    assert(full_register_text(r) =~= seq!['r'] + decimal(general_register_number(r)));
}

proof fn lemma_register_named(x: FullRegister)
    ensures
        register_named(full_register_text(x)) == Some(x),
{
    match x {
        FullRegister::Null => {
            reveal_strlit("null");
            assert(full_register_text(x) =~= seq!['n', 'u', 'l', 'l']);
        },
        FullRegister::PC => {
            reveal_strlit("pc");
            assert(full_register_text(x) =~= seq!['p', 'c']);
        },
        FullRegister::SP => {
            reveal_strlit("sp");
            assert(full_register_text(x) =~= seq!['s', 'p']);
        },
        FullRegister::RSP => {
            reveal_strlit("rsp");
            assert(full_register_text(x) =~= seq!['r', 's', 'p']);
        },
        FullRegister::R1 => {
            reveal_strlit("r1");
            assert(full_register_text(x) =~= seq!['r', '1']);
        },
        FullRegister::R2 => {
            reveal_strlit("r2");
            assert(full_register_text(x) =~= seq!['r', '2']);
        },
        FullRegister::R3 => {
            reveal_strlit("r3");
            assert(full_register_text(x) =~= seq!['r', '3']);
        },
        FullRegister::R4 => {
            reveal_strlit("r4");
            assert(full_register_text(x) =~= seq!['r', '4']);
        },
        FullRegister::R5 => {
            reveal_strlit("r5");
            assert(full_register_text(x) =~= seq!['r', '5']);
        },
        FullRegister::R6 => {
            reveal_strlit("r6");
            assert(full_register_text(x) =~= seq!['r', '6']);
        },
        FullRegister::R7 => {
            reveal_strlit("r7");
            assert(full_register_text(x) =~= seq!['r', '7']);
        },
        FullRegister::R8 => {
            reveal_strlit("r8");
            assert(full_register_text(x) =~= seq!['r', '8']);
        },
        FullRegister::R9 => {
            reveal_strlit("r9");
            assert(full_register_text(x) =~= seq!['r', '9']);
        },
        FullRegister::R10 => {
            reveal_strlit("r10");
            assert(full_register_text(x) =~= seq!['r', '1', '0']);
        },
        FullRegister::R11 => {
            reveal_strlit("r11");
            assert(full_register_text(x) =~= seq!['r', '1', '1']);
        },
        FullRegister::R12 => {
            reveal_strlit("r12");
            assert(full_register_text(x) =~= seq!['r', '1', '2']);
        },
    }
}

/// Each register has a name of its own: the name written for a register reads back as that
/// register, so no two registers are written alike.
pub proof fn law_register_names_distinct(a: FullRegister, b: FullRegister)
    ensures
        register_named(full_register_text(a)) == Some(a),
        full_register_text(a) == full_register_text(b) ==> a == b,
{
    lemma_register_named(a);
    lemma_register_named(b);
}

proof fn lemma_register_part_named(x: SubRegister)
    ensures
        register_part_named(sub_register_text(x)) == Some(x),
{
    match x {
        SubRegister::B1 => {
            reveal_strlit("b1");
            assert(sub_register_text(x) =~= seq!['b', '1']);
            assert(register_part_named(seq!['b', '1']) == Some(SubRegister::B1));
        },
        SubRegister::B2 => {
            reveal_strlit("b3");
            assert(sub_register_text(x) =~= seq!['b', '3']);
            assert(register_part_named(seq!['b', '3']) == Some(SubRegister::B2));
        },
        SubRegister::B3 => {
            reveal_strlit("b4");
            assert(sub_register_text(x) =~= seq!['b', '4']);
            assert(register_part_named(seq!['b', '4']) == Some(SubRegister::B3));
        },
        SubRegister::B4 => {
            reveal_strlit("b2");
            assert(sub_register_text(x) =~= seq!['b', '2']);
            assert(register_part_named(seq!['b', '2']) == Some(SubRegister::B4));
        },
        SubRegister::B5 => {
            reveal_strlit("b5");
            assert(sub_register_text(x) =~= seq!['b', '5']);
            assert(register_part_named(seq!['b', '5']) == Some(SubRegister::B5));
        },
        SubRegister::B6 => {
            reveal_strlit("b6");
            assert(sub_register_text(x) =~= seq!['b', '6']);
            assert(register_part_named(seq!['b', '6']) == Some(SubRegister::B6));
        },
        SubRegister::B7 => {
            reveal_strlit("b7");
            assert(sub_register_text(x) =~= seq!['b', '7']);
            assert(register_part_named(seq!['b', '7']) == Some(SubRegister::B7));
        },
        SubRegister::B8 => {
            reveal_strlit("b8");
            assert(sub_register_text(x) =~= seq!['b', '8']);
            assert(register_part_named(seq!['b', '8']) == Some(SubRegister::B8));
        },
        SubRegister::Q1 => {
            reveal_strlit("q1");
            assert(sub_register_text(x) =~= seq!['q', '1']);
            assert(register_part_named(seq!['q', '1']) == Some(SubRegister::Q1));
        },
        SubRegister::Q2 => {
            reveal_strlit("q2");
            assert(sub_register_text(x) =~= seq!['q', '2']);
            assert(register_part_named(seq!['q', '2']) == Some(SubRegister::Q2));
        },
        SubRegister::Q3 => {
            reveal_strlit("q3");
            assert(sub_register_text(x) =~= seq!['q', '3']);
            assert(register_part_named(seq!['q', '3']) == Some(SubRegister::Q3));
        },
        SubRegister::Q4 => {
            reveal_strlit("q4");
            assert(sub_register_text(x) =~= seq!['q', '4']);
            assert(register_part_named(seq!['q', '4']) == Some(SubRegister::Q4));
        },
        SubRegister::L => {
            reveal_strlit("l");
            assert(sub_register_text(x) =~= seq!['l']);
            assert(register_part_named(seq!['l']) == Some(SubRegister::L));
        },
        SubRegister::H => {
            reveal_strlit("h");
            assert(sub_register_text(x) =~= seq!['h']);
            assert(seq!['h'][0] != seq!['l'][0]);
            assert(register_part_named(seq!['h']) == Some(SubRegister::H));
        },
        SubRegister::F => {
            reveal_strlit("f");
            assert(sub_register_text(x) =~= seq!['f']);
            assert(seq!['f'][0] != seq!['l'][0]);
            assert(seq!['f'][0] != seq!['h'][0]);
            assert(register_part_named(seq!['f']) == Some(SubRegister::F));
        },
    }
}

/// Each register part has a name of its own: the name written for a part reads back as that
/// part, so no two parts are written alike.
pub proof fn law_register_part_names_distinct(a: SubRegister, b: SubRegister)
    ensures
        register_part_named(sub_register_text(a)) == Some(a),
        sub_register_text(a) == sub_register_text(b) ==> a == b,
{
    lemma_register_part_named(a);
    lemma_register_part_named(b);
}

proof fn lemma_operation_named(x: Opcode)
    ensures
        operation_named(opcode_text(x)) == Some(x),
{
    match x {
        Opcode::Ldi => {
            reveal_strlit("ldi");
            assert(opcode_text(x) =~= seq!['l', 'd', 'i']);
        },
        Opcode::Mov => {
            reveal_strlit("mov");
            assert(opcode_text(x) =~= seq!['m', 'o', 'v']);
        },
        Opcode::Load => {
            reveal_strlit("load");
            assert(opcode_text(x) =~= seq!['l', 'o', 'a', 'd']);
        },
        Opcode::Store => {
            reveal_strlit("store");
            assert(opcode_text(x) =~= seq!['s', 't', 'o', 'r', 'e']);
        },
    }
}

/// Each operation has a mnemonic of its own: the mnemonic written for an operation reads back
/// as that operation, so no two operations are written alike.
pub proof fn law_operation_names_distinct(a: Opcode, b: Opcode)
    ensures
        operation_named(opcode_text(a)) == Some(a),
        opcode_text(a) == opcode_text(b) ==> a == b,
{
    lemma_operation_named(a);
    lemma_operation_named(b);
}

} // verus!
