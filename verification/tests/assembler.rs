use ansl::data_as::DataSection;
use ansl::program_as::{FullRegister, Instruction, Opcode, Operand, Register, SubRegister};
use ansl::util::{decimal_string, to_nisvc_as_int, CompilerError};

#[test]
fn register_names() {
    assert_eq!(Register::new(FullRegister::R1, SubRegister::B1).compile(), "r1b1");
    assert_eq!(Register::new(FullRegister::RSP, SubRegister::Q3).compile(), "rspq3");
    assert_eq!(SubRegister::B2.compile(), "b3");
    assert_eq!(SubRegister::B3.compile(), "b4");
    assert_eq!(SubRegister::B4.compile(), "b2");
    assert_eq!(SubRegister::F.compile(), "f");
    assert_eq!(FullRegister::Null.compile(), "null");
    assert_eq!(FullRegister::R12.compile(), "r12");
}

#[test]
fn opcode_mnemonics() {
    assert_eq!(Opcode::Ldi.compile(), "ldi");
    assert_eq!(Opcode::Mov.compile(), "mov");
    assert_eq!(Opcode::Load.compile(), "load");
    assert_eq!(Opcode::Store.compile(), "store");
}

#[test]
fn integers_in_assembler_syntax() {
    assert_eq!(to_nisvc_as_int(&0), "$d0");
    assert_eq!(to_nisvc_as_int(&42), "$d42");
    assert_eq!(to_nisvc_as_int(&usize::MAX), format!("$d{}", usize::MAX));
    for n in [0usize, 7, 10, 99, 1000, 123456789] {
        assert_eq!(decimal_string(n).parse::<usize>().unwrap(), n);
    }
}

#[test]
fn instruction_with_register_and_literal() {
    let data = DataSection::new();
    let reg = Register::new(FullRegister::R1, SubRegister::B1);
    let ins = Instruction::new(Opcode::Ldi, vec![Operand::Register(reg), Operand::Literal(5)]);
    assert_eq!(ins.compile(&data).unwrap(), "ldi r1b1,$d5,");
    let empty = Instruction::new(Opcode::Mov, Vec::new());
    assert_eq!(empty.compile(&data).unwrap(), "mov ");
}

#[test]
fn label_operands() {
    let mut data = DataSection::new();
    data.add_label("msg", true);
    data.add_label("tbl", false);
    data.add_label("msg", false);
    let ins = Instruction::new(
        Opcode::Load,
        vec![Operand::Label("msg".to_string()), Operand::Label("tbl".to_string())],
    );
    assert_eq!(ins.compile(&data).unwrap(), "load @!msg,$!tbl,");
    let label = data.get_label("msg").ok().unwrap();
    assert!(label.is_relative);
    assert_eq!(label.name, "msg");
}

#[test]
fn undefined_label() {
    let data = DataSection::new();
    let op = Operand::Label("nope".to_string());
    let e = op.compile(&data).unwrap_err();
    assert_eq!(e.to_display_string(), "Error during compilation: undefined label `nope`");
    let ins = Instruction::new(Opcode::Store, vec![Operand::Literal(1), Operand::Label("nope".to_string())]);
    assert_eq!(
        ins.compile(&data).unwrap_err().to_display_string(),
        "Error during compilation: undefined label `nope`"
    );
    assert!(data.get_label("nope").is_err());
}

#[test]
fn compiler_error_display() {
    assert_eq!(CompilerError::new("boom").to_display_string(), "Error during compilation: boom");
}
