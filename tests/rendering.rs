use glouton::instruction::{Instruction, Label, Literal, Symbol, Type, Value};

#[test]
fn literals_render_as_text() {
    assert_eq!(Literal::Empty.to_string(), "NONE");
    assert_eq!(Literal::Int(-2147483648).to_string(), "-2147483648");
    assert_eq!(Literal::Int(0).to_string(), "0");
    assert_eq!(Literal::Int(1203).to_string(), "1203");
    assert_eq!(Literal::Bool(false).to_string(), "false");
    assert_eq!(Literal::Char('q').to_string(), "q");
}

#[test]
fn types_labels_and_values_render_as_text() {
    assert_eq!(Type::Unit.to_string(), "");
    assert_eq!(Type::Char.to_string(), "char");
    assert_eq!(Type::default(), Type::Unit);
    assert_eq!(Literal::default(), Literal::Empty);
    assert_eq!(Label(17).to_string(), "__LABEL_17");
    assert_eq!(Value::StorageLocation(Symbol::new("x", Type::Int)).to_string(), "x");
    assert_eq!(Value::ConstantLiteral(Literal::Char('z')).to_string(), "z");
}

#[test]
fn instructions_render_in_canonical_form() {
    let d = Symbol::new("t", Type::Bool);
    let a = || Value::StorageLocation(Symbol::new("a", Type::Int));
    let b = || Value::ConstantLiteral(Literal::Int(5));
    assert_eq!(Instruction::Gte(d.clone(), a(), b()).to_string(), "t: bool = gte a 5");
    assert_eq!(Instruction::Neq(d.clone(), a(), b()).to_string(), "t: bool = neq a 5");
    assert_eq!(Instruction::Not(d.clone(), a()).to_string(), "t: bool = not a");
    assert_eq!(Instruction::Const(d, Literal::Bool(true)).to_string(), "t: bool = const true");
    assert_eq!(Instruction::Jump(Label(3)).to_string(), "jump __LABEL_3");
    assert_eq!(Instruction::Label(3).to_string(), "__LABEL_3");
    assert_eq!(Instruction::Nop.to_string(), "nop");
    assert_eq!(Instruction::Call(Symbol::new("print", Type::Unit), vec![]).to_string(), "call @print");
}
