use glouton::function::{form_basic_blocks, Function};
use glouton::instruction::{Instruction, Label, Literal, OPCode, Symbol, Type, Value};
use glouton::optim::{FunctionRewriter, Identity, Transform, DCE, LVN};

fn int_sym(name: &str) -> Symbol {
    Symbol::new(name, Type::Int)
}

fn loc(name: &str) -> Value {
    Value::StorageLocation(int_sym(name))
}

fn konst(name: &str, v: i32) -> Instruction {
    Instruction::Const(int_sym(name), Literal::Int(v))
}

fn copy(dst: &str, src: &str) -> Instruction {
    Instruction::Id(int_sym(dst), loc(src))
}

fn body(f: &Function) -> Vec<String> {
    f.instructions().iter().map(|i| i.to_string()).collect()
}

/// `int a = 4; int b = 2; int c = 1; int d = a + b; return d;` lowered.
fn single_dead_store() -> Function {
    let mut f = Function::new("main", Type::Int);
    f.push(konst("%v0", 4));
    f.push(copy("a", "%v0"));
    f.push(konst("%v1", 2));
    f.push(copy("b", "%v1"));
    f.push(konst("%v2", 1));
    f.push(copy("c", "%v2"));
    f.push(Instruction::Add(int_sym("%v3"), loc("a"), loc("b")));
    f.push(copy("d", "%v3"));
    f.push(Instruction::Return(loc("d")));
    f
}

#[test]
fn can_do_nothing_on_input_program() {
    let mut f = Function::new("main", Type::Int);
    f.push(konst("%v0", 42));
    f.push(Instruction::Return(loc("%v0")));
    Identity {}.run(&mut f);
    DCE {}.run(&mut f);
    assert_eq!(f.to_string(), "@main: int {\n   %v0: int = const 42\n   ret %v0\n}");
}

#[test]
fn can_trivially_dce_single_dead_store() {
    let mut f = single_dead_store();
    Identity {}.run(&mut f);
    DCE {}.run(&mut f);
    assert_eq!(
        f.to_string(),
        "@main: int {\n   %v0: int = const 4\n   a: int = id %v0\n   %v1: int = const 2\n   \
         b: int = id %v1\n   %v3: int = add a b\n   d: int = id %v3\n   ret d\n}"
    );
}

#[test]
fn one_dce_round_removes_only_unread_destinations() {
    let mut f = single_dead_store();
    assert!(DCE::tdce(&mut f));
    assert_eq!(f.len(), 8);
    assert!(DCE::tdce(&mut f));
    assert_eq!(f.len(), 7);
    assert!(!DCE::tdce(&mut f));
    assert_eq!(f.len(), 7);
}

#[test]
fn can_trivially_dce_multiple_dead_stores() {
    let mut f = Function::new("main", Type::Int);
    let values = [42, 313, 212, 111, 414, 515, 616];
    let names = ["a", "b", "c", "d", "e", "f", "g"];
    for k in 0..7 {
        let tmp = format!("%v{k}");
        f.push(konst(&tmp, values[k]));
        f.push(copy(names[k], &tmp));
    }
    f.push(Instruction::Return(loc("a")));
    DCE {}.run(&mut f);
    assert_eq!(f.to_string(), "@main: int {\n   %v0: int = const 42\n   a: int = id %v0\n   ret a\n}");
}

#[test]
fn dce_twice_equals_dce_once() {
    let mut once = single_dead_store();
    DCE {}.run(&mut once);
    let mut twice = single_dead_store();
    DCE {}.run(&mut twice);
    DCE {}.run(&mut twice);
    assert_eq!(body(&once), body(&twice));
    assert!(!DCE::tdce(&mut twice));
}

#[test]
fn dce_leaves_no_dangling_use() {
    let mut f = single_dead_store();
    DCE {}.run(&mut f);
    let defined: Vec<String> = f
        .instructions()
        .iter()
        .filter_map(|i| i.destination().map(|d| d.name.clone()))
        .collect();
    for inst in f.instructions() {
        let (a, b) = inst.operands();
        for v in [a, b].into_iter().flatten() {
            if let Value::StorageLocation(s) = v {
                assert!(defined.contains(&s.name), "{} has no definition", s.name);
            }
        }
    }
}

#[test]
fn dce_keeps_side_effects_and_reads_of_every_kind() {
    let mut f = Function::new("f", Type::Unit);
    f.push(konst("x", 1));
    f.push(konst("y", 2));
    f.push(konst("z", 3));
    f.push(Instruction::Const(Symbol::new("p", Type::Bool), Literal::Bool(true)));
    f.push(Instruction::Call(int_sym("g"), vec![loc("x"), Value::ConstantLiteral(Literal::Int(7))]));
    f.push(Instruction::Branch(Symbol::new("p", Type::Bool), Label(0), Label(1)));
    f.push(Instruction::Label(0));
    f.push(Instruction::Add(int_sym("w"), loc("y"), Value::ConstantLiteral(Literal::Int(1))));
    f.push(Instruction::Return(loc("w")));
    f.push(Instruction::Label(1));
    f.push(Instruction::Jump(Label(0)));
    f.push(Instruction::Nop);
    DCE {}.run(&mut f);
    let text = body(&f);
    assert_eq!(
        text,
        vec![
            "x: int = const 1",
            "y: int = const 2",
            "p: bool = const true",
            "call @g x 7",
            "br p __LABEL_0 __LABEL_1",
            "__LABEL_0",
            "w: int = add y 1",
            "ret w",
            "__LABEL_1",
            "jump __LABEL_0",
        ]
    );
}

#[test]
fn basic_blocks_split_at_labels_and_transfers() {
    let mut f = Function::new("f", Type::Int);
    f.push(konst("a", 1));
    f.push(Instruction::Branch(Symbol::new("c", Type::Bool), Label(0), Label(1)));
    f.push(Instruction::Label(0));
    f.push(konst("b", 2));
    f.push(Instruction::Jump(Label(1)));
    f.push(Instruction::Label(1));
    f.push(Instruction::Return(loc("a")));
    f.push(konst("d", 3));
    assert_eq!(form_basic_blocks(&f), vec![(0, 2), (2, 5), (5, 7), (7, 8)]);
    assert_eq!(form_basic_blocks(&Function::new("e", Type::Unit)), vec![]);
}

#[test]
fn lvn_folds_constants() {
    let mut f = Function::new("f", Type::Int);
    f.push(konst("a", 4));
    f.push(konst("b", 2));
    f.push(Instruction::Add(int_sym("x"), loc("a"), loc("b")));
    f.push(konst("z", 0));
    f.push(Instruction::Div(int_sym("y"), loc("a"), loc("z")));
    f.push(Instruction::Return(loc("x")));
    LVN {}.run(&mut f);
    assert_eq!(
        body(&f),
        vec![
            "a: int = const 4",
            "b: int = const 2",
            "x: int = const 6",
            "z: int = const 0",
            "y: int = div a z",
            "ret x",
        ]
    );
}

#[test]
fn lvn_folds_comparisons_and_unary_operators() {
    let mut f = Function::new("f", Type::Int);
    f.push(konst("a", 4));
    f.push(Instruction::Lt(Symbol::new("p", Type::Bool), loc("a"), Value::ConstantLiteral(Literal::Int(9))));
    f.push(Instruction::Not(Symbol::new("q", Type::Bool), Value::StorageLocation(Symbol::new("p", Type::Bool))));
    f.push(Instruction::Neg(int_sym("n"), loc("a")));
    f.push(konst("m", i32::MAX));
    f.push(Instruction::Add(int_sym("o"), loc("m"), loc("a")));
    LVN {}.run(&mut f);
    assert_eq!(
        body(&f),
        vec![
            "a: int = const 4",
            "p: bool = const true",
            "q: bool = const false",
            "n: int = const -4",
            "m: int = const 2147483647",
            "o: int = add m a",
        ]
    );
}

#[test]
fn lvn_replaces_common_subexpression_with_copy() {
    let mut f = Function::new("f", Type::Int);
    f.push(Instruction::Add(int_sym("c"), loc("a"), loc("b")));
    f.push(Instruction::Mul(int_sym("e"), loc("c"), loc("c")));
    f.push(Instruction::Add(int_sym("d"), loc("a"), loc("b")));
    f.push(Instruction::Return(loc("d")));
    LVN {}.run(&mut f);
    assert_eq!(body(&f), vec!["c: int = add a b", "e: int = mul c c", "d: int = id c", "ret d"]);
}

#[test]
fn lvn_sees_through_copies() {
    let mut f = Function::new("f", Type::Int);
    f.push(Instruction::Add(int_sym("c"), loc("a"), loc("b")));
    f.push(copy("x", "a"));
    f.push(Instruction::Add(int_sym("d"), loc("x"), loc("b")));
    LVN {}.run(&mut f);
    assert_eq!(body(&f), vec!["c: int = add a b", "x: int = id a", "d: int = id c"]);
}

#[test]
fn lvn_does_not_reuse_a_redefined_holder() {
    let mut f = Function::new("f", Type::Int);
    f.push(Instruction::Add(int_sym("c"), loc("a"), loc("b")));
    f.push(konst("c", 0));
    f.push(Instruction::Add(int_sym("d"), loc("a"), loc("b")));
    f.push(konst("a", 1));
    f.push(Instruction::Add(int_sym("e"), loc("a"), loc("b")));
    LVN {}.run(&mut f);
    assert_eq!(
        body(&f),
        vec!["c: int = add a b", "c: int = const 0", "d: int = add a b", "a: int = const 1", "e: int = add a b"]
    );
}

#[test]
fn lvn_keeps_divergent_assignments_in_separate_blocks() {
    // int a = 4; int b = 2; int c = 0;
    // if (a < b) { c = a + b; } else { c = a - b; } return c;
    let mut f = Function::new("main", Type::Int);
    f.push(konst("%v0", 4));
    f.push(copy("a", "%v0"));
    f.push(konst("%v1", 2));
    f.push(copy("b", "%v1"));
    f.push(konst("%v2", 0));
    f.push(copy("c", "%v2"));
    f.push(Instruction::Lt(Symbol::new("%v3", Type::Bool), loc("a"), loc("b")));
    f.push(Instruction::Branch(Symbol::new("%v3", Type::Bool), Label(0), Label(1)));
    f.push(Instruction::Label(0));
    f.push(Instruction::Add(int_sym("%v4"), loc("a"), loc("b")));
    f.push(copy("c", "%v4"));
    f.push(Instruction::Jump(Label(2)));
    f.push(Instruction::Label(1));
    f.push(Instruction::Sub(int_sym("%v5"), loc("a"), loc("b")));
    f.push(copy("c", "%v5"));
    f.push(Instruction::Jump(Label(2)));
    f.push(Instruction::Label(2));
    f.push(Instruction::Return(loc("c")));
    LVN {}.run(&mut f);
    DCE {}.run(&mut f);
    assert_eq!(
        body(&f),
        vec![
            "%v0: int = const 4",
            "a: int = id %v0",
            "%v1: int = const 2",
            "b: int = id %v1",
            "%v2: int = const 0",
            "c: int = id %v2",
            "%v3: bool = const false",
            "br %v3 __LABEL_0 __LABEL_1",
            "__LABEL_0",
            "%v4: int = add a b",
            "c: int = id %v4",
            "jump __LABEL_2",
            "__LABEL_1",
            "%v5: int = sub a b",
            "c: int = id %v5",
            "jump __LABEL_2",
            "__LABEL_2",
            "ret c",
        ]
    );
}

#[test]
fn accessors_follow_the_variant() {
    let add = Instruction::Add(int_sym("x"), loc("a"), Value::ConstantLiteral(Literal::Int(3)));
    assert_eq!(add.opcode(), OPCode::Add);
    assert_eq!(add.destination(), Some(&int_sym("x")));
    assert_eq!(add.operands(), (Some(&loc("a")), Some(&Value::ConstantLiteral(Literal::Int(3)))));
    let ret = Instruction::Return(loc("x"));
    assert_eq!(ret.opcode(), OPCode::Return);
    assert_eq!(ret.destination(), None);
    assert_eq!(ret.operands(), (Some(&loc("x")), None));
    let br = Instruction::Branch(int_sym("c"), Label(1), Label(2));
    assert_eq!(br.opcode(), OPCode::Branch);
    assert_eq!(br.operands(), (None, None));
    assert_eq!(Instruction::Nop.opcode(), OPCode::Nop);
    assert_eq!(Instruction::Label(3).opcode(), OPCode::Label);
}

#[test]
fn replace_and_compact_keep_order() {
    let mut f = Function::new("f", Type::Int);
    f.push(konst("a", 1));
    f.push(konst("b", 2));
    f.push(konst("c", 3));
    let old = f.replace(1, Instruction::Nop);
    assert_eq!(old, konst("b", 2));
    f.remove_dead_instructions();
    assert_eq!(body(&f), vec!["a: int = const 1", "c: int = const 3"]);
}

#[test]
fn rewriter_applies_a_pass() {
    let mut f = single_dead_store();
    FunctionRewriter::rewrite(&mut f, &DCE {});
    assert_eq!(f.len(), 7);
    FunctionRewriter::rewrite(&mut f, &Identity {});
    assert_eq!(f.len(), 7);
}

#[test]
fn lvn_reuses_a_copy_after_the_first_holder_is_redefined() {
    let mut f = Function::new("f", Type::Int);
    f.push(Instruction::Add(int_sym("x"), loc("a"), loc("b")));
    f.push(Instruction::Add(int_sym("c"), loc("a"), loc("b")));
    f.push(konst("x", 1));
    f.push(Instruction::Add(int_sym("d"), loc("a"), loc("b")));
    LVN {}.run(&mut f);
    assert_eq!(
        body(&f),
        vec!["x: int = add a b", "c: int = id x", "x: int = const 1", "d: int = id c"]
    );
}

#[test]
fn lvn_folds_through_copies_and_earlier_folds() {
    let mut f = single_dead_store();
    LVN {}.run(&mut f);
    assert_eq!(
        body(&f),
        vec![
            "%v0: int = const 4",
            "a: int = id %v0",
            "%v1: int = const 2",
            "b: int = id %v1",
            "%v2: int = const 1",
            "c: int = id %v2",
            "%v3: int = const 6",
            "d: int = id %v3",
            "ret d",
        ]
    );
}

#[test]
fn lvn_reuses_operation_on_a_literal_operand() {
    let mut f = Function::new("f", Type::Int);
    f.push(Instruction::Add(int_sym("r"), loc("a"), Value::ConstantLiteral(Literal::Int(2))));
    f.push(Instruction::Add(int_sym("s"), loc("a"), Value::ConstantLiteral(Literal::Int(2))));
    LVN {}.run(&mut f);
    assert_eq!(body(&f), vec!["r: int = add a 2", "s: int = id r"]);
}

#[test]
fn rewriter_with_identity_keeps_the_body() {
    let mut f = single_dead_store();
    FunctionRewriter::rewrite(&mut f, &Identity {});
    assert_eq!(body(&f), body(&single_dead_store()));
}
