//! Canonical one-line textual rendering of IR values and instructions.
use vstd::prelude::*;
use vstd::string::StringExecFns;
use crate::function::Function;
use crate::instruction::{Instruction, Label, Literal, Symbol, Type, Value};

verus! {

/// The decimal digit `d`.
pub open spec fn digit_char(d: nat) -> char {
    if d == 0 { '0' } else if d == 1 { '1' } else if d == 2 { '2' } else if d == 3 { '3' }
    else if d == 4 { '4' } else if d == 5 { '5' } else if d == 6 { '6' } else if d == 7 { '7' }
    else if d == 8 { '8' } else { '9' }
}

/// Decimal digits of `n`, most significant first, without leading zeros.
pub open spec fn nat_text(n: nat) -> Seq<char>
    decreases n,
{
    if n < 10 {
        seq![digit_char(n)]
    } else {
        nat_text(n / 10).push(digit_char(n % 10))
    }
}

/// Decimal rendering of `i`, with a leading `-` when negative.
pub open spec fn int_text(i: int) -> Seq<char> {
    if i < 0 {
        seq!['-'] + nat_text((-i) as nat)
    } else {
        nat_text(i as nat)
    }
}

pub open spec fn type_text(t: Type) -> Seq<char> {
    match t {
        Type::Unit => Seq::empty(),
        Type::Int => "int"@,
        Type::Bool => "bool"@,
        Type::Char => "char"@,
    }
}

pub open spec fn literal_text(l: Literal) -> Seq<char> {
    match l {
        Literal::Empty => "NONE"@,
        Literal::Int(v) => int_text(v as int),
        Literal::Bool(b) => if b { "true"@ } else { "false"@ },
        Literal::Char(c) => seq![c],
    }
}

pub open spec fn label_text(n: usize) -> Seq<char> {
    "__LABEL_"@ + nat_text(n as nat)
}

pub open spec fn value_text(v: Value) -> Seq<char> {
    match v {
        Value::StorageLocation(s) => s.name@,
        Value::ConstantLiteral(l) => literal_text(l),
    }
}

/// Call arguments, each preceded by a space.
pub open spec fn args_text(args: Seq<Value>) -> Seq<char>
    decreases args.len(),
{
    if args.len() == 0 {
        Seq::empty()
    } else {
        args_text(args.drop_last()) + " "@ + value_text(args.last())
    }
}

/// `<dst>: <type> = `
pub open spec fn dst_text(d: Symbol) -> Seq<char> {
    d.name@ + ": "@ + type_text(d.ty) + " = "@
}

pub open spec fn binary_text(d: Symbol, op: Seq<char>, a: Value, b: Value) -> Seq<char> {
    dst_text(d) + op + " "@ + value_text(a) + " "@ + value_text(b)
}

pub open spec fn unary_text(d: Symbol, op: Seq<char>, a: Value) -> Seq<char> {
    dst_text(d) + op + " "@ + value_text(a)
}

/// The one-line rendering of an instruction.
pub open spec fn inst_text(inst: Instruction) -> Seq<char> {
    match inst {
        Instruction::Const(d, l) => dst_text(d) + "const "@ + literal_text(l),
        Instruction::Add(d, a, b) => binary_text(d, "add"@, a, b),
        Instruction::Sub(d, a, b) => binary_text(d, "sub"@, a, b),
        Instruction::Mul(d, a, b) => binary_text(d, "mul"@, a, b),
        Instruction::Div(d, a, b) => binary_text(d, "div"@, a, b),
        Instruction::And(d, a, b) => binary_text(d, "and"@, a, b),
        Instruction::Or(d, a, b) => binary_text(d, "or"@, a, b),
        Instruction::Eq(d, a, b) => binary_text(d, "eq"@, a, b),
        Instruction::Neq(d, a, b) => binary_text(d, "neq"@, a, b),
        Instruction::Lt(d, a, b) => binary_text(d, "lt"@, a, b),
        Instruction::Lte(d, a, b) => binary_text(d, "lte"@, a, b),
        Instruction::Gt(d, a, b) => binary_text(d, "gt"@, a, b),
        Instruction::Gte(d, a, b) => binary_text(d, "gte"@, a, b),
        Instruction::Not(d, a) => unary_text(d, "not"@, a),
        Instruction::Neg(d, a) => unary_text(d, "neg"@, a),
        Instruction::Id(d, a) => unary_text(d, "id"@, a),
        Instruction::Return(v) => "ret "@ + value_text(v),
        Instruction::Call(f, args) => "call @"@ + f.name@ + args_text(args@),
        Instruction::Jump(l) => "jump "@ + label_text(l.0),
        Instruction::Branch(c, t, e) => "br "@ + c.name@ + " "@ + label_text(t.0) + " "@
            + label_text(e.0),
        Instruction::Label(n) => label_text(n),
        Instruction::Nop => "nop"@,
    }
}

/// The body lines of a function, each indented by three spaces and ended
/// by a newline.
pub open spec fn body_text(s: Seq<Instruction>) -> Seq<char>
    decreases s.len(),
{
    if s.len() == 0 {
        Seq::empty()
    } else {
        body_text(s.drop_last()) + "   "@ + inst_text(s.last()) + "\n"@
    }
}

/// Relies on `String::push`: appends one character.
#[verifier::external_body]
pub(crate) fn push_char(s: &mut String, c: char)
    ensures
        final(s)@ == old(s)@.push(c),
{
    s.push(c)
}

fn digit(d: u64) -> (r: char)
    requires
        d < 10,
    ensures
        r == digit_char(d as nat),
{
    if d == 0 { '0' } else if d == 1 { '1' } else if d == 2 { '2' } else if d == 3 { '3' }
    else if d == 4 { '4' } else if d == 5 { '5' } else if d == 6 { '6' } else if d == 7 { '7' }
    else if d == 8 { '8' } else { '9' }
}

/// Append the decimal digits of `n`.
pub fn push_nat(s: &mut String, n: u64)
    ensures
        final(s)@ == old(s)@ + nat_text(n as nat),
    decreases n,
{
    if n >= 10 {
        push_nat(s, n / 10);
        push_char(s, digit(n % 10));
        assert(final(s)@ =~= old(s)@ + nat_text(n as nat));
    } else {
        push_char(s, digit(n));
        assert(final(s)@ =~= old(s)@ + nat_text(n as nat));
    }
}

/// Append the decimal rendering of `i`.
pub fn push_int(s: &mut String, i: i32)
    ensures
        final(s)@ == old(s)@ + int_text(i as int),
{
    if i < 0 {
        push_char(s, '-');
        let m: u64 = (-(i as i64)) as u64;
        push_nat(s, m);
        assert(final(s)@ =~= old(s)@ + int_text(i as int));
    } else {
        push_nat(s, i as u64);
    }
}

impl Type {
    /// The name of the type; the unit type has an empty one.
    pub fn to_string(&self) -> (r: String)
        ensures
            r@ == type_text(*self),
    {
        match self {
            Type::Unit => String::new(),
            Type::Int => String::from_str("int"),
            Type::Bool => String::from_str("bool"),
            Type::Char => String::from_str("char"),
        }
    }
}

fn push_literal(s: &mut String, l: Literal)
    ensures
        final(s)@ == old(s)@ + literal_text(l),
{
    match l {
        Literal::Empty => s.append("NONE"),
        Literal::Int(v) => push_int(s, v),
        Literal::Bool(b) => if b {
            s.append("true")
        } else {
            s.append("false")
        },
        Literal::Char(c) => push_char(s, c),
    }
}

impl Literal {
    /// The literal as text: `NONE` for the empty value.
    pub fn to_string(&self) -> (r: String)
        ensures
            r@ == literal_text(*self),
    {
        let mut s = String::new();
        push_literal(&mut s, *self);
        assert(s@ =~= literal_text(*self));
        s
    }
}

fn push_label(s: &mut String, n: usize)
    ensures
        final(s)@ == old(s)@ + label_text(n),
{
    s.append("__LABEL_");
    push_nat(s, n as u64);
    assert(final(s)@ =~= old(s)@ + label_text(n));
}

impl Label {
    /// The label as text: `__LABEL_<n>`.
    pub fn to_string(&self) -> (r: String)
        ensures
            r@ == label_text(self.0),
    {
        let mut s = String::new();
        push_label(&mut s, self.0);
        assert(s@ =~= label_text(self.0));
        s
    }
}

fn push_value(s: &mut String, v: &Value)
    ensures
        final(s)@ == old(s)@ + value_text(*v),
{
    match v {
        Value::StorageLocation(sym) => s.append(sym.name.as_str()),
        Value::ConstantLiteral(l) => push_literal(s, *l),
    }
}

impl Value {
    /// The value as text: a symbol's name, or a literal.
    pub fn to_string(&self) -> (r: String)
        ensures
            r@ == value_text(*self),
    {
        let mut s = String::new();
        push_value(&mut s, self);
        assert(s@ =~= value_text(*self));
        s
    }
}

fn push_dst(s: &mut String, d: &Symbol)
    ensures
        final(s)@ == old(s)@ + dst_text(*d),
{
    s.append(d.name.as_str());
    s.append(": ");
    let t = d.ty.to_string();
    s.append(t.as_str());
    s.append(" = ");
    assert(final(s)@ =~= old(s)@ + dst_text(*d));
}

fn push_binary(s: &mut String, d: &Symbol, op: &str, a: &Value, b: &Value)
    ensures
        final(s)@ == old(s)@ + binary_text(*d, op@, *a, *b),
{
    push_dst(s, d);
    s.append(op);
    s.append(" ");
    push_value(s, a);
    s.append(" ");
    push_value(s, b);
    assert(final(s)@ =~= old(s)@ + binary_text(*d, op@, *a, *b));
}

fn push_unary(s: &mut String, d: &Symbol, op: &str, a: &Value)
    ensures
        final(s)@ == old(s)@ + unary_text(*d, op@, *a),
{
    push_dst(s, d);
    s.append(op);
    s.append(" ");
    push_value(s, a);
    assert(final(s)@ =~= old(s)@ + unary_text(*d, op@, *a));
}

fn push_instruction(s: &mut String, inst: &Instruction)
    ensures
        final(s)@ == old(s)@ + inst_text(*inst),
{
    let ghost s0 = s@;
    match inst {
        Instruction::Const(d, l) => {
            push_dst(s, d);
            s.append("const ");
            push_literal(s, *l);
        },
        Instruction::Add(d, a, b) => push_binary(s, d, "add", a, b),
        Instruction::Sub(d, a, b) => push_binary(s, d, "sub", a, b),
        Instruction::Mul(d, a, b) => push_binary(s, d, "mul", a, b),
        Instruction::Div(d, a, b) => push_binary(s, d, "div", a, b),
        Instruction::And(d, a, b) => push_binary(s, d, "and", a, b),
        Instruction::Or(d, a, b) => push_binary(s, d, "or", a, b),
        Instruction::Eq(d, a, b) => push_binary(s, d, "eq", a, b),
        Instruction::Neq(d, a, b) => push_binary(s, d, "neq", a, b),
        Instruction::Lt(d, a, b) => push_binary(s, d, "lt", a, b),
        Instruction::Lte(d, a, b) => push_binary(s, d, "lte", a, b),
        Instruction::Gt(d, a, b) => push_binary(s, d, "gt", a, b),
        Instruction::Gte(d, a, b) => push_binary(s, d, "gte", a, b),
        Instruction::Not(d, a) => push_unary(s, d, "not", a),
        Instruction::Neg(d, a) => push_unary(s, d, "neg", a),
        Instruction::Id(d, a) => push_unary(s, d, "id", a),
        Instruction::Return(v) => {
            s.append("ret ");
            push_value(s, v);
        },
        Instruction::Call(f, args) => {
            s.append("call @");
            s.append(f.name.as_str());
            let ghost s1 = s@;
            let mut i: usize = 0;
            while i < args.len()
                invariant
                    i <= args@.len(),
                    s@ == s1 + args_text(args@.subrange(0, i as int)),
                decreases args@.len() - i,
            {
                s.append(" ");
                push_value(s, &args[i]);
                assert(args@.subrange(0, i + 1).drop_last() =~= args@.subrange(0, i as int));
                i = i + 1;
            }
            assert(args@.subrange(0, i as int) =~= args@);
        },
        Instruction::Jump(l) => {
            s.append("jump ");
            push_label(s, l.0);
        },
        Instruction::Branch(c, t, e) => {
            s.append("br ");
            s.append(c.name.as_str());
            s.append(" ");
            push_label(s, t.0);
            s.append(" ");
            push_label(s, e.0);
        },
        Instruction::Label(n) => push_label(s, *n),
        Instruction::Nop => s.append("nop"),
    }
    assert(s@ =~= s0 + inst_text(*inst));
}

impl Instruction {
    /// The canonical one-line rendering: `<dst>: <type> = <opcode>
    /// <operands...>`, `ret <value>`, `call @<name> <args...>`,
    /// `jump <label>`, `br <cond> <then> <else>`, `__LABEL_<n>` or `nop`.
    pub fn to_string(&self) -> (r: String)
        ensures
            r@ == inst_text(*self),
    {
        let mut s = String::new();
        push_instruction(&mut s, self);
        assert(s@ =~= inst_text(*self));
        s
    }
}

impl Function {
    /// The function as text: `@<name>: <type> {`, then one indented line
    /// per instruction, then `}`.
    pub fn to_string(&self) -> (r: String)
        ensures
            r@ == "@"@ + self.spec_name() + ": "@ + type_text(self.spec_return_type()) + " {\n"@
                + body_text(self@) + "}"@,
    {
        let mut s = String::new();
        s.append("@");
        s.append(self.name().as_str());
        s.append(": ");
        let t = self.return_type().to_string();
        s.append(t.as_str());
        s.append(" {\n");
        let ghost s1 = s@;
        let body = self.instructions();
        let mut i: usize = 0;
        while i < body.len()
            invariant
                i <= body@.len(),
                body@ == self@,
                s@ == s1 + body_text(body@.subrange(0, i as int)),
            decreases body@.len() - i,
        {
            s.append("   ");
            push_instruction(&mut s, &body[i]);
            s.append("\n");
            assert(body@.subrange(0, i + 1).drop_last() =~= body@.subrange(0, i as int));
            i = i + 1;
        }
        assert(body@.subrange(0, i as int) =~= body@);
        s.append("}");
        assert(s@ =~= "@"@ + self.spec_name() + ": "@ + type_text(self.spec_return_type()) + " {\n"@
            + body_text(self@) + "}"@);
        s
    }
}

} // verus!
