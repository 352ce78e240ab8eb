//! The three-address IR: types, literals, symbols, values and instructions,
//! with their canonical one-line textual rendering.
use vstd::prelude::*;
use vstd::string::StringExecFns;

verus! {

/// Types used in the IR.
#[derive(Debug, Clone, Copy, PartialEq, Eq, Structural, Hash, PartialOrd, Ord)]
pub enum Type {
    /// The empty type.
    Unit,
    /// 32-bit signed integers.
    Int,
    /// Booleans.
    Bool,
    /// Characters.
    Char,
}

impl Default for Type {
    fn default() -> (r: Self)
        ensures
            r == Type::Unit,
    {
        Type::Unit
    }
}

/// Literal values.
#[derive(Debug, Clone, Copy, PartialEq, Eq, Structural)]
pub enum Literal {
    /// The empty value.
    Empty,
    /// An integer.
    Int(i32),
    /// A boolean.
    Bool(bool),
    /// A character.
    Char(char),
}

impl Default for Literal {
    fn default() -> (r: Self)
        ensures
            r == Literal::Empty,
    {
        Literal::Empty
    }
}

/// A symbol: a variable or function name together with its type.
#[derive(Debug, PartialEq, Eq)]
pub struct Symbol {
    pub name: String,
    pub ty: Type,
}

/// What identifies a symbol: its name and its type.
pub type SymbolKey = (Seq<char>, Type);

impl View for Symbol {
    type V = SymbolKey;

    open spec fn view(&self) -> SymbolKey {
        (self.name@, self.ty)
    }
}

impl Clone for Symbol {
    fn clone(&self) -> (r: Self)
        ensures
            r == *self,
    {
        Symbol { name: self.name.clone(), ty: self.ty }
    }
}

impl Symbol {
    /// Build a symbol from its name and type.
    pub fn new(name: &str, ty: Type) -> (r: Symbol)
        ensures
            r.name@ == name@,
            r.ty == ty,
    {
        Symbol { name: String::from_str(name), ty }
    }

    /// Whether two symbols have the same name and type.
    pub fn same(&self, other: &Symbol) -> (r: bool)
        ensures
            r == (self@ == other@),
    {
        self.name == other.name && self.ty == other.ty
    }
}

/// A symbol reference: a handle into a symbol table together with a type.
#[derive(Debug, Clone, Copy, PartialEq, Eq, Structural)]
pub struct SymbolRef(pub usize, pub Type);

/// A branch target, identified by its offset.
#[derive(Debug, Clone, Copy, PartialEq, Eq, Structural)]
pub struct Label(pub usize);

/// Every value in the IR is either a reference to a storage location or a
/// constant literal.
#[derive(Debug, PartialEq, Eq)]
pub enum Value {
    StorageLocation(Symbol),
    ConstantLiteral(Literal),
}

impl Clone for Value {
    fn clone(&self) -> (r: Self)
        ensures
            r == *self,
    {
        match self {
            Value::StorageLocation(s) => Value::StorageLocation(s.clone()),
            Value::ConstantLiteral(l) => Value::ConstantLiteral(*l),
        }
    }
}

/// Opcodes, one for each kind of instruction.
#[derive(Debug, Clone, Copy, PartialEq, Eq, Structural, Hash)]
pub enum OPCode {
    Jump,
    Branch,
    Call,
    Return,
    Const,
    Add,
    Sub,
    Mul,
    Div,
    Eq,
    Neq,
    Lt,
    Gt,
    Lte,
    Gte,
    Not,
    Neg,
    And,
    Or,
    Id,
    Label,
    Nop,
}

/// IR instructions.
#[derive(Debug, PartialEq, Eq)]
pub enum Instruction {
    /// `dst = const lit`.
    Const(Symbol, Literal),
    Add(Symbol, Value, Value),
    Sub(Symbol, Value, Value),
    Mul(Symbol, Value, Value),
    Div(Symbol, Value, Value),
    And(Symbol, Value, Value),
    Or(Symbol, Value, Value),
    Not(Symbol, Value),
    Neg(Symbol, Value),
    Eq(Symbol, Value, Value),
    Neq(Symbol, Value, Value),
    Lt(Symbol, Value, Value),
    Lte(Symbol, Value, Value),
    Gt(Symbol, Value, Value),
    Gte(Symbol, Value, Value),
    /// Return a value from the function.
    Return(Value),
    /// Call a function, for its effect, with the given arguments.
    Call(Symbol, Vec<Value>),
    /// Jump to a label.
    Jump(Label),
    /// Branch on a condition to the first label if it holds, else to the second.
    Branch(Symbol, Label, Label),
    /// `dst = id value`: a copy.
    Id(Symbol, Value),
    /// Label pseudo instruction: a marker for a branch target.
    Label(usize),
    /// Placeholder for a deleted instruction.
    Nop,
}

impl Instruction {
    /// The opcode of an instruction, one for each variant.
    pub open spec fn spec_opcode(&self) -> OPCode {
        match self {
            Instruction::Const(..) => OPCode::Const,
            Instruction::Add(..) => OPCode::Add,
            Instruction::Sub(..) => OPCode::Sub,
            Instruction::Mul(..) => OPCode::Mul,
            Instruction::Div(..) => OPCode::Div,
            Instruction::And(..) => OPCode::And,
            Instruction::Or(..) => OPCode::Or,
            Instruction::Neg(..) => OPCode::Neg,
            Instruction::Not(..) => OPCode::Not,
            Instruction::Eq(..) => OPCode::Eq,
            Instruction::Neq(..) => OPCode::Neq,
            Instruction::Lt(..) => OPCode::Lt,
            Instruction::Lte(..) => OPCode::Lte,
            Instruction::Gt(..) => OPCode::Gt,
            Instruction::Gte(..) => OPCode::Gte,
            Instruction::Return(..) => OPCode::Return,
            Instruction::Call(..) => OPCode::Call,
            Instruction::Jump(..) => OPCode::Jump,
            Instruction::Branch(..) => OPCode::Branch,
            Instruction::Id(..) => OPCode::Id,
            Instruction::Nop => OPCode::Nop,
            Instruction::Label(..) => OPCode::Label,
        }
    }

    /// The opcode of this instruction.
    pub fn opcode(&self) -> (r: OPCode)
        ensures
            r == self.spec_opcode(),
    {
        match self {
            Instruction::Const(..) => OPCode::Const,
            Instruction::Add(..) => OPCode::Add,
            Instruction::Sub(..) => OPCode::Sub,
            Instruction::Mul(..) => OPCode::Mul,
            Instruction::Div(..) => OPCode::Div,
            Instruction::And(..) => OPCode::And,
            Instruction::Or(..) => OPCode::Or,
            Instruction::Neg(..) => OPCode::Neg,
            Instruction::Not(..) => OPCode::Not,
            Instruction::Eq(..) => OPCode::Eq,
            Instruction::Neq(..) => OPCode::Neq,
            Instruction::Lt(..) => OPCode::Lt,
            Instruction::Lte(..) => OPCode::Lte,
            Instruction::Gt(..) => OPCode::Gt,
            Instruction::Gte(..) => OPCode::Gte,
            Instruction::Return(..) => OPCode::Return,
            Instruction::Call(..) => OPCode::Call,
            Instruction::Jump(..) => OPCode::Jump,
            Instruction::Branch(..) => OPCode::Branch,
            Instruction::Id(..) => OPCode::Id,
            Instruction::Nop => OPCode::Nop,
            Instruction::Label(..) => OPCode::Label,
        }
    }

    /// The symbol an instruction writes, if any.
    pub open spec fn spec_destination(&self) -> Option<Symbol> {
        match self {
            Instruction::Const(d, _) => Some(*d),
            Instruction::Add(d, _, _) | Instruction::Sub(d, _, _) | Instruction::Mul(d, _, _)
            | Instruction::Div(d, _, _) | Instruction::And(d, _, _) | Instruction::Or(d, _, _)
            | Instruction::Eq(d, _, _) | Instruction::Neq(d, _, _) | Instruction::Lt(d, _, _)
            | Instruction::Lte(d, _, _) | Instruction::Gt(d, _, _) | Instruction::Gte(d, _, _) => Some(
                *d,
            ),
            Instruction::Not(d, _) | Instruction::Neg(d, _) | Instruction::Id(d, _) => Some(*d),
            _ => None,
        }
    }

    /// The symbol this instruction writes, or `None` for `Return`, `Jump`,
    /// `Branch`, `Call`, `Label` and `Nop`.
    pub fn destination(&self) -> (r: Option<&Symbol>)
        ensures
            r.is_some() == self.spec_destination().is_some(),
            r.is_some() ==> *r.unwrap() == self.spec_destination().unwrap(),
    {
        match self {
            Instruction::Const(d, _) => Some(d),
            Instruction::Add(d, _, _) | Instruction::Sub(d, _, _) | Instruction::Mul(d, _, _)
            | Instruction::Div(d, _, _) | Instruction::And(d, _, _) | Instruction::Or(d, _, _)
            | Instruction::Eq(d, _, _) | Instruction::Neq(d, _, _) | Instruction::Lt(d, _, _)
            | Instruction::Lte(d, _, _) | Instruction::Gt(d, _, _) | Instruction::Gte(d, _, _) => Some(
                d,
            ),
            Instruction::Not(d, _) | Instruction::Neg(d, _) | Instruction::Id(d, _) => Some(d),
            _ => None,
        }
    }

    /// The source values of an instruction that has at most two of them:
    /// arithmetic, boolean, comparison, unary, copy and return.
    pub open spec fn spec_operands(&self) -> (Option<Value>, Option<Value>) {
        match self {
            Instruction::Add(_, a, b) | Instruction::Sub(_, a, b) | Instruction::Mul(_, a, b)
            | Instruction::Div(_, a, b) | Instruction::And(_, a, b) | Instruction::Or(_, a, b)
            | Instruction::Eq(_, a, b) | Instruction::Neq(_, a, b) | Instruction::Lt(_, a, b)
            | Instruction::Lte(_, a, b) | Instruction::Gt(_, a, b) | Instruction::Gte(_, a, b) => (
                Some(*a),
                Some(*b),
            ),
            Instruction::Not(_, a) | Instruction::Neg(_, a) | Instruction::Id(_, a)
            | Instruction::Return(a) => (Some(*a), None),
            _ => (None, None),
        }
    }

    /// The source values of this instruction; `Call` and `Branch` give none here.
    pub fn operands(&self) -> (r: (Option<&Value>, Option<&Value>))
        ensures
            r.0.is_some() == self.spec_operands().0.is_some(),
            r.0.is_some() ==> *r.0.unwrap() == self.spec_operands().0.unwrap(),
            r.1.is_some() == self.spec_operands().1.is_some(),
            r.1.is_some() ==> *r.1.unwrap() == self.spec_operands().1.unwrap(),
    {
        match self {
            Instruction::Add(_, a, b) | Instruction::Sub(_, a, b) | Instruction::Mul(_, a, b)
            | Instruction::Div(_, a, b) | Instruction::And(_, a, b) | Instruction::Or(_, a, b)
            | Instruction::Eq(_, a, b) | Instruction::Neq(_, a, b) | Instruction::Lt(_, a, b)
            | Instruction::Lte(_, a, b) | Instruction::Gt(_, a, b) | Instruction::Gte(_, a, b) => (
                Some(a),
                Some(b),
            ),
            Instruction::Not(_, a) | Instruction::Neg(_, a) | Instruction::Id(_, a)
            | Instruction::Return(a) => (Some(a), None),
            _ => (None, None),
        }
    }
}

} // verus!
