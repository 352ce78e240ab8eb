//! Meaning of straight-line IR code: how each instruction changes the
//! bindings of symbols to literals.
use vstd::prelude::*;
use crate::instruction::{Instruction, Literal, OPCode, SymbolKey, Value};

verus! {

/// Bindings of symbols to the literals they hold.
pub type Env = Map<SymbolKey, Literal>;

/// The literal bound to `k`, if any.
pub open spec fn lookup(e: Env, k: SymbolKey) -> Option<Literal> {
    if e.contains_key(k) {
        Some(e[k])
    } else {
        None
    }
}

/// The literal a value stands for under `e`, if any.
pub open spec fn value_of(e: Env, v: Value) -> Option<Literal> {
    match v {
        Value::StorageLocation(s) => lookup(e, s@),
        Value::ConstantLiteral(l) => Some(l),
    }
}

/// Result of the pure operator `op` on `x` and `y` (a unary operator reads
/// `x` alone); `None` where the operation has no result: operands of the
/// wrong kind, overflow, or division by zero.
pub open spec fn apply(op: OPCode, x: Literal, y: Literal) -> Option<Literal> {
    match (op, x, y) {
        (OPCode::Add, Literal::Int(a), Literal::Int(b)) => match a.checked_add(b) {
            Some(r) => Some(Literal::Int(r)),
            None => None,
        },
        (OPCode::Sub, Literal::Int(a), Literal::Int(b)) => match a.checked_sub(b) {
            Some(r) => Some(Literal::Int(r)),
            None => None,
        },
        (OPCode::Mul, Literal::Int(a), Literal::Int(b)) => match a.checked_mul(b) {
            Some(r) => Some(Literal::Int(r)),
            None => None,
        },
        (OPCode::Div, Literal::Int(a), Literal::Int(b)) => match a.checked_div(b) {
            Some(r) => Some(Literal::Int(r)),
            None => None,
        },
        (OPCode::And, Literal::Bool(a), Literal::Bool(b)) => Some(Literal::Bool(a && b)),
        (OPCode::Or, Literal::Bool(a), Literal::Bool(b)) => Some(Literal::Bool(a || b)),
        (OPCode::Eq, _, _) => Some(Literal::Bool(x == y)),
        (OPCode::Neq, _, _) => Some(Literal::Bool(x != y)),
        (OPCode::Lt, Literal::Int(a), Literal::Int(b)) => Some(Literal::Bool(a < b)),
        (OPCode::Lte, Literal::Int(a), Literal::Int(b)) => Some(Literal::Bool(a <= b)),
        (OPCode::Gt, Literal::Int(a), Literal::Int(b)) => Some(Literal::Bool(a > b)),
        (OPCode::Gte, Literal::Int(a), Literal::Int(b)) => Some(Literal::Bool(a >= b)),
        (OPCode::Not, Literal::Bool(a), _) => Some(Literal::Bool(!a)),
        (OPCode::Neg, Literal::Int(a), _) => if a == i32::MIN {
            None
        } else {
            Some(Literal::Int((-a) as i32))
        },
        _ => None,
    }
}

/// `apply` on operands that may be missing.
pub open spec fn eval_op(op: OPCode, x: Option<Literal>, y: Option<Literal>) -> Option<Literal> {
    match (x, y) {
        (Some(a), Some(b)) => apply(op, a, b),
        _ => None,
    }
}

/// Bindings after executing `inst` under `e`; `None` where it has no
/// result (an unbound operand, or an operation without result). Control
/// transfers, calls, labels and `Nop` bind nothing.
pub open spec fn step(e: Env, inst: Instruction) -> Option<Env> {
    match inst {
        Instruction::Const(d, l) => Some(e.insert(d@, l)),
        Instruction::Id(d, a) => match value_of(e, a) {
            Some(r) => Some(e.insert(d@, r)),
            None => None,
        },
        Instruction::Not(d, a) | Instruction::Neg(d, a) => match eval_op(
            inst.spec_opcode(),
            value_of(e, a),
            value_of(e, a),
        ) {
            Some(r) => Some(e.insert(d@, r)),
            None => None,
        },
        Instruction::Add(d, a, b) | Instruction::Sub(d, a, b) | Instruction::Mul(d, a, b)
        | Instruction::Div(d, a, b) | Instruction::And(d, a, b) | Instruction::Or(d, a, b)
        | Instruction::Eq(d, a, b) | Instruction::Neq(d, a, b) | Instruction::Lt(d, a, b)
        | Instruction::Lte(d, a, b) | Instruction::Gt(d, a, b) | Instruction::Gte(d, a, b) => {
            match eval_op(inst.spec_opcode(), value_of(e, a), value_of(e, b)) {
                Some(r) => Some(e.insert(d@, r)),
                None => None,
            }
        },
        _ => Some(e),
    }
}

/// Bindings after executing `s` in order under `e`, if every step has a result.
pub open spec fn run(e: Env, s: Seq<Instruction>) -> Option<Env>
    decreases s.len(),
{
    if s.len() == 0 {
        Some(e)
    } else {
        match run(e, s.drop_last()) {
            Some(e1) => step(e1, s.last()),
            None => None,
        }
    }
}

/// Compute `apply(op, x, y)`.
pub fn fold(op: OPCode, x: Literal, y: Literal) -> (r: Option<Literal>)
    ensures
        r == apply(op, x, y),
{
    match (op, x, y) {
        (OPCode::Add, Literal::Int(a), Literal::Int(b)) => match a.checked_add(b) {
            Some(r) => Some(Literal::Int(r)),
            None => None,
        },
        (OPCode::Sub, Literal::Int(a), Literal::Int(b)) => match a.checked_sub(b) {
            Some(r) => Some(Literal::Int(r)),
            None => None,
        },
        (OPCode::Mul, Literal::Int(a), Literal::Int(b)) => match a.checked_mul(b) {
            Some(r) => Some(Literal::Int(r)),
            None => None,
        },
        (OPCode::Div, Literal::Int(a), Literal::Int(b)) => match a.checked_div(b) {
            Some(r) => Some(Literal::Int(r)),
            None => None,
        },
        (OPCode::And, Literal::Bool(a), Literal::Bool(b)) => Some(Literal::Bool(a && b)),
        (OPCode::Or, Literal::Bool(a), Literal::Bool(b)) => Some(Literal::Bool(a || b)),
        (OPCode::Eq, _, _) => Some(Literal::Bool(x == y)),
        (OPCode::Neq, _, _) => Some(Literal::Bool(x != y)),
        (OPCode::Lt, Literal::Int(a), Literal::Int(b)) => Some(Literal::Bool(a < b)),
        (OPCode::Lte, Literal::Int(a), Literal::Int(b)) => Some(Literal::Bool(a <= b)),
        (OPCode::Gt, Literal::Int(a), Literal::Int(b)) => Some(Literal::Bool(a > b)),
        (OPCode::Gte, Literal::Int(a), Literal::Int(b)) => Some(Literal::Bool(a >= b)),
        (OPCode::Not, Literal::Bool(a), _) => Some(Literal::Bool(!a)),
        (OPCode::Neg, Literal::Int(a), _) => if a == i32::MIN {
            None
        } else {
            Some(Literal::Int(-a))
        },
        _ => None,
    }
}

} // verus!
