//! Local value numbering of one basic block.
//!
//! Each value met in the block gets a value number. A symbol read before it
//! is written in the block, and each distinct literal, gets a number of its
//! own; an operation gets the number of the operation with the same opcode
//! on the same operand numbers, if the block computed it already. A copy
//! takes the number of its source. With those numbers an operation on known
//! constants is folded, and one that recomputes a value still held by some
//! symbol becomes a copy of that symbol.
use vstd::prelude::*;
use crate::function::Function;
use crate::instruction::{Instruction, Literal, OPCode, Symbol, SymbolKey, Value};
use crate::semantics::{apply, eval_op, fold, lookup, run, step, value_of, Env};

verus! {

/// What a value number stands for, as a function of the bindings on entry
/// to the block.
pub type Meaning = spec_fn(Env) -> Option<Literal>;

/// The number of a symbol read before the block writes it: its value on entry.
pub open spec fn entry_meaning(k: SymbolKey) -> Meaning {
    |e0: Env| lookup(e0, k)
}

/// The number of a literal.
pub open spec fn literal_meaning(l: Literal) -> Meaning {
    |e0: Env| Some(l)
}

/// The number of an operation on two numbered operands.
pub open spec fn op_meaning(op: OPCode, f: Meaning, g: Meaning) -> Meaning {
    |e0: Env| eval_op(op, f(e0), g(e0))
}

/// Whether an instruction writes a destination: a `Const`, a copy, or a
/// pure operation.
pub open spec fn writes(inst: Instruction) -> bool {
    inst.spec_destination() is Some
}

/// Whether the symbol table binds `k` to `v`.
pub open spec fn has_binding(symbols: Seq<(Symbol, usize)>, k: SymbolKey, v: usize) -> bool {
    exists|j: int| 0 <= j < symbols.len() && (#[trigger] symbols[j]).0@ == k && symbols[j].1 == v
}

proof fn lemma_has_binding_push(symbols: Seq<(Symbol, usize)>, k: SymbolKey, v: usize, x: (Symbol, usize))
    requires
        has_binding(symbols, k, v),
    ensures
        has_binding(symbols.push(x), k, v),
{
    let j = choose|j: int| 0 <= j < symbols.len() && (#[trigger] symbols[j]).0@ == k && symbols[j].1 == v;
    assert(symbols.push(x)[j] == symbols[j]);
}

/// The parts of a pure operation `d = op a b`; a unary operation gives
/// its operand twice.
pub open spec fn op_parts(inst: Instruction) -> Option<(OPCode, Symbol, Value, Value)> {
    match inst {
        Instruction::Add(d, a, b) => Some((OPCode::Add, d, a, b)),
        Instruction::Sub(d, a, b) => Some((OPCode::Sub, d, a, b)),
        Instruction::Mul(d, a, b) => Some((OPCode::Mul, d, a, b)),
        Instruction::Div(d, a, b) => Some((OPCode::Div, d, a, b)),
        Instruction::And(d, a, b) => Some((OPCode::And, d, a, b)),
        Instruction::Or(d, a, b) => Some((OPCode::Or, d, a, b)),
        Instruction::Eq(d, a, b) => Some((OPCode::Eq, d, a, b)),
        Instruction::Neq(d, a, b) => Some((OPCode::Neq, d, a, b)),
        Instruction::Lt(d, a, b) => Some((OPCode::Lt, d, a, b)),
        Instruction::Lte(d, a, b) => Some((OPCode::Lte, d, a, b)),
        Instruction::Gt(d, a, b) => Some((OPCode::Gt, d, a, b)),
        Instruction::Gte(d, a, b) => Some((OPCode::Gte, d, a, b)),
        Instruction::Not(d, a) => Some((OPCode::Not, d, a, a)),
        Instruction::Neg(d, a) => Some((OPCode::Neg, d, a, a)),
        _ => None,
    }
}

/// The literal that `k` is known to hold after `s`: where its last write
/// in `s` is a `Const`, a copy of a known literal, or a pure operation on
/// known literals that has a result.
pub open spec fn known_const(s: Seq<Instruction>, k: SymbolKey) -> Option<Literal>
    decreases s.len(),
{
    if s.len() == 0 {
        None
    } else if dest_key(s.last()) == Some(k) {
        let t = s.drop_last();
        match s.last() {
            Instruction::Const(_, l) => Some(l),
            Instruction::Id(_, v) => match v {
                Value::ConstantLiteral(l) => Some(l),
                Value::StorageLocation(sv) => known_const(t, sv@),
            },
            _ => match op_parts(s.last()) {
                Some((op, _, a, b)) => {
                    let x = match a {
                        Value::ConstantLiteral(l) => Some(l),
                        Value::StorageLocation(sa) => known_const(t, sa@),
                    };
                    let y = match b {
                        Value::ConstantLiteral(l) => Some(l),
                        Value::StorageLocation(sb) => known_const(t, sb@),
                    };
                    eval_op(op, x, y)
                },
                None => None,
            },
        }
    } else {
        known_const(s.drop_last(), k)
    }
}

/// The literal an operand is known to hold after `s`: a literal itself,
/// or a symbol of known literal.
pub open spec fn operand_const(s: Seq<Instruction>, v: Value) -> Option<Literal> {
    match v {
        Value::ConstantLiteral(l) => Some(l),
        Value::StorageLocation(sym) => known_const(s, sym@),
    }
}

/// The `Const` that the operation `inst` folds to after the block prefix
/// `s`: where it is a pure operation on operands of known literals, and
/// the operation has a result.
pub open spec fn folds_to(s: Seq<Instruction>, inst: Instruction) -> Option<Instruction> {
    match op_parts(inst) {
        Some((op, d, a, b)) => match (operand_const(s, a), operand_const(s, b)) {
            (Some(x), Some(y)) => match apply(op, x, y) {
                Some(r) => Some(Instruction::Const(d, r)),
                None => None,
            },
            _ => None,
        },
        None => None,
    }
}

fn as_operation(inst: &Instruction) -> (r: Option<(OPCode, &Symbol, &Value, &Value)>)
    ensures
        r is Some <==> op_parts(*inst) is Some,
        r matches Some((op, d, a, b)) ==> op_parts(*inst) == Some((op, *d, *a, *b)),
        r matches Some((op, d, a, b)) ==> inst.spec_destination() == Some(*d) && forall|e: Env|
            #[trigger] step(e, *inst) == match eval_op(op, value_of(e, *a), value_of(e, *b)) {
                Some(x) => Some(e.insert(d@, x)),
                None => None,
            },
        r is None ==> !(inst is Add || inst is Sub || inst is Mul || inst is Div || inst is And
            || inst is Or || inst is Eq || inst is Neq || inst is Lt || inst is Lte || inst is Gt
            || inst is Gte || inst is Not || inst is Neg),
{
    match inst {
        Instruction::Add(d, a, b) => Some((OPCode::Add, d, a, b)),
        Instruction::Sub(d, a, b) => Some((OPCode::Sub, d, a, b)),
        Instruction::Mul(d, a, b) => Some((OPCode::Mul, d, a, b)),
        Instruction::Div(d, a, b) => Some((OPCode::Div, d, a, b)),
        Instruction::And(d, a, b) => Some((OPCode::And, d, a, b)),
        Instruction::Or(d, a, b) => Some((OPCode::Or, d, a, b)),
        Instruction::Eq(d, a, b) => Some((OPCode::Eq, d, a, b)),
        Instruction::Neq(d, a, b) => Some((OPCode::Neq, d, a, b)),
        Instruction::Lt(d, a, b) => Some((OPCode::Lt, d, a, b)),
        Instruction::Lte(d, a, b) => Some((OPCode::Lte, d, a, b)),
        Instruction::Gt(d, a, b) => Some((OPCode::Gt, d, a, b)),
        Instruction::Gte(d, a, b) => Some((OPCode::Gte, d, a, b)),
        Instruction::Not(d, a) => Some((OPCode::Not, d, a, a)),
        Instruction::Neg(d, a) => Some((OPCode::Neg, d, a, a)),
        _ => None,
    }
}

/// The `Const` that a pure operation on literals `x` and `y` folds to.
pub open spec fn fold_result(inst: Instruction, x: Literal, y: Literal) -> Instruction {
    let (op, d, a, b) = op_parts(inst).unwrap();
    Instruction::Const(d, apply(op, x, y).unwrap())
}

/// The source of a copy.
pub open spec fn op_parts_id(inst: Instruction) -> Value {
    match inst {
        Instruction::Id(_, v) => v,
        _ => Value::ConstantLiteral(Literal::Empty),
    }
}

/// The symbol an instruction writes, if any.
pub open spec fn dest_key(inst: Instruction) -> Option<SymbolKey> {
    match inst.spec_destination() {
        Some(d) => Some(d@),
        None => None,
    }
}

/// Whether `ni` may stand for an operation that writes `d`: a `Const` of
/// `d`, or a copy into `d` of a symbol.
pub open spec fn rewrite_of(ni: Instruction, d: Symbol) -> bool {
    match ni {
        Instruction::Const(d2, _) => d2 == d,
        Instruction::Id(d2, Value::StorageLocation(_)) => d2 == d,
        _ => false,
    }
}

/// The tables of value numbering for one block.
struct Numbering {
    /// Symbol to its current value number; each symbol appears once.
    symbols: Vec<(Symbol, usize)>,
    /// Literal to its value number.
    literals: Vec<(Literal, usize)>,
    /// Encoded operation `(opcode, operand number, operand number)` to the
    /// number of its result.
    exprs: Vec<(OPCode, usize, usize, usize)>,
    /// Value number to a symbol that currently holds it.
    holders: Vec<(usize, Symbol)>,
    /// The next fresh value number.
    next: usize,
    meaning: Ghost<Seq<Meaning>>,
}

impl Numbering {
    spec fn inv(&self) -> bool {
        &&& self.next == self.meaning@.len()
        &&& forall|i: int| 0 <= i < self.symbols@.len() ==> (#[trigger] self.symbols@[i]).1 < self.next
        &&& forall|i: int, j: int|
            0 <= i < self.symbols@.len() && 0 <= j < self.symbols@.len() && (
            #[trigger] self.symbols@[i]).0@ == (#[trigger] self.symbols@[j]).0@ ==> i == j
        &&& forall|i: int|
            0 <= i < self.literals@.len() ==> (#[trigger] self.literals@[i]).1 < self.next
                && self.meaning@[self.literals@[i].1 as int] == literal_meaning(self.literals@[i].0)
        &&& forall|i: int, j: int|
            0 <= i < self.literals@.len() && 0 <= j < self.literals@.len() && (
            #[trigger] self.literals@[i]).1 == (#[trigger] self.literals@[j]).1 ==> i == j
        &&& forall|i: int, j: int|
            0 <= i < self.literals@.len() && 0 <= j < self.literals@.len() && (
            #[trigger] self.literals@[i]).0 == (#[trigger] self.literals@[j]).0 ==> i == j
        &&& forall|i: int, j: int|
            0 <= i < self.exprs@.len() && 0 <= j < self.exprs@.len() && (#[trigger] self.exprs@[i]).0
                == (#[trigger] self.exprs@[j]).0 && self.exprs@[i].1 == self.exprs@[j].1
                && self.exprs@[i].2 == self.exprs@[j].2 ==> i == j
        &&& forall|i: int|
            0 <= i < self.exprs@.len() ==> {
                let (op, a, b, v) = #[trigger] self.exprs@[i];
                &&& a < self.next && b < self.next && v < self.next
                &&& self.meaning@[v as int] == op_meaning(op, self.meaning@[a as int], self.meaning@[b as int])
            }
        &&& forall|i: int|
            0 <= i < self.holders@.len() ==> (#[trigger] self.holders@[i]).0 < self.next
                && has_binding(self.symbols@, self.holders@[i].1@, self.holders@[i].0)
    }

    /// Whether the tables describe the bindings `e`, reached from the
    /// bindings `e0` on entry to the block.
    spec fn agrees(&self, e0: Env, e: Env) -> bool {
        &&& forall|i: int|
            0 <= i < self.symbols@.len() ==> (self.meaning@[(#[trigger] self.symbols@[i]).1 as int])(
                e0,
            ) == lookup(e, self.symbols@[i].0@)
        &&& forall|k: SymbolKey|
            (forall|i: int| 0 <= i < self.symbols@.len() ==> (#[trigger] self.symbols@[i]).0@ != k)
                ==> #[trigger] lookup(e, k) == lookup(e0, k)
    }

    /// Whether number `v` is the number of literal `l`.
    spec fn const_number(&self, v: usize, l: Literal) -> bool {
        exists|i: int| 0 <= i < self.literals@.len() && #[trigger] self.literals@[i] == (l, v)
    }

    /// Whether `k` holds the number of literal `l`.
    spec fn key_const(&self, k: SymbolKey, l: Literal) -> bool {
        exists|v: usize| has_binding(self.symbols@, k, v) && #[trigger] self.const_number(v, l)
    }

    /// Whether the tables know that operand `x` is literal `l`.
    spec fn value_const(&self, x: Value, l: Literal) -> bool {
        match x {
            Value::ConstantLiteral(m) => m == l,
            Value::StorageLocation(s) => self.key_const(s@, l),
        }
    }

    /// Whether every constant fact of `prev` still holds, but those about
    /// the symbol `except`.
    spec fn keeps_consts(&self, prev: &Numbering, except: Option<SymbolKey>) -> bool {
        &&& forall|v: usize, m: Literal| prev.const_number(v, m) ==> #[trigger] self.const_number(v, m)
        &&& forall|k: SymbolKey, m: Literal|
            except != Some(k) && prev.key_const(k, m) ==> #[trigger] self.key_const(k, m)
    }

    /// Whether `v` is the number of operand `x`.
    spec fn value_num(&self, x: Value, v: usize) -> bool {
        match x {
            Value::StorageLocation(s) => has_binding(self.symbols@, s@, v),
            Value::ConstantLiteral(l) => self.const_number(v, l),
        }
    }

    /// Whether the symbol `k` is recorded as a holder of number `v`.
    spec fn has_holder(&self, v: usize, k: SymbolKey) -> bool {
        exists|h: int| 0 <= h < self.holders@.len() && (#[trigger] self.holders@[h]).0 == v && self.holders@[h].1@ == k
    }

    /// Whether the operation `(op, va, vb)` is recorded with number `v`.
    spec fn has_expr(&self, op: OPCode, va: usize, vb: usize, v: usize) -> bool {
        exists|e: int| 0 <= e < self.exprs@.len() && #[trigger] self.exprs@[e] == (op, va, vb, v)
    }

    /// Whether `op` on operands `a` and `b` will fold, or is recorded with
    /// `ck` as a holder of its value.
    spec fn ready(&self, op: OPCode, a: Value, b: Value, ck: SymbolKey) -> bool {
        exists|va: usize, vb: usize|
            #![trigger self.value_num(a, va), self.value_num(b, vb)]
            self.value_num(a, va) && self.value_num(b, vb) && ((exists|x: Literal, y: Literal|
                #![trigger self.const_number(va, x), self.const_number(vb, y)]
                self.const_number(va, x) && self.const_number(vb, y) && apply(op, x, y) is Some) || (
            exists|v: usize| #[trigger] self.has_expr(op, va, vb, v) && self.has_holder(v, ck)))
    }

    /// Whether every fact of `prev` that `ready` rests on still holds, but
    /// those about the symbol `except`.
    spec fn keeps_base(&self, prev: &Numbering, except: Option<SymbolKey>) -> bool {
        &&& forall|v: usize, m: Literal| prev.const_number(v, m) ==> #[trigger] self.const_number(v, m)
        &&& forall|k: SymbolKey, v: usize|
            except != Some(k) && has_binding(prev.symbols@, k, v) ==> #[trigger] has_binding(self.symbols@, k, v)
        &&& forall|op: OPCode, va: usize, vb: usize, v: usize|
            prev.has_expr(op, va, vb, v) ==> #[trigger] self.has_expr(op, va, vb, v)
        &&& forall|v: usize, k: SymbolKey|
            except != Some(k) && prev.has_holder(v, k) ==> #[trigger] self.has_holder(v, k)
    }

    /// Growing the literal and operation tables, and changing nothing
    /// else, keeps every fact.
    proof fn lemma_keeps_base_grow(&self, prev: &Numbering)
        requires
            prev.literals@.len() <= self.literals@.len(),
            forall|i: int| 0 <= i < prev.literals@.len() ==> self.literals@[i] == prev.literals@[i],
            prev.exprs@.len() <= self.exprs@.len(),
            forall|i: int| 0 <= i < prev.exprs@.len() ==> self.exprs@[i] == prev.exprs@[i],
            prev.symbols@.len() <= self.symbols@.len(),
            forall|i: int| 0 <= i < prev.symbols@.len() ==> self.symbols@[i] == prev.symbols@[i],
            self.holders@ == prev.holders@,
        ensures
            self.keeps_base(prev, None),
            self.keeps_consts(prev, None),
    {
        assert forall|k: SymbolKey, v: usize| has_binding(prev.symbols@, k, v) implies #[trigger] has_binding(
            self.symbols@,
            k,
            v,
        ) by {
            let j = choose|j: int| 0 <= j < prev.symbols@.len() && (#[trigger] prev.symbols@[j]).0@ == k && prev.symbols@[j].1 == v;
            assert(self.symbols@[j] == prev.symbols@[j]);
        }
        assert forall|v: usize, m: Literal| prev.const_number(v, m) implies #[trigger] self.const_number(v, m) by {
            let i = choose|i: int| 0 <= i < prev.literals@.len() && #[trigger] prev.literals@[i] == (m, v);
            assert(self.literals@[i] == (m, v));
        }
        assert forall|op: OPCode, va: usize, vb: usize, v: usize|
            prev.has_expr(op, va, vb, v) implies #[trigger] self.has_expr(op, va, vb, v) by {
            let e = choose|e: int| 0 <= e < prev.exprs@.len() && #[trigger] prev.exprs@[e] == (op, va, vb, v);
            assert(self.exprs@[e] == (op, va, vb, v));
        }
        assert forall|v: usize, k: SymbolKey| prev.has_holder(v, k) implies #[trigger] self.has_holder(v, k) by {
            let h = choose|h: int| 0 <= h < prev.holders@.len() && (#[trigger] prev.holders@[h]).0 == v && prev.holders@[h].1@ == k;
            assert(self.holders@[h] == prev.holders@[h]);
        }
        assert forall|k: SymbolKey, m: Literal| prev.key_const(k, m) implies #[trigger] self.key_const(k, m) by {
            let w = choose|w: usize| has_binding(prev.symbols@, k, w) && #[trigger] prev.const_number(w, m);
            assert(self.const_number(w, m));
        }
    }

    proof fn lemma_keeps_base_trans(&self, mid: &Numbering, prev: &Numbering, e1: Option<SymbolKey>, e2: Option<SymbolKey>)
        requires
            self.keeps_base(mid, e2),
            mid.keeps_base(prev, e1),
            e1 is None || e1 == e2,
        ensures
            self.keeps_base(prev, e2),
    {
    }

    proof fn lemma_value_num_carry(&self, prev: &Numbering, ex: Option<SymbolKey>, x: Value, v: usize)
        requires
            self.keeps_base(prev, ex),
            prev.value_num(x, v),
            !(x matches Value::StorageLocation(s) && ex == Some(s@)),
        ensures
            self.value_num(x, v),
    {
        match x {
            Value::StorageLocation(s) => assert(has_binding(self.symbols@, s@, v)),
            Value::ConstantLiteral(l) => assert(self.const_number(v, l)),
        }
    }

    /// Numbers of operands depend on their names and types alone.
    proof fn lemma_ready_same_operands(&self, op: OPCode, a: Value, b: Value, a2: Value, b2: Value, ck: SymbolKey)
        requires
            self.ready(op, a, b, ck),
            same_operand(a, a2),
            same_operand(b, b2),
        ensures
            self.ready(op, a2, b2, ck),
    {
        let (va, vb) = choose|va: usize, vb: usize|
            #![trigger self.value_num(a, va), self.value_num(b, vb)]
            self.value_num(a, va) && self.value_num(b, vb) && ((exists|x: Literal, y: Literal|
                #![trigger self.const_number(va, x), self.const_number(vb, y)]
                self.const_number(va, x) && self.const_number(vb, y) && apply(op, x, y) is Some) || (
            exists|v: usize| #[trigger] self.has_expr(op, va, vb, v) && self.has_holder(v, ck)));
        assert(self.value_num(a2, va) && self.value_num(b2, vb));
    }

    /// Whether symbol `k` holds the number of operand `a`.
    spec fn copies(&self, k: SymbolKey, a: Value) -> bool {
        exists|v: usize| has_binding(self.symbols@, k, v) && #[trigger] self.value_num(a, v)
    }

    proof fn lemma_value_num_unique(&self, a: Value, v: usize, w: usize)
        requires
            self.inv(),
            self.value_num(a, v),
            self.value_num(a, w),
        ensures
            v == w,
    {
        match a {
            Value::StorageLocation(x) => {
                let i = choose|i: int| 0 <= i < self.symbols@.len() && (#[trigger] self.symbols@[i]).0@ == x@ && self.symbols@[i].1 == v;
                let j = choose|j: int| 0 <= j < self.symbols@.len() && (#[trigger] self.symbols@[j]).0@ == x@ && self.symbols@[j].1 == w;
                assert(i == j);
            },
            Value::ConstantLiteral(l) => {
                let i = choose|i: int| 0 <= i < self.literals@.len() && #[trigger] self.literals@[i] == (l, v);
                let j = choose|j: int| 0 <= j < self.literals@.len() && #[trigger] self.literals@[j] == (l, w);
                assert(self.literals@[i].0 == self.literals@[j].0);
            },
        }
    }

    /// An operand that stands for another has its number.
    proof fn lemma_value_num_stands(&self, p: Value, q: Value, v: usize)
        requires
            self.inv(),
            self.value_num(q, v),
            same_operand(p, q) || (p matches Value::StorageLocation(x) && self.copies(x@, q)),
        ensures
            self.value_num(p, v),
    {
        if !same_operand(p, q) {
            if let Value::StorageLocation(x) = p {
                let w = choose|w: usize| has_binding(self.symbols@, x@, w) && #[trigger] self.value_num(q, w);
                self.lemma_value_num_unique(q, v, w);
            }
        }
    }

    proof fn lemma_ready_stands(&self, op: OPCode, a: Value, b: Value, a2: Value, b2: Value, ck: SymbolKey)
        requires
            self.inv(),
            self.ready(op, a, b, ck),
            same_operand(a2, a) || (a2 matches Value::StorageLocation(x) && self.copies(x@, a)),
            same_operand(b2, b) || (b2 matches Value::StorageLocation(x) && self.copies(x@, b)),
        ensures
            self.ready(op, a2, b2, ck),
    {
        let (va, vb) = choose|va: usize, vb: usize|
            #![trigger self.value_num(a, va), self.value_num(b, vb)]
            self.value_num(a, va) && self.value_num(b, vb) && ((exists|x: Literal, y: Literal|
                #![trigger self.const_number(va, x), self.const_number(vb, y)]
                self.const_number(va, x) && self.const_number(vb, y) && apply(op, x, y) is Some) || (
            exists|v: usize| #[trigger] self.has_expr(op, va, vb, v) && self.has_holder(v, ck)));
        self.lemma_value_num_stands(a2, a, va);
        self.lemma_value_num_stands(b2, b, vb);
    }

    proof fn lemma_copies_carry(&self, prev: &Numbering, ex: Option<SymbolKey>, k: SymbolKey, a: Value)
        requires
            self.keeps_base(prev, ex),
            prev.copies(k, a),
            ex != Some(k),
            !(a matches Value::StorageLocation(s) && ex == Some(s@)),
        ensures
            self.copies(k, a),
    {
        let v = choose|v: usize| has_binding(prev.symbols@, k, v) && #[trigger] prev.value_num(a, v);
        self.lemma_value_num_carry(prev, ex, a, v);
        assert(has_binding(self.symbols@, k, v));
    }

    proof fn lemma_ready_carry(&self, prev: &Numbering, except: Option<SymbolKey>, op: OPCode, a: Value, b: Value, ck: SymbolKey)
        requires
            self.keeps_base(prev, except),
            prev.ready(op, a, b, ck),
            except != Some(ck),
            !(a matches Value::StorageLocation(s) && except == Some(s@)),
            !(b matches Value::StorageLocation(s) && except == Some(s@)),
        ensures
            self.ready(op, a, b, ck),
    {
        let (va, vb) = choose|va: usize, vb: usize|
            #![trigger prev.value_num(a, va), prev.value_num(b, vb)]
            prev.value_num(a, va) && prev.value_num(b, vb) && ((exists|x: Literal, y: Literal|
                #![trigger prev.const_number(va, x), prev.const_number(vb, y)]
                prev.const_number(va, x) && prev.const_number(vb, y) && apply(op, x, y) is Some) || (
            exists|v: usize| #[trigger] prev.has_expr(op, va, vb, v) && prev.has_holder(v, ck)));
        match a {
            Value::StorageLocation(s) => assert(has_binding(self.symbols@, s@, va)),
            Value::ConstantLiteral(l) => assert(self.const_number(va, l)),
        }
        match b {
            Value::StorageLocation(s) => assert(has_binding(self.symbols@, s@, vb)),
            Value::ConstantLiteral(l) => assert(self.const_number(vb, l)),
        }
        assert(self.value_num(a, va) && self.value_num(b, vb));
        if exists|x: Literal, y: Literal|
            #![trigger prev.const_number(va, x), prev.const_number(vb, y)]
            prev.const_number(va, x) && prev.const_number(vb, y) && apply(op, x, y) is Some {
            let (x, y) = choose|x: Literal, y: Literal|
                #![trigger prev.const_number(va, x), prev.const_number(vb, y)]
                prev.const_number(va, x) && prev.const_number(vb, y) && apply(op, x, y) is Some;
            assert(self.const_number(va, x) && self.const_number(vb, y));
        } else {
            let v = choose|v: usize| #[trigger] prev.has_expr(op, va, vb, v) && prev.has_holder(v, ck);
            assert(self.has_expr(op, va, vb, v) && self.has_holder(v, ck));
        }
    }

    spec fn extends(&self, prev: &Numbering) -> bool {
        &&& prev.meaning@.len() <= self.meaning@.len()
        &&& forall|v: int| 0 <= v < prev.meaning@.len() ==> #[trigger] self.meaning@[v] == prev.meaning@[v]
    }

    /// Whether the tables know that the pure operation `inst` has operands
    /// `x` and `y`, on which it has a result.
    spec fn fold_fact(&self, inst: Instruction, x: Literal, y: Literal) -> bool {
        match op_parts(inst) {
            Some((op, d, a, b)) => self.value_const(a, x) && self.value_const(b, y) && apply(
                op,
                x,
                y,
            ) is Some,
            None => false,
        }
    }

    proof fn lemma_keeps_refl(&self)
        ensures
            forall|ex: Option<SymbolKey>| #[trigger] self.keeps_consts(self, ex),
    {
    }

    proof fn lemma_keeps_base_refl(&self)
        ensures
            forall|ex: Option<SymbolKey>| #[trigger] self.keeps_base(self, ex),
    {
    }

    proof fn lemma_same_literals(&self, prev: &Numbering)
        requires
            self.literals@ == prev.literals@,
        ensures
            forall|v: usize, m: Literal| prev.const_number(v, m) ==> #[trigger] self.const_number(v, m),
    {
        assert forall|v: usize, m: Literal| prev.const_number(v, m) implies #[trigger] self.const_number(v, m) by {
            let i = choose|i: int| 0 <= i < prev.literals@.len() && #[trigger] prev.literals@[i] == (m, v);
            assert(self.literals@[i] == (m, v));
        }
    }

    fn new() -> (r: Numbering)
        ensures
            r.inv(),
            r.next == 0,
            forall|e0: Env| r.agrees(e0, e0),
    {
        Numbering {
            symbols: Vec::new(),
            literals: Vec::new(),
            exprs: Vec::new(),
            holders: Vec::new(),
            next: 0,
            meaning: Ghost(Seq::empty()),
        }
    }

    /// Index of `k` in the symbol table, if it is there.
    fn find_symbol(&self, k: &Symbol) -> (r: Option<usize>)
        ensures
            match r {
                Some(i) => i < self.symbols@.len() && self.symbols@[i as int].0@ == k@,
                None => forall|i: int| 0 <= i < self.symbols@.len() ==> (#[trigger] self.symbols@[i]).0@ != k@,
            },
    {
        let mut i: usize = 0;
        while i < self.symbols.len()
            invariant
                i <= self.symbols@.len(),
                forall|j: int| 0 <= j < i ==> (#[trigger] self.symbols@[j]).0@ != k@,
            decreases self.symbols@.len() - i,
        {
            if self.symbols[i].0.same(k) {
                return Some(i);
            }
            i = i + 1;
        }
        None
    }

    /// The number of a literal, allocated on first sight.
    fn number_literal(&mut self, l: Literal) -> (r: usize)
        requires
            old(self).inv(),
            old(self).next < usize::MAX,
        ensures
            final(self).inv(),
            final(self).extends(old(self)),
            final(self).next <= old(self).next + 1,
            r < final(self).next,
            final(self).meaning@[r as int] == literal_meaning(l),
            final(self).symbols == old(self).symbols,
            final(self).const_number(r, l),
            final(self).keeps_consts(old(self), None),
            final(self).keeps_base(old(self), None),
            forall|w: usize| old(self).const_number(w, l) ==> r == w,
            forall|e0: Env, e: Env| old(self).agrees(e0, e) ==> #[trigger] final(self).agrees(e0, e),
    {
        let mut i: usize = 0;
        while i < self.literals.len()
            invariant
                i <= self.literals@.len(),
                self.inv(),
                forall|j: int| 0 <= j < i ==> (#[trigger] self.literals@[j]).0 != l,
            decreases self.literals@.len() - i,
        {
            if self.literals[i].0 == l {
                assert(self.literals@[i as int] == (l, self.literals@[i as int].1));
                assert forall|w: usize| self.const_number(w, l) implies self.literals@[i as int].1 == w by {
                    let j = choose|j: int| 0 <= j < self.literals@.len() && #[trigger] self.literals@[j] == (l, w);
                    assert(self.literals@[j].0 == self.literals@[i as int].0);
                }
                proof {
                    self.lemma_keeps_base_grow(self);
                }
                return self.literals[i].1;
            }
            i = i + 1;
        }
        assert forall|w: usize| !self.const_number(w, l) by {
            if self.const_number(w, l) {
                let j = choose|j: int| 0 <= j < self.literals@.len() && #[trigger] self.literals@[j] == (l, w);
                assert(self.literals@[j].0 == l);
            }
        }
        let ghost prev = *self;
        let v = self.next;
        self.meaning = Ghost(self.meaning@.push(literal_meaning(l)));
        self.next = self.next + 1;
        self.literals.push((l, v));
        assert(self.literals@[prev.literals@.len() as int] == (l, v));
        proof {
            self.lemma_keeps_base_grow(&prev);
        }
        v
    }

    /// The number of a value, allocated on first sight.
    fn number_value(&mut self, x: &Value) -> (r: usize)
        requires
            old(self).inv(),
            old(self).next < usize::MAX,
        ensures
            final(self).inv(),
            final(self).extends(old(self)),
            final(self).next <= old(self).next + 1,
            r < final(self).next,
            forall|e0: Env, e: Env|
                old(self).agrees(e0, e) ==> #[trigger] final(self).agrees(e0, e)
                    && (final(self).meaning@[r as int])(e0) == value_of(e, *x),
            final(self).keeps_consts(old(self), None),
            final(self).keeps_base(old(self), None),
            final(self).value_num(*x, r),
            forall|w: usize| old(self).value_num(*x, w) ==> r == w,
            final(self).literals == old(self).literals || x is ConstantLiteral,
            forall|l: Literal| old(self).value_const(*x, l) ==> #[trigger] final(self).const_number(r, l),
    {
        match x {
            Value::ConstantLiteral(l) => self.number_literal(*l),
            Value::StorageLocation(s) => {
                match self.find_symbol(s) {
                    Some(i) => {
                        proof {
                            self.lemma_same_literals(self);
                            self.lemma_keeps_base_grow(self);
                        }
                        assert forall|w: usize| has_binding(self.symbols@, s@, w) implies self.symbols@[i as int].1 == w by {
                            let j = choose|j: int|
                                0 <= j < self.symbols@.len() && (#[trigger] self.symbols@[j]).0@ == s@ && self.symbols@[j].1 == w;
                            assert(j == i);
                        }
                        assert(has_binding(self.symbols@, s@, self.symbols@[i as int].1));
                        assert forall|l: Literal| self.value_const(*x, l) implies #[trigger] self.const_number(
                            self.symbols@[i as int].1,
                            l,
                        ) by {
                            let w = choose|w: usize| has_binding(self.symbols@, s@, w) && #[trigger] self.const_number(w, l);
                            let j = choose|j: int|
                                0 <= j < self.symbols@.len() && (#[trigger] self.symbols@[j]).0@ == s@ && self.symbols@[j].1 == w;
                            assert(j == i);
                        }
                        self.symbols[i].1
                    },
                    None => {
                        let v = self.next;
                        let ghost prev = *self;
                        self.meaning = Ghost(self.meaning@.push(entry_meaning(s@)));
                        self.next = self.next + 1;
                        self.symbols.push((s.clone(), v));
                        assert forall|e0: Env, e: Env| prev.agrees(e0, e) implies #[trigger] self.agrees(e0, e)
                            && (self.meaning@[v as int])(e0) == value_of(e, *x) by {
                            assert(lookup(e, s@) == lookup(e0, s@));
                            assert forall|i: int| 0 <= i < self.symbols@.len() implies (self.meaning@[(#[trigger] self.symbols@[i]).1 as int])(
                                e0,
                            ) == lookup(e, self.symbols@[i].0@) by {
                                if i < prev.symbols@.len() {
                                    assert(self.symbols@[i] == prev.symbols@[i]);
                                }
                            }
                            assert forall|k: SymbolKey|
                                (forall|i: int| 0 <= i < self.symbols@.len() ==> (#[trigger] self.symbols@[i]).0@ != k)
                                implies #[trigger] lookup(e, k) == lookup(e0, k) by {
                                assert forall|i: int| 0 <= i < prev.symbols@.len() implies (#[trigger] prev.symbols@[i]).0@ != k by {
                                    assert(self.symbols@[i] == prev.symbols@[i]);
                                }
                            }
                        }
                        assert forall|i: int| 0 <= i < self.holders@.len() implies has_binding(
                            self.symbols@,
                            (#[trigger] self.holders@[i]).1@,
                            self.holders@[i].0,
                        ) by {
                            lemma_has_binding_push(prev.symbols@, self.holders@[i].1@, self.holders@[i].0, (*s, v));
                        }
                        proof {
                            self.lemma_same_literals(&prev);
                            self.lemma_keeps_base_grow(&prev);
                        }
                        assert(self.symbols@[prev.symbols@.len() as int] == (*s, v));
                        assert(has_binding(self.symbols@, s@, v));
                        assert forall|k: SymbolKey, m: Literal| prev.key_const(k, m) implies #[trigger] self.key_const(k, m) by {
                            let w = choose|w: usize| has_binding(prev.symbols@, k, w) && #[trigger] prev.const_number(w, m);
                            lemma_has_binding_push(prev.symbols@, k, w, (*s, v));
                            assert(self.const_number(w, m));
                        }
                        assert forall|l: Literal| prev.value_const(*x, l) implies #[trigger] self.const_number(v, l) by {
                            let w = choose|w: usize| has_binding(prev.symbols@, s@, w) && #[trigger] prev.const_number(w, l);
                            let j = choose|j: int|
                                0 <= j < prev.symbols@.len() && (#[trigger] prev.symbols@[j]).0@ == s@ && prev.symbols@[j].1 == w;
                        }
                        v
                    },
                }
            },
        }
    }

    /// A literal known to be the value of number `v`, if any.
    fn constant_of(&self, v: usize) -> (r: Option<Literal>)
        requires
            self.inv(),
        ensures
            r matches Some(l) ==> self.meaning@[v as int] == literal_meaning(l) && self.const_number(v, l),
            forall|l: Literal| #[trigger] self.const_number(v, l) ==> r == Some(l),
    {
        let mut i: usize = 0;
        while i < self.literals.len()
            invariant
                i <= self.literals@.len(),
                self.inv(),
                forall|j: int| 0 <= j < i ==> (#[trigger] self.literals@[j]).1 != v,
            decreases self.literals@.len() - i,
        {
            if self.literals[i].1 == v {
                assert forall|l: Literal| #[trigger] self.const_number(v, l) implies self.literals@[i as int].0 == l by {
                    let j = choose|j: int| 0 <= j < self.literals@.len() && #[trigger] self.literals@[j] == (l, v);
                    assert(self.literals@[j].1 == self.literals@[i as int].1);
                }
                assert(self.literals@[i as int] == (self.literals@[i as int].0, v));
                return Some(self.literals[i].0);
            }
            i = i + 1;
        }
        assert forall|l: Literal| !#[trigger] self.const_number(v, l) by {
            if self.const_number(v, l) {
                let j = choose|j: int| 0 <= j < self.literals@.len() && #[trigger] self.literals@[j] == (l, v);
                assert(self.literals@[j].1 == v);
            }
        }
        None
    }

    /// The number of the operation `op` on numbers `a` and `b`, if the
    /// block computed it already.
    fn find_expr(&self, op: OPCode, a: usize, b: usize) -> (r: Option<usize>)
        requires
            self.inv(),
        ensures
            r matches Some(v) ==> v < self.next && self.meaning@[v as int] == op_meaning(
                op,
                self.meaning@[a as int],
                self.meaning@[b as int],
            ),
            forall|v: usize| #[trigger] self.has_expr(op, a, b, v) ==> r == Some(v),
            r matches Some(v) ==> self.has_expr(op, a, b, v),
            r is None ==> forall|e: int| 0 <= e < self.exprs@.len() ==> !((#[trigger] self.exprs@[e]).0 == op
                && self.exprs@[e].1 == a && self.exprs@[e].2 == b),
    {
        let mut i: usize = 0;
        while i < self.exprs.len()
            invariant
                i <= self.exprs@.len(),
                self.inv(),
                forall|e: int| 0 <= e < i ==> !((#[trigger] self.exprs@[e]).0 == op
                    && self.exprs@[e].1 == a && self.exprs@[e].2 == b),
            decreases self.exprs@.len() - i,
        {
            let (o, x, y, v) = self.exprs[i];
            if o == op && x == a && y == b {
                assert forall|w: usize| #[trigger] self.has_expr(op, a, b, w) implies v == w by {
                    let e = choose|e: int| 0 <= e < self.exprs@.len() && #[trigger] self.exprs@[e] == (op, a, b, w);
                    assert(e == i);
                }
                assert(self.exprs@[i as int] == (op, a, b, v));
                return Some(v);
            }
            i = i + 1;
        }
        None
    }

    /// A symbol that currently holds number `v`, if any.
    fn holder_of(&self, v: usize) -> (r: Option<Symbol>)
        requires
            self.inv(),
        ensures
            r matches Some(h) ==> has_binding(self.symbols@, h@, v),
            forall|k: SymbolKey| #[trigger] self.has_holder(v, k) ==> r is Some,
    {
        let mut i: usize = 0;
        while i < self.holders.len()
            invariant
                i <= self.holders@.len(),
                self.inv(),
                forall|h: int| 0 <= h < i ==> (#[trigger] self.holders@[h]).0 != v,
            decreases self.holders@.len() - i,
        {
            if self.holders[i].0 == v {
                return Some(self.holders[i].1.clone());
            }
            i = i + 1;
        }
        None
    }

    /// Record that `d` now holds number `v`; `d` stops holding any number
    /// it held before, so that no later copy reads a stale value from it.
    fn bind(&mut self, d: &Symbol, v: usize)
        requires
            old(self).inv(),
            v < old(self).next,
        ensures
            final(self).inv(),
            final(self).next == old(self).next,
            final(self).meaning == old(self).meaning,
            has_binding(final(self).symbols@, d@, v),
            final(self).literals == old(self).literals,
            final(self).keeps_consts(old(self), Some(d@)),
            final(self).keeps_base(old(self), Some(d@)),
            forall|e0: Env, e: Env, x: Literal|
                old(self).agrees(e0, e) && (old(self).meaning@[v as int])(e0) == Some(x)
                    ==> #[trigger] final(self).agrees(e0, e.insert(d@, x)),
    {
        let ghost prev = *self;
        let mut kept: Vec<(usize, Symbol)> = Vec::new();
        let mut i: usize = 0;
        while i < self.holders.len()
            invariant
                *self == prev,
                prev.inv(),
                i <= prev.holders@.len(),
                forall|j: int| 0 <= j < kept@.len() ==> (#[trigger] kept@[j]).1@ != d@
                    && kept@[j].0 < prev.next
                    && has_binding(prev.symbols@, kept@[j].1@, kept@[j].0),
                forall|h: int|
                    0 <= h < i && (#[trigger] prev.holders@[h]).1@ != d@ ==> exists|t: int|
                        0 <= t < kept@.len() && kept@[t].0 == prev.holders@[h].0 && (#[trigger] kept@[t]).1@
                            == prev.holders@[h].1@,
            decreases prev.holders@.len() - i,
        {
            let ghost kept0 = kept@;
            if !self.holders[i].1.same(d) {
                let h = self.holders[i].1.clone();
                assert(has_binding(prev.symbols@, prev.holders@[i as int].1@, prev.holders@[i as int].0));
                kept.push((self.holders[i].0, h));
                assert(kept@.last().1@ == prev.holders@[i as int].1@);
            }
            assert forall|h: int|
                0 <= h < i + 1 && (#[trigger] prev.holders@[h]).1@ != d@ implies exists|t: int|
                    0 <= t < kept@.len() && kept@[t].0 == prev.holders@[h].0 && (#[trigger] kept@[t]).1@
                        == prev.holders@[h].1@ by {
                if h < i {
                    let t = choose|t: int|
                        0 <= t < kept0.len() && kept0[t].0 == prev.holders@[h].0 && (#[trigger] kept0[t]).1@
                            == prev.holders@[h].1@;
                    assert(kept@[t] == kept0[t]);
                } else {
                    assert(kept@[kept@.len() - 1].1@ == prev.holders@[h].1@);
                }
            }
            i = i + 1;
        }
        self.holders = kept;
        let ghost mid = *self;
        let ghost idx: int;
        match self.find_symbol(d) {
            Some(i) => {
                self.symbols.set(i, (d.clone(), v));
                proof { idx = i as int; }
            },
            None => {
                self.symbols.push((d.clone(), v));
                proof { idx = prev.symbols@.len() as int; }
            },
        }
        assert(self.symbols@[idx].0@ == d@ && self.symbols@[idx].1 == v);
        assert(has_binding(self.symbols@, d@, v));
        assert forall|j: int| 0 <= j < self.symbols@.len() && j != idx implies #[trigger] self.symbols@[j] == prev.symbols@[j]
            && prev.symbols@[j].0@ != d@ by {
        }
        assert forall|i: int| 0 <= i < self.holders@.len() implies has_binding(
            self.symbols@,
            (#[trigger] self.holders@[i]).1@,
            self.holders@[i].0,
        ) by {
            let k = self.holders@[i].1@;
            let w = self.holders@[i].0;
            let j = choose|j: int| 0 <= j < prev.symbols@.len() && (#[trigger] prev.symbols@[j]).0@ == k && prev.symbols@[j].1 == w;
            assert(j != idx);
            assert(self.symbols@[j] == prev.symbols@[j]);
        }
        assert forall|a: int, b: int|
            0 <= a < self.symbols@.len() && 0 <= b < self.symbols@.len() && (
            #[trigger] self.symbols@[a]).0@ == (#[trigger] self.symbols@[b]).0@ implies a == b by {
            if a != idx && b != idx {
                assert(prev.symbols@[a].0@ == prev.symbols@[b].0@);
            }
        }
        proof {
            self.lemma_same_literals(&prev);
        }
        assert forall|k: SymbolKey, m: Literal| Some(d@) != Some(k) && prev.key_const(k, m) implies #[trigger] self.key_const(k, m) by {
            let w = choose|w: usize| has_binding(prev.symbols@, k, w) && #[trigger] prev.const_number(w, m);
            let j = choose|j: int| 0 <= j < prev.symbols@.len() && (#[trigger] prev.symbols@[j]).0@ == k && prev.symbols@[j].1 == w;
            assert(j != idx);
            assert(self.symbols@[j] == prev.symbols@[j]);
            assert(has_binding(self.symbols@, k, w));
            assert(self.const_number(w, m));
        }
        assert forall|v2: usize, k: SymbolKey| Some(d@) != Some(k) && prev.has_holder(v2, k) implies #[trigger] self.has_holder(v2, k) by {
            let h = choose|h: int| 0 <= h < prev.holders@.len() && (#[trigger] prev.holders@[h]).0 == v2 && prev.holders@[h].1@ == k;
            let t = choose|t: int|
                0 <= t < mid.holders@.len() && mid.holders@[t].0 == prev.holders@[h].0 && (#[trigger] mid.holders@[t]).1@
                    == prev.holders@[h].1@;
            assert(self.holders@[t] == mid.holders@[t]);
        }
        assert forall|op: OPCode, va: usize, vb: usize, v2: usize|
            prev.has_expr(op, va, vb, v2) implies #[trigger] self.has_expr(op, va, vb, v2) by {
            let e = choose|e: int| 0 <= e < prev.exprs@.len() && #[trigger] prev.exprs@[e] == (op, va, vb, v2);
            assert(self.exprs@[e] == (op, va, vb, v2));
        }
        assert forall|k: SymbolKey, w: usize|
            Some(d@) != Some(k) && has_binding(prev.symbols@, k, w) implies #[trigger] has_binding(self.symbols@, k, w) by {
            let j = choose|j: int| 0 <= j < prev.symbols@.len() && (#[trigger] prev.symbols@[j]).0@ == k && prev.symbols@[j].1 == w;
            assert(j != idx);
            assert(self.symbols@[j] == prev.symbols@[j]);
        }
        assert forall|e0: Env, e: Env, x: Literal|
            prev.agrees(e0, e) && (prev.meaning@[v as int])(e0) == Some(x)
                implies #[trigger] self.agrees(e0, e.insert(d@, x)) by {
            let e2 = e.insert(d@, x);
            assert forall|i: int| 0 <= i < self.symbols@.len() implies (self.meaning@[(#[trigger] self.symbols@[i]).1 as int])(
                e0,
            ) == lookup(e2, self.symbols@[i].0@) by {
                if i != idx {
                    assert(self.symbols@[i] == prev.symbols@[i]);
                }
            }
            assert forall|k: SymbolKey|
                (forall|i: int| 0 <= i < self.symbols@.len() ==> (#[trigger] self.symbols@[i]).0@ != k)
                implies #[trigger] lookup(e2, k) == lookup(e0, k) by {
                assert(self.symbols@[idx].0@ != k);
                assert forall|i: int| 0 <= i < prev.symbols@.len() implies (#[trigger] prev.symbols@[i]).0@ != k by {
                    if i != idx {
                        assert(self.symbols@[i] == prev.symbols@[i]);
                    }
                }
                assert(lookup(e, k) == lookup(e0, k));
            }
        }
    }

    /// Record `d` as a holder of number `v`.
    fn add_holder(&mut self, v: usize, d: Symbol)
        requires
            old(self).inv(),
            v < old(self).next,
            has_binding(old(self).symbols@, d@, v),
        ensures
            final(self).inv(),
            final(self).next == old(self).next,
            final(self).meaning == old(self).meaning,
            final(self).symbols == old(self).symbols,
            final(self).literals == old(self).literals,
            final(self).keeps_consts(old(self), None),
            final(self).keeps_base(old(self), None),
            final(self).has_holder(v, d@),
            forall|e0: Env, e: Env| #[trigger] final(self).agrees(e0, e) == old(self).agrees(e0, e),
    {
        let ghost prev = *self;
        let ghost dk = d@;
        self.holders.push((v, d));
        assert(self.holders@[prev.holders@.len() as int].1@ == dk);
        assert(self.has_holder(v, dk));
        assert forall|v2: usize, k: SymbolKey| prev.has_holder(v2, k) implies #[trigger] self.has_holder(v2, k) by {
            let h = choose|h: int| 0 <= h < prev.holders@.len() && (#[trigger] prev.holders@[h]).0 == v2 && prev.holders@[h].1@ == k;
            assert(self.holders@[h] == prev.holders@[h]);
        }
        assert forall|op: OPCode, va: usize, vb: usize, v2: usize|
            prev.has_expr(op, va, vb, v2) implies #[trigger] self.has_expr(op, va, vb, v2) by {
            let e = choose|e: int| 0 <= e < prev.exprs@.len() && #[trigger] prev.exprs@[e] == (op, va, vb, v2);
            assert(self.exprs@[e] == (op, va, vb, v2));
        }
        proof {
            self.lemma_same_literals(&prev);
        }
        assert forall|k: SymbolKey, m: Literal| prev.key_const(k, m) implies #[trigger] self.key_const(k, m) by {
            let w = choose|w: usize| has_binding(prev.symbols@, k, w) && #[trigger] prev.const_number(w, m);
            assert(self.const_number(w, m));
        }
    }

    /// Fold `d = op` on numbers `va` and `vb` where both are known
    /// constants and the operation has a result: returns the `Const` to put
    /// in its place. Otherwise returns `None` and changes nothing.
    fn try_fold(&mut self, op: OPCode, d: &Symbol, va: usize, vb: usize) -> (r: Option<Instruction>)
        requires
            old(self).inv(),
            va < old(self).next,
            vb < old(self).next,
            old(self).next + 1 < usize::MAX,
        ensures
            final(self).inv(),
            final(self).next <= old(self).next + 1,
            r is None ==> *final(self) == *old(self),
            r matches Some(ni) ==> ni.spec_destination() == Some(*d) && rewrite_of(ni, *d),
            r is Some ==> forall|e0: Env| #[trigger] eval_op(
                op,
                (old(self).meaning@[va as int])(e0),
                (old(self).meaning@[vb as int])(e0),
            ) is Some,
            final(self).keeps_consts(old(self), Some(d@)),
            final(self).keeps_base(old(self), Some(d@)),
            r is Some ==> exists|x: Literal, y: Literal|
                #![trigger old(self).const_number(va, x), old(self).const_number(vb, y)]
                old(self).const_number(va, x) && old(self).const_number(vb, y) && apply(op, x, y) is Some,
            forall|x: Literal, y: Literal|
                old(self).const_number(va, x) && old(self).const_number(vb, y) && #[trigger] apply(
                    op,
                    x,
                    y,
                ) is Some ==> r == Some(Instruction::Const(*d, apply(op, x, y).unwrap()))
                    && final(self).key_const(d@, apply(op, x, y).unwrap()),
            forall|e0: Env, e: Env, z: Literal|
                old(self).agrees(e0, e) && eval_op(
                    op,
                    (old(self).meaning@[va as int])(e0),
                    (old(self).meaning@[vb as int])(e0),
                ) == Some(z) && r is Some ==> #[trigger] final(self).agrees(e0, e.insert(d@, z)) && step(
                    e,
                    r.unwrap(),
                ) == Some(e.insert(d@, z)),
    {
        let ghost s0 = *self;
        let ca = self.constant_of(va);
        let cb = self.constant_of(vb);
        if let (Some(x), Some(y)) = (ca, cb) {
            if let Some(lit) = fold(op, x, y) {
                let vl = self.number_literal(lit);
                let ghost s1 = *self;
                self.bind(d, vl);
                let res = Instruction::Const(d.clone(), lit);
                assert forall|e0: Env, e: Env, z: Literal|
                    s0.agrees(e0, e) && eval_op(
                        op,
                        (s0.meaning@[va as int])(e0),
                        (s0.meaning@[vb as int])(e0),
                    ) == Some(z) implies #[trigger] self.agrees(e0, e.insert(d@, z)) && step(e, res) == Some(
                    e.insert(d@, z),
                ) by {
                    assert((s0.meaning@[va as int])(e0) == Some(x));
                    assert((s0.meaning@[vb as int])(e0) == Some(y));
                    assert(z == lit);
                    assert(s1.agrees(e0, e));
                    assert((s1.meaning@[vl as int])(e0) == Some(lit));
                }
                assert(s1.const_number(vl, lit));
                assert(self.const_number(vl, lit));
                assert(has_binding(self.symbols@, d@, vl));
                assert(self.key_const(d@, lit));
                assert forall|e0: Env| #[trigger] eval_op(
                    op,
                    (s0.meaning@[va as int])(e0),
                    (s0.meaning@[vb as int])(e0),
                ) is Some by {
                    assert((s0.meaning@[va as int])(e0) == Some(x));
                    assert((s0.meaning@[vb as int])(e0) == Some(y));
                }
                return Some(res);
            }
        }
        proof {
            self.lemma_keeps_refl();
        }
        None
    }

    /// Number `d = op` on numbers `va` and `vb` where it does not fold:
    /// returns a copy of a symbol that already holds the same operation's
    /// value, if there is one; otherwise records `d` as its holder and
    /// returns `None`.
    #[verifier::rlimit(40)]
    fn reuse_or_record(&mut self, op: OPCode, d: &Symbol, va: usize, vb: usize) -> (r: Option<
        Instruction,
    >)
        requires
            old(self).inv(),
            va < old(self).next,
            vb < old(self).next,
            old(self).next + 1 < usize::MAX,
        ensures
            final(self).inv(),
            final(self).next <= old(self).next + 1,
            r matches Some(ni) ==> ni.spec_destination() == Some(*d) && rewrite_of(ni, *d),
            forall|e0: Env, e: Env|
                #[trigger] old(self).agrees(e0, e) && eval_op(
                    op,
                    (old(self).meaning@[va as int])(e0),
                    (old(self).meaning@[vb as int])(e0),
                ) is None ==> (r matches Some(ni) ==> step(e, ni) is None),
            final(self).keeps_consts(old(self), Some(d@)),
            final(self).keeps_base(old(self), Some(d@)),
            exists|v: usize| #[trigger] final(self).has_expr(op, va, vb, v) && final(self).has_holder(v, d@),
            forall|v: usize, k: SymbolKey|
                old(self).has_expr(op, va, vb, v) && #[trigger] old(self).has_holder(v, k) ==> (r is Some
                    && r.unwrap() is Id),
            forall|e0: Env, e: Env, z: Literal|
                old(self).agrees(e0, e) && eval_op(
                    op,
                    (old(self).meaning@[va as int])(e0),
                    (old(self).meaning@[vb as int])(e0),
                ) == Some(z) ==> #[trigger] final(self).agrees(e0, e.insert(d@, z)) && (r matches Some(ni)
                    ==> step(e, ni) == Some(e.insert(d@, z))),
    {
        let ghost s0 = *self;
        match self.find_expr(op, va, vb) {
            Some(v) => {
                match self.holder_of(v) {
                    Some(h) => {
                        let ghost hk = h@;
                        self.bind(d, v);
                        let ghost s1 = *self;
                        let res = Instruction::Id(d.clone(), Value::StorageLocation(h));
                        assert forall|e0: Env, e: Env, z: Literal|
                            s0.agrees(e0, e) && eval_op(
                                op,
                                (s0.meaning@[va as int])(e0),
                                (s0.meaning@[vb as int])(e0),
                            ) == Some(z) implies #[trigger] self.agrees(e0, e.insert(d@, z)) && step(e, res)
                            == Some(e.insert(d@, z)) by {
                            let j = choose|j: int|
                                0 <= j < s0.symbols@.len() && (#[trigger] s0.symbols@[j]).0@ == hk
                                    && s0.symbols@[j].1 == v;
                            assert((s0.meaning@[v as int])(e0) == Some(z));
                            assert(lookup(e, hk) == Some(z));
                        }
                        assert forall|e0: Env, e: Env|
                            #[trigger] s0.agrees(e0, e) && eval_op(
                                op,
                                (s0.meaning@[va as int])(e0),
                                (s0.meaning@[vb as int])(e0),
                            ) is None implies step(e, res) is None by {
                            let j = choose|j: int|
                                0 <= j < s0.symbols@.len() && (#[trigger] s0.symbols@[j]).0@ == hk
                                    && s0.symbols@[j].1 == v;
                            assert((s0.meaning@[v as int])(e0) is None);
                            assert(lookup(e, hk) is None);
                        }
                        self.add_holder(v, d.clone());
                        proof {
                            self.lemma_keeps_base_trans(&s1, &s0, Some(d@), Some(d@));
                        }
                        assert(self.has_expr(op, va, vb, v) && self.has_holder(v, d@));
                        Some(res)
                    },
                    None => {
                        self.bind(d, v);
                        let ghost s1 = *self;
                        self.add_holder(v, d.clone());
                        proof {
                            self.lemma_keeps_base_trans(&s1, &s0, Some(d@), Some(d@));
                        }
                        assert(self.has_expr(op, va, vb, v) && self.has_holder(v, d@));
                        assert forall|e0: Env, e: Env, z: Literal|
                            s0.agrees(e0, e) && eval_op(
                                op,
                                (s0.meaning@[va as int])(e0),
                                (s0.meaning@[vb as int])(e0),
                            ) == Some(z) implies #[trigger] self.agrees(e0, e.insert(d@, z)) by {
                            assert((s0.meaning@[v as int])(e0) == Some(z));
                        }
                        None
                    },
                }
            },
            None => {
                let v = self.next;
                self.meaning = Ghost(
                    self.meaning@.push(op_meaning(op, self.meaning@[va as int], self.meaning@[vb as int])),
                );
                self.next = self.next + 1;
                self.exprs.push((op, va, vb, v));
                let ghost s1 = *self;
                proof {
                    s1.lemma_same_literals(&s0);
                    s1.lemma_keeps_base_grow(&s0);
                }
                assert(s1.exprs@[s0.exprs@.len() as int] == (op, va, vb, v));
                assert(s1.has_expr(op, va, vb, v));
                assert forall|k: SymbolKey, m: Literal| s0.key_const(k, m) implies #[trigger] s1.key_const(k, m) by {
                    let w = choose|w: usize| has_binding(s0.symbols@, k, w) && #[trigger] s0.const_number(w, m);
                    assert(s1.const_number(w, m));
                }
                assert forall|e0: Env, e: Env| #[trigger] s0.agrees(e0, e) implies s1.agrees(e0, e) by {
                    assert forall|i: int| 0 <= i < s1.symbols@.len() implies (s1.meaning@[(
                    #[trigger] s1.symbols@[i]).1 as int])(e0) == lookup(e, s1.symbols@[i].0@) by {
                        assert(s1.meaning@[s1.symbols@[i].1 as int] == s0.meaning@[s0.symbols@[i].1 as int]);
                    }
                }
                self.bind(d, v);
                let ghost s2 = *self;
                self.add_holder(v, d.clone());
                proof {
                    s2.lemma_keeps_base_trans(&s1, &s0, None, Some(d@));
                    self.lemma_keeps_base_trans(&s2, &s0, Some(d@), Some(d@));
                }
                assert(self.has_expr(op, va, vb, v) && self.has_holder(v, d@));
                assert forall|e0: Env, e: Env, z: Literal|
                    s0.agrees(e0, e) && eval_op(
                        op,
                        (s0.meaning@[va as int])(e0),
                        (s0.meaning@[vb as int])(e0),
                    ) == Some(z) implies #[trigger] self.agrees(e0, e.insert(d@, z)) by {
                    assert(s1.agrees(e0, e));
                    assert((s1.meaning@[v as int])(e0) == Some(z));
                }
                None
            },
        }
    }

    /// Number the pure operation `d = op a b` (a unary operation passes its
    /// operand twice). Returns the instruction to put in its place: a
    /// `Const` where it folds, a copy of the symbol that already holds its
    /// value where it recomputes one; `None` to keep it.
    fn number_operation(&mut self, op: OPCode, d: &Symbol, a: &Value, b: &Value) -> (r: Option<
        Instruction,
    >)
        requires
            old(self).inv(),
            old(self).next + 3 < usize::MAX,
        ensures
            final(self).inv(),
            final(self).next <= old(self).next + 3,
            r matches Some(ni) ==> ni.spec_destination() == Some(*d) && rewrite_of(ni, *d),
            forall|e0: Env, e: Env|
                #[trigger] old(self).agrees(e0, e) && eval_op(op, value_of(e, *a), value_of(e, *b)) is None
                    ==> (r matches Some(ni) ==> step(e, ni) is None),
            final(self).keeps_consts(old(self), Some(d@)),
            final(self).keeps_base(old(self), Some(d@)),
            !(a matches Value::StorageLocation(s) && s@ == d@) && !(b matches Value::StorageLocation(s) && s@ == d@)
                ==> final(self).ready(op, *a, *b, d@),
            forall|ck: SymbolKey| #[trigger] old(self).ready(op, *a, *b, ck) ==> (r is Some && (r.unwrap() is Const
                || r.unwrap() is Id)),
            forall|x: Literal, y: Literal|
                old(self).value_const(*a, x) && old(self).value_const(*b, y) && #[trigger] apply(
                    op,
                    x,
                    y,
                ) is Some ==> r == Some(Instruction::Const(*d, apply(op, x, y).unwrap()))
                    && final(self).key_const(d@, apply(op, x, y).unwrap()),
            forall|e0: Env, e: Env, x: Literal|
                old(self).agrees(e0, e) && eval_op(op, value_of(e, *a), value_of(e, *b))
                    == Some(x) ==> #[trigger] final(self).agrees(e0, e.insert(d@, x)) && (r matches Some(ni)
                    ==> step(e, ni) == Some(e.insert(d@, x))),
    {
        let ghost s0 = *self;
        let va = self.number_value(a);
        let ghost s1 = *self;
        let vb = self.number_value(b);
        let ghost s2 = *self;
        assert forall|e0: Env, e: Env| #[trigger] s0.agrees(e0, e) implies s2.agrees(e0, e) && (
        s2.meaning@[va as int])(e0) == value_of(e, *a) && (s2.meaning@[vb as int])(e0) == value_of(
            e,
            *b,
        ) by {
            assert(s1.agrees(e0, e));
            assert((s1.meaning@[va as int])(e0) == value_of(e, *a));
            assert(s2.agrees(e0, e));
            assert(s2.meaning@[va as int] == s1.meaning@[va as int]);
        }
        assert forall|x: Literal, y: Literal| #![trigger s2.const_number(va, x), s2.const_number(vb, y)]
            s0.value_const(*a, x) && s0.value_const(*b, y) implies s2.const_number(va, x)
            && s2.const_number(vb, y) by {
            assert(s1.const_number(va, x));
            if let Value::StorageLocation(sb) = *b {
                assert(s1.key_const(sb@, y));
            }
            assert(s1.value_const(*b, y));
        }
        proof {
            s2.lemma_keeps_base_trans(&s1, &s0, None, None);
            s2.lemma_value_num_carry(&s1, None, *a, va);
        }
        assert forall|ck: SymbolKey| #[trigger] s0.ready(op, *a, *b, ck) implies s2.ready(op, *a, *b, ck)
            && s2.value_num(*a, va) && s2.value_num(*b, vb) && (forall|wa: usize, wb: usize|
            s2.value_num(*a, wa) && s2.value_num(*b, wb) ==> wa == va && wb == vb) by {
            s2.lemma_ready_carry(&s0, None, op, *a, *b, ck);
        }
        let folded = self.try_fold(op, d, va, vb);
        if folded.is_some() {
            let ghost s3 = *self;
            proof {
                s3.lemma_keeps_base_trans(&s2, &s0, None, Some(d@));
                if !(a matches Value::StorageLocation(s) && s@ == d@) && !(b matches Value::StorageLocation(s) && s@ == d@) {
                    s3.lemma_value_num_carry(&s2, Some(d@), *a, va);
                    s3.lemma_value_num_carry(&s2, Some(d@), *b, vb);
                    let (x, y) = choose|x: Literal, y: Literal|
                        #![trigger s2.const_number(va, x), s2.const_number(vb, y)]
                        s2.const_number(va, x) && s2.const_number(vb, y) && apply(op, x, y) is Some;
                    assert(s3.const_number(va, x) && s3.const_number(vb, y));
                }
            }
            return folded;
        }
        let r = self.reuse_or_record(op, d, va, vb);
        assert forall|e0: Env, e: Env|
            #[trigger] s0.agrees(e0, e) && eval_op(op, value_of(e, *a), value_of(e, *b)) is None
                implies (r matches Some(ni) ==> step(e, ni) is None) by {
            assert(s2.agrees(e0, e));
        }
        proof {
            self.lemma_keeps_base_trans(&s2, &s0, None, Some(d@));
            if !(a matches Value::StorageLocation(s) && s@ == d@) && !(b matches Value::StorageLocation(s) && s@ == d@) {
                self.lemma_value_num_carry(&s2, Some(d@), *a, va);
                self.lemma_value_num_carry(&s2, Some(d@), *b, vb);
            }
        }
        r
    }

    /// Number one instruction of the block. Returns the instruction to put
    /// in its place, or `None` to keep it.
    fn number_instruction(&mut self, inst: &Instruction) -> (r: Option<Instruction>)
        requires
            old(self).inv(),
            old(self).next + 3 < usize::MAX,
        ensures
            final(self).inv(),
            final(self).next <= old(self).next + 3,
            r matches Some(ni) ==> writes(*inst) && ni.spec_destination() == inst.spec_destination(),
            r matches Some(ni) ==> op_parts(*inst) is Some && rewrite_of(ni, op_parts(*inst).unwrap().1),
            forall|e0: Env, e: Env|
                #[trigger] old(self).agrees(e0, e) && step(e, *inst) is None ==> (r matches Some(ni)
                    ==> step(e, ni) is None),
            final(self).keeps_consts(old(self), dest_key(*inst)),
            final(self).keeps_base(old(self), dest_key(*inst)),
            op_parts(*inst) is Some ==> {
                let (op, d, a, b) = op_parts(*inst).unwrap();
                !(a matches Value::StorageLocation(s) && s@ == d@) && !(b matches Value::StorageLocation(s) && s@ == d@)
                    ==> final(self).ready(op, a, b, d@)
            },
            forall|ck: SymbolKey| op_parts(*inst) is Some && #[trigger] old(self).ready(
                op_parts(*inst).unwrap().0,
                op_parts(*inst).unwrap().2,
                op_parts(*inst).unwrap().3,
                ck,
            ) ==> (r is Some && (r.unwrap() is Const || r.unwrap() is Id)),
            inst matches Instruction::Const(d, l) ==> final(self).key_const(d@, *l),
            inst is Id ==> final(self).copies(inst.spec_destination().unwrap()@, op_parts_id(*inst)),
            forall|l: Literal|
                #![trigger final(self).key_const(inst.spec_destination().unwrap()@, l)]
                inst is Id && old(self).value_const(op_parts_id(*inst), l) ==> final(self).key_const(
                    inst.spec_destination().unwrap()@,
                    l,
                ),
            forall|x: Literal, y: Literal| #[trigger] old(self).fold_fact(*inst, x, y) ==> final(self).key_const(
                inst.spec_destination().unwrap()@,
                fold_result(*inst, x, y)->Const_1,
            ),
            forall|x: Literal, y: Literal| #[trigger] old(self).fold_fact(*inst, x, y) ==> r == Some(
                fold_result(*inst, x, y),
            ),
            forall|e0: Env, e: Env|
                #[trigger] old(self).agrees(e0, e) && step(e, *inst) is Some ==> final(self).agrees(
                    e0,
                    step(e, *inst).unwrap(),
                ) && (r matches Some(ni) ==> step(e, ni) == step(e, *inst)),
    {
        if let Some((op, d, a, b)) = as_operation(inst) {
            let ghost s0 = *self;
            let r = self.number_operation(op, d, a, b);
            assert forall|x: Literal, y: Literal| #[trigger] s0.fold_fact(*inst, x, y) implies r == Some(
                fold_result(*inst, x, y),
            ) by {
                assert(apply(op, x, y) is Some);
            }
            assert forall|e0: Env, e: Env|
                #[trigger] s0.agrees(e0, e) && step(e, *inst) is Some implies self.agrees(
                    e0,
                    step(e, *inst).unwrap(),
                ) && (r matches Some(ni) ==> step(e, ni) == step(e, *inst)) by {
                let x = eval_op(op, value_of(e, *a), value_of(e, *b)).unwrap();
                assert(step(e, *inst) == Some(e.insert(d@, x)));
                assert(self.agrees(e0, e.insert(d@, x)));
            }
            assert forall|e0: Env, e: Env|
                #[trigger] s0.agrees(e0, e) && step(e, *inst) is None implies (r matches Some(ni)
                    ==> step(e, ni) is None) by {
                assert(eval_op(op, value_of(e, *a), value_of(e, *b)) is None);
            }
            return r;
        }
        match inst {
            Instruction::Const(d, l) => {
                let ghost s0 = *self;
                let vl = self.number_literal(*l);
                let ghost s1 = *self;
                self.bind(d, vl);
                proof {
                    self.lemma_keeps_base_trans(&s1, &s0, None, Some(d@));
                }
                assert(s1.const_number(vl, *l));
                assert(self.const_number(vl, *l));
                assert(has_binding(self.symbols@, d@, vl));
                assert(self.key_const(d@, *l));
                assert forall|e0: Env, e: Env| #[trigger] s0.agrees(e0, e) && step(e, *inst) is Some implies self.agrees(
                    e0,
                    step(e, *inst).unwrap(),
                ) by {
                    assert(s1.agrees(e0, e));
                    assert((s1.meaning@[vl as int])(e0) == Some(*l));
                    assert(step(e, *inst) == Some(e.insert(d@, *l)));
                    assert(self.agrees(e0, e.insert(d@, *l)));
                }
                None
            },
            Instruction::Id(d, a) => {
                let ghost s0 = *self;
                let v = self.number_value(a);
                let ghost s1 = *self;
                self.bind(d, v);
                assert forall|e0: Env, e: Env| #[trigger] s0.agrees(e0, e) && step(e, *inst) is Some implies self.agrees(
                    e0,
                    step(e, *inst).unwrap(),
                ) by {
                    assert(s1.agrees(e0, e));
                }
                let ghost s2 = *self;
                self.add_holder(v, d.clone());
                proof {
                    s2.lemma_keeps_base_trans(&s1, &s0, None, Some(d@));
                    self.lemma_keeps_base_trans(&s2, &s0, Some(d@), Some(d@));
                }
                proof {
                    if let Value::StorageLocation(x) = a {
                        if x@ == d@ {
                            assert(has_binding(self.symbols@, d@, v));
                            assert(self.value_num(*a, v));
                        } else {
                            self.lemma_value_num_carry(&s1, Some(d@), *a, v);
                        }
                    } else {
                        self.lemma_value_num_carry(&s1, Some(d@), *a, v);
                    }
                    assert(has_binding(self.symbols@, d@, v));
                    assert(self.copies(d@, *a));
                }
                assert forall|l: Literal| s0.value_const(*a, l) implies #[trigger] self.key_const(d@, l) by {
                    assert(s1.const_number(v, l));
                    assert(self.const_number(v, l));
                    assert(has_binding(s2.symbols@, d@, v));
                    assert(has_binding(self.symbols@, d@, v));
                }
                None
            },
            _ => {
                proof {
                    self.lemma_keeps_refl();
                    self.lemma_keeps_base_refl();
                }
                None
            },
        }
    }
}

/// Whether `inst` writes the symbol that operand `x` reads.
pub open spec fn overwrites(inst: Instruction, x: Value) -> bool {
    match x {
        Value::StorageLocation(s) => dest_key(inst) == Some(s@),
        Value::ConstantLiteral(_) => false,
    }
}

/// Whether two operands are the same: symbols of the same name and type,
/// or equal literals.
pub open spec fn same_operand(x: Value, y: Value) -> bool {
    match (x, y) {
        (Value::StorageLocation(p), Value::StorageLocation(q)) => p@ == q@,
        (Value::ConstantLiteral(l), Value::ConstantLiteral(m)) => l == m,
        _ => false,
    }
}

/// Whether, after `s`, the symbol `k` holds a copy of operand `a`: its
/// last write in `s` copies `a`, and `a` is not written after it.
pub open spec fn copy_of(s: Seq<Instruction>, k: SymbolKey, a: Value) -> bool
    decreases s.len(),
{
    if s.len() == 0 {
        false
    } else if dest_key(s.last()) == Some(k) {
        s.last() is Id && same_operand(op_parts_id(s.last()), a)
    } else if overwrites(s.last(), a) {
        false
    } else {
        copy_of(s.drop_last(), k, a)
    }
}

/// Whether operand `p` after `s` stands for operand `q`: the same operand,
/// or a symbol holding a copy of `q`.
pub open spec fn stands_for(s: Seq<Instruction>, p: Value, q: Value) -> bool {
    same_operand(p, q) || (p matches Value::StorageLocation(x) && copy_of(s, x@, q))
}

/// Whether instruction `j` of `s` computes `op` on `a` and `b`, with
/// neither operand written from `j` on, nor its destination after `j`.
pub open spec fn available_at(s: Seq<Instruction>, j: int, op: OPCode, a: Value, b: Value) -> bool {
    &&& 0 <= j < s.len()
    &&& op_parts(s[j]) is Some
    &&& op_parts(s[j]).unwrap().0 == op
    &&& same_operand(op_parts(s[j]).unwrap().2, a)
    &&& same_operand(op_parts(s[j]).unwrap().3, b)
    &&& forall|m: int| j <= m < s.len() ==> !overwrites(#[trigger] s[m], a) && !overwrites(s[m], b)
    &&& forall|m: int| j < m < s.len() ==> dest_key(#[trigger] s[m]) != Some(op_parts(s[j]).unwrap().1@)
}

/// Whether the pure operation `inst` recomputes an operation still
/// available at the end of the block prefix `s`, on the same operands or
/// on copies of them.
pub open spec fn recomputes(s: Seq<Instruction>, inst: Instruction) -> bool {
    &&& op_parts(inst) is Some
    &&& exists|j: int, a: Value, b: Value|
        #[trigger] available_at(s, j, op_parts(inst).unwrap().0, a, b) && stands_for(
            s,
            op_parts(inst).unwrap().2,
            a,
        ) && stands_for(s, op_parts(inst).unwrap().3, b)
}

/// Whether running the rewritten prefix `news` gives the same bindings as
/// running the prefix `olds` as it stood before, from bindings `e0`,
/// wherever that has a result; and, while `active`, whether the tables describe
/// those bindings.
spec fn prefix_ok(num: Numbering, active: bool, e0: Env, olds: Seq<Instruction>, news: Seq<Instruction>) -> bool {
    match run(e0, olds) {
        Some(e) => run(e0, news) == Some(e) && (active ==> num.agrees(e0, e)),
        None => run(e0, news) is None,
    }
}

/// Local value numbering of the block `start..end` of `function`: constant
/// folding, common-subexpression elimination and copy propagation within
/// the block. Only pure operations are rewritten, each into a `Const` of
/// its destination or a copy of a symbol into it, and running the block,
/// or any prefix of it, from any bindings on entry gives the same outcome
/// as before: the same bindings, or no result where it had none. An
/// operation on operands of known literal (`folds_to`) becomes the `Const`
/// of its result, and one that recomputes an operation still available
/// (`recomputes`) becomes a `Const` or a copy; both for bodies shorter
/// than a quarter of the address space, which bounds the count of value
/// numbers.
pub fn number_block(function: &mut Function, start: usize, end: usize)
    requires
        start <= end <= old(function)@.len(),
    ensures
        final(function)@.len() == old(function)@.len(),
        final(function).spec_name() == old(function).spec_name(),
        final(function).spec_return_type() == old(function).spec_return_type(),
        forall|i: int|
            0 <= i < old(function)@.len() && (i < start || i >= end) ==> #[trigger] final(function)@[i]
                == old(function)@[i],
        forall|i: int|
            start <= i < end ==> #[trigger] final(function)@[i] == old(function)@[i] || (writes(
                old(function)@[i],
            ) && final(function)@[i].spec_destination() == old(function)@[i].spec_destination()),
        forall|i: int|
            start <= i < end ==> #[trigger] final(function)@[i] == old(function)@[i] || (op_parts(
                old(function)@[i],
            ) is Some && rewrite_of(final(function)@[i], op_parts(old(function)@[i]).unwrap().1)),
        forall|e0: Env| #[trigger]
            run(e0, old(function)@.subrange(start as int, end as int)) == run(
                e0,
                final(function)@.subrange(start as int, end as int),
            ),
        forall|i: int, e0: Env|
            start <= i <= end ==> #[trigger] run(e0, old(function)@.subrange(start as int, i)) == run(
                e0,
                final(function)@.subrange(start as int, i),
            ),
        old(function)@.len() < usize::MAX / 4 ==> forall|i: int|
            start <= i < end ==> (folds_to(old(function)@.subrange(start as int, i), old(function)@[i]) matches Some(
                c,
            ) ==> #[trigger] final(function)@[i] == c),
        old(function)@.len() < usize::MAX / 4 ==> forall|i: int|
            start <= i < end && recomputes(old(function)@.subrange(start as int, i), old(function)@[i])
                ==> (#[trigger] final(function)@[i] is Const || final(function)@[i] is Id),
{
    let ghost orig = function@;
    let mut num = Numbering::new();
    let mut active = true;
    let mut idx = start;
    assert forall|e0: Env|
        #[trigger] prefix_ok(num, active, e0, orig.subrange(start as int, idx as int), function@.subrange(start as int, idx as int)) by {
        assert(orig.subrange(start as int, idx as int) =~= Seq::<Instruction>::empty());
        assert(function@.subrange(start as int, idx as int) =~= Seq::<Instruction>::empty());
    }
    assert forall|i: int, e0: Env|
        start <= i <= idx implies #[trigger] run(e0, orig.subrange(start as int, i)) == run(
            e0,
            function@.subrange(start as int, i),
        ) by {
        assert(orig.subrange(start as int, i) =~= function@.subrange(start as int, i));
    }
    while idx < end
        invariant
            start <= idx <= end,
            end <= orig.len(),
            function@.len() == orig.len(),
            function.spec_name() == old(function).spec_name(),
            function.spec_return_type() == old(function).spec_return_type(),
            orig == old(function)@,
            active ==> num.inv(),
            orig.len() < usize::MAX / 4 ==> active && num.next <= 3 * (idx - start),
            forall|i: int, e0: Env|
                start <= i <= idx ==> #[trigger] run(e0, orig.subrange(start as int, i)) == run(
                    e0,
                    function@.subrange(start as int, i),
                ),
            active ==> forall|k: SymbolKey, l: Literal|
                known_const(orig.subrange(start as int, idx as int), k) == Some(l) ==> #[trigger] num.key_const(k, l),
            orig.len() < usize::MAX / 4 ==> forall|i: int|
                start <= i < idx ==> (folds_to(orig.subrange(start as int, i), orig[i]) matches Some(c)
                    ==> #[trigger] function@[i] == c),
            orig.len() < usize::MAX / 4 ==> forall|i: int|
                start <= i < idx && recomputes(orig.subrange(start as int, i), orig[i])
                    ==> (#[trigger] function@[i] is Const || function@[i] is Id),
            active ==> forall|k: SymbolKey, a: Value|
                #[trigger] copy_of(orig.subrange(start as int, idx as int), k, a) ==> num.copies(k, a),
            active ==> forall|j: int, op: OPCode, a: Value, b: Value|
                #[trigger] available_at(orig.subrange(start as int, idx as int), j, op, a, b) ==> num.ready(
                    op,
                    a,
                    b,
                    op_parts(orig.subrange(start as int, idx as int)[j]).unwrap().1@,
                ),
            forall|i: int| 0 <= i < orig.len() && (i < start || i >= idx) ==> #[trigger] function@[i] == orig[i],
            forall|i: int|
                start <= i < idx ==> #[trigger] function@[i] == orig[i] || (writes(orig[i])
                    && function@[i].spec_destination() == orig[i].spec_destination()),
            forall|i: int|
                start <= i < idx ==> #[trigger] function@[i] == orig[i] || (op_parts(orig[i]) is Some
                    && rewrite_of(function@[i], op_parts(orig[i]).unwrap().1)),
            forall|e0: Env|
                #[trigger] prefix_ok(
                    num,
                    active,
                    e0,
                    orig.subrange(start as int, idx as int),
                    function@.subrange(start as int, idx as int),
                ),
        decreases end - idx,
    {
        let ghost num0 = num;
        let ghost active0 = active;
        let ghost before = function@;
        let mut replacement: Option<Instruction> = None;
        if active && num.next < usize::MAX - 3 {
            replacement = num.number_instruction(&function.instructions()[idx]);
        } else {
            active = false;
        }
        let ghost inst = orig[idx as int];
        assert(before[idx as int] == inst);
        match replacement {
            Some(ni) => {
                function.replace(idx, ni);
            },
            None => {},
        }
        let ghost olds = orig.subrange(start as int, idx + 1);
        let ghost news = function@.subrange(start as int, idx + 1);
        let ghost prefix = orig.subrange(start as int, idx as int);
        assert(olds.drop_last() =~= prefix);
        proof {
            if active {
                assert forall|k: SymbolKey, l: Literal|
                    known_const(olds, k) == Some(l) implies #[trigger] num.key_const(k, l) by {
                    if dest_key(inst) == Some(k) {
                        assert(olds.last() == inst);
                        if let Instruction::Id(d, a) = inst {
                            if let Value::StorageLocation(sa) = a {
                                assert(num0.key_const(sa@, l));
                            }
                            assert(num0.value_const(a, l));
                        } else if let Instruction::Const(d, m) = inst {
                        } else {
                            let (op, d, a, b) = op_parts(inst).unwrap();
                            let x = operand_const(prefix, a).unwrap();
                            let y = operand_const(prefix, b).unwrap();
                            if let Value::StorageLocation(sa) = a {
                                assert(num0.key_const(sa@, x));
                            }
                            if let Value::StorageLocation(sb) = b {
                                assert(num0.key_const(sb@, y));
                            }
                            assert(num0.fold_fact(inst, x, y));
                        }
                    } else {
                        assert(known_const(prefix, k) == Some(l));
                        assert(num0.key_const(k, l));
                    }
                }
                if let Some(c) = folds_to(prefix, inst) {
                    let (op, d, a, b) = op_parts(inst).unwrap();
                    let x = operand_const(prefix, a).unwrap();
                    let y = operand_const(prefix, b).unwrap();
                    if let Value::StorageLocation(sa) = a {
                        assert(num0.key_const(sa@, x));
                    }
                    if let Value::StorageLocation(sb) = b {
                        assert(num0.key_const(sb@, y));
                    }
                    assert(num0.fold_fact(inst, x, y));
                    assert(function@[idx as int] == c);
                }
                if recomputes(prefix, inst) {
                    let (op, d, a, b) = op_parts(inst).unwrap();
                    let (j, a2, b2) = choose|j: int, a2: Value, b2: Value|
                        #[trigger] available_at(prefix, j, op, a2, b2) && stands_for(prefix, a, a2) && stands_for(
                            prefix,
                            b,
                            b2,
                        );
                    assert(num0.ready(op, a2, b2, op_parts(prefix[j]).unwrap().1@));
                    if let Value::StorageLocation(x) = a {
                        if copy_of(prefix, x@, a2) {
                            assert(num0.copies(x@, a2));
                        }
                    }
                    if let Value::StorageLocation(x) = b {
                        if copy_of(prefix, x@, b2) {
                            assert(num0.copies(x@, b2));
                        }
                    }
                    num0.lemma_ready_stands(op, a2, b2, a, b, op_parts(prefix[j]).unwrap().1@);
                }
                assert forall|k: SymbolKey, a: Value| #[trigger] copy_of(olds, k, a) implies num.copies(k, a) by {
                    assert(olds.last() == inst);
                    if dest_key(inst) == Some(k) {
                        let src = op_parts_id(inst);
                        assert(num.copies(k, src));
                        let v = choose|v: usize| has_binding(num.symbols@, k, v) && #[trigger] num.value_num(src, v);
                        num.lemma_value_num_stands(a, src, v);
                    } else {
                        assert(copy_of(prefix, k, a));
                        num.lemma_copies_carry(&num0, dest_key(inst), k, a);
                    }
                }
                assert forall|j: int, op: OPCode, a: Value, b: Value|
                    #[trigger] available_at(olds, j, op, a, b) implies num.ready(op, a, b, op_parts(olds[j]).unwrap().1@) by {
                    assert(olds[idx - start] == inst);
                    if j < idx - start {
                        assert(prefix[j] == olds[j]);
                        assert forall|m: int| j <= m < prefix.len() implies !overwrites(#[trigger] prefix[m], a) && !overwrites(prefix[m], b) by {
                            assert(prefix[m] == olds[m]);
                        }
                        assert forall|m: int| j < m < prefix.len() implies dest_key(#[trigger] prefix[m]) != Some(op_parts(prefix[j]).unwrap().1@) by {
                            assert(prefix[m] == olds[m]);
                        }
                        assert(available_at(prefix, j, op, a, b));
                        assert(!overwrites(olds[idx - start], a) && !overwrites(olds[idx - start], b));
                        num.lemma_ready_carry(&num0, dest_key(inst), op, a, b, op_parts(prefix[j]).unwrap().1@);
                    } else {
                        let (op2, d2, a2, b2) = op_parts(inst).unwrap();
                        assert(!overwrites(olds[idx - start], a) && !overwrites(olds[idx - start], b));
                        assert(!overwrites(inst, a2) && !overwrites(inst, b2));
                        num.lemma_ready_same_operands(op, a2, b2, a, b, d2@);
                    }
                }
            }
        }
        assert(olds.drop_last() =~= orig.subrange(start as int, idx as int));
        assert(news.drop_last() =~= before.subrange(start as int, idx as int));
        assert forall|e0: Env| #[trigger] prefix_ok(num, active, e0, olds, news) by {
            assert(prefix_ok(num0, active0, e0, olds.drop_last(), news.drop_last()));
            match run(e0, olds.drop_last()) {
                Some(e) => {
                    assert(run(e0, news.drop_last()) == Some(e));
                    if active {
                        assert(num0.agrees(e0, e));
                    }
                },
                None => {},
            }
        }
        assert forall|i: int, e0: Env|
            start <= i <= idx + 1 implies #[trigger] run(e0, orig.subrange(start as int, i)) == run(
                e0,
                function@.subrange(start as int, i),
            ) by {
            if i <= idx {
                assert(function@.subrange(start as int, i) =~= before.subrange(start as int, i));
            } else {
                assert(prefix_ok(num, active, e0, olds, news));
            }
        }
        idx = idx + 1;
    }
    assert forall|e0: Env| #[trigger]
        run(e0, orig.subrange(start as int, end as int)) == run(
            e0,
            function@.subrange(start as int, end as int),
        ) by {
        assert(prefix_ok(num, active, e0, orig.subrange(start as int, end as int), function@.subrange(start as int, end as int)));
    }
}

} // verus!
