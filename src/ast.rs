//! Flat, arena-based syntax tree.
//!
//! Nodes are not linked through owning pointers: every node lives in a
//! growable pool and refers to other nodes through integer handles, which
//! are resolved through the pool on each access.
use vstd::prelude::*;
use vstd::string::StringExecFns;
use crate::text::{int_text, push_int};

verus! {

/// Handle of a statement node in a `StmtPool`.
#[derive(Debug, Clone, Copy, PartialEq, Eq)]
pub struct StmtRef(pub usize);

/// Handle of an expression node in an `ExprPool`.
#[derive(Debug, Clone, Copy, PartialEq, Eq)]
pub struct ExprRef(pub usize);

/// Arena of expression nodes.
#[derive(Debug, Clone, PartialEq, Eq)]
pub struct ExprPool {
    nodes: Vec<Expr>,
}

impl View for ExprPool {
    type V = Seq<Expr>;

    closed spec fn view(&self) -> Seq<Expr> {
        self.nodes@
    }
}

impl ExprPool {
    /// Create a new, empty pool with room for a few thousand nodes.
    pub fn new() -> (r: Self)
        ensures
            r@ == Seq::<Expr>::empty(),
    {
        ExprPool { nodes: Vec::with_capacity(4096) }
    }

    /// The node that `node_ref` designates, if it is in the pool.
    pub fn get(&self, node_ref: ExprRef) -> (r: Option<&Expr>)
        ensures
            node_ref.0 < self@.len() ==> r == Some(&self@[node_ref.0 as int]),
            node_ref.0 >= self@.len() ==> r.is_none(),
    {
        if node_ref.0 < self.nodes.len() {
            Some(&self.nodes[node_ref.0])
        } else {
            None
        }
    }

    /// Append an expression to the pool and return its handle.
    pub fn add(&mut self, expr: Expr) -> (r: ExprRef)
        requires
            old(self)@.len() < usize::MAX,
        ensures
            final(self)@ == old(self)@.push(expr),
            r.0 == old(self)@.len(),
    {
        let node_ref = self.nodes.len();
        self.nodes.push(expr);
        ExprRef(node_ref)
    }
}

/// Arena of statement nodes.
#[derive(Debug, Clone, PartialEq, Eq)]
pub struct StmtPool {
    nodes: Vec<Stmt>,
}

impl View for StmtPool {
    type V = Seq<Stmt>;

    closed spec fn view(&self) -> Seq<Stmt> {
        self.nodes@
    }
}

impl StmtPool {
    /// Create a new, empty pool with room for a few thousand nodes.
    pub fn new() -> (r: Self)
        ensures
            r@ == Seq::<Stmt>::empty(),
    {
        StmtPool { nodes: Vec::with_capacity(4096) }
    }

    /// The node that `node_ref` designates, if it is in the pool.
    pub fn get(&self, node_ref: StmtRef) -> (r: Option<&Stmt>)
        ensures
            node_ref.0 < self@.len() ==> r == Some(&self@[node_ref.0 as int]),
            node_ref.0 >= self@.len() ==> r.is_none(),
    {
        if node_ref.0 < self.nodes.len() {
            Some(&self.nodes[node_ref.0])
        } else {
            None
        }
    }

    /// Append a statement to the pool and return its handle.
    pub fn add(&mut self, stmt: Stmt) -> (r: StmtRef)
        requires
            old(self)@.len() < usize::MAX,
        ensures
            final(self)@ == old(self)@.push(stmt),
            r.0 == old(self)@.len(),
    {
        let node_ref = self.nodes.len();
        self.nodes.push(stmt);
        StmtRef(node_ref)
    }
}

/// Binary operators.
#[derive(Debug, Clone, Copy, PartialEq, Eq)]
pub enum BinaryOperator {
    Add,
    Sub,
    Mul,
    Div,
}

/// Unary operators.
#[derive(Debug, Clone, Copy, PartialEq, Eq)]
pub enum UnaryOperator {
    Neg,
    Not,
}

/// Expression nodes.
#[derive(Debug, Clone, PartialEq, Eq)]
pub enum Expr {
    /// A named value (variable).
    Named(String),
    /// An integer literal.
    IntLiteral(i32),
    /// A parenthesised expression.
    Grouping(ExprRef),
    /// A binary operation.
    BinOp { left: ExprRef, operator: BinaryOperator, right: ExprRef },
    /// A unary operation.
    UnaryOp { operator: UnaryOperator, operand: ExprRef },
}

/// Statement nodes.
#[derive(Debug, Clone, PartialEq, Eq)]
pub enum Stmt {
    /// A return statement.
    Return(ExprRef),
    /// An expression statement.
    Expr(ExprRef),
}

/// A parsed program: a pool of statements and a pool of expressions.
#[derive(Debug, Clone, PartialEq, Eq)]
pub struct AST {
    statements: StmtPool,
    expressions: ExprPool,
}

impl AST {
    /// The statements pushed so far, in order.
    pub closed spec fn stmts(&self) -> Seq<Stmt> {
        self.statements@
    }

    /// The expressions pushed so far, in order.
    pub closed spec fn exprs(&self) -> Seq<Expr> {
        self.expressions@
    }

    /// Create a new, empty tree.
    pub fn new() -> (r: Self)
        ensures
            r.stmts() == Seq::<Stmt>::empty(),
            r.exprs() == Seq::<Expr>::empty(),
    {
        AST { statements: StmtPool::new(), expressions: ExprPool::new() }
    }

    /// Push a statement node and return its handle.
    pub fn push_stmt(&mut self, stmt: Stmt) -> (r: StmtRef)
        requires
            old(self).stmts().len() < usize::MAX,
        ensures
            final(self).stmts() == old(self).stmts().push(stmt),
            final(self).exprs() == old(self).exprs(),
            r.0 == old(self).stmts().len(),
    {
        self.statements.add(stmt)
    }

    /// Push an expression node and return its handle.
    pub fn push_expr(&mut self, expr: Expr) -> (r: ExprRef)
        requires
            old(self).exprs().len() < usize::MAX,
        ensures
            final(self).exprs() == old(self).exprs().push(expr),
            final(self).stmts() == old(self).stmts(),
            r.0 == old(self).exprs().len(),
    {
        self.expressions.add(expr)
    }

    /// The expression node that `expr_ref` designates, if any.
    pub fn get_expr(&self, expr_ref: ExprRef) -> (r: Option<&Expr>)
        ensures
            expr_ref.0 < self.exprs().len() ==> r == Some(&self.exprs()[expr_ref.0 as int]),
            expr_ref.0 >= self.exprs().len() ==> r.is_none(),
    {
        self.expressions.get(expr_ref)
    }

    /// The statement node that `stmt_ref` designates, if any.
    pub fn get_stmt(&self, stmt_ref: StmtRef) -> (r: Option<&Stmt>)
        ensures
            stmt_ref.0 < self.stmts().len() ==> r == Some(&self.stmts()[stmt_ref.0 as int]),
            stmt_ref.0 >= self.stmts().len() ==> r.is_none(),
    {
        self.statements.get(stmt_ref)
    }
}

pub open spec fn binary_name(op: BinaryOperator) -> Seq<char> {
    match op {
        BinaryOperator::Add => "Add("@,
        BinaryOperator::Sub => "Sub("@,
        BinaryOperator::Mul => "Mul("@,
        BinaryOperator::Div => "Div("@,
    }
}

pub open spec fn unary_name(op: UnaryOperator) -> Seq<char> {
    match op {
        UnaryOperator::Neg => "Neg("@,
        UnaryOperator::Not => "Not("@,
    }
}

/// The rendering of the expression at index `i`: `Add(l, r)`, `Neg(x)`,
/// `Grouping(x)`, an integer, or a name; `None` where a handle reached is
/// no node, or the expression is more than `depth` levels deep. Within as
/// many levels as the tree has nodes it renders exactly when every handle
/// reached is valid and no expression contains itself.
pub open spec fn expr_text(exprs: Seq<Expr>, i: int, depth: nat) -> Option<Seq<char>>
    decreases depth,
{
    if depth == 0 || i < 0 || i >= exprs.len() {
        None
    } else {
        match exprs[i] {
            Expr::Named(n) => Some(n@),
            Expr::IntLiteral(v) => Some(int_text(v as int)),
            Expr::Grouping(r) => match expr_text(exprs, r.0 as int, (depth - 1) as nat) {
                Some(t) => Some("Grouping("@ + t + ")"@),
                None => None,
            },
            Expr::BinOp { left, operator, right } => match (
                expr_text(exprs, left.0 as int, (depth - 1) as nat),
                expr_text(exprs, right.0 as int, (depth - 1) as nat),
            ) {
                (Some(l), Some(r)) => Some(binary_name(operator) + l + ", "@ + r + ")"@),
                _ => None,
            },
            Expr::UnaryOp { operator, operand } => match expr_text(exprs, operand.0 as int, (depth - 1) as nat) {
                Some(t) => Some(unary_name(operator) + t + ")"@),
                None => None,
            },
        }
    }
}

/// The rendering of the expression at index `i` within as many levels as
/// the tree has nodes.
pub open spec fn full_expr_text(exprs: Seq<Expr>, i: int) -> Option<Seq<char>> {
    expr_text(exprs, i, (exprs.len() + 1) as nat)
}

/// The rendering of a statement: `Return(x)` or `Expr(x)`.
pub open spec fn stmt_text(exprs: Seq<Expr>, st: Stmt) -> Seq<char> {
    match st {
        Stmt::Return(r) => "Return("@ + full_expr_text(exprs, r.0 as int).unwrap() + ")"@,
        Stmt::Expr(r) => "Expr("@ + full_expr_text(exprs, r.0 as int).unwrap() + ")"@,
    }
}

/// The renderings of the statements `stmts`, one after the other.
pub open spec fn stmts_text(exprs: Seq<Expr>, stmts: Seq<Stmt>) -> Seq<char>
    decreases stmts.len(),
{
    if stmts.len() == 0 {
        Seq::empty()
    } else {
        stmts_text(exprs, stmts.drop_last()) + stmt_text(exprs, stmts.last())
    }
}

/// Whether the expression of each statement renders: its handles are
/// valid and no expression contains itself.
pub open spec fn stmts_well_formed(exprs: Seq<Expr>, stmts: Seq<Stmt>) -> bool {
    forall|i: int|
        0 <= i < stmts.len() ==> match #[trigger] stmts[i] {
            Stmt::Return(r) => full_expr_text(exprs, r.0 as int) is Some,
            Stmt::Expr(r) => full_expr_text(exprs, r.0 as int) is Some,
        }
}

/// Append the rendering of the expression at index `i` of the tree.
fn display_expr_node(ast: &AST, s: &mut String, i: usize, depth: usize)
    requires
        expr_text(ast.exprs(), i as int, depth as nat) is Some,
    ensures
        final(s)@ == old(s)@ + expr_text(ast.exprs(), i as int, depth as nat).unwrap(),
    decreases depth,
{
    let ghost s0 = s@;
    let ghost exprs = ast.exprs();
    match &ast.expressions.nodes[i] {
        Expr::Named(n) => s.append(n.as_str()),
        Expr::IntLiteral(v) => push_int(s, *v),
        Expr::Grouping(r) => {
            s.append("Grouping(");
            display_expr_node(ast, s, r.0, depth - 1);
            s.append(")");
        },
        Expr::BinOp { left, operator, right } => {
            match operator {
                BinaryOperator::Add => s.append("Add("),
                BinaryOperator::Sub => s.append("Sub("),
                BinaryOperator::Mul => s.append("Mul("),
                BinaryOperator::Div => s.append("Div("),
            }
            display_expr_node(ast, s, left.0, depth - 1);
            s.append(", ");
            display_expr_node(ast, s, right.0, depth - 1);
            s.append(")");
        },
        Expr::UnaryOp { operator, operand } => {
            match operator {
                UnaryOperator::Neg => s.append("Neg("),
                UnaryOperator::Not => s.append("Not("),
            }
            display_expr_node(ast, s, operand.0, depth - 1);
            s.append(")");
        },
    }
    assert(s@ =~= s0 + expr_text(exprs, i as int, depth as nat).unwrap());
}

impl AST {
    /// The tree as text: each statement rendered as `Return(..)` or
    /// `Expr(..)`, one after the other.
    pub fn to_string(&self) -> (r: String)
        requires
            self.exprs().len() < usize::MAX,
            stmts_well_formed(self.exprs(), self.stmts()),
        ensures
            r@ == stmts_text(self.exprs(), self.stmts()),
    {
        let mut s = String::new();
        let mut i: usize = 0;
        while i < self.statements.nodes.len()
            invariant
                i <= self.stmts().len(),
                self.exprs().len() < usize::MAX,
                stmts_well_formed(self.exprs(), self.stmts()),
                s@ == stmts_text(self.exprs(), self.stmts().subrange(0, i as int)),
            decreases self.stmts().len() - i,
        {
            let ghost s0 = s@;
            let st = &self.statements.nodes[i];
            assert(*st == self.stmts()[i as int]);
            match st {
                Stmt::Return(r) => {
                    s.append("Return(");
                    display_expr_node(self, &mut s, r.0, self.expressions.nodes.len() + 1);
                    s.append(")");
                },
                Stmt::Expr(r) => {
                    s.append("Expr(");
                    display_expr_node(self, &mut s, r.0, self.expressions.nodes.len() + 1);
                    s.append(")");
                },
            }
            assert(self.stmts().subrange(0, i + 1).drop_last() =~= self.stmts().subrange(0, i as int));
            assert(s@ =~= s0 + stmt_text(self.exprs(), self.stmts()[i as int]));
            i = i + 1;
        }
        assert(self.stmts().subrange(0, i as int) =~= self.stmts());
        s
    }
}

} // verus!
