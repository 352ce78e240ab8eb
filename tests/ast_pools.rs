use glouton::ast::{BinaryOperator, Expr, ExprPool, ExprRef, Stmt, StmtPool, UnaryOperator, AST};

#[test]
fn can_create_and_use_node_pool() {
    let mut expr_pool = ExprPool::new();
    let mut stmt_pool = StmtPool::new();

    for _ in 0..100 {
        let expr_ref = expr_pool.add(Expr::IntLiteral(42));
        let node_ref = stmt_pool.add(Stmt::Return(expr_ref));

        assert_eq!(expr_pool.get(expr_ref), Some(&Expr::IntLiteral(42)));
        assert_eq!(stmt_pool.get(node_ref), Some(&Stmt::Return(expr_ref)));
    }
}

#[test]
fn missing_handles_give_none() {
    let mut ast = AST::new();
    let e = ast.push_expr(Expr::IntLiteral(1));
    let s = ast.push_stmt(Stmt::Expr(e));
    assert_eq!(ast.get_expr(e), Some(&Expr::IntLiteral(1)));
    assert_eq!(ast.get_stmt(s), Some(&Stmt::Expr(e)));
    let other = ExprPool::new();
    assert_eq!(other.get(e), None);
    assert_eq!(StmtPool::new().get(s), None);
}

#[test]
fn tree_renders_nested_expressions() {
    let mut ast = AST::new();
    let four = ast.push_expr(Expr::IntLiteral(4));
    let neg = ast.push_expr(Expr::IntLiteral(-12));
    let sum = ast.push_expr(Expr::BinOp { left: four, operator: BinaryOperator::Add, right: neg });
    let group = ast.push_expr(Expr::Grouping(sum));
    let not = ast.push_expr(Expr::UnaryOp { operator: UnaryOperator::Not, operand: group });
    let x = ast.push_expr(Expr::Named("x".to_string()));
    let div = ast.push_expr(Expr::BinOp { left: x, operator: BinaryOperator::Div, right: four });
    ast.push_stmt(Stmt::Expr(not));
    ast.push_stmt(Stmt::Return(div));
    assert_eq!(ast.to_string(), "Expr(Not(Grouping(Add(4, -12))))Return(Div(x, 4))");
}

#[test]
fn tree_renders_forward_references() {
    let mut ast = AST::new();
    let top = ast.push_expr(Expr::BinOp { left: ExprRef(1), operator: BinaryOperator::Mul, right: ExprRef(2) });
    ast.push_expr(Expr::IntLiteral(3));
    ast.push_expr(Expr::UnaryOp { operator: UnaryOperator::Neg, operand: ExprRef(1) });
    ast.push_stmt(Stmt::Return(top));
    assert_eq!(ast.to_string(), "Return(Mul(3, Neg(3)))");
}
