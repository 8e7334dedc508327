use lang::frontend::frontend;
use lang::frontend::parsers::expr::{Expr, Literal};
use lang::frontend::parsers::stmt::Stmt;
use lang::frontend::parsers::types::{BasicType, Type};
use lang::frontend::semantic::symbol::SymbolTable;
use lang::frontend::semantic::types::{TypeChecker, TypeContraint};

#[test]
fn if_stmt_check() {
    let table = SymbolTable::new();
    let errors = Vec::new();

    let mut checker = TypeChecker::new(errors, table);

    let good_if_stmt = Stmt::If {
        cond: Box::new(Expr::Literal(Literal::Bool(true))),
        tt: Box::new(Expr::Block(vec![], Some(Box::new(Expr::Literal(Literal::Int(32)))))),
        ff: Some(Box::new(Expr::Block(vec![], Some(Box::new(Expr::Literal(Literal::Int(42))))))),
    };

    let bad_if_stmt = Stmt::If {
        cond: Box::new(Expr::Literal(Literal::Bool(true))),
        tt: Box::new(Expr::Block(vec![], Some(Box::new(Expr::Literal(Literal::Int(32)))))),
        ff: Some(Box::new(Expr::Block(vec![], Some(Box::new(Expr::Literal(Literal::Char('a'))))))),
    };

    let void_if_stmt = Stmt::If {
        cond: Box::new(Expr::Literal(Literal::Bool(true))),
        tt: Box::new(Expr::Block(vec![], Some(Box::new(Expr::Literal(Literal::Int(32)))))),
        ff: None,
    };

    let bad_cond_if_stmt = Stmt::If {
        cond: Box::new(Expr::Literal(Literal::Int(42))),
        tt: Box::new(Expr::Block(vec![], Some(Box::new(Expr::Literal(Literal::Int(32)))))),
        ff: Some(Box::new(Expr::Block(vec![], Some(Box::new(Expr::Literal(Literal::Char('a'))))))),
    };

    assert!(matches!(
        checker.check_expr(&Expr::Stmt(good_if_stmt), &TypeContraint::Any),
        Ok(Type::BasicType(BasicType::Int))
    ));
    assert!(matches!(checker.check_expr(&Expr::Stmt(bad_if_stmt), &TypeContraint::Any), Err(_)));
    assert!(matches!(checker.check_expr(&Expr::Stmt(void_if_stmt), &TypeContraint::Any), Ok(Type::Void)));
    assert!(matches!(checker.check_expr(&Expr::Stmt(bad_cond_if_stmt), &TypeContraint::Any), Err(_)));
}

#[test]
fn frontend_accepts_a_typed_program() {
    let r = frontend("fun main() -> int { let a: int = 4; a + 1 }");
    assert!(r.is_ok());
}

#[test]
fn frontend_infers_untyped_variables() {
    let r = frontend("fun main() -> int { let a = 4; a }");
    let p = r.ok().unwrap();
    assert!(p.symbols.untyped.is_empty());
}

#[test]
fn frontend_reports_undefined_function() {
    let r = frontend("fun main() -> int { foo(1) }");
    let es = r.err().unwrap();
    assert_eq!(es.len(), 1);
    assert_eq!(es[0].summary, "Call to undefined function foo");
}

#[test]
fn frontend_reports_type_mismatch() {
    let r = frontend("fun main() -> int { 'a' }");
    assert!(r.is_err());
}

#[test]
fn frontend_reports_parse_error() {
    let r = frontend("fun main( -> int { 1 }");
    assert_eq!(r.err().unwrap().len(), 1);
}
