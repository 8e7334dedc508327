use lang::frontend::parsers::expr::{parse_block, parse_expr, parse_literal, BinOpMode, Expr, Literal, UnaryOpMode};
use lang::frontend::parsers::func::{parse_func, Func};
use lang::frontend::parsers::stmt::{parse_if, parse_stmt, Stmt};
use lang::frontend::parsers::types::{BasicType, Type};

#[test]
fn parse_empty_block() {
    assert_eq!(parse_block("{  \n   }").unwrap().1, Expr::Block(vec![], None))
}

#[test]
fn literal_basic_test() {
    // Integers
    assert_eq!(parse_literal("32").unwrap().1, Expr::Literal(Literal::Int(32)));

    assert_eq!(parse_literal("-32").unwrap().1, Expr::Literal(Literal::Int(-32)));

    // Strings
    assert_eq!(
        parse_literal("\"This is some really interesting text\"").unwrap().1,
        Expr::Literal(Literal::String(String::from("This is some really interesting text")))
    );

    assert!(parse_literal("This is some text").is_err())
}

#[test]
fn complex_expr_test() {
    assert_eq!(
        parse_expr("-(5 + 4)").unwrap().1,
        Expr::UnaryOp(
            UnaryOpMode::Neg,
            Box::new(Expr::BinaryOp(
                BinOpMode::Add,
                Box::new(Expr::Literal(Literal::Int(5))),
                Box::new(Expr::Literal(Literal::Int(4)))
            ))
        )
    )
}

#[test]
fn basic_fun_header_test() {
    assert_eq!(
        parse_func("fun foo(a: int, b: int) -> int {}").unwrap().1,
        Func {
            name: "foo".into(),
            parameters: vec![
                ("a".into(), Type::BasicType(BasicType::Int)),
                ("b".into(), Type::BasicType(BasicType::Int))
            ],
            return_type: Type::BasicType(BasicType::Int),
            block: Expr::Block(vec![], None)
        }
    )
}

#[test]
fn basic_assignments() {
    assert_eq!(
        parse_stmt("let a: int = 45").unwrap().1,
        Stmt::Declare {
            id: "a".into(),
            ty: Some(Type::BasicType(BasicType::Int)),
            rvalue: Box::new(Expr::Literal(Literal::Int(45)))
        }
    );

    assert_eq!(
        parse_stmt("a = 45").unwrap().1,
        Stmt::Assign { id: "a".into(), rvalue: Box::new(Expr::Literal(Literal::Int(45))) }
    );

    assert!(parse_stmt("a: int = 45").is_err())
}

#[test]
fn basic_if() {
    assert_eq!(
        parse_if("if (true) { 32 } else { 42 }").unwrap().1,
        Stmt::If {
            cond: Box::new(Expr::Literal(Literal::Bool(true))),
            tt: Box::new(Expr::Block(vec![], Some(Box::new(Expr::Literal(Literal::Int(32)))))),
            ff: Some(Box::new(Expr::Block(vec![], Some(Box::new(Expr::Literal(Literal::Int(42))))))),
        }
    );

    assert_eq!(
        parse_if("if (false) { 50 }").unwrap().1,
        Stmt::If {
            cond: Box::new(Expr::Literal(Literal::Bool(false))),
            tt: Box::new(Expr::Block(vec![], Some(Box::new(Expr::Literal(Literal::Int(50)))))),
            ff: None
        }
    );

    assert_eq!(
        parse_if("if (false) {  }").unwrap().1,
        Stmt::If {
            cond: Box::new(Expr::Literal(Literal::Bool(false))),
            tt: Box::new(Expr::Block(vec![], None)),
            ff: None
        }
    );
}

#[test]
fn string_literal_escapes() {
    assert_eq!(
        parse_literal("\"a\\nb\\\"c\"").unwrap(),
        (9, Expr::Literal(Literal::String("a\nb\"c".to_string())))
    );
    assert!(parse_literal("\"unterminated").is_err());
    assert!(parse_literal("\"bad \\q escape\"").is_err());
}

#[test]
fn char_and_bool_literals() {
    assert_eq!(parse_literal("'x'").unwrap().1, Expr::Literal(Literal::Char('x')));
    assert_eq!(parse_literal("true").unwrap().1, Expr::Literal(Literal::Bool(true)));
    assert_eq!(parse_literal("false").unwrap().1, Expr::Literal(Literal::Bool(false)));
}

#[test]
fn operator_precedence() {
    assert_eq!(
        parse_expr("1 + 2 * 3").unwrap().1,
        Expr::BinaryOp(
            BinOpMode::Add,
            Box::new(Expr::Literal(Literal::Int(1))),
            Box::new(Expr::BinaryOp(
                BinOpMode::Mul,
                Box::new(Expr::Literal(Literal::Int(2))),
                Box::new(Expr::Literal(Literal::Int(3)))
            ))
        )
    );
}
