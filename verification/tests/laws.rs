use lang::frontend::errors::CompileError;
use lang::frontend::parsers::expr::{Expr, Literal};
use lang::frontend::parsers::lvalue::LValue;
use lang::frontend::parsers::stmt::Stmt;
use lang::frontend::parsers::types::{parse_type, BasicType, Type};
use lang::frontend::parsers::{parse_prog, Prog};
use lang::frontend::semantic::scope::Scopes;
use lang::frontend::semantic::symbol::{FunctionTypeInfo, SymbolTable};
use lang::frontend::semantic::types::{TypeChecker, TypeContraint};
use lang::frontend::frontend;

fn int_type() -> Type {
    Type::BasicType(BasicType::Int)
}

#[test]
fn type_text_parses_back() {
    let t = Type::Array(Box::new(Type::Array(Box::new(Type::BasicType(BasicType::Char)))));
    let text = t.to_string();
    assert_eq!(text, "[[char]]");
    let (n, back) = parse_type(&text).unwrap();
    assert_eq!(n, text.len());
    assert_eq!(back, t);
    assert_eq!(parse_type("void").unwrap().1, Type::Void);
    assert_eq!(parse_type("string").unwrap(), (6, Type::BasicType(BasicType::String)));
}

#[test]
fn global_reads_back_what_was_written() {
    let mut t = SymbolTable::new();
    assert!(t.insert_global("x$0".to_string(), int_type()).is_none());
    assert_eq!(t.get_global(&"x$0".to_string()), Some(&int_type()));
    assert_eq!(t.insert_global("x$0".to_string(), Type::Void), Some("x$0".to_string()));
    assert_eq!(t.get_global(&"x$0".to_string()), Some(&Type::Void));
    assert_eq!(t.get_global(&"y$1".to_string()), None);
}

#[test]
fn untyped_variable_is_typed_once() {
    let mut t = SymbolTable::new();
    assert_eq!(t.insert_untyped("a$0".to_string()), Some("a$0".to_string()));
    assert_eq!(t.insert_untyped("a$0".to_string()), None);
    t.set_untyped("a$0".to_string(), int_type());
    assert_eq!(t.get_global(&"a$0".to_string()), Some(&int_type()));
    t.set_untyped("a$0".to_string(), Type::Void);
    assert_eq!(t.get_global(&"a$0".to_string()), Some(&int_type()));
}

#[test]
fn call_then_definition_is_not_undefined() {
    let mut t = SymbolTable::new();
    assert!(t.insert_func("f".to_string(), None).is_none());
    let info = FunctionTypeInfo { params: vec![int_type()], return_type: int_type() };
    assert!(t.insert_func("f".to_string(), Some(info)).is_none());
    let back = t.get_func_info(&"f".to_string()).unwrap();
    assert_eq!(back.params, vec![int_type()]);
    assert!(SymbolTable::from_buffer(t).is_ok());
}

#[test]
fn undefined_function_reported_by_name() {
    let mut t = SymbolTable::new();
    t.insert_func("g".to_string(), None);
    let es = SymbolTable::from_buffer(t).err().unwrap();
    assert_eq!(es.len(), 1);
    assert_eq!(es[0].summary, "Call to undefined function g");
}

#[test]
fn new_global_id_counts_variables() {
    let mut t = SymbolTable::new();
    assert_eq!(t.new_global_id("x".to_string()), "x$0");
    t.insert_global("x$0".to_string(), int_type());
    assert_eq!(t.new_global_id("y".to_string()), "y$1");
}

fn scoped(src: &str) -> (Prog, Vec<CompileError>, SymbolTable) {
    let prog = parse_prog(src).unwrap();
    let mut errors = Vec::new();
    let mut symbols = SymbolTable::new();
    let out = Scopes::eval_prog(&prog, &mut errors, &mut symbols);
    (out, errors, symbols)
}

#[test]
fn scope_checking_replaces_declarations() {
    let (out, errors, symbols) = scoped("fun main() -> int { let a: int = 1; a }");
    assert!(errors.is_empty());
    match &out.funcs[0].block {
        Expr::Block(items, Some(ret)) => {
            assert_eq!(
                items[0],
                Expr::Stmt(Stmt::Assign { id: "a$0".to_string(), rvalue: Box::new(Expr::Literal(Literal::Int(1))) })
            );
            assert_eq!(**ret, Expr::LValue(LValue::Ident("a$0".to_string())));
        },
        _ => panic!("not a block"),
    }
    assert_eq!(symbols.get_global(&"a$0".to_string()), Some(&int_type()));
}

#[test]
fn scope_checking_records_every_name() {
    let (out, errors, symbols) = scoped("fun main() -> int { f(b) } fun f(x: int) -> int { x }");
    // `b` is not in scope: reported, and given a `void` variable.
    assert_eq!(errors.len(), 1);
    assert_eq!(symbols.get_global(&"b$0".to_string()), Some(&Type::Void));
    // `f` was called before its definition and is defined later.
    assert!(symbols.undefined.is_empty());
    assert!(symbols.get_func_info(&"f".to_string()).is_some());
    assert_eq!(out.funcs.len(), 2);
}

#[test]
fn redefinition_in_one_scope_is_reported() {
    let (_, errors, _) = scoped("fun main() -> int { let a: int = 1; let a: int = 2; a }");
    assert_eq!(errors.len(), 1);
    let (_, errors, _) = scoped("fun main() -> int { let a: int = 1; { let a: int = 2; a } }");
    assert!(errors.is_empty());
}

#[test]
fn duplicate_function_is_reported() {
    let (_, errors, _) = scoped("fun f() -> int { 1 } fun f() -> int { 2 }");
    assert_eq!(errors.len(), 1);
}

#[test]
fn accepted_type_satisfies_constraint() {
    let mut checker = TypeChecker::new(Vec::new(), SymbolTable::new());
    let lit = Expr::Literal(Literal::Int(3));
    assert_eq!(checker.check_expr(&lit, &TypeContraint::Is(int_type())), Ok(int_type()));
    let either = TypeContraint::Is(Type::Void) | TypeContraint::Is(int_type());
    assert_eq!(checker.check_expr(&lit, &either), Ok(int_type()));
    let both = TypeContraint::Is(int_type()) & TypeContraint::IsIndexable;
    assert!(checker.check_expr(&lit, &both).is_err());
    assert!(checker.check_expr(&lit, &TypeContraint::Is(Type::BasicType(BasicType::Bool))).is_err());
}

#[test]
fn checker_only_adds_errors() {
    let earlier = CompileError::blank_error();
    let mut checker = TypeChecker::new(vec![earlier], SymbolTable::new());
    let bad = Expr::Literal(Literal::Char('a'));
    assert!(checker.check_expr(&bad, &TypeContraint::Is(int_type())).is_err());
    assert_eq!(checker.errors.len(), 2);
    assert_eq!(checker.errors[0].summary, CompileError::blank_error().summary);
}

#[test]
fn empty_array_takes_the_constraint() {
    let mut checker = TypeChecker::new(Vec::new(), SymbolTable::new());
    let empty = Expr::Array(vec![]);
    let arr = Type::Array(Box::new(int_type()));
    assert_eq!(checker.check_expr(&empty, &TypeContraint::Is(arr.copy())), Ok(arr));
}

#[test]
fn untyped_declaration_gets_its_type() {
    let r = frontend("fun main() -> int { let a = 2; a + 1 }");
    let p = r.ok().unwrap();
    assert_eq!(p.symbols.get_global(&"a$0".to_string()), Some(&int_type()));
}

#[test]
fn wrong_return_type_rejected() {
    assert!(frontend("fun main() -> bool { 1 }").is_err());
    assert!(frontend("fun main() -> bool { true }").is_ok());
}

#[test]
fn shadowing_variables_get_distinct_ids() {
    let (out, errors, symbols) = scoped("fun main(a: int) -> int { let a: bool = true; { let a = 'c'; a } }");
    assert!(errors.is_empty());
    assert_eq!(symbols.get_global(&"a$0".to_string()), Some(&int_type()));
    assert_eq!(symbols.get_global(&"a$1".to_string()), Some(&Type::BasicType(BasicType::Bool)));
    assert!(symbols.untyped.contains(&"a$2".to_string()));
    match &out.funcs[0].block {
        Expr::Block(_, Some(ret)) => match &**ret {
            Expr::Block(_, Some(inner)) => assert_eq!(**inner, Expr::LValue(LValue::Ident("a$2".to_string()))),
            _ => panic!("not a block"),
        },
        _ => panic!("not a block"),
    }
}

#[test]
fn undefined_is_called_minus_defined_in_any_order() {
    let info = || FunctionTypeInfo { params: vec![], return_type: int_type() };
    let mut t = SymbolTable::new();
    t.insert_func("f".to_string(), Some(info()));
    t.insert_func("f".to_string(), None);
    t.insert_func("g".to_string(), None);
    t.insert_func("h".to_string(), None);
    t.insert_func("h".to_string(), Some(info()));
    assert!(t.undefined.contains(&"g".to_string()));
    assert!(!t.undefined.contains(&"f".to_string()));
    assert!(!t.undefined.contains(&"h".to_string()));
    assert_eq!(t.undefined.items.len(), 1);
}

#[test]
fn program_undefined_functions_are_called_but_never_defined() {
    let (_, _, symbols) = scoped("fun main() -> int { f(1) + g(2) } fun f(x: int) -> int { h(main()) }");
    assert!(symbols.undefined.contains(&"g".to_string()));
    assert!(symbols.undefined.contains(&"h".to_string()));
    assert!(!symbols.undefined.contains(&"f".to_string()));
    assert!(!symbols.undefined.contains(&"main".to_string()));
    assert_eq!(symbols.undefined.items.len(), 2);
    assert!(symbols.get_func_info(&"main".to_string()).is_some());
    assert!(symbols.get_func_info(&"f".to_string()).is_some());
}
