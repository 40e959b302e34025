use kujav::ast::{Expr, Stmt};
use kujav::errors::ErrorKind;
use kujav::pipeline::check_only;
use kujav::semantics::SemanticAnalyzer;
use kujav::types::KType;

fn num(v: i32) -> Expr {
    Expr::Number(v)
}

fn text(s: &str) -> Expr {
    Expr::String(s.to_string())
}

fn var(s: &str) -> Expr {
    Expr::Identifier(s.to_string())
}

fn bin(l: Expr, op: &str, r: Expr) -> Expr {
    Expr::Binary(Box::new(l), op.to_string(), Box::new(r))
}

#[test]
fn literals_have_their_obvious_types() {
    let a = SemanticAnalyzer::new();
    assert!(a.check_expr(&num(1)).unwrap() == KType::Int);
    assert!(a.check_expr(&text("a")).unwrap() == KType::String);
    assert!(a.check_expr(&Expr::Boolean(true)).unwrap() == KType::Bool);
    assert!(a.check_expr(&Expr::Input).unwrap() == KType::Int);
    assert!(a.check_expr(&Expr::Call("f".to_string(), vec![var("nowhere")])).unwrap() == KType::Int);
}

#[test]
fn undefined_name_is_an_error() {
    let a = SemanticAnalyzer::new();
    let e = a.check_expr(&var("x")).unwrap_err();
    assert_eq!(e.kind(), ErrorKind::Semantic);
    assert_eq!(e.message(), "undefined variable 'x'");
}

#[test]
fn condition_must_be_bool() {
    let mut a = SemanticAnalyzer::new();
    let stmt = Stmt::If(num(5), vec![Stmt::Print(num(1))], None);
    let e = a.check_stmt(&stmt).unwrap_err();
    assert_eq!(e.kind(), ErrorKind::Type);
    assert_eq!(e.message(), "condition must be Bool");
    let e = check_only("if 5 then print 1 end").unwrap_err();
    assert_eq!(e.kind(), ErrorKind::Type);
    assert_eq!(e.message(), "condition must be Bool");
    let e = check_only("while 5 do print 1 end").unwrap_err();
    assert_eq!(e.kind(), ErrorKind::Type);
    assert!(check_only("if true then print 1 else print 2 end").is_ok());
}

#[test]
fn string_plus_anything_is_string() {
    assert!(check_only("let x = \"a\"\nlet y = x + true").is_ok());
    let mut a = SemanticAnalyzer::new();
    a.check_stmt(&Stmt::Let("x".to_string(), text("a"), None)).unwrap();
    assert!(a.check_expr(&bin(var("x"), "+", Expr::Boolean(true))).unwrap() == KType::String);
    assert!(a.check_expr(&bin(num(1), "+", var("x"))).unwrap() == KType::String);
}

#[test]
fn plus_on_different_types_is_refused() {
    let a = SemanticAnalyzer::new();
    let e = a.check_expr(&bin(num(1), "+", Expr::Boolean(true))).unwrap_err();
    assert_eq!(e.kind(), ErrorKind::Type);
    assert_eq!(e.message(), "operands of '+' must have the same type");
    assert!(a.check_expr(&bin(num(1), "+", num(2))).unwrap() == KType::Int);
}

#[test]
fn other_operators_take_the_left_type() {
    let a = SemanticAnalyzer::new();
    assert!(a.check_expr(&bin(num(1), "<", num(2))).unwrap() == KType::Int);
    assert!(a.check_expr(&bin(Expr::Boolean(true), "and", num(2))).unwrap() == KType::Bool);
    assert!(a.check_expr(&bin(text("a"), "-", num(2))).unwrap() == KType::String);
}

#[test]
fn wrong_element_type_is_refused() {
    let e = check_only("let arr = [1, 2]\narr[0] = \"text\"").unwrap_err();
    assert_eq!(e.kind(), ErrorKind::Type);
    assert_eq!(e.message(), "wrong element type for array 'arr'");
    assert!(check_only("let arr = [1, 2]\narr[0] = 7").is_ok());
    let e = check_only("let n = 1\nn[0] = 7").unwrap_err();
    assert_eq!(e.kind(), ErrorKind::Type);
    assert_eq!(e.message(), "'n' is not an array");
}

#[test]
fn empty_array_is_an_int_array() {
    let a = SemanticAnalyzer::new();
    let t = a.check_expr(&Expr::ArrayLiteral(vec![])).unwrap();
    assert!(t == KType::Array(Box::new(KType::Int)));
    assert!(check_only("let a = []\nprint a[0]").is_ok());
}

#[test]
fn array_elements_must_agree() {
    let a = SemanticAnalyzer::new();
    let t = a.check_expr(&Expr::ArrayLiteral(vec![text("a"), text("b")])).unwrap();
    assert!(t == KType::Array(Box::new(KType::String)));
    let e = a.check_expr(&Expr::ArrayLiteral(vec![num(1), text("b")])).unwrap_err();
    assert_eq!(e.kind(), ErrorKind::Type);
    assert_eq!(e.message(), "array elements must have the same type");
}

#[test]
fn array_access_needs_an_int_index_and_an_array() {
    let mut a = SemanticAnalyzer::new();
    a.check_stmt(&Stmt::Let("v".to_string(), Expr::ArrayLiteral(vec![text("a")]), None)).unwrap();
    let t = a.check_expr(&Expr::ArrayAccess("v".to_string(), Box::new(num(0)))).unwrap();
    assert!(t == KType::String);
    let e = a.check_expr(&Expr::ArrayAccess("v".to_string(), Box::new(text("0")))).unwrap_err();
    assert_eq!(e.message(), "array index must be Int");
    let e = a.check_expr(&Expr::ArrayAccess("w".to_string(), Box::new(num(0)))).unwrap_err();
    assert_eq!(e.message(), "'w' is not an array");
}

#[test]
fn binding_in_a_branch_stays_visible() {
    assert!(check_only("if true then let x = 1 end\nprint x").is_ok());
}

#[test]
fn parameters_do_not_leak() {
    let e = check_only("function f(n) return n end\nprint n").unwrap_err();
    assert_eq!(e.kind(), ErrorKind::Semantic);
    assert_eq!(e.message(), "undefined variable 'n'");
    assert!(check_only("function f(n) return n end\nprint f").is_ok());
    let e = check_only("function f(n) let inner = n end\nprint inner").unwrap_err();
    assert_eq!(e.message(), "undefined variable 'inner'");
}

#[test]
fn function_body_sees_enclosing_names() {
    assert!(check_only("let g = 1\nfunction f(n) return n + g end").is_ok());
}

#[test]
fn analysis_stops_at_the_first_error() {
    let e = check_only("print a\nprint b").unwrap_err();
    assert_eq!(e.message(), "undefined variable 'a'");
}

#[test]
fn checking_twice_gives_the_same_verdict() {
    let good = "let x = 1\nprint x";
    assert!(check_only(good).is_ok());
    assert!(check_only(good).is_ok());
    let bad = "let x = 1\nprint y";
    let first = check_only(bad).unwrap_err();
    let second = check_only(bad).unwrap_err();
    assert_eq!(first.kind(), second.kind());
    assert_eq!(first.message(), second.message());
    assert_eq!(first.render(), second.render());
}

#[test]
fn analyzer_keeps_what_it_learned() {
    let mut a = SemanticAnalyzer::new();
    let program = vec![
        Stmt::Let("x".to_string(), num(1), None),
        Stmt::Let("x".to_string(), text("now text"), None),
    ];
    a.analyze(&program).unwrap();
    assert!(a.check_expr(&var("x")).unwrap() == KType::String);
    assert!(matches!(a.symbols.get("x"), Some(KType::String)));
}
