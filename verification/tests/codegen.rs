use kujav::ast::{Expr, Stmt};
use kujav::codegen::Compiler;
use kujav::constant_pool::Constant;
use kujav::errors::ErrorKind;
use kujav::types::KType;

fn num(v: i32) -> Expr {
    Expr::Number(v)
}

fn text(s: &str) -> Expr {
    Expr::String(s.to_string())
}

fn var(s: &str) -> Expr {
    Expr::Identifier(s.to_string())
}

fn bin(l: Expr, op: &str, r: Expr) -> Expr {
    Expr::Binary(Box::new(l), op.to_string(), Box::new(r))
}

fn let_(name: &str, e: Expr) -> Stmt {
    Stmt::Let(name.to_string(), e, None)
}

fn utf8_at(c: &Compiler, index: u16) -> String {
    match c.cp.get(index) {
        Some(Constant::Utf8(s)) => s.clone(),
        other => panic!("no text at {}: {:?}", index, other),
    }
}

#[test]
fn new_job_starts_empty() {
    let c = Compiler::new();
    assert_eq!(c.class_name, "Salida");
    assert_eq!(c.cp.len(), 0);
    assert!(c.methods.is_empty());
    assert!(c.current_bytecode.is_empty());
    assert_eq!(c.next_slot, 1);
    let d = Compiler::for_class("Otra");
    assert_eq!(d.class_name, "Otra");
}

#[test]
fn integers_are_pushed_without_truncation() {
    let mut c = Compiler::new();
    c.compile_expression(num(10)).unwrap();
    c.compile_expression(num(127)).unwrap();
    c.compile_expression(num(128)).unwrap();
    c.compile_expression(num(-1)).unwrap();
    c.compile_expression(num(-128)).unwrap();
    c.compile_expression(num(-129)).unwrap();
    c.compile_expression(num(32767)).unwrap();
    c.compile_expression(num(-32768)).unwrap();
    assert_eq!(
        c.current_bytecode,
        vec![
            0x10, 0x0A, 0x10, 0x7F, 0x11, 0x00, 0x80, 0x10, 0xFF, 0x10, 0x80, 0x11, 0xFF, 0x7F,
            0x11, 0x7F, 0xFF, 0x11, 0x80, 0x00
        ]
    );
    assert_eq!(c.cp.len(), 0);
    c.current_bytecode.clear();
    c.compile_expression(num(40000)).unwrap();
    c.compile_expression(num(-40000)).unwrap();
    assert_eq!(c.current_bytecode, vec![0x13, 0x00, 0x01, 0x13, 0x00, 0x02]);
    assert!(matches!(c.cp.get(1), Some(Constant::Integer(40000))));
    assert!(matches!(c.cp.get(2), Some(Constant::Integer(-40000))));
}

#[test]
fn booleans_are_constants() {
    let mut c = Compiler::new();
    c.compile_expression(Expr::Boolean(true)).unwrap();
    c.compile_expression(Expr::Boolean(false)).unwrap();
    assert_eq!(c.current_bytecode, vec![0x04, 0x03]);
}

#[test]
fn text_goes_through_the_pool() {
    let mut c = Compiler::new();
    c.compile_expression(text("hi")).unwrap();
    assert_eq!(c.current_bytecode, vec![0x12, 0x02]);
    assert_eq!(utf8_at(&c, 1), "hi");
    assert!(matches!(c.cp.get(2), Some(Constant::String(1))));
}

#[test]
fn let_then_print_of_a_sum() {
    let mut c = Compiler::new();
    c.compile_statement(let_("x", num(10))).unwrap();
    c.compile_statement(let_("y", num(5))).unwrap();
    c.compile_statement(Stmt::Print(bin(var("x"), "+", var("y")))).unwrap();
    assert_eq!(
        c.current_bytecode,
        vec![
            0x10, 0x0A, 0x36, 0x01, // x = 10
            0x10, 0x05, 0x36, 0x02, // y = 5
            0xB2, 0x00, 0x06, // System.out
            0x15, 0x01, 0x15, 0x02, 0x60, // x + y
            0xB6, 0x00, 0x0C, // println
        ]
    );
    assert_eq!(c.cp.len(), 12);
    assert_eq!(utf8_at(&c, 1), "java/lang/System");
    assert!(matches!(c.cp.get(2), Some(Constant::Class(1))));
    assert_eq!(utf8_at(&c, 3), "out");
    assert_eq!(utf8_at(&c, 4), "Ljava/io/PrintStream;");
    assert!(matches!(c.cp.get(5), Some(Constant::NameAndType { name_index: 3, type_index: 4 })));
    assert!(matches!(
        c.cp.get(6),
        Some(Constant::FieldRef { class_index: 2, name_and_type_index: 5 })
    ));
    assert_eq!(utf8_at(&c, 7), "java/io/PrintStream");
    assert!(matches!(c.cp.get(8), Some(Constant::Class(7))));
    assert_eq!(utf8_at(&c, 9), "println");
    assert_eq!(utf8_at(&c, 10), "(I)V");
    assert!(matches!(c.cp.get(11), Some(Constant::NameAndType { name_index: 9, type_index: 10 })));
    assert!(matches!(
        c.cp.get(12),
        Some(Constant::MethodRef { class_index: 8, name_and_type_index: 11 })
    ));
    assert_eq!(c.next_slot, 3);
    assert_eq!(c.variables.get("x"), Some(&1));
    assert_eq!(c.variables.get("y"), Some(&2));
}

#[test]
fn rebinding_keeps_the_slot() {
    let mut c = Compiler::new();
    c.compile_statement(let_("x", num(1))).unwrap();
    c.compile_statement(let_("x", num(2))).unwrap();
    assert_eq!(c.current_bytecode, vec![0x10, 0x01, 0x36, 0x01, 0x10, 0x02, 0x36, 0x01]);
    assert_eq!(c.next_slot, 2);
}

#[test]
fn text_variables_use_reference_instructions() {
    let mut c = Compiler::new();
    c.compile_statement(let_("s", text("a"))).unwrap();
    c.compile_expression(var("s")).unwrap();
    assert_eq!(c.current_bytecode, vec![0x12, 0x02, 0x3A, 0x01, 0x19, 0x01]);
    assert!(c.is_string_expr(&var("s")));
    assert!(c.is_string_expr(&bin(num(1), "+", var("s"))));
    assert!(!c.is_string_expr(&bin(num(1), "-", var("s"))));
    assert!(!c.is_string_expr(&num(1)));
    assert!(!c.is_string_expr(&var("unknown")));
    assert!(c.static_type(&var("s")) == KType::String);
    assert!(c.static_type(&num(3)) == KType::Int);
    assert!(c.static_type(&Expr::ArrayLiteral(vec![])) == KType::Array(Box::new(KType::Int)));
}

#[test]
fn operators_have_their_instructions() {
    let cases: Vec<(&str, Vec<u8>)> = vec![
        ("+", vec![0x60]),
        ("-", vec![0x64]),
        ("*", vec![0x68]),
        ("/", vec![0x6C]),
        ("and", vec![0x7E]),
        ("or", vec![0x80]),
        ("==", vec![0xA0, 0x00, 0x07, 0x04, 0xA7, 0x00, 0x04, 0x03]),
        ("<", vec![0xA2, 0x00, 0x07, 0x04, 0xA7, 0x00, 0x04, 0x03]),
        (">", vec![0xA4, 0x00, 0x07, 0x04, 0xA7, 0x00, 0x04, 0x03]),
    ];
    for (op, code) in cases {
        let mut c = Compiler::new();
        c.compile_expression(bin(num(1), op, num(2))).unwrap();
        let mut expected = vec![0x10, 0x01, 0x10, 0x02];
        expected.extend_from_slice(&code);
        assert_eq!(c.current_bytecode, expected, "operator {}", op);
    }
}

#[test]
fn unknown_operator_is_an_error() {
    let mut c = Compiler::new();
    let e = c.compile_expression(bin(num(1), "%", num(2))).unwrap_err();
    assert_eq!(e.kind(), ErrorKind::Bytecode);
    assert_eq!(e.message(), "unknown operator '%'");
    assert!(c.current_bytecode.is_empty());
}

#[test]
fn unresolved_name_is_an_error_and_leaves_no_trace() {
    let mut c = Compiler::new();
    c.compile_statement(let_("x", num(1))).unwrap();
    let e = c.compile_statement(Stmt::Print(bin(var("x"), "+", var("y")))).unwrap_err();
    assert_eq!(e.kind(), ErrorKind::Semantic);
    assert_eq!(e.message(), "undefined variable 'y'");
    assert_eq!(c.current_bytecode, vec![0x10, 0x01, 0x36, 0x01]);
    assert_eq!(c.cp.len(), 0);
    assert_eq!(c.next_slot, 2);
    let e = c.compile_expression(var("y")).unwrap_err();
    assert_eq!(e.message(), "undefined variable 'y'");
}

#[test]
fn failed_block_is_rolled_back_whole() {
    let mut c = Compiler::new();
    let stmt = Stmt::If(
        Expr::Boolean(true),
        vec![
            let_("a", text("kept?")),
            Stmt::Function("f".to_string(), vec![], vec![], KType::Void),
            Stmt::Print(var("missing")),
        ],
        None,
    );
    let e = c.compile_statement(stmt).unwrap_err();
    assert_eq!(e.message(), "undefined variable 'missing'");
    assert!(c.current_bytecode.is_empty());
    assert_eq!(c.cp.len(), 0);
    assert!(c.methods.is_empty());
    assert_eq!(c.next_slot, 1);
    assert_eq!(c.variables.len(), 0);
    assert_eq!(c.variable_types.len(), 0);
}

#[test]
fn concatenation_uses_a_string_builder() {
    let mut c = Compiler::new();
    c.compile_expression(bin(text("a"), "+", num(1))).unwrap();
    assert_eq!(
        c.current_bytecode,
        vec![
            0xBB, 0x00, 0x02, 0x59, // new StringBuilder, dup
            0xB7, 0x00, 0x06, // <init>
            0x12, 0x08, // "a"
            0xB6, 0x00, 0x0C, // append(String)
            0x10, 0x01, // 1
            0xB6, 0x00, 0x0F, // append(int)
            0xB6, 0x00, 0x13, // toString
        ]
    );
    assert_eq!(c.cp.len(), 19);
    assert_eq!(utf8_at(&c, 1), "java/lang/StringBuilder");
    assert_eq!(utf8_at(&c, 3), "<init>");
    assert_eq!(utf8_at(&c, 4), "()V");
    assert_eq!(utf8_at(&c, 9), "append");
    assert_eq!(utf8_at(&c, 10), "(Ljava/lang/String;)Ljava/lang/StringBuilder;");
    assert_eq!(utf8_at(&c, 13), "(I)Ljava/lang/StringBuilder;");
    assert_eq!(utf8_at(&c, 16), "toString");
    assert_eq!(utf8_at(&c, 17), "()Ljava/lang/String;");
    assert!(matches!(
        c.cp.get(12),
        Some(Constant::MethodRef { class_index: 2, name_and_type_index: 11 })
    ));
    assert!(matches!(c.cp.get(14), Some(Constant::NameAndType { name_index: 9, type_index: 13 })));
    assert!(matches!(
        c.cp.get(15),
        Some(Constant::MethodRef { class_index: 2, name_and_type_index: 14 })
    ));
}

#[test]
fn the_name_of_append_is_taken_from_behind_the_first_operand() {
    let mut c = Compiler::new();
    c.compile_expression(bin(num(1), "+", bin(text("a"), "+", text("b")))).unwrap();
    // builder 1..=6, the number adds nothing, `append` at 7, the inner
    // concatenation starts at 11 and holds 21 entries
    assert_eq!(utf8_at(&c, 7), "append");
    assert_eq!(utf8_at(&c, 8), "(I)Ljava/lang/StringBuilder;");
    assert_eq!(utf8_at(&c, 11), "java/lang/StringBuilder");
    assert_eq!(c.cp.len(), 10 + 21 + 3 + 4);
    assert_eq!(utf8_at(&c, 32), "(Ljava/lang/String;)Ljava/lang/StringBuilder;");
    assert!(matches!(c.cp.get(33), Some(Constant::NameAndType { name_index: 7, type_index: 32 })));
    assert!(matches!(
        c.cp.get(34),
        Some(Constant::MethodRef { class_index: 2, name_and_type_index: 33 })
    ));
}

#[test]
fn printing_text_calls_println_for_strings() {
    let mut c = Compiler::new();
    c.compile_statement(Stmt::Print(text("hola"))).unwrap();
    assert_eq!(utf8_at(&c, 12), "(Ljava/lang/String;)V");
    assert_eq!(
        c.current_bytecode,
        vec![0xB2, 0x00, 0x06, 0x12, 0x08, 0xB6, 0x00, 0x0E]
    );
}

#[test]
fn conditional_without_else() {
    let mut c = Compiler::new();
    c.compile_statement(Stmt::If(Expr::Boolean(true), vec![let_("a", num(1))], None)).unwrap();
    assert_eq!(
        c.current_bytecode,
        vec![0x04, 0x99, 0x00, 0x07, 0x10, 0x01, 0x36, 0x01]
    );
}

#[test]
fn conditional_with_else() {
    let mut c = Compiler::new();
    c.compile_statement(Stmt::If(
        Expr::Boolean(false),
        vec![let_("a", num(1))],
        Some(vec![let_("a", num(2))]),
    ))
    .unwrap();
    assert_eq!(
        c.current_bytecode,
        vec![
            0x03, 0x99, 0x00, 0x0A, 0x10, 0x01, 0x36, 0x01, 0xA7, 0x00, 0x07, 0x10, 0x02, 0x36,
            0x01
        ]
    );
}

#[test]
fn loop_jumps_back_to_its_condition() {
    let mut c = Compiler::new();
    c.compile_statement(Stmt::While(Expr::Boolean(true), vec![let_("a", num(1))])).unwrap();
    assert_eq!(
        c.current_bytecode,
        vec![0x04, 0x99, 0x00, 0x0A, 0x10, 0x01, 0x36, 0x01, 0xA7, 0xFF, 0xF8]
    );
}

#[test]
fn branch_that_is_too_far_is_an_error() {
    let mut body = Vec::new();
    for _ in 0..8200 {
        body.push(let_("a", num(1)));
    }
    let mut c = Compiler::new();
    let e = c.compile_statement(Stmt::If(Expr::Boolean(true), body, None)).unwrap_err();
    assert_eq!(e.kind(), ErrorKind::Bytecode);
    assert_eq!(e.message(), "branch offset out of range");
    assert!(c.current_bytecode.is_empty());
    let mut body = Vec::new();
    for _ in 0..8191 {
        body.push(let_("a", num(1)));
    }
    let mut c = Compiler::new();
    c.compile_statement(Stmt::If(Expr::Boolean(true), body, None)).unwrap();
    assert_eq!(&c.current_bytecode[0..4], &[0x04, 0x99, 0x7F, 0xFF]);
}

#[test]
fn function_becomes_a_method_of_its_own() {
    let mut c = Compiler::new();
    c.compile_statement(let_("outer", num(1))).unwrap();
    c.compile_statement(Stmt::Function(
        "cuadrado".to_string(),
        vec![("n".to_string(), KType::Int)],
        vec![Stmt::Return(Some(bin(var("n"), "*", var("n"))))],
        KType::Int,
    ))
    .unwrap();
    assert_eq!(c.current_bytecode, vec![0x10, 0x01, 0x36, 0x01]);
    assert_eq!(c.next_slot, 2);
    assert_eq!(c.variables.get("outer"), Some(&1));
    assert_eq!(c.variables.get("n"), None);
    assert_eq!(c.methods.len(), 1);
    let m = &c.methods[0];
    assert_eq!(m.name_idx, 1);
    assert_eq!(m.sig_idx, 2);
    assert_eq!(m.bytecode, vec![0x15, 0x00, 0x15, 0x00, 0x68, 0xAC]);
    assert_eq!(m.max_locals, 1);
    assert_eq!(utf8_at(&c, 1), "cuadrado");
    assert_eq!(utf8_at(&c, 2), "(I)I");
}

#[test]
fn void_function_ends_with_a_bare_return() {
    let mut c = Compiler::new();
    c.compile_statement(Stmt::Function(
        "saludar".to_string(),
        vec![("quien".to_string(), KType::String), ("veces".to_string(), KType::Int)],
        vec![let_("local", var("quien"))],
        KType::Void,
    ))
    .unwrap();
    let m = &c.methods[0];
    assert_eq!(utf8_at(&c, 2), "(Ljava/lang/String;I)V");
    assert_eq!(m.bytecode, vec![0x19, 0x00, 0x3A, 0x02, 0xB1]);
    assert_eq!(m.max_locals, 3);
}

#[test]
fn explicit_return_needs_no_second_one() {
    let mut c = Compiler::new();
    c.compile_statement(Stmt::Function(
        "f".to_string(),
        vec![],
        vec![Stmt::Return(None)],
        KType::Void,
    ))
    .unwrap();
    c.compile_statement(Stmt::Function("g".to_string(), vec![], vec![], KType::Void)).unwrap();
    c.compile_statement(Stmt::Function(
        "h".to_string(),
        vec![],
        vec![Stmt::Return(None), let_("a", num(1))],
        KType::Void,
    ))
    .unwrap();
    assert_eq!(c.methods[0].bytecode, vec![0xB1]);
    assert_eq!(c.methods[1].bytecode, vec![0xB1]);
    assert_eq!(c.methods[2].bytecode, vec![0xB1, 0x10, 0x01, 0x36, 0x00, 0xB1]);
}

#[test]
fn function_body_does_not_see_outer_variables() {
    let mut c = Compiler::new();
    c.compile_statement(let_("outer", num(1))).unwrap();
    let e = c
        .compile_statement(Stmt::Function(
            "f".to_string(),
            vec![],
            vec![Stmt::Print(var("outer"))],
            KType::Void,
        ))
        .unwrap_err();
    assert_eq!(e.message(), "undefined variable 'outer'");
    assert!(c.methods.is_empty());
    assert_eq!(c.variables.get("outer"), Some(&1));
}

#[test]
fn call_expression_pushes_arguments_and_invokes() {
    let mut c = Compiler::new();
    c.compile_expression(Expr::Call("f".to_string(), vec![num(1), text("s")])).unwrap();
    assert_eq!(
        c.current_bytecode,
        vec![0x10, 0x01, 0x12, 0x02, 0xB8, 0x00, 0x08]
    );
    assert_eq!(utf8_at(&c, 3), "Salida");
    assert_eq!(utf8_at(&c, 5), "f");
    assert_eq!(utf8_at(&c, 6), "(ILjava/lang/String;)I");
    assert!(matches!(
        c.cp.get(8),
        Some(Constant::MethodRef { class_index: 4, name_and_type_index: 7 })
    ));
}

fn function(name: &str, params: Vec<(&str, KType)>, body: Vec<Stmt>, ret: KType) -> Stmt {
    let params = params.into_iter().map(|(n, t)| (n.to_string(), t)).collect();
    Stmt::Function(name.to_string(), params, body, ret)
}

#[test]
fn call_statement_invokes_a_procedure() {
    let mut c = Compiler::for_class("Programa");
    c.compile_statement(function("saludar", vec![("veces", KType::Int)], vec![], KType::Void))
        .unwrap();
    c.compile_statement(Stmt::Call("saludar".to_string(), vec![num(3)])).unwrap();
    assert_eq!(c.current_bytecode, vec![0x10, 0x03, 0xB8, 0x00, 0x08]);
    assert_eq!(utf8_at(&c, 2), "(I)V");
    assert_eq!(utf8_at(&c, 3), "Programa");
    assert_eq!(utf8_at(&c, 5), "saludar");
    assert_eq!(utf8_at(&c, 6), "(I)V");
}

#[test]
fn call_statement_drops_what_a_function_returns() {
    let mut c = Compiler::new();
    c.compile_statement(function(
        "doble",
        vec![("n", KType::Int)],
        vec![Stmt::Return(Some(bin(var("n"), "+", var("n"))))],
        KType::Int,
    ))
    .unwrap();
    c.compile_statement(function("nombre", vec![], vec![Stmt::Return(Some(text("a")))], KType::String))
        .unwrap();
    assert_eq!(c.cp.len(), 6);
    c.compile_statement(Stmt::Call("doble".to_string(), vec![num(3)])).unwrap();
    assert_eq!(c.current_bytecode, vec![0x10, 0x03, 0xB8, 0x00, 12, 0x57]);
    assert_eq!(utf8_at(&c, 10), "(I)I");
    c.compile_statement(Stmt::Call("nombre".to_string(), vec![])).unwrap();
    assert_eq!(c.current_bytecode[6..], [0xB8, 0x00, 18, 0x57]);
    assert_eq!(utf8_at(&c, 16), "()Ljava/lang/String;");
}

#[test]
fn call_statement_of_an_unknown_function_expects_an_integer() {
    let mut c = Compiler::for_class("Programa");
    c.compile_statement(Stmt::Call("saludar".to_string(), vec![num(3)])).unwrap();
    assert_eq!(c.current_bytecode, vec![0x10, 0x03, 0xB8, 0x00, 0x06, 0x57]);
    assert_eq!(utf8_at(&c, 1), "Programa");
    assert_eq!(utf8_at(&c, 4), "(I)I");
}

#[test]
fn function_is_known_inside_its_own_body_and_after_it() {
    let mut c = Compiler::new();
    let again = || Stmt::Call("otra".to_string(), vec![]);
    c.compile_statement(function("otra", vec![], vec![again()], KType::Void)).unwrap();
    assert_eq!(c.methods[0].bytecode, vec![0xB8, 0x00, 0x08, 0xB1]);
    assert_eq!(utf8_at(&c, 6), "()V");
    assert_eq!(c.functions.get("otra"), Some(&KType::Void));
    // the last definition of a name is the one that counts
    c.compile_statement(function("otra", vec![], vec![Stmt::Return(Some(num(1)))], KType::Int))
        .unwrap();
    c.compile_statement(again()).unwrap();
    assert_eq!(c.current_bytecode.last(), Some(&0x57));
    assert_eq!(c.functions.len(), 2);
}

#[test]
fn refused_function_is_not_remembered() {
    let mut c = Compiler::new();
    let e = c
        .compile_statement(function("f", vec![], vec![Stmt::Print(var("nowhere"))], KType::Void))
        .unwrap_err();
    assert_eq!(e.kind(), ErrorKind::Semantic);
    assert_eq!(c.functions.len(), 0);
    assert_eq!(c.cp.len(), 0);
    c.compile_statement(Stmt::Call("f".to_string(), vec![])).unwrap();
    assert_eq!(utf8_at(&c, 4), "()I");
}

#[test]
fn return_instructions() {
    let mut c = Compiler::new();
    c.compile_statement(Stmt::Return(None)).unwrap();
    c.compile_statement(Stmt::Return(Some(num(1)))).unwrap();
    c.compile_statement(Stmt::Return(Some(text("a")))).unwrap();
    assert_eq!(
        c.current_bytecode,
        vec![0xB1, 0x10, 0x01, 0xAC, 0x12, 0x02, 0xB0]
    );
}

#[test]
fn arrays() {
    let mut c = Compiler::new();
    c.compile_statement(let_("v", Expr::ArrayLiteral(vec![num(7), num(8)]))).unwrap();
    assert_eq!(
        c.current_bytecode,
        vec![
            0x10, 0x02, 0xBC, 0x0A, // new int[2]
            0x59, 0x10, 0x00, 0x10, 0x07, 0x4F, // v[0] = 7
            0x59, 0x10, 0x01, 0x10, 0x08, 0x4F, // v[1] = 8
            0x3A, 0x01, // astore 1
        ]
    );
    c.current_bytecode.clear();
    c.compile_expression(Expr::ArrayAccess("v".to_string(), Box::new(num(1)))).unwrap();
    assert_eq!(c.current_bytecode, vec![0x19, 0x01, 0x10, 0x01, 0x2E]);
    c.current_bytecode.clear();
    c.compile_statement(Stmt::IndexAssign("v".to_string(), num(0), num(9))).unwrap();
    assert_eq!(c.current_bytecode, vec![0x19, 0x01, 0x10, 0x00, 0x10, 0x09, 0x4F]);
    let e = c.compile_statement(Stmt::IndexAssign("w".to_string(), num(0), num(9))).unwrap_err();
    assert_eq!(e.message(), "undefined variable 'w'");
    let e = c.compile_expression(Expr::ArrayAccess("w".to_string(), Box::new(num(1)))).unwrap_err();
    assert_eq!(e.message(), "undefined variable 'w'");
}

#[test]
fn input_reads_through_a_scanner() {
    let mut c = Compiler::new();
    c.compile_expression(Expr::Input).unwrap();
    assert_eq!(
        c.current_bytecode,
        vec![
            0xBB, 0x00, 0x02, 0x59, 0xB2, 0x00, 0x08, 0xB7, 0x00, 0x0C, 0xB6, 0x00, 0x10
        ]
    );
    assert_eq!(utf8_at(&c, 1), "java/util/Scanner");
    assert_eq!(utf8_at(&c, 3), "java/lang/System");
    assert_eq!(utf8_at(&c, 5), "in");
    assert_eq!(utf8_at(&c, 6), "Ljava/io/InputStream;");
    assert_eq!(utf8_at(&c, 9), "<init>");
    assert_eq!(utf8_at(&c, 10), "(Ljava/io/InputStream;)V");
    assert_eq!(utf8_at(&c, 13), "nextInt");
    assert_eq!(utf8_at(&c, 14), "()I");
}

#[test]
fn text_constant_beyond_one_byte_is_an_error() {
    let mut c = Compiler::new();
    for _ in 0..254 {
        c.cp.add_class(1).unwrap();
    }
    let e = c.compile_expression(text("late")).unwrap_err();
    assert_eq!(e.kind(), ErrorKind::Bytecode);
    assert_eq!(e.message(), "constant index does not fit in one byte");
    assert_eq!(c.cp.len(), 254);
    c.cp.truncate(253);
    c.compile_expression(text("just in time")).unwrap();
    assert_eq!(c.current_bytecode, vec![0x12, 0xFF]);
}

#[test]
fn too_many_locals_is_an_error() {
    let mut c = Compiler::new();
    for i in 1..256 {
        c.compile_statement(let_(&format!("v{}", i), num(0))).unwrap();
    }
    assert_eq!(c.next_slot, 256);
    let e = c.compile_statement(let_("one_more", num(0))).unwrap_err();
    assert_eq!(e.kind(), ErrorKind::Bytecode);
    assert_eq!(e.message(), "too many local variables");
    c.compile_statement(let_("v255", num(1))).unwrap();
}
