use kujav::errors::ErrorKind;
use kujav::lexer::{tokenize, Sym, Token};
use kujav::parser::{parse_to_ast, read_expression, KujavParser};

fn ast(src: &str) -> String {
    format!("{:?}", parse_to_ast(src).unwrap())
}

#[test]
fn tokens_of_a_line() {
    let ts = tokenize("let x1 = 10 == (\"a b\")").unwrap();
    assert_eq!(
        format!("{:?}", ts),
        "[Word(\"let\"), Word(\"x1\"), Symbol(Assign), Number(10), Symbol(Equal), \
         Symbol(LParen), Text(\"a b\"), Symbol(RParen)]"
    );
    assert!(matches!(ts[2], Token::Symbol(Sym::Assign)));
}

#[test]
fn all_signs() {
    let ts = tokenize("()[]{},:=<>+-*/==").unwrap();
    assert_eq!(
        format!("{:?}", ts),
        "[Symbol(LParen), Symbol(RParen), Symbol(LBracket), Symbol(RBracket), Symbol(LBrace), \
         Symbol(RBrace), Symbol(Comma), Symbol(Colon), Symbol(Assign), Symbol(Less), \
         Symbol(Greater), Symbol(Plus), Symbol(Minus), Symbol(Star), Symbol(Slash), Symbol(Equal)]"
    );
}

#[test]
fn white_space_only_separates() {
    assert!(tokenize(" \t\r\n").unwrap().is_empty());
    assert_eq!(tokenize("a\n\tb").unwrap().len(), 2);
    assert_eq!(format!("{:?}", tokenize("java.util.List _x9").unwrap()),
        "[Word(\"java.util.List\"), Word(\"_x9\")]");
}

#[test]
fn text_keeps_what_is_between_the_quotes() {
    let ts = tokenize("\"Número: ñ\"\"\"").unwrap();
    assert_eq!(format!("{:?}", ts), "[Text(\"Número: ñ\"), Text(\"\")]");
}

#[test]
fn lexical_errors() {
    let e = tokenize("let x = #").unwrap_err();
    assert_eq!(e.kind(), ErrorKind::Syntax);
    assert_eq!(e.message(), "unexpected character");
    let e = tokenize("print \"abc").unwrap_err();
    assert_eq!(e.kind(), ErrorKind::Syntax);
    assert_eq!(e.message(), "unterminated text");
    let e = tokenize("2147483648").unwrap_err();
    assert_eq!(e.kind(), ErrorKind::Syntax);
    assert_eq!(e.message(), "number out of range");
    let e = tokenize("99999999999999999999999999").unwrap_err();
    assert_eq!(e.message(), "number out of range");
    assert!(matches!(tokenize("2147483647").unwrap()[0], Token::Number(2147483647)));
    assert!(matches!(tokenize("007").unwrap()[0], Token::Number(7)));
}

#[test]
fn product_binds_tighter_than_sum() {
    assert_eq!(
        ast("let x = 1 + 2 * 3"),
        "[Let(\"x\", Binary(Number(1), \"+\", Binary(Number(2), \"*\", Number(3))), None)]"
    );
    assert_eq!(
        ast("let x = (1 + 2) * 3"),
        "[Let(\"x\", Binary(Binary(Number(1), \"+\", Number(2)), \"*\", Number(3)), None)]"
    );
}

#[test]
fn operators_group_from_the_left() {
    assert_eq!(
        ast("print 1 - 2 - 3"),
        "[Print(Binary(Binary(Number(1), \"-\", Number(2)), \"-\", Number(3)))]"
    );
    assert_eq!(
        ast("print a < b and c == d or e > f"),
        "[Print(Binary(Binary(Binary(Identifier(\"a\"), \"<\", Identifier(\"b\")), \"and\", \
         Binary(Identifier(\"c\"), \"==\", Identifier(\"d\"))), \"or\", \
         Binary(Identifier(\"e\"), \">\", Identifier(\"f\"))))]"
    );
    assert_eq!(
        ast("print a or b and c"),
        "[Print(Binary(Identifier(\"a\"), \"or\", Binary(Identifier(\"b\"), \"and\", \
         Identifier(\"c\"))))]"
    );
    assert_eq!(
        ast("print 1 + 2 < 3 * 4 == true"),
        "[Print(Binary(Binary(Binary(Number(1), \"+\", Number(2)), \"<\", Binary(Number(3), \
         \"*\", Number(4))), \"==\", Boolean(true)))]"
    );
    assert_eq!(
        ast("print 8 / 4 / 2 + 1"),
        "[Print(Binary(Binary(Binary(Number(8), \"/\", Number(4)), \"/\", Number(2)), \"+\", \
         Number(1)))]"
    );
}

#[test]
fn primaries() {
    assert_eq!(
        ast("print f(1, \"a\", g())"),
        "[Print(Call(\"f\", [Number(1), String(\"a\"), Call(\"g\", [])]))]"
    );
    assert_eq!(ast("print input()"), "[Print(Input)]");
    assert_eq!(ast("print true"), "[Print(Boolean(true))]");
    assert_eq!(ast("print false"), "[Print(Boolean(false))]");
    assert_eq!(
        ast("print [1, x, [2]]"),
        "[Print(ArrayLiteral([Number(1), Identifier(\"x\"), ArrayLiteral([Number(2)])]))]"
    );
    assert_eq!(ast("print []"), "[Print(ArrayLiteral([]))]");
    assert_eq!(
        ast("print v[i + 1]"),
        "[Print(ArrayAccess(\"v\", Binary(Identifier(\"i\"), \"+\", Number(1))))]"
    );
}

#[test]
fn let_with_and_without_a_type() {
    assert_eq!(ast("let x = 10"), "[Let(\"x\", Number(10), None)]");
    assert_eq!(ast("local x: Int = 10"), "[Let(\"x\", Number(10), Some(\"Int\"))]");
    assert_eq!(ast("let m: Int[][] = []"), "[Let(\"m\", ArrayLiteral([]), Some(\"Int[][]\"))]");
}

#[test]
fn statements_follow_each_other_without_separators() {
    assert_eq!(
        ast("let x = 10\nlet y = 5\nprint(x + y)"),
        "[Let(\"x\", Number(10), None), Let(\"y\", Number(5), None), \
         Print(Binary(Identifier(\"x\"), \"+\", Identifier(\"y\")))]"
    );
    assert_eq!(ast(""), "[]");
}

#[test]
fn conditionals_and_loops() {
    assert_eq!(
        ast("if 5 then print 1 end"),
        "[If(Number(5), [Print(Number(1))], None)]"
    );
    assert_eq!(
        ast("if a then print 1 print 2 else print 3 end"),
        "[If(Identifier(\"a\"), [Print(Number(1)), Print(Number(2))], Some([Print(Number(3))]))]"
    );
    assert_eq!(
        ast("while x > 0 do saludar(x) local x = x - 1 end"),
        "[While(Binary(Identifier(\"x\"), \">\", Number(0)), [Call(\"saludar\", \
         [Identifier(\"x\")]), Let(\"x\", Binary(Identifier(\"x\"), \"-\", Number(1)), None)])]"
    );
    assert_eq!(ast("if a then end"), "[If(Identifier(\"a\"), [], None)]");
}

#[test]
fn functions() {
    assert_eq!(
        ast("function cuadrado(n) { return n * n }\nlet r = cuadrado(5)\nprint r"),
        "[Function(\"cuadrado\", [(\"n\", Int)], [Return(Some(Binary(Identifier(\"n\"), \"*\", \
         Identifier(\"n\"))))], Int), Let(\"r\", Call(\"cuadrado\", [Number(5)]), None), \
         Print(Identifier(\"r\"))]"
    );
    assert_eq!(
        ast("function saludar(n: Int)\n print \"Número: \" + n\n end"),
        "[Function(\"saludar\", [(\"n\", Int)], [Print(Binary(String(\"Número: \"), \"+\", \
         Identifier(\"n\")))], Void)]"
    );
    assert_eq!(
        ast("function f(a: String, b: Int[], c: java.util.List): Bool return true end"),
        "[Function(\"f\", [(\"a\", String), (\"b\", Array(Int)), (\"c\", \
         Custom(\"java.util.List\"))], [Return(Some(Boolean(true)))], Bool)]"
    );
    assert_eq!(ast("function f() return end"), "[Function(\"f\", [], [Return(None)], Void)]");
    assert_eq!(ast("function f() { }"), "[Function(\"f\", [], [], Void)]");
}

#[test]
fn index_assignment_and_calls() {
    assert_eq!(
        ast("arr[0] = \"text\""),
        "[IndexAssign(\"arr\", Number(0), String(\"text\"))]"
    );
    assert_eq!(ast("f()"), "[Call(\"f\", [])]");
    assert_eq!(ast("f(1, 2)"), "[Call(\"f\", [Number(1), Number(2)])]");
}

#[test]
fn syntax_errors() {
    for src in [
        "let = 1",
        "let x 1",
        "let x =",
        "print",
        "if a print 1 end",
        "if a then print 1",
        "while a print 1 end",
        "function (a) end",
        "function f(a,) end",
        "function f(a { }",
        "end",
        "x",
        "x = 1",
        "print (1",
        "print [1, 2",
        "print f(1 2)",
        "print 1 +",
        "let if = 1",
        "print input",
        "arr[0] 1",
        "let x: = 1",
        "}",
    ] {
        let e = parse_to_ast(src).unwrap_err();
        assert_eq!(e.kind(), ErrorKind::Syntax, "source {:?}", src);
        assert_eq!(e.message(), "invalid syntax", "source {:?}", src);
    }
}

#[test]
fn expression_reader_reports_where_it_stopped() {
    let ts = tokenize("1 + 2 then").unwrap();
    let (e, next) = read_expression(&ts, 0).unwrap();
    assert_eq!(format!("{:?}", e), "Binary(Number(1), \"+\", Number(2))");
    assert_eq!(next, 3);
    assert!(read_expression(&ts, 3).is_none());
    assert!(read_expression(&ts, 4).is_none());
    assert!(KujavParser::parse(&ts).is_none());
    assert!(KujavParser::parse(&tokenize("print 1").unwrap()).is_some());
}
