use kujav::errors::ErrorKind;
use kujav::pipeline::{check_only, compile_program, compile_source};

fn find(haystack: &[u8], needle: &[u8]) -> bool {
    haystack.windows(needle.len()).any(|w| w == needle)
}

#[test]
fn empty_program_is_a_class_with_an_entry_point() {
    let bytes = compile_source("A", "").unwrap();
    let mut expected: Vec<u8> = vec![0xCA, 0xFE, 0xBA, 0xBE, 0x00, 0x00, 0x00, 0x31];
    expected.extend_from_slice(&[0x00, 0x08]);
    expected.extend_from_slice(&[1, 0x00, 0x01, b'A']);
    expected.extend_from_slice(&[7, 0x00, 0x01]);
    expected.extend_from_slice(&[1, 0x00, 0x10]);
    expected.extend_from_slice(b"java/lang/Object");
    expected.extend_from_slice(&[7, 0x00, 0x03]);
    expected.extend_from_slice(&[1, 0x00, 0x04]);
    expected.extend_from_slice(b"main");
    expected.extend_from_slice(&[1, 0x00, 0x16]);
    expected.extend_from_slice(b"([Ljava/lang/String;)V");
    expected.extend_from_slice(&[1, 0x00, 0x04]);
    expected.extend_from_slice(b"Code");
    expected.extend_from_slice(&[0x00, 0x21, 0x00, 0x02, 0x00, 0x04]);
    expected.extend_from_slice(&[0x00, 0x00, 0x00, 0x00]);
    expected.extend_from_slice(&[0x00, 0x01]);
    expected.extend_from_slice(&[0x00, 0x09, 0x00, 0x05, 0x00, 0x06, 0x00, 0x01, 0x00, 0x07]);
    expected.extend_from_slice(&[0x00, 0x00, 0x00, 0x0D]);
    expected.extend_from_slice(&[0x00, 0x0A, 0x00, 0x0A]);
    expected.extend_from_slice(&[0x00, 0x00, 0x00, 0x01, 0xB1]);
    expected.extend_from_slice(&[0x00, 0x00, 0x00, 0x00]);
    expected.extend_from_slice(&[0x00, 0x00]);
    assert_eq!(bytes, expected);
    assert_eq!(compile_program("A", &[]).unwrap(), expected);
}

#[test]
fn sum_of_two_variables_is_printed() {
    let bytes = compile_source("Salida", "let x = 10\nlet y = 5\nprint(x + y)").unwrap();
    assert_eq!(&bytes[0..8], &[0xCA, 0xFE, 0xBA, 0xBE, 0x00, 0x00, 0x00, 0x31]);
    // 7 entries of every class, 12 of the print
    assert_eq!(&bytes[8..10], &[0x00, 20]);
    let code: Vec<u8> = vec![
        0x10, 0x0A, 0x36, 0x01, 0x10, 0x05, 0x36, 0x02, 0xB2, 0x00, 0x0D, 0x15, 0x01, 0x15, 0x02,
        0x60, 0xB6, 0x00, 0x13, 0xB1,
    ];
    let mut method: Vec<u8> = vec![0x00, 0x09, 0x00, 0x05, 0x00, 0x06, 0x00, 0x01, 0x00, 0x07];
    method.extend_from_slice(&[0x00, 0x00, 0x00, 12 + 20]);
    method.extend_from_slice(&[0x00, 0x0A, 0x00, 0x0A, 0x00, 0x00, 0x00, 20]);
    method.extend_from_slice(&code);
    method.extend_from_slice(&[0x00, 0x00, 0x00, 0x00]);
    method.extend_from_slice(&[0x00, 0x00]);
    assert!(bytes.ends_with(&method));
}

#[test]
fn function_is_compiled_and_called() {
    let src = "function cuadrado(n) { return n * n }\nlet r = cuadrado(5)\nprint r";
    let bytes = compile_source("Salida", src).unwrap();
    assert!(find(&bytes, b"cuadrado"));
    assert!(find(&bytes, b"(I)I"));
    // entry point: cuadrado(5) into r, then print r
    let main_code: Vec<u8> = vec![
        0x10, 0x05, 0xB8, 0x00, 0x0F, 0x36, 0x01, 0xB2, 0x00, 0x15, 0x15, 0x01, 0xB6, 0x00, 0x1B,
        0xB1,
    ];
    assert!(find(&bytes, &main_code));
    // two methods: the entry point and cuadrado, whose code multiplies its parameter by itself
    let mut function: Vec<u8> = vec![0x00, 0x09, 0x00, 0x08, 0x00, 0x09, 0x00, 0x01, 0x00, 0x07];
    function.extend_from_slice(&[0x00, 0x00, 0x00, 18, 0x00, 0x0A, 0x00, 0x01]);
    function.extend_from_slice(&[0x00, 0x00, 0x00, 6, 0x15, 0x00, 0x15, 0x00, 0x68, 0xAC]);
    function.extend_from_slice(&[0x00, 0x00, 0x00, 0x00, 0x00, 0x00]);
    assert!(bytes.ends_with(&function));
}

#[test]
fn literal_is_stored_and_printed_back() {
    let bytes = compile_source("Salida", "let s = \"hola\"\nprint s").unwrap();
    assert!(find(&bytes, b"hola"));
    assert!(find(&bytes, b"(Ljava/lang/String;)V"));
    let bytes = compile_source("Salida", "let n = 123456\nprint n").unwrap();
    assert!(find(&bytes, &[3, 0x00, 0x01, 0xE2, 0x40]));
    assert!(find(&bytes, b"(I)V"));
}

#[test]
fn every_stage_reports_its_errors() {
    let e = compile_source("Salida", "let x = $").unwrap_err();
    assert_eq!(e.kind(), ErrorKind::Syntax);
    let e = compile_source("Salida", "let x = ").unwrap_err();
    assert_eq!(e.kind(), ErrorKind::Syntax);
    assert_eq!(e.message(), "invalid syntax");
    let e = compile_source("Salida", "print y").unwrap_err();
    assert_eq!(e.kind(), ErrorKind::Semantic);
    let e = compile_source("Salida", "if 5 then print 1 end").unwrap_err();
    assert_eq!(e.kind(), ErrorKind::Type);
    let e = compile_source(&"a".repeat(70000), "").unwrap_err();
    assert_eq!(e.kind(), ErrorKind::Bytecode);
    assert_eq!(e.message(), "text constant is too long");
    let e = check_only("let x = $").unwrap_err();
    assert_eq!(e.kind(), ErrorKind::Syntax);
}

#[test]
fn method_that_is_too_long_is_refused() {
    let mut src = String::new();
    for _ in 0..16400 {
        src.push_str("let a = 1\n");
    }
    let e = compile_source("Salida", &src).unwrap_err();
    assert_eq!(e.kind(), ErrorKind::Bytecode);
    assert_eq!(e.message(), "method code is too long");
}

#[test]
fn entry_point_gets_as_many_locals_as_it_uses() {
    let mut src = String::new();
    for i in 0..20 {
        src.push_str(&format!("let v{} = {}\n", i, i));
    }
    let bytes = compile_source("Salida", &src).unwrap();
    // max_stack 10, max_locals 21: slot 0 and twenty variables
    assert!(find(&bytes, &[0x00, 0x0A, 0x00, 21, 0x00, 0x00, 0x00, 81]));
}
