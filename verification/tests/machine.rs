use kujav::codegen::Compiler;
use kujav::constant_pool::Constant;
use kujav::parser::parse_to_ast;

fn text_at(c: &Compiler, index: u16) -> String {
    match c.cp.get(index) {
        Some(Constant::Utf8(s)) => s.clone(),
        other => panic!("no text at {}: {:?}", index, other),
    }
}

fn member_at(c: &Compiler, index: u16) -> (String, String, String) {
    let (class_index, pair) = match c.cp.get(index) {
        Some(Constant::FieldRef { class_index, name_and_type_index })
        | Some(Constant::MethodRef { class_index, name_and_type_index }) => {
            (*class_index, *name_and_type_index)
        }
        other => panic!("no member at {}: {:?}", index, other),
    };
    let class = match c.cp.get(class_index) {
        Some(Constant::Class(name)) => text_at(c, *name),
        other => panic!("no class at {}: {:?}", class_index, other),
    };
    match c.cp.get(pair) {
        Some(Constant::NameAndType { name_index, type_index }) => {
            (class, text_at(c, *name_index), text_at(c, *type_index))
        }
        other => panic!("no pair at {}: {:?}", pair, other),
    }
}

/// Runs code that binds, prints and returns numbers and calls functions of
/// the program, and gives back what it returns.
fn execute(c: &Compiler, code: &[u8], locals: &mut [i32; 256], out: &mut Vec<i32>) -> Option<i32> {
    let mut stack: Vec<Option<i32>> = Vec::new();
    let mut pc = 0;
    let operand = |pc: usize| ((code[pc + 1] as u16) << 8) | code[pc + 2] as u16;
    while pc < code.len() {
        match code[pc] {
            0x10 => {
                stack.push(Some(code[pc + 1] as i8 as i32));
                pc += 2;
            }
            0x11 => {
                stack.push(Some(operand(pc) as i16 as i32));
                pc += 3;
            }
            0x13 => {
                match c.cp.get(operand(pc)) {
                    Some(Constant::Integer(v)) => stack.push(Some(*v)),
                    other => panic!("no integer: {:?}", other),
                }
                pc += 3;
            }
            0x15 => {
                stack.push(Some(locals[code[pc + 1] as usize]));
                pc += 2;
            }
            0x36 => {
                locals[code[pc + 1] as usize] = stack.pop().unwrap().unwrap();
                pc += 2;
            }
            0x57 => {
                stack.pop().unwrap().unwrap();
                pc += 1;
            }
            0x60 | 0x64 | 0x68 | 0x6C => {
                let b = stack.pop().unwrap().unwrap();
                let a = stack.pop().unwrap().unwrap();
                stack.push(Some(match code[pc] {
                    0x60 => a.wrapping_add(b),
                    0x64 => a.wrapping_sub(b),
                    0x68 => a.wrapping_mul(b),
                    _ => a.wrapping_div(b),
                }));
                pc += 1;
            }
            0xAC => {
                let value = stack.pop().unwrap().unwrap();
                assert!(stack.is_empty());
                return Some(value);
            }
            0xB1 => {
                assert!(stack.is_empty());
                return None;
            }
            0xB2 => {
                assert_eq!(
                    member_at(c, operand(pc)),
                    (
                        "java/lang/System".to_string(),
                        "out".to_string(),
                        "Ljava/io/PrintStream;".to_string()
                    )
                );
                stack.push(None);
                pc += 3;
            }
            0xB6 => {
                assert_eq!(
                    member_at(c, operand(pc)),
                    ("java/io/PrintStream".to_string(), "println".to_string(), "(I)V".to_string())
                );
                out.push(stack.pop().unwrap().unwrap());
                assert_eq!(stack.pop(), Some(None));
                pc += 3;
            }
            0xB8 => {
                let (class, name, descriptor) = member_at(c, operand(pc));
                assert_eq!(class, c.class_name);
                // a method is found by its name and its descriptor together
                let method = c
                    .methods
                    .iter()
                    .find(|m| text_at(c, m.name_idx) == name && text_at(c, m.sig_idx) == descriptor)
                    .unwrap_or_else(|| panic!("no method {}{}", name, descriptor));
                let taken = descriptor.find(')').unwrap() - 1;
                assert!(descriptor[1..1 + taken].bytes().all(|b| b == b'I'));
                let mut frame = [0i32; 256];
                for slot in (0..taken).rev() {
                    frame[slot] = stack.pop().unwrap().unwrap();
                }
                let result = execute(c, &method.bytecode, &mut frame, out);
                assert_eq!(result.is_some(), descriptor.ends_with(")I"));
                if let Some(value) = result {
                    stack.push(Some(value));
                }
                pc += 3;
            }
            other => panic!("unexpected instruction {:#x} at {}", other, pc),
        }
    }
    assert!(stack.is_empty());
    None
}

/// Runs the entry point of a program, and gives back what it prints.
fn run(source: &str) -> Vec<i32> {
    let mut c = Compiler::new();
    for stmt in parse_to_ast(source).unwrap() {
        c.compile_statement(stmt).unwrap();
    }
    let code = c.current_bytecode.clone();
    let mut out = Vec::new();
    assert_eq!(execute(&c, &code, &mut [0i32; 256], &mut out), None);
    out
}

#[test]
fn sums_are_printed() {
    assert_eq!(run("let x = 10\nlet y = 5\nprint(x + y)"), vec![15]);
}

#[test]
fn arithmetic_is_that_of_32_signed_bits() {
    assert_eq!(
        run("let a = 2147483647\nprint a + 1\nprint 0 - a - 2\nprint a * a\nprint 123456 * 1000"),
        vec![-2147483648, 2147483647, 1, 123456000]
    );
    assert_eq!(run("print 7 / 2\nprint (0 - 7) / 2\nprint 7 / (0 - 2)"), vec![3, -3, -3]);
    assert_eq!(run("let m = 0 - 2147483647 - 1\nprint m / (0 - 1)"), vec![-2147483648]);
}

#[test]
fn numbers_of_every_size_come_back() {
    assert_eq!(
        run("print 0\nprint 127\nprint 128\nprint 32767\nprint 32768\nprint 2147483647\nprint 0 - 129"),
        vec![0, 127, 128, 32767, 32768, 2147483647, -129]
    );
}

#[test]
fn variables_keep_their_values() {
    assert_eq!(
        run("let a = 1\nlet b = a + a\nlet a = b * 10\nprint a\nprint b\nprint a - b / 2 * 3"),
        vec![20, 2, 17]
    );
}

#[test]
fn literal_bound_and_printed_comes_back() {
    for v in [0, 1, 5, 255, 256, 70000, 2147483647] {
        assert_eq!(run(&format!("let x = {}\nprint x", v)), vec![v]);
    }
}

#[test]
fn function_is_called_and_its_value_printed() {
    assert_eq!(run("function cuadrado(n) { return n * n }\nlet r = cuadrado(5)\nprint r"), vec![25]);
}

#[test]
fn calls_as_statements_find_their_functions() {
    let source = "function muestra(n: Int) { print n + 1 }\n\
                  function doble(n) { return n + n }\n\
                  muestra(3)\n\
                  doble(4)\n\
                  muestra(doble(5))";
    assert_eq!(run(source), vec![4, 11]);
}

#[test]
fn function_may_call_itself_and_those_before_it() {
    let source = "function uno() { return 1 }\n\
                  function cuenta(n) { print n + uno()\n uno()\n return n }\n\
                  print cuenta(7) * 2";
    assert_eq!(run(source), vec![8, 14]);
}
