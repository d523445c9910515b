use std::rc::Rc;

use monkey_vm::common::error::RTError;
use monkey_vm::common::object::{Array, HMap, Object};
use monkey_vm::compiler::{Bytecode, Compiler};
use monkey_vm::parser::Parser;
use monkey_vm::scanner::Scanner;
use monkey_vm::vm::interpreter::VM;
use monkey_vm::vm::state::{ArithOp, Signal};

fn num(value: f64) -> u64 {
    value.to_bits()
}

fn array(a: Array) -> Rc<Array> {
    Rc::new(a)
}

fn check_parse_errors(parser: &Parser) {
    if !parser.parse_errors().is_empty() {
        panic!("{} parse errors", parser.parse_errors().len());
    }
}

// The work that the machine hands out: arithmetic on numbers, and the
// built-in functions that it does not work out by itself.
fn run_to_end(vm: &mut VM) -> Result<(), RTError> {
    loop {
        match vm.run()? {
            Signal::Continue => {}
            Signal::Halt => return Ok(()),
            Signal::Arith { op, left, right } => {
                let a = f64::from_bits(left);
                let b = f64::from_bits(right);
                let result = match op {
                    ArithOp::Add => a + b,
                    ArithOp::Sub => a - b,
                    ArithOp::Mul => a * b,
                    ArithOp::Div => a / b,
                };
                vm.push(Rc::new(Object::Number(result.to_bits())))?;
            }
            Signal::Native { index: _, args: _, line } => {
                return Err(RTError::new("built-in function not at hand", line));
            }
        }
    }
}

fn test_expected_object(evaluated: Rc<Object>, expected: &Object) {
    match (evaluated.as_ref(), expected) {
        (Object::Number(eval), Object::Number(exp)) => {
            assert_eq!(
                f64::from_bits(*eval),
                f64::from_bits(*exp),
                "object has wrong numeric value. got={}, want={}",
                f64::from_bits(*eval),
                f64::from_bits(*exp)
            );
        }
        (Object::Str(eval), Object::Str(exp)) => {
            assert_eq!(
                eval, exp,
                "object has wrong string value. got={}, want={}",
                eval, exp
            );
        }
        (Object::Bool(eval), Object::Bool(exp)) => {
            assert_eq!(
                eval, exp,
                "object has wrong boolean value. got={}, want={}",
                eval, exp
            );
        }
        (Object::Arr(eval), Object::Arr(exp)) => {
            assert_eq!(
                eval.elements.len(),
                exp.elements.len(),
                "array object has wrong length. got={}, want={}",
                eval.elements.len(),
                exp.elements.len()
            );
            for (ex, ev) in exp.elements.iter().zip(eval.elements.iter()) {
                assert_eq!(ex, ev);
            }
        }
        (Object::Hash(eval), Object::Hash(exp)) => {
            assert_eq!(
                eval.pairs.len(),
                exp.pairs.len(),
                "map object has wrong length. got={}, want={}",
                eval.pairs.len(),
                exp.pairs.len()
            );
            assert_eq!(evaluated.as_ref(), expected);
        }
        (_, Object::Nil) => {
            assert_eq!(
                evaluated,
                Rc::new(Object::Nil),
                "object is not Nil. got={:?}",
                evaluated
            );
        }
        _ => {
            panic!(
                "invalid object types. got={:?}, want={:?}",
                evaluated, expected
            );
        }
    }
}

struct VmTestCase {
    input: &'static str,
    expected: Object,
}

fn test_compile(input: &str) -> Bytecode {
    let scanner = Scanner::new(input);
    let mut parser = Parser::new(scanner);
    let program = parser.parse_program();
    check_parse_errors(&parser);
    let mut compiler = Compiler::new();
    if let Err(e) = compiler.compile(program) {
        panic!("Compilation error: {}", e.to_string());
    }
    compiler.bytecode()
}

fn run_vm_tests(tests: &[VmTestCase]) {
    for t in tests {
        let bytecode = test_compile(t.input);
        let mut vm = VM::new(bytecode);
        let err = run_to_end(&mut vm);
        if let Err(err) = err {
            panic!("vm error: {}", err.to_string());
        }
        // Get the object at the top of the VM's stack
        let stack_elem = vm.last_popped();
        test_expected_object(Rc::clone(&stack_elem), &t.expected);
    }
}

#[test]
fn tests_test_integer_arithmetic() {
    let tests = vec![
        VmTestCase {
            input: "1",
            expected: Object::Number(num(1.0)),
        },
        VmTestCase {
            input: "2",
            expected: Object::Number(num(2.0)),
        },
        VmTestCase {
            input: "1 + 2",
            expected: Object::Number(num(3.0)),
        },
        VmTestCase {
            input: "1 - 2",
            expected: Object::Number(num(-1.)),
        },
        VmTestCase {
            input: "1 * 2",
            expected: Object::Number(num(2.0)),
        },
        VmTestCase {
            input: "4 / 2",
            expected: Object::Number(num(2.0)),
        },
        VmTestCase {
            input: "50 / 2 * 2 + 10 - 5",
            expected: Object::Number(num(55.0)),
        },
        VmTestCase {
            input: "5 + 5 + 5 + 5 - 10",
            expected: Object::Number(num(10.0)),
        },
        VmTestCase {
            input: "2 * 2 * 2 * 2 * 2",
            expected: Object::Number(num(32.0)),
        },
        VmTestCase {
            input: "5 * 2 + 10",
            expected: Object::Number(num(20.0)),
        },
        VmTestCase {
            input: "5 + 2 * 10",
            expected: Object::Number(num(25.0)),
        },
        VmTestCase {
            input: "5 * (2 + 10)",
            expected: Object::Number(num(60.0)),
        },
        VmTestCase {
            input: "-5",
            expected: Object::Number(num(-5.)),
        },
        VmTestCase {
            input: "-10",
            expected: Object::Number(num(-10.)),
        },
        VmTestCase {
            input: "-50 + 100 + -50",
            expected: Object::Number(num(0.0)),
        },
        VmTestCase {
            input: "(5 + 10 * 2 + 15 / 3) * 2 + -10",
            expected: Object::Number(num(50.0)),
        },
    ];

    run_vm_tests(&tests);
}

#[test]
fn vm_test_boolean_expressions() {
    let tests = vec![
        VmTestCase {
            input: "true",
            expected: Object::Bool(true),
        },
        VmTestCase {
            input: "false",
            expected: Object::Bool(false),
        },
        VmTestCase {
            input: "1 < 2",
            expected: Object::Bool(true),
        },
        VmTestCase {
            input: "1 > 2",
            expected: Object::Bool(false),
        },
        VmTestCase {
            input: "1 < 1",
            expected: Object::Bool(false),
        },
        VmTestCase {
            input: "1 > 1",
            expected: Object::Bool(false),
        },
        VmTestCase {
            input: "1 == 1",
            expected: Object::Bool(true),
        },
        VmTestCase {
            input: "1 != 1",
            expected: Object::Bool(false),
        },
        VmTestCase {
            input: "1 == 2",
            expected: Object::Bool(false),
        },
        VmTestCase {
            input: "1 != 2",
            expected: Object::Bool(true),
        },
        VmTestCase {
            input: "true == true",
            expected: Object::Bool(true),
        },
        VmTestCase {
            input: "false == false",
            expected: Object::Bool(true),
        },
        VmTestCase {
            input: "true == false",
            expected: Object::Bool(false),
        },
        VmTestCase {
            input: "true != false",
            expected: Object::Bool(true),
        },
        VmTestCase {
            input: "false != true",
            expected: Object::Bool(true),
        },
        VmTestCase {
            input: "(1 < 2) == true",
            expected: Object::Bool(true),
        },
        VmTestCase {
            input: "(1 < 2) == false",
            expected: Object::Bool(false),
        },
        VmTestCase {
            input: "(1 > 2) == true",
            expected: Object::Bool(false),
        },
        VmTestCase {
            input: "(1 > 2) == false",
            expected: Object::Bool(true),
        },
        VmTestCase {
            input: "!true",
            expected: Object::Bool(false),
        },
        VmTestCase {
            input: "!false",
            expected: Object::Bool(true),
        },
        VmTestCase {
            input: "!5",
            expected: Object::Bool(false),
        },
        VmTestCase {
            input: "!!true",
            expected: Object::Bool(true),
        },
        VmTestCase {
            input: "!!false",
            expected: Object::Bool(false),
        },
        VmTestCase {
            input: "!!5",
            expected: Object::Bool(true),
        },
        VmTestCase {
            input: "(10 + 50 + -5 - 5 * 2 / 2) < (100 - 35)",
            expected: Object::Bool(true),
        },
        VmTestCase {
            input: "!(if (false) { 5; })",
            expected: Object::Bool(true),
        },
    ];

    run_vm_tests(&tests);
}

#[test]
fn test_conditionals() {
    let tests = vec![
        VmTestCase {
            input: "if (true) { 10 }",
            expected: Object::Number(num(10.0)),
        },
        VmTestCase {
            input: "if (true) { 10 } else { 20 }",
            expected: Object::Number(num(10.0)),
        },
        VmTestCase {
            input: "if (false) { 10 } else { 20 } ",
            expected: Object::Number(num(20.0)),
        },
        VmTestCase {
            input: "if (1) { 10 }",
            expected: Object::Number(num(10.0)),
        },
        VmTestCase {
            input: "if (1 < 2) { 10 }",
            expected: Object::Number(num(10.0)),
        },
        VmTestCase {
            input: "if (1 < 2) { 10 } else { 20 }",
            expected: Object::Number(num(10.0)),
        },
        VmTestCase {
            input: "if (1 > 2) { 10 } else { 20 }",
            expected: Object::Number(num(20.0)),
        },
        VmTestCase {
            input: "if (1 > 2) { 10 }",
            expected: Object::Nil,
        },
        VmTestCase {
            input: "if (false) { 10 }",
            expected: Object::Nil,
        },
        VmTestCase {
            input: "if ((if (false) { 10 })) { 10 } else { 20 }",
            expected: Object::Number(num(20.0)),
        },
    ];

    run_vm_tests(&tests);
}

#[test]
fn tests_test_global_let_statements() {
    let tests = vec![
        VmTestCase {
            input: "let one = 1; one",
            expected: Object::Number(num(1.0)),
        },
        VmTestCase {
            input: "let one = 1; let two = 2; one + two",
            expected: Object::Number(num(3.0)),
        },
        VmTestCase {
            input: "let one = 1; let two = one + one; one + two",
            expected: Object::Number(num(3.0)),
        },
    ];

    run_vm_tests(&tests);
}

#[test]
fn tests_test_string_expressions() {
    let tests = vec![
        VmTestCase {
            input: r#""monkey""#,
            expected: Object::Str("monkey".to_string()),
        },
        VmTestCase {
            input: r#""mon" + "key""#,
            expected: Object::Str("monkey".to_string()),
        },
        VmTestCase {
            input: r#""mon" + "key" + "banana""#,
            expected: Object::Str("monkeybanana".to_string()),
        },
    ];
    run_vm_tests(&tests);
}

#[test]
fn tests_test_array_literals() {
    let tests = vec![
        VmTestCase {
            input: "[]",
            expected: Object::Arr(array(Array {
                elements: Vec::new(),
            })),
        },
        VmTestCase {
            input: "[1, 2, 3]",
            expected: Object::Arr(array(Array {
                elements: vec![
                    Rc::new(Object::Number(num(1.0))),
                    Rc::new(Object::Number(num(2.0))),
                    Rc::new(Object::Number(num(3.0))),
                ],
            })),
        },
        VmTestCase {
            input: "[1 + 2, 3 * 4, 5 + 6]",
            expected: Object::Arr(array(Array {
                elements: vec![
                    Rc::new(Object::Number(num(3.0))),
                    Rc::new(Object::Number(num(12.0))),
                    Rc::new(Object::Number(num(11.0))),
                ],
            })),
        },
    ];
    run_vm_tests(&tests);
}

#[test]
fn tests_test_hash_literals() {
    let tests = vec![
        VmTestCase {
            input: "{}",
            expected: Object::Hash(Rc::new(HMap::new())),
        },
        VmTestCase {
            input: "{1: 2, 2: 3}",
            expected: Object::Hash({
                let mut map = HMap::new();
                map.insert(
                    Rc::new(Object::Number(num(1.0))),
                    Rc::new(Object::Number(num(2.0))),
                );
                map.insert(
                    Rc::new(Object::Number(num(2.0))),
                    Rc::new(Object::Number(num(3.0))),
                );
                Rc::new(map)
            }),
        },
        VmTestCase {
            input: "{1 + 1: 2 * 2, 3 + 3: 4 * 4}",
            expected: Object::Hash({
                let mut map = HMap::new();
                map.insert(
                    Rc::new(Object::Number(num(2.0))),
                    Rc::new(Object::Number(num(4.0))),
                );
                map.insert(
                    Rc::new(Object::Number(num(6.0))),
                    Rc::new(Object::Number(num(16.0))),
                );
                Rc::new(map)
            }),
        },
    ];
    run_vm_tests(&tests);
}

#[test]
fn tests_test_index_expressions() {
    let tests = vec![
        VmTestCase {
            input: "[1, 2, 3][1]",
            expected: Object::Number(num(2.0)),
        },
        VmTestCase {
            input: "[1, 2, 3][0 + 2]",
            expected: Object::Number(num(3.0)),
        },
        VmTestCase {
            input: "[[1, 1, 1]][0][0]",
            expected: Object::Number(num(1.0)),
        },
        VmTestCase {
            input: "[][0]",
            expected: Object::Nil,
        },
        VmTestCase {
            input: "[1, 2, 3][99]",
            expected: Object::Nil,
        },
        VmTestCase {
            input: "[1][-1]",
            expected: Object::Nil,
        },
        VmTestCase {
            input: "{1: 1, 2: 2}[1]",
            expected: Object::Number(num(1.0)),
        },
        VmTestCase {
            input: "{1: 1, 2: 2}[2]",
            expected: Object::Number(num(2.0)),
        },
        VmTestCase {
            input: "{1: 1}[0]",
            expected: Object::Nil,
        },
        VmTestCase {
            input: "{}[0]",
            expected: Object::Nil,
        },
        VmTestCase {
            input: r#"{"one": 1, "two": 2, "three": 3}["o" + "ne"]"#,
            expected: Object::Number(num(1.0)),
        },
    ];
    run_vm_tests(&tests);
}

#[test]
fn test_calling_functions_without_args() {
    let tests = vec![
        VmTestCase {
            input: r#"
            let fivePlusTen = fn() { 5 + 10; };
            fivePlusTen();
            "#,
            expected: Object::Number(num(15.0)),
        },
        VmTestCase {
            input: r#"
            let f1 = fn() { 1 };
            let f2 = fn() { 2 };
            f1() + f2()
            "#,
            expected: Object::Number(num(3.0)),
        },
        VmTestCase {
            input: r#"
            let f1 = fn() { 1 };
            let f2 = fn() { f1() + 1 };
            let f3 = fn() { f2() + 1 };
            f3()
            "#,
            expected: Object::Number(num(3.0)),
        },
    ];
    run_vm_tests(&tests);
}

#[test]
fn test_calling_functions_with_return() {
    let tests = vec![
        VmTestCase {
            input: r#"
            let earlyExit = fn() { return 99; 100; };
            earlyExit();
            "#,
            expected: Object::Number(num(99.0)),
        },
        VmTestCase {
            input: r#"
            let earlyExit = fn() { return 99; return 100; };
            earlyExit();
            "#,
            expected: Object::Number(num(99.0)),
        },
    ];
    run_vm_tests(&tests);
}

#[test]
fn test_calling_functions_without_return() {
    let tests = vec![
        VmTestCase {
            input: r#"
            let noReturn = fn() { };
            noReturn();
            "#,
            expected: Object::Nil,
        },
        VmTestCase {
            input: r#"
            let noReturn1 = fn() { };
            let noReturn2 = fn() { noReturn1(); };
            noReturn1();
            noReturn2();
            "#,
            expected: Object::Nil,
        },
    ];
    run_vm_tests(&tests);
}

#[test]
fn test_first_class_functions_() {
    let tests = vec![VmTestCase {
        input: r#"
            let returnsOne = fn() { 1; };
            let returnsOneReturner = fn() { returnsOne; };
            returnsOneReturner()();
            "#,
        expected: Object::Number(num(1.0)),
    }];
    run_vm_tests(&tests);
}
