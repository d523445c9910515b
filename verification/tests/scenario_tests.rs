use std::rc::Rc;

use monkey_vm::common::error::RTError;
use monkey_vm::common::object::Object;
use monkey_vm::compiler::Compiler;
use monkey_vm::parser::Parser;
use monkey_vm::scanner::Scanner;
use monkey_vm::vm::interpreter::VM;
use monkey_vm::vm::state::{ArithOp, Signal};

// What the program around the machine does for it: arithmetic on numbers.
fn run_to_end(vm: &mut VM) -> Result<(), RTError> {
    loop {
        match vm.run()? {
            Signal::Continue => {}
            Signal::Halt => return Ok(()),
            Signal::Arith { op, left, right } => {
                let a = f64::from_bits(left);
                let b = f64::from_bits(right);
                let result = match op {
                    ArithOp::Add => a + b,
                    ArithOp::Sub => a - b,
                    ArithOp::Mul => a * b,
                    ArithOp::Div => a / b,
                };
                vm.push(Rc::new(Object::Number(result.to_bits())))?;
            }
            Signal::Native { index, args, line } => {
                // `puts` gives nil; nothing else is at hand here
                if index == 1 {
                    let _ = args;
                    vm.push(Rc::new(Object::Nil))?;
                } else {
                    return Err(RTError::new("built-in function not at hand", line));
                }
            }
        }
    }
}

fn machine_for(input: &str) -> VM {
    let mut parser = Parser::new(Scanner::new(input));
    let program = parser.parse_program();
    assert!(
        parser.parse_errors().is_empty(),
        "parse errors: {:?}",
        parser.parse_errors()
    );
    let mut compiler = Compiler::new();
    if let Err(err) = compiler.compile(program) {
        panic!("{}", err.to_string());
    }
    VM::new(compiler.bytecode())
}

fn result_of(input: &str) -> Rc<Object> {
    let mut vm = machine_for(input);
    if let Err(err) = run_to_end(&mut vm) {
        panic!("{}", err.to_string());
    }
    let value = vm.last_popped();
    // a program that ran through leaves nothing on the stack
    assert!(vm.pop(0).is_err(), "stack not empty after {}", input);
    value
}

fn error_of(input: &str) -> RTError {
    let mut vm = machine_for(input);
    match run_to_end(&mut vm) {
        Ok(_) => panic!("no error for {}", input),
        Err(err) => err,
    }
}

fn number(value: f64) -> Object {
    Object::Number(value.to_bits())
}

#[test]
fn arithmetic_with_precedence() {
    assert_eq!(*result_of("1 + 2 * 3"), number(7.0));
}

#[test]
fn global_bindings() {
    assert_eq!(*result_of("let x = 5; let y = 10; x + y"), number(15.0));
}

#[test]
fn function_with_conditional() {
    assert_eq!(
        *result_of("let max = fn(a,b) { if (a > b) { a } else { b } }; max(3, 9)"),
        number(9.0)
    );
}

#[test]
fn closure_captures_its_argument() {
    assert_eq!(
        *result_of("let add = fn(a) { fn(b) { a + b } }; let add5 = add(5); add5(10)"),
        number(15.0)
    );
}

#[test]
fn function_calls_itself() {
    assert_eq!(
        *result_of("let cd = fn(x) { if (x == 0) { 0 } else { cd(x - 1) } }; cd(3)"),
        number(0.0)
    );
}

#[test]
fn arrays_and_their_functions() {
    assert_eq!(
        *result_of("let a = [1, 2, 3]; push(a, 4)[3] + first(rest(a))"),
        number(6.0)
    );
}

#[test]
fn mappings_with_mixed_keys() {
    assert_eq!(
        *result_of("let m = {\"k\": 1, 2: \"v\"}; m[\"k\"] + len(m[2])"),
        number(2.0)
    );
}

#[test]
fn nested_closures_reach_two_scopes_out() {
    assert_eq!(
        *result_of(
            "let f = fn(a) { fn(b) { fn(c) { a + b + c } } }; f(1)(2)(3)"
        ),
        number(6.0)
    );
    assert_eq!(
        *result_of(
            "let g = 10; let f = fn(a) { let l = a + g; fn(b) { let m = b + l; fn() { m + g } } }; f(1)(2)()"
        ),
        number(23.0)
    );
}

#[test]
fn recursion_inside_a_function() {
    assert_eq!(
        *result_of(
            "let wrapper = fn() { let countdown = fn(x) { if (x == 0) { 7 } else { countdown(x - 1) } }; countdown(4) }; wrapper()"
        ),
        number(7.0)
    );
    assert_eq!(
        *result_of(
            "let fib = fn(n) { if (n < 2) { n } else { fib(n - 1) + fib(n - 2) } }; fib(15)"
        ),
        number(610.0)
    );
}

#[test]
fn call_with_wrong_number_of_arguments_is_an_error() {
    let err = error_of("let f = fn(a, b) { a }; f(1)");
    assert_eq!(err.msg, "wrong number of arguments: want=2, got=1");
    assert_eq!(err.line, 1);
    let err = error_of("fn() { 1 }(1, 2, 3)");
    assert_eq!(err.msg, "wrong number of arguments: want=0, got=3");
}

#[test]
fn runtime_errors_carry_message_and_line() {
    let err = error_of("1;\n2;\n-true");
    assert_eq!(err.msg, "Operand must be a number");
    assert_eq!(err.line, 3);
    assert_eq!(err.to_string(), "[line 3] Runtime error: Operand must be a number");
    assert_eq!(error_of("true + 1").msg, "Invalid binary operation.");
    assert_eq!(error_of("\"a\" - \"b\"").msg, "Invalid operation on strings.");
    assert_eq!(error_of("\"a\" / 2").msg, "Invalid operation on strings.");
    assert_eq!(error_of("true > false").msg, "Invalid binary operation.");
    assert_eq!(error_of("1(2)").msg, "not a function");
    assert_eq!(error_of("5[1]").msg, "index operator not supported");
    assert_eq!(error_of("[1][true]").msg, "array index must be a number");
    assert_eq!(error_of("{1: 2}[[1]]").msg, "unusable as hash key");
    assert_eq!(error_of("{[1]: 2}").msg, "unusable as hash key");
    assert_eq!(error_of("return 1;").msg, "return outside of a function");
    assert_eq!(error_of("len(1)").msg, "argument to 'len' not supported");
    assert_eq!(
        error_of("len(1, 2)").msg,
        "wrong number of arguments. got=2, want=1"
    );
    assert_eq!(error_of("first(1)").msg, "argument to 'first' not supported");
    assert_eq!(error_of("last(1)").msg, "argument to 'last' not supported");
    assert_eq!(error_of("rest(1)").msg, "argument to 'last' not supported");
    assert_eq!(error_of("push(1, 1)").msg, "argument to 'push' not supported");
    assert_eq!(error_of("push([])").msg, "'push' needs atleast two arguments");
    assert_eq!(error_of("first()").msg, "no arguments provided");
    assert_eq!(error_of("str(1)").msg, "built-in function not at hand");
}

#[test]
fn endless_recursion_fills_the_stack() {
    let err = error_of("let f = fn() { f() }; f()");
    assert_eq!(err.msg, "Stack overflow!");
}

#[test]
fn text_operations() {
    assert_eq!(
        *result_of("\"ab\" + \"cd\""),
        Object::Str("abcd".to_string())
    );
    assert_eq!(
        *result_of("\"ab\" * 3"),
        Object::Str("ababab".to_string())
    );
    assert_eq!(*result_of("3 * \"ab\""), Object::Str("ababab".to_string()));
    assert_eq!(*result_of("\"ab\" * 0"), Object::Str(String::new()));
    assert_eq!(*result_of("\"ab\" * (0 - 2)"), Object::Str(String::new()));
    assert_eq!(*result_of("\"\" * 1000000000000"), Object::Str(String::new()));
    assert_eq!(*result_of("\"b\" > \"a\""), Object::Bool(true));
    assert_eq!(*result_of("\"a\" > \"b\""), Object::Bool(false));
    assert_eq!(*result_of("\"a\" < \"ab\""), Object::Bool(true));
    assert_eq!(*result_of("\"ab\" > \"ab\""), Object::Bool(false));
    assert_eq!(*result_of("\"ab\" == \"ab\""), Object::Bool(true));
    assert_eq!(*result_of("len(\"h\u{e9}llo\")"), number(6.0));
}

#[test]
fn equality_is_by_value() {
    assert_eq!(*result_of("[1, [2, 3]] == [1, [2, 3]]"), Object::Bool(true));
    assert_eq!(*result_of("[1, [2, 3]] == [1, [2, 4]]"), Object::Bool(false));
    assert_eq!(*result_of("[1, 2] != [1, 2, 3]"), Object::Bool(true));
    assert_eq!(
        *result_of("{1: 2, \"a\": [1]} == {\"a\": [1], 1: 2}"),
        Object::Bool(true)
    );
    assert_eq!(*result_of("{1: 2} == {1: 3}"), Object::Bool(false));
    assert_eq!(*result_of("0 == 0 - 0"), Object::Bool(true));
    assert_eq!(*result_of("(0 / 0) == (0 / 0)"), Object::Bool(false));
    assert_eq!(*result_of("1 == true"), Object::Bool(false));
    assert_eq!(
        *result_of("fn() { true } == fn() { true }"),
        Object::Bool(true)
    );
    assert_eq!(
        *result_of("fn() { true } == fn() { false }"),
        Object::Bool(false)
    );
    assert_eq!(*result_of("len == len"), Object::Bool(true));
    assert_eq!(*result_of("len == first"), Object::Bool(false));
}

#[test]
fn indexing_edge_cases() {
    assert_eq!(*result_of("[1, 2, 3][1 / 2]"), number(1.0));
    assert_eq!(*result_of("[1, 2, 3][5 / 2]"), number(3.0));
    assert_eq!(*result_of("[1, 2, 3][3]"), Object::Nil);
    assert_eq!(*result_of("[1, 2, 3][0 - 1]"), Object::Nil);
    assert_eq!(*result_of("[1, 2, 3][0 / 0]"), Object::Nil);
    assert_eq!(*result_of("[1, 2, 3][1 / 0]"), Object::Nil);
    assert_eq!(*result_of("{1: 1, 1: 2}[1]"), number(2.0));
    assert_eq!(*result_of("{true: 1, false: 2}[1 > 2]"), number(2.0));
    assert_eq!(*result_of("{(0/0): 1}[0/0]"), Object::Nil);
    assert_eq!(*result_of("last([1, 2, 3])"), number(3.0));
    assert_eq!(*result_of("last([])"), Object::Nil);
    assert_eq!(*result_of("first([])"), Object::Nil);
    assert_eq!(*result_of("rest([])"), Object::Nil);
    assert_eq!(*result_of("len(rest([1, 2, 3]))"), number(2.0));
    assert_eq!(*result_of("len(push([], 1))"), number(1.0));
}

#[test]
fn conditions_without_a_second_block_give_nil() {
    assert_eq!(*result_of("if (1 > 2) { 10 }"), Object::Nil);
    assert_eq!(*result_of("if (false) { 10 }"), Object::Nil);
    assert_eq!(*result_of("!(if (false) { 5; })"), Object::Bool(true));
    assert_eq!(*result_of("if (if (false) { 10 }) { 10 } else { 20 }"), number(20.0));
}

#[test]
fn last_popped_of_a_fresh_machine_is_nil() {
    let mut vm = machine_for("");
    assert_eq!(*vm.last_popped(), Object::Nil);
    assert_eq!(*vm.peek(0), Object::Nil);
    assert!(run_to_end(&mut vm).is_ok());
    assert_eq!(*vm.last_popped(), Object::Nil);
}

#[test]
fn push_pop_and_peek() {
    let mut vm = machine_for("");
    assert!(vm.pop(9).is_err());
    let err = vm.pop(9).unwrap_err();
    assert_eq!(err.msg, "Stack underflow!");
    assert_eq!(err.line, 9);
    vm.push(Rc::new(number(1.0))).unwrap();
    vm.push(Rc::new(number(2.0))).unwrap();
    assert_eq!(*vm.peek(0), number(2.0));
    assert_eq!(*vm.peek(1), number(1.0));
    assert_eq!(*vm.peek(2), Object::Nil);
    assert_eq!(*vm.pop(0).unwrap(), number(2.0));
    assert_eq!(*vm.last_popped(), number(2.0));
    assert_eq!(*vm.pop(0).unwrap(), number(1.0));
    for i in 0..4096 {
        vm.push(Rc::new(number(i as f64))).unwrap();
    }
    let err = vm.push(Rc::new(Object::Nil)).unwrap_err();
    assert_eq!(err.msg, "Stack overflow!");
}

#[test]
fn globals_outlive_a_run() {
    let mut parser = Parser::new(Scanner::new("let a = 41;"));
    let program = parser.parse_program();
    let mut compiler = Compiler::new();
    assert!(compiler.compile(program).is_ok());
    let mut vm = VM::new(compiler.bytecode());
    assert!(run_to_end(&mut vm).is_ok());
    let globals = vm.globals;
    let symtab = compiler.symtab;
    let constants = compiler.constants;

    let mut parser = Parser::new(Scanner::new("a + 1"));
    let program = parser.parse_program();
    let mut compiler = Compiler::new_with_state(symtab, constants);
    assert!(compiler.compile(program).is_ok());
    let mut vm = VM::new_with_global_store(compiler.bytecode(), globals);
    assert!(run_to_end(&mut vm).is_ok());
    assert_eq!(*vm.last_popped(), number(42.0));
}

#[test]
fn one_step_at_a_time() {
    let mut vm = machine_for("1; true");
    assert!(matches!(vm.step(), Ok(Signal::Continue)));
    assert_eq!(*vm.peek(0), number(1.0));
    assert!(matches!(vm.step(), Ok(Signal::Continue)));
    assert!(matches!(vm.step(), Ok(Signal::Continue)));
    assert_eq!(*vm.peek(0), Object::Bool(true));
    assert!(matches!(vm.step(), Ok(Signal::Continue)));
    assert!(matches!(vm.step(), Ok(Signal::Halt)));
    assert!(matches!(vm.step(), Ok(Signal::Halt)));
}

#[test]
fn arithmetic_is_handed_out() {
    let mut vm = machine_for("6 / 4");
    match vm.run() {
        Ok(Signal::Arith { op, left, right }) => {
            assert_eq!(op, ArithOp::Div);
            assert_eq!(f64::from_bits(left), 6.0);
            assert_eq!(f64::from_bits(right), 4.0);
        }
        other => panic!("{:?}", other.map(|_| ())),
    }
    vm.push(Rc::new(number(1.5))).unwrap();
    assert!(matches!(vm.run(), Ok(Signal::Halt)));
    assert_eq!(*vm.last_popped(), number(1.5));
}

#[test]
fn built_in_functions_with_outside_work_are_handed_out() {
    let mut vm = machine_for("puts(1, \"two\")");
    match vm.run() {
        Ok(Signal::Native { index, args, line }) => {
            assert_eq!(index, 1);
            assert_eq!(line, 1);
            assert_eq!(args.len(), 2);
            assert_eq!(*args[0], number(1.0));
            assert_eq!(*args[1], Object::Str("two".to_string()));
        }
        other => panic!("{:?}", other.map(|_| ())),
    }
    vm.push(Rc::new(Object::Nil)).unwrap();
    assert!(matches!(vm.run(), Ok(Signal::Halt)));
    assert!(vm.pop(0).is_err());
}

#[test]
fn stack_is_empty_after_programs_of_every_kind() {
    let programs = [
        "1; 2; 3",
        "let a = [1, 2 * 3, [4, 5]]; a[2][0]",
        "let m = {\"one\": 1, 2: [3], true: {4: 5}}; m[true][4]",
        "if (1 > 2) { 10 } else { if (2 > 1) { 20 } else { 30 } }",
        "if (false) { 10 }; if (true) { let x = 1; x }; 5",
        "let add = fn(a, b) { a + b }; add(1, add(2, 3)) * add(4, 5)",
        "let make = fn(a) { fn(b) { fn(c) { a + b + c } } }; make(1)(2)(3)",
        "let f = fn(n) { if (n == 0) { return 0; } n + f(n - 1) }; f(20)",
        "len(\"four\") + len([1, 2, 3]) + first(rest(push([1], 2)))",
        "!true == false; -5 < 5; \"a\" + \"b\" == \"ab\"",
    ];
    for program in programs.iter() {
        // the helper fails the test where a value is left on the stack
        let _ = result_of(program);
    }
}

#[test]
fn a_count_that_does_not_fit_its_operand_is_cut() {
    // A call says in one byte how many arguments it has. With 256 of them
    // the byte holds zero: the machine calls the last argument without
    // arguments, and the rest stays on the stack.
    let mut source = String::from("let g = fn() { 7 }; let f = fn() { 0 }; f(");
    for _ in 0..255 {
        source.push_str("0, ");
    }
    source.push_str("g)");
    let mut vm = machine_for(&source);
    assert!(run_to_end(&mut vm).is_ok());
    assert_eq!(*vm.last_popped(), number(7.0));
    assert!(vm.pop(0).is_ok());
}
