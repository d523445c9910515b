use std::rc::Rc;

use monkey_vm::common::builtins::print::{format_buf, parse_number, push_radix, Collector, Parsed};
use monkey_vm::common::object::Object;

// The text under which a value is shown.
fn shown(obj: &Object) -> String {
    match obj {
        Object::Nil => "nil".to_string(),
        Object::Str(s) => s.clone(),
        Object::Number(bits) => format!("{}", f64::from_bits(*bits)),
        Object::Bool(b) => format!("{}", b),
        other => format!("{:?}", other),
    }
}

fn builtin_format(args: Vec<Rc<Object>>) -> Result<Rc<Object>, String> {
    let texts: Vec<String> = args.iter().map(|a| shown(a)).collect();
    let collector = format_buf(&args, &texts)?;
    Ok(Rc::new(Object::Str(collector.to_string())))
}

fn text(s: &str) -> Rc<Object> {
    Rc::new(Object::Str(s.to_string()))
}

fn number(value: f64) -> Rc<Object> {
    Rc::new(Object::Number(value.to_bits()))
}

fn formatted(args: Vec<Rc<Object>>) -> Result<String, String> {
    match builtin_format(args)?.as_ref() {
        Object::Str(s) => Ok(s.clone()),
        other => panic!("{:?}", other),
    }
}

#[test]
fn test_builtin_function_format() {
    struct FormatTest {
        args: Vec<Rc<Object>>,
        expected: &'static str,
    }
    let format_tests = vec![
        FormatTest {
            args: vec![
                Rc::new(Object::Str("{}".to_string())),
                Rc::new(Object::Number(69420f64.to_bits())),
            ],
            expected: "69420",
        },
        FormatTest {
            args: vec![
                Rc::new(Object::Str("{:b}".to_string())),
                Rc::new(Object::Number(69420f64.to_bits())),
            ],
            expected: "10000111100101100",
        },
        FormatTest {
            args: vec![
                Rc::new(Object::Str("{:o}".to_string())),
                Rc::new(Object::Number(69420f64.to_bits())),
            ],
            expected: "207454",
        },
        FormatTest {
            args: vec![
                Rc::new(Object::Str("{:x}".to_string())),
                Rc::new(Object::Number(69420f64.to_bits())),
            ],
            expected: "10f2c",
        },
        FormatTest {
            args: vec![
                Rc::new(Object::Str("{:X}".to_string())),
                Rc::new(Object::Number(69420f64.to_bits())),
            ],
            expected: "10F2C",
        },
        // Default justify (numbers)
        FormatTest {
            args: vec![
                Rc::new(Object::Str("{:5}".to_string())),
                Rc::new(Object::Number(1f64.to_bits())),
            ],
            expected: "    1",
        },
        // Right justify
        FormatTest {
            args: vec![
                Rc::new(Object::Str("{:>5}".to_string())),
                Rc::new(Object::Number(1f64.to_bits())),
            ],
            expected: "    1",
        },
        // Left justify
        FormatTest {
            args: vec![
                Rc::new(Object::Str("{:<5}".to_string())),
                Rc::new(Object::Number(1f64.to_bits())),
            ],
            expected: "1    ",
        },
        // Right justify with padding
        FormatTest {
            args: vec![
                Rc::new(Object::Str("{:0>5}".to_string())),
                Rc::new(Object::Number(1f64.to_bits())),
            ],
            expected: "00001",
        },
        // Left justify with padding
        FormatTest {
            args: vec![
                Rc::new(Object::Str("{:0<5}".to_string())),
                Rc::new(Object::Number(1f64.to_bits())),
            ],
            expected: "10000",
        },
        // Indexed arguments
        FormatTest {
            args: vec![
                Rc::new(Object::Str("My name is {1}, {0} {1}".to_string())),
                Rc::new(Object::Str("James".to_string())),
                Rc::new(Object::Str("Bond".to_string())),
            ],
            expected: "My name is Bond, James Bond",
        },
        FormatTest {
            args: vec![
                Rc::new(Object::Str(
                    "{0:<10},{1:0<05},{2},{3:b},{3:o},{4:x},{4:X}".to_string(),
                )),
                Rc::new(Object::Str("Hello".to_string())),
                Rc::new(Object::Number(1f64.to_bits())),
                Rc::new(Object::Bool(true)),
                Rc::new(Object::Number(10f64.to_bits())),
                Rc::new(Object::Number(65535f64.to_bits())),
            ],
            expected: "Hello     ,10000,true,1010,12,ffff,FFFF",
        },
    ];

    let mut count: usize = 0;
    for (i, t) in format_tests.iter().enumerate() {
        let result = builtin_format(t.args.clone());
        if let Ok(obj) = result {
            if let Object::Str(s) = &*obj {
                if s != t.expected {
                    println!("[{}] Incorrect result. want: {}, got: {}", i, t.expected, s);
                    count += 1;
                }
            } else {
                println!("[{}] Test failed: Bad result", i);
                count += 1;
            }
        } else {
            println!("[{}] Test failed: Bad result", i);
            count += 1;
        }
    }
    if count != 0 {
        panic!("{} format tests failed", count);
    }
}

#[test]
fn braces_and_plain_text() {
    assert_eq!(formatted(vec![text("a{{b}}c")]), Ok("a{b}c".to_string()));
    assert_eq!(formatted(vec![text("")]), Ok(String::new()));
    assert_eq!(formatted(vec![text("x{}y{}"), number(1.0), text("z")]), Ok("x1yz".to_string()));
    assert_eq!(formatted(vec![text("{"), number(1.0)]), Ok(String::new()));
    assert_eq!(formatted(vec![text("{:>3}|{:<3}|"), text("a"), number(2.0)]), Ok("  a|2  |".to_string()));
    // `b` asks for binary digits, so the padding is the `a` alone
    assert_eq!(formatted(vec![text("{:ab>4}"), text("x")]), Ok("aaax".to_string()));
    assert_eq!(formatted(vec![text("{:-+>3}"), text("x")]), Ok("-+-+x".to_string()));
    assert_eq!(formatted(vec![text("{:3}"), text("\u{e9}")]), Ok("\u{e9} ".to_string()));
    assert_eq!(formatted(vec![text("{:b}"), number(0.0)]), Ok("0".to_string()));
    assert_eq!(formatted(vec![text("{:x}"), number(-5.0)]), Ok("0".to_string()));
    assert_eq!(formatted(vec![text("{:x}"), number(255.9)]), Ok("ff".to_string()));
    assert_eq!(formatted(vec![text("{:+3}"), number(7.0)]), Ok("  7".to_string()));
}

#[test]
fn format_errors() {
    assert_eq!(formatted(vec![]), Err("takes a minimum of one argument".to_string()));
    assert_eq!(
        formatted(vec![number(1.0)]),
        Err("Expected a string or format specifier".to_string())
    );
    assert_eq!(
        formatted(vec![text("{}")]),
        Err("positional arguments exceeded the count".to_string())
    );
    assert_eq!(
        formatted(vec![text("{}{}"), number(1.0)]),
        Err("positional arguments exceeded the count".to_string())
    );
    assert_eq!(
        formatted(vec![text("{1}"), number(1.0)]),
        Err("positional argument index exceeded the count".to_string())
    );
    assert_eq!(
        formatted(vec![text("{18446744073709551615}"), number(1.0)]),
        Err("positional argument index exceeded the count".to_string())
    );
    assert_eq!(
        formatted(vec![text("{18446744073709551616}"), number(1.0)]),
        Err("number too large to fit in target type".to_string())
    );
    assert_eq!(
        formatted(vec![text("{a}"), number(1.0)]),
        Err("invalid digit found in string".to_string())
    );
    assert_eq!(
        formatted(vec![text("{:b}"), text("x")]),
        Err("Can't format non-number as binary".to_string())
    );
    assert_eq!(
        formatted(vec![text("{:o}"), text("x")]),
        Err("Can't format non-number as octal".to_string())
    );
    assert_eq!(
        formatted(vec![text("{:x}"), Rc::new(Object::Nil)]),
        Err("Can't format non-number as hex".to_string())
    );
    assert_eq!(
        formatted(vec![text("{:X}"), Rc::new(Object::Bool(true))]),
        Err("Can't format non-number as hex".to_string())
    );
    assert_eq!(
        formatted(vec![text("{:1a}"), number(1.0)]),
        Err("Failed to parse width".to_string())
    );
}

#[test]
fn whole_numbers_are_read_as_the_standard_library_reads_them() {
    let cases = [
        "", "0", "7", "007", "+5", "+", "-", "-5", "5+", "a", "1a", "18446744073709551615",
        "18446744073709551616", "99999999999999999999999", "99999999999999999999999x",
        "1844674407370955161x", " 1", "1 ",
    ];
    for case in cases {
        let chars: Vec<char> = case.chars().collect();
        let expected = match case.parse::<usize>() {
            Ok(n) => format!("{}", n),
            Err(e) => e.to_string(),
        };
        let got = match parse_number(&chars) {
            Parsed::Number(n) => format!("{}", n),
            Parsed::Empty => "cannot parse integer from empty string".to_string(),
            Parsed::InvalidDigit => "invalid digit found in string".to_string(),
            Parsed::TooLarge => "number too large to fit in target type".to_string(),
        };
        assert_eq!(got, expected, "{:?}", case);
    }
}

#[test]
fn numbers_in_other_bases() {
    for n in [0usize, 1, 2, 7, 8, 15, 16, 255, 256, 65535, 69420, usize::MAX] {
        let mut s = String::new();
        push_radix(&mut s, n, 2, false);
        assert_eq!(s, format!("{:b}", n));
        let mut s = String::new();
        push_radix(&mut s, n, 8, false);
        assert_eq!(s, format!("{:o}", n));
        let mut s = String::from(">");
        push_radix(&mut s, n, 16, false);
        assert_eq!(s, format!(">{:x}", n));
        let mut s = String::new();
        push_radix(&mut s, n, 16, true);
        assert_eq!(s, format!("{:X}", n));
    }
    let collector = Collector(vec!["a".to_string(), String::new(), "bc".to_string()]);
    assert_eq!(collector.to_string(), "abc");
}
