use monkey_vm::parser::ast::{Expression, Statement};
use monkey_vm::parser::precedence::Precedence;
use monkey_vm::parser::rules::{parse_rule, InfixParser, PrefixParser};
use monkey_vm::parser::Parser;
use monkey_vm::scanner::token::{Token, TokenType};
use monkey_vm::scanner::{str_equal, Scanner};

fn tokens_of(input: &str) -> Vec<(TokenType, String, usize)> {
    let mut scanner = Scanner::new(input);
    let mut out = Vec::new();
    loop {
        let token = scanner.next_token();
        let done = token.ttype == TokenType::Eof;
        out.push((token.ttype, token.literal.clone(), token.line));
        if done {
            return out;
        }
    }
}

fn printed(input: &str) -> String {
    let mut parser = Parser::new(Scanner::new(input));
    let program = parser.parse_program();
    assert!(
        parser.parse_errors().is_empty(),
        "parse errors: {:?}",
        parser.parse_errors()
    );
    program.to_string()
}

fn errors_of(input: &str) -> Vec<String> {
    let mut parser = Parser::new(Scanner::new(input));
    let _ = parser.parse_program();
    parser.parse_errors().clone()
}

#[test]
fn comments_and_lines() {
    let tokens = tokens_of("a // first\n// second\r\n  b /c\n\"x\ny\" d");
    let expected = vec![
        (TokenType::Identifier, "a".to_string(), 1),
        (TokenType::Identifier, "b".to_string(), 3),
        (TokenType::Slash, "/".to_string(), 3),
        (TokenType::Identifier, "c".to_string(), 3),
        (TokenType::Str, "x\ny".to_string(), 4),
        (TokenType::Identifier, "d".to_string(), 4),
        (TokenType::Eof, String::new(), 4),
    ];
    assert_eq!(tokens, expected);
}

#[test]
fn two_character_operators_and_illegal_characters() {
    let tokens = tokens_of("<= >= == != = ! < > @ #");
    let kinds: Vec<TokenType> = tokens.iter().map(|t| t.0).collect();
    assert_eq!(
        kinds,
        vec![
            TokenType::LessEqual,
            TokenType::GreaterEqual,
            TokenType::Equal,
            TokenType::BangEqual,
            TokenType::Assign,
            TokenType::Bang,
            TokenType::Less,
            TokenType::Greater,
            TokenType::Illegal,
            TokenType::Illegal,
            TokenType::Eof,
        ]
    );
    assert_eq!(tokens[0].1, "<=");
    assert_eq!(tokens[8].1, "@");
    assert_eq!(tokens[9].1, "#");
}

#[test]
fn identifiers_numbers_and_keywords() {
    let tokens = tokens_of("_x1 caf\u{e9} 12ab fnx fn returns return 007");
    let expected = vec![
        (TokenType::Identifier, "_x1".to_string(), 1),
        (TokenType::Identifier, "caf\u{e9}".to_string(), 1),
        (TokenType::Number, "12".to_string(), 1),
        (TokenType::Identifier, "ab".to_string(), 1),
        (TokenType::Identifier, "fnx".to_string(), 1),
        (TokenType::Function, "fn".to_string(), 1),
        (TokenType::Identifier, "returns".to_string(), 1),
        (TokenType::Return, "return".to_string(), 1),
        (TokenType::Number, "007".to_string(), 1),
        (TokenType::Eof, String::new(), 1),
    ];
    assert_eq!(tokens, expected);
}

#[test]
fn end_of_input_is_given_again_and_again() {
    let mut scanner = Scanner::new("x");
    assert_eq!(scanner.next_token().ttype, TokenType::Identifier);
    for _ in 0..5 {
        let token = scanner.next_token();
        assert_eq!(token.ttype, TokenType::Eof);
        assert_eq!(token.literal, "");
    }
    assert_eq!(scanner.get_line(), 1);
}

#[test]
fn a_nul_character_is_read_as_end_of_input() {
    let tokens = tokens_of("a\0b");
    let kinds: Vec<TokenType> = tokens.iter().map(|t| t.0).collect();
    assert_eq!(kinds, vec![TokenType::Identifier, TokenType::Eof]);
    let mut scanner = Scanner::new("a\0b");
    scanner.next_token();
    scanner.next_token();
    let token = scanner.next_token();
    assert_eq!(token.ttype, TokenType::Identifier);
    assert_eq!(token.literal, "b");
}

#[test]
fn unterminated_text_runs_to_the_end() {
    let tokens = tokens_of("\"abc");
    assert_eq!(tokens[0], (TokenType::Str, "abc".to_string(), 1));
    assert_eq!(tokens[1].0, TokenType::Eof);
    let tokens = tokens_of("\"\"");
    assert_eq!(tokens[0], (TokenType::Str, String::new(), 1));
}

#[test]
fn read_char_steps_through_the_source() {
    let mut scanner = Scanner::new("ab");
    scanner.read_char();
    let token = scanner.next_token();
    assert_eq!(token.literal, "b");
    scanner.read_char();
    scanner.read_char();
    assert_eq!(scanner.next_token().ttype, TokenType::Eof);
}

#[test]
fn token_names_and_text() {
    assert_eq!(TokenType::Identifier.to_string(), "IDENT");
    assert_eq!(TokenType::LessEqual.to_string(), "<=");
    assert_eq!(TokenType::Eof.name(), "EOF");
    assert_eq!(TokenType::NumberOfTokens.name(), "");
    let token = Token::new(TokenType::Let, "let", 3);
    assert_eq!(token.to_string(), "let");
    assert_eq!(token.clone(), token);
    let empty = Token::default();
    assert_eq!(empty, Token::new(TokenType::Illegal, "", 0));
    assert!(str_equal("abc", "abc"));
    assert!(!str_equal("abc", "abd"));
    assert!(!str_equal("abc", "ab"));
}

#[test]
fn operators_group_by_precedence_and_to_the_left() {
    assert_eq!(printed("a + b + c"), "((a + b) + c)");
    assert_eq!(printed("a + b * c - d / e"), "((a + (b * c)) - (d / e))");
    assert_eq!(printed("-a * !b"), "((-a) * (!b))");
    assert_eq!(printed("a == b != c > d < e"), "((a == b) != ((c > d) < e))");
    assert_eq!(printed("(a + b) * c"), "((a + b) * c)");
    assert_eq!(printed("a * [1, 2][b * c] * d"), "((a * ([1, 2][(b * c)])) * d)");
    assert_eq!(printed("add(a, b + c)(d)"), "add(a, (b + c))(d)");
    assert_eq!(printed("-f(x)[1]"), "(-(f(x)[1]))");
    assert_eq!(printed("{1: a + b, \"k\": [x]}"), "{1:(a + b), k:[x]}");
    assert_eq!(printed("[]"), "[]");
    assert_eq!(printed("{}"), "{}");
    assert_eq!(printed("f()"), "f()");
}

#[test]
fn statements_print_as_they_were_read() {
    assert_eq!(printed("let x = 1 + 2; return x; x"), "let x = (1 + 2);return x;x");
    assert_eq!(
        printed("if (a < b) { a } else { b; c }"),
        "if ((a < b)) { a } else { bc }"
    );
    assert_eq!(printed("if (a) { }"), "if (a) {  }");
    assert_eq!(printed("fn(x, y) { x + y; }"), "fn (x, y) (x + y)");
    assert_eq!(printed("fn() { }"), "fn () ");
}

#[test]
fn a_let_gives_a_function_its_name() {
    let mut parser = Parser::new(Scanner::new("let f = fn(x) { x }; fn(y) { y }; let g = 1;"));
    let program = parser.parse_program();
    assert_eq!(program.statements.len(), 3);
    match &program.statements[0] {
        Statement::Let(l) => match &l.value {
            Expression::Function(f) => {
                assert_eq!(f.name, "f");
                assert_eq!(f.params.len(), 1);
            }
            other => panic!("{:?}", other),
        },
        other => panic!("{:?}", other),
    }
    match &program.statements[1] {
        Statement::Expr(e) => match &e.value {
            Expression::Function(f) => assert_eq!(f.name, ""),
            other => panic!("{:?}", other),
        },
        other => panic!("{:?}", other),
    }
    assert_eq!(program.token_literal(), "let");
    assert_eq!(program.statements[1].token_literal(), "fn");
}

#[test]
fn number_literals_are_doubles() {
    let mut parser = Parser::new(Scanner::new("9007199254740993; 12"));
    let program = parser.parse_program();
    match &program.statements[0] {
        Statement::Expr(e) => match &e.value {
            Expression::Number(n) => {
                assert_eq!(f64::from_bits(n.value), 9007199254740992.0);
                assert_eq!(n.token.literal, "9007199254740993");
            }
            other => panic!("{:?}", other),
        },
        other => panic!("{:?}", other),
    }
}

#[test]
fn parse_errors_are_collected_with_their_lines() {
    assert_eq!(
        errors_of("let = 5;"),
        vec![
            "[line 1] expected next token to be IDENT, got = instead".to_string(),
            "[line 1] no prefix parser is available for token type '='".to_string(),
        ]
    );
    assert_eq!(
        errors_of("let x 5;"),
        vec!["[line 1] expected next token to be =, got INT instead".to_string()]
    );
    assert_eq!(
        errors_of("\n\n(1 + 2"),
        vec!["[line 3] expected next token to be ), got EOF instead".to_string()]
    );
    assert_eq!(
        errors_of("[1, 2"),
        vec!["[line 1] expected next token to be ], got EOF instead".to_string()]
    );
    assert_eq!(
        errors_of("{1 2}"),
        vec![
            "[line 1] expected next token to be :, got INT instead".to_string(),
            "[line 1] no prefix parser is available for token type '}'".to_string(),
        ]
    );
    assert_eq!(
        errors_of("if x { 1 }").first().map(|s| s.as_str()),
        Some("[line 1] expected next token to be (, got IDENT instead")
    );
    assert_eq!(
        errors_of("a <= b").first().map(|s| s.as_str()),
        Some("[line 1] no prefix parser is available for token type '<='")
    );
    assert!(errors_of("").is_empty());
    assert!(errors_of(";;").len() == 1);
    assert!(errors_of("; ;").len() == 1);
    assert!(errors_of(";;;").len() == 2);
}

#[test]
fn parser_stops_at_the_first_end_of_input() {
    let mut parser = Parser::new(Scanner::new("1; 2\0 3"));
    let program = parser.parse_program();
    assert_eq!(program.statements.len(), 2);
    assert!(parser.parse_errors().is_empty());
}

#[test]
fn push_error_and_peek_error() {
    let mut parser = Parser::new(Scanner::new("a\nb\nc"));
    parser.push_error("something");
    parser.peek_error(TokenType::Comma);
    assert_eq!(
        parser.parse_errors().clone(),
        vec![
            "[line 2] something".to_string(),
            "[line 2] expected next token to be ,, got IDENT instead".to_string(),
        ]
    );
    assert_eq!(parser.curr_precedence(), Precedence::Lowest);
    assert_eq!(parser.peek_precedence(), Precedence::Lowest);
    let parser = Parser::new(Scanner::new("a * b"));
    assert_eq!(parser.peek_precedence(), Precedence::Factor);
}

#[test]
fn precedence_ladder() {
    assert_eq!(Precedence::Lowest.next(), Precedence::Assignment);
    assert_eq!(Precedence::Call.next(), Precedence::Primary);
    assert_eq!(Precedence::Primary._prev(), Precedence::Call);
    assert_eq!(Precedence::from_rank(6), Precedence::Term);
    assert_eq!(Precedence::Term.rank(), 6);
    assert!(Precedence::Term.is_below(Precedence::Factor));
    assert!(!Precedence::Term.is_below(Precedence::Term));
    assert!(Precedence::Equality < Precedence::Comparison);
    assert_eq!(Precedence::default(), Precedence::Lowest);
}

#[test]
fn rule_table() {
    let rule = parse_rule(TokenType::Minus);
    assert_eq!(rule.prefix, Some(PrefixParser::Prefix));
    assert_eq!(rule.infix, Some(InfixParser::Infix));
    assert_eq!(rule.precedence, Precedence::Term);
    let rule = parse_rule(TokenType::LeftParen);
    assert_eq!(rule.prefix, Some(PrefixParser::Grouped));
    assert_eq!(rule.infix, Some(InfixParser::Call));
    let rule = parse_rule(TokenType::LeftBracket);
    assert_eq!(rule.infix, Some(InfixParser::Index));
    let rule = parse_rule(TokenType::Eof);
    assert_eq!(rule.prefix, None);
    assert_eq!(rule.infix, None);
    assert_eq!(rule.precedence, Precedence::Lowest);
}
