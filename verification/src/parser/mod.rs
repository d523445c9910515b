//! The parser: tokens to a syntax tree.

pub mod ast;
pub mod model;
pub mod precedence;
pub mod rules;

use vstd::prelude::*;

use crate::common::number::number_from_digits;
use crate::parser::ast::{
    expression_view,
    expressions_view,
    identifiers_view,
    lemma_expressions_view_push,
    lemma_identifiers_view_push,
    lemma_pairs_view_push,
    lemma_statements_view_push,
    pairs_view,
    statement_view,
    statements_view,
    ArrayLiteral,
    BinaryExpr,
    BlockStatement,
    BooleanExpr,
    CallExpr,
    Expression,
    ExpressionStmt,
    FunctionLiteral,
    HashLiteral,
    Identifier,
    IfExpr,
    IndexExpr,
    LetStmt,
    NumberLiteral,
    Program,
    ReturnStmt,
    Statement,
    StringLiteral,
    UnaryExpr,
};
use crate::parser::model::{
    block_loop_of,
    block_of,
    hash_loop_of,
    infix_loop_of,
    list_loop_of,
    list_of,
    no_prefix_message,
    params_loop_of,
    params_of,
    parse_expression_of,
    parse_infix_of,
    parse_prefix_of,
    peek_error_message,
    program_loop_of,
    program_of,
    statement_of,
    ParserState,
};
use crate::parser::precedence::Precedence;
use crate::parser::rules::{parse_rule, rule_of, InfixParser, PrefixParser};
use crate::scanner::token::{Token, TokenType};
use crate::scanner::{
    state_after_token,
    Scanner,
    ScannerState,
};
use crate::text::push_decimal;

verus! {

/// The views of a list of strings.
pub open spec fn texts(list: Seq<String>) -> Seq<Seq<char>> {
    Seq::new(list.len(), |i: int| list[i]@)
}

/// A Pratt parser over the tokens of a scanner. It looks at one token and
/// sees the next.
pub struct Parser {
    scanner: Scanner,
    current: Token,
    peek_next: Token,
    errors: Vec<String>,
    /// Where the scanner stood before it read the token looked at.
    origin: Ghost<ScannerState>,
}

impl Parser {
    /// Where the parser stands.
    pub closed spec fn view(&self) -> ParserState {
        ParserState { origin: self.origin@, errors: texts(self.errors@) }
    }

    /// The parser's parts fit together: the scanner is sound, the tokens
    /// held are the two that the scanner gave last, and the scanner stands
    /// behind them.
    pub closed spec fn wf(&self) -> bool {
        &&& self.scanner.wf()
        &&& self.current@ == self@.current()
        &&& self.peek_next@ == self@.peek()
        &&& self.scanner@ == self@.scanner()
    }

    /// What every step of the parser keeps: the parser stays sound and on
    /// the same source, the work left does not grow, a step that starts at a
    /// token other than `Eof` either takes work away or still looks at such a
    /// token, and the errors met before stay as they were, in their places.
    pub open spec fn follows(&self, before: &Parser) -> bool {
        &&& self.wf()
        &&& self@.measure() <= before@.measure()
        &&& before@.current().0 != TokenType::Eof ==> self@.measure() < before@.measure()
            || self@.current().0 != TokenType::Eof
        &&& before@.errors.len() <= self@.errors.len()
        &&& forall|i: int| 0 <= i < before@.errors.len() ==> self@.errors[i] == before@.errors[i]
    }

    pub fn new(scanner: Scanner) -> (parser: Parser)
        requires
            scanner.wf(),
        ensures
            parser.wf(),
            parser@ == (ParserState { origin: scanner@, errors: Seq::empty() }),
    {
        let ghost origin = scanner@;
        let mut scanner = scanner;
        let current = scanner.next_token();
        let peek_next = scanner.next_token();
        let parser = Parser {
            scanner,
            current,
            peek_next,
            errors: Vec::new(),
            origin: Ghost(origin),
        };
        assert(parser@.errors =~= Seq::<Seq<char>>::empty());
        parser
    }

    /// Steps one token on: the token seen becomes the token looked at, and
    /// the scanner gives the next.
    fn next_token(&mut self)
        requires
            old(self).wf(),
        ensures
            final(self).follows(old(self)),
            final(self)@ == old(self)@.next(),
            final(self).errors == old(self).errors,
            old(self)@.current().0 != TokenType::Eof ==> final(self)@.measure() < old(
                self,
            )@.measure(),
    {
        proof {
            self.scanner.lemma_remaining();
        }
        let next = self.scanner.next_token();
        proof {
            self.scanner.lemma_remaining();
            self.origin = Ghost(state_after_token(self.origin@));
        }
        let mut seen = next;
        std::mem::swap(&mut self.peek_next, &mut seen);
        self.current = seen;
    }

    fn curr_token_is(&self, ttype: TokenType) -> (b: bool)
        requires
            self.wf(),
        ensures
            b == (self@.current().0 == ttype),
    {
        self.current.ttype == ttype
    }

    fn peek_token_is(&self, ttype: TokenType) -> (b: bool)
        requires
            self.wf(),
        ensures
            b == (self@.peek().0 == ttype),
    {
        self.peek_next.ttype == ttype
    }

    /// Steps on where the token seen is of the kind asked for; else leaves
    /// an error and stays.
    fn expect_peek(&mut self, ttype: TokenType) -> (b: bool)
        requires
            old(self).wf(),
        ensures
            final(self).follows(old(self)),
            (b, final(self)@) == old(self)@.expect_peek(ttype),
            b ==> final(self)@.current().0 == ttype,
            b && old(self)@.current().0 != TokenType::Eof ==> final(self)@.measure() < old(
                self,
            )@.measure(),
            !b ==> final(self)@.current() == old(self)@.current() && final(self)@.measure()
                == old(self)@.measure(),
    {
        if self.peek_token_is(ttype) {
            self.next_token();
            true
        } else {
            self.peek_error(ttype);
            false
        }
    }

    /// Whether the token seen is the end of the source.
    fn is_at_end(&self) -> (b: bool)
        requires
            self.wf(),
        ensures
            b == (self@.peek().0 == TokenType::Eof),
    {
        self.peek_next.ttype == TokenType::Eof
    }

    /// Notes an error, with the line that the scanner is on.
    pub fn push_error(&mut self, err: &str)
        requires
            old(self).wf(),
        ensures
            final(self).follows(old(self)),
            final(self)@ == old(self)@.with_error(err@),
    {
        let mut text = "[line ".to_owned();
        push_decimal(&mut text, self.scanner.get_line());
        text.append("] ");
        text.append(err);
        self.errors.push(text);
        assert(self@.errors =~= old(self)@.with_error(err@).errors);
    }

    /// The errors met so far, oldest first.
    pub fn parse_errors(&self) -> (errors: &Vec<String>)
        ensures
            texts(errors@) == self@.errors,
    {
        &self.errors
    }

    /// Notes that the token seen is not of the kind asked for.
    pub fn peek_error(&mut self, ttype: TokenType)
        requires
            old(self).wf(),
        ensures
            final(self).follows(old(self)),
            final(self)@ == old(self)@.with_error(
                peek_error_message(ttype, old(self)@.peek().0),
            ),
    {
        let mut msg = "expected next token to be ".to_owned();
        msg.append(ttype.name());
        msg.append(", got ");
        msg.append(self.peek_next.ttype.name());
        msg.append(" instead");
        self.push_error(msg.as_str());
    }

    /// Notes that no expression can start with a token of this kind.
    fn no_prefix_parse_error(&mut self, ttype: TokenType)
        requires
            old(self).wf(),
        ensures
            final(self).follows(old(self)),
            final(self)@ == old(self)@.with_error(no_prefix_message(ttype)),
    {
        let mut msg = "no prefix parser is available for token type '".to_owned();
        msg.append(ttype.name());
        msg.push('\'');
        self.push_error(msg.as_str());
    }

    /// How tightly the token seen binds.
    pub fn peek_precedence(&self) -> (p: Precedence)
        requires
            self.wf(),
        ensures
            p == rule_of(self@.peek().0).precedence,
    {
        parse_rule(self.peek_next.ttype).precedence
    }

    /// How tightly the token looked at binds.
    pub fn curr_precedence(&self) -> (p: Precedence)
        requires
            self.wf(),
        ensures
            p == rule_of(self@.current().0).precedence,
    {
        parse_rule(self.current.ttype).precedence
    }

    /// Parses the whole source: statement after statement until the token
    /// looked at is `Eof`. A statement that cannot be parsed leaves errors
    /// and the parser goes on behind it. The statements and the errors are
    /// those that the grammar gives for the tokens of the source.
    pub fn parse_program(&mut self) -> (program: Program)
        requires
            old(self).wf(),
        ensures
            final(self).follows(old(self)),
            (statements_view(program.statements@, program.statements@.len()), final(self)@)
                == program_of(old(self)@),
            final(self)@.current().0 == TokenType::Eof,
    {
        let mut program = Program::default();
        while self.current.ttype != TokenType::Eof
            invariant
                self.follows(old(self)),
                program_loop_of(
                    self@,
                    statements_view(program.statements@, program.statements@.len()),
                ) == program_of(old(self)@),
            decreases self@.measure(),
        {
            let ghost before = self@;
            let ghost list = program.statements@;
            let stmt = self.parse_statement();
            proof {
                lemma_statements_view_push(list, stmt);
            }
            program.statements.push(stmt);
            self.next_token();
        }
        program
    }

    fn parse_statement(&mut self) -> (stmt: Statement)
        requires
            old(self).wf(),
        ensures
            final(self).follows(old(self)),
            (statement_view(stmt), final(self)@) == statement_of(old(self)@),
        decreases old(self)@.measure(), 6nat,
    {
        match self.current.ttype {
            TokenType::Let => self.parse_let_statement(),
            TokenType::Return => self.parse_return_statement(),
            _ => self.parse_expr_statement(),
        }
    }

    /// `let`, a name, `=`, an expression, and a semicolon if there is one.
    /// A function literal that is bound this way learns its name.
    fn parse_let_statement(&mut self) -> (stmt: Statement)
        requires
            old(self).wf(),
            old(self)@.current().0 == TokenType::Let,
        ensures
            final(self).follows(old(self)),
            (statement_view(stmt), final(self)@) == statement_of(old(self)@),
        decreases old(self)@.measure(), 5nat,
    {
        let token_let = self.current.clone();
        if !self.expect_peek(TokenType::Identifier) {
            return Statement::Nil;
        }
        let token_ident = self.current.clone();
        if !self.expect_peek(TokenType::Assign) {
            return Statement::Nil;
        }
        self.next_token();
        let parsed = self.parse_expression(Precedence::Lowest);
        if self.peek_token_is(TokenType::Semicolon) {
            self.next_token();
        }
        let value = match parsed {
            Expression::Function(f) => Expression::Function(
                FunctionLiteral {
                    token: f.token,
                    params: f.params,
                    body: f.body,
                    name: token_ident.literal.clone(),
                },
            ),
            other => other,
        };
        let identifier = Identifier { value: token_ident.literal.clone(), token: token_ident };
        Statement::Let(LetStmt { token: token_let, name: identifier, value })
    }

    /// `return`, an expression, and a semicolon if there is one.
    fn parse_return_statement(&mut self) -> (stmt: Statement)
        requires
            old(self).wf(),
            old(self)@.current().0 == TokenType::Return,
        ensures
            final(self).follows(old(self)),
            (statement_view(stmt), final(self)@) == statement_of(old(self)@),
        decreases old(self)@.measure(), 5nat,
    {
        let token_ret = self.current.clone();
        self.next_token();
        let value = self.parse_expression(Precedence::Lowest);
        if self.peek_token_is(TokenType::Semicolon) {
            self.next_token();
        }
        Statement::Return(ReturnStmt { token: token_ret, value })
    }

    /// An expression, and a semicolon if there is one.
    fn parse_expr_statement(&mut self) -> (stmt: Statement)
        requires
            old(self).wf(),
            old(self)@.current().0 != TokenType::Let,
            old(self)@.current().0 != TokenType::Return,
        ensures
            final(self).follows(old(self)),
            (statement_view(stmt), final(self)@) == statement_of(old(self)@),
        decreases old(self)@.measure(), 5nat,
    {
        let token_expr = self.current.clone();
        let expr = self.parse_expression(Precedence::Lowest);
        if self.peek_token_is(TokenType::Semicolon) {
            self.next_token();
        }
        Statement::Expr(ExpressionStmt { token: token_expr, value: expr })
    }

    /// Parses an expression whose operators bind more tightly than
    /// `precedence`. The token looked at starts it; where no expression can
    /// start with that token, an error is left and the result is `Nil`. Then,
    /// as long as the token seen is no semicolon and binds more tightly than
    /// `precedence`, the expression so far becomes the left part of the
    /// expression that this token goes on with. Operators of the same
    /// precedence thus group to the left.
    fn parse_expression(&mut self, precedence: Precedence) -> (expr: Expression)
        requires
            old(self).wf(),
        ensures
            final(self).follows(old(self)),
            (expression_view(expr), final(self)@) == parse_expression_of(old(self)@, precedence),
        decreases old(self)@.measure(), 4nat,
    {
        let prefix = match parse_rule(self.current.ttype).prefix {
            Some(prefix) => prefix,
            None => {
                self.no_prefix_parse_error(self.current.ttype);
                return Expression::Nil;
            },
        };
        let mut left_expr = self.parse_prefix(prefix);
        while !self.peek_token_is(TokenType::Semicolon) && precedence.is_below(
            self.peek_precedence(),
        )
            invariant
                self.follows(old(self)),
                infix_loop_of(self@, precedence, expression_view(left_expr)) == parse_expression_of(
                    old(self)@,
                    precedence,
                ),
            decreases self@.measure(),
        {
            let infix = match parse_rule(self.peek_next.ttype).infix {
                Some(infix) => infix,
                None => {
                    return left_expr;
                },
            };
            self.next_token();
            left_expr = self.parse_infix(infix, left_expr);
        }
        left_expr
    }

    /// Reads the expression that starts at the token looked at, in the way
    /// that the table gives for the token.
    fn parse_prefix(&mut self, kind: PrefixParser) -> (expr: Expression)
        requires
            old(self).wf(),
            rule_of(old(self)@.current().0).prefix == Some(kind),
        ensures
            final(self).follows(old(self)),
            (expression_view(expr), final(self)@) == parse_prefix_of(kind, old(self)@),
        decreases old(self)@.measure(), 3nat,
    {
        match kind {
            PrefixParser::Identifier => self.parse_identifier(),
            PrefixParser::Number => self.parse_number(),
            PrefixParser::Str => self.parse_string(),
            PrefixParser::Prefix => self.parse_prefix_expression(),
            PrefixParser::Boolean => self.parse_boolean(),
            PrefixParser::Grouped => self.parse_grouped(),
            PrefixParser::If => self.parse_if_expr(),
            PrefixParser::Function => self.parse_function_literal(),
            PrefixParser::Array => self.parse_array_literal(),
            PrefixParser::Hash => self.parse_hash_literal(),
        }
    }

    /// Goes on with the expression `left` at the token looked at, in the
    /// way that the table gives for the token.
    fn parse_infix(&mut self, kind: InfixParser, left: Expression) -> (expr: Expression)
        requires
            old(self).wf(),
            rule_of(old(self)@.current().0).infix == Some(kind),
        ensures
            final(self).follows(old(self)),
            final(self)@.measure() < old(self)@.measure(),
            (expression_view(expr), final(self)@) == parse_infix_of(
                kind,
                old(self)@,
                expression_view(left),
            ),
        decreases old(self)@.measure(), 3nat,
    {
        match kind {
            InfixParser::Infix => self.parse_infix_expression(left),
            InfixParser::Call => self.parse_call_expression(left),
            InfixParser::Index => self.parse_index_expression(left),
        }
    }

    fn parse_identifier(&mut self) -> (expr: Expression)
        requires
            old(self).wf(),
        ensures
            *final(self) == *old(self),
            (expression_view(expr), final(self)@) == parse_prefix_of(
                PrefixParser::Identifier,
                old(self)@,
            ),
    {
        Expression::Ident(
            Identifier { token: self.current.clone(), value: self.current.literal.clone() },
        )
    }

    /// The token's digits give the number; text that is no run of digits
    /// leaves an error.
    fn parse_number(&mut self) -> (expr: Expression)
        requires
            old(self).wf(),
        ensures
            final(self).follows(old(self)),
            (expression_view(expr), final(self)@) == parse_prefix_of(
                PrefixParser::Number,
                old(self)@,
            ),
    {
        match number_from_digits(self.current.literal.as_str()) {
            Some(value) => Expression::Number(
                NumberLiteral { token: self.current.clone(), value },
            ),
            None => {
                let mut msg = "could not parse ".to_owned();
                msg.append(self.current.literal.as_str());
                msg.append(" as a number");
                self.push_error(msg.as_str());
                Expression::Nil
            },
        }
    }

    fn parse_string(&mut self) -> (expr: Expression)
        requires
            old(self).wf(),
        ensures
            *final(self) == *old(self),
            (expression_view(expr), final(self)@) == parse_prefix_of(
                PrefixParser::Str,
                old(self)@,
            ),
    {
        Expression::Str(
            StringLiteral { token: self.current.clone(), value: self.current.literal.clone() },
        )
    }

    /// A prefix operator, `-` or `!`, and its operand.
    fn parse_prefix_expression(&mut self) -> (expr: Expression)
        requires
            old(self).wf(),
            old(self)@.current().0 != TokenType::Eof,
        ensures
            final(self).follows(old(self)),
            (expression_view(expr), final(self)@) == parse_prefix_of(
                PrefixParser::Prefix,
                old(self)@,
            ),
        decreases old(self)@.measure(), 2nat,
    {
        let operator = self.current.literal.clone();
        let token = self.current.clone();
        self.next_token();
        let right = self.parse_expression(Precedence::Unary);
        Expression::Unary(UnaryExpr { token, operator, right: Box::new(right) })
    }

    /// A binary operator and its right operand, which binds more tightly
    /// than the operator.
    fn parse_infix_expression(&mut self, left: Expression) -> (expr: Expression)
        requires
            old(self).wf(),
            old(self)@.current().0 != TokenType::Eof,
        ensures
            final(self).follows(old(self)),
            final(self)@.measure() < old(self)@.measure(),
            (expression_view(expr), final(self)@) == parse_infix_of(
                InfixParser::Infix,
                old(self)@,
                expression_view(left),
            ),
        decreases old(self)@.measure(), 2nat,
    {
        let operator = self.current.literal.clone();
        let token = self.current.clone();
        let precedence = self.curr_precedence();
        self.next_token();
        let right = self.parse_expression(precedence);
        Expression::Binary(
            BinaryExpr { token, operator, left: Box::new(left), right: Box::new(right) },
        )
    }

    fn parse_boolean(&mut self) -> (expr: Expression)
        requires
            old(self).wf(),
        ensures
            *final(self) == *old(self),
            (expression_view(expr), final(self)@) == parse_prefix_of(
                PrefixParser::Boolean,
                old(self)@,
            ),
    {
        Expression::Bool(
            BooleanExpr {
                token: self.current.clone(),
                value: self.curr_token_is(TokenType::True),
            },
        )
    }

    /// An expression in parentheses.
    fn parse_grouped(&mut self) -> (expr: Expression)
        requires
            old(self).wf(),
            old(self)@.current().0 != TokenType::Eof,
        ensures
            final(self).follows(old(self)),
            (expression_view(expr), final(self)@) == parse_prefix_of(
                PrefixParser::Grouped,
                old(self)@,
            ),
        decreases old(self)@.measure(), 2nat,
    {
        self.next_token();
        let expr = self.parse_expression(Precedence::Lowest);
        if self.expect_peek(TokenType::RightParen) {
            expr
        } else {
            Expression::Nil
        }
    }

    /// `if`, a condition in parentheses, a block, and perhaps `else` and a
    /// second block.
    fn parse_if_expr(&mut self) -> (expr: Expression)
        requires
            old(self).wf(),
            old(self)@.current().0 != TokenType::Eof,
        ensures
            final(self).follows(old(self)),
            (expression_view(expr), final(self)@) == parse_prefix_of(
                PrefixParser::If,
                old(self)@,
            ),
        decreases old(self)@.measure(), 2nat,
    {
        let token = self.current.clone();
        if !self.expect_peek(TokenType::LeftParen) {
            return Expression::Nil;
        }
        self.next_token();
        let condition = self.parse_expression(Precedence::Lowest);
        if !self.expect_peek(TokenType::RightParen) {
            return Expression::Nil;
        }
        if !self.expect_peek(TokenType::LeftBrace) {
            return Expression::Nil;
        }
        let then_stmt = self.parse_block_statement();
        let else_stmt = if self.peek_token_is(TokenType::Else) {
            self.next_token();
            if !self.expect_peek(TokenType::LeftBrace) {
                return Expression::Nil;
            }
            Some(self.parse_block_statement())
        } else {
            None
        };
        Expression::If(IfExpr { token, condition: Box::new(condition), then_stmt, else_stmt })
    }

    /// The statements of a block, up to the closing brace or the end of the
    /// source. The parser looks at the opening brace.
    fn parse_block_statement(&mut self) -> (block: BlockStatement)
        requires
            old(self).wf(),
        ensures
            final(self).follows(old(self)),
            (statements_view(block.statements@, block.statements@.len()), final(self)@)
                == block_of(old(self)@),
        decreases old(self)@.measure(), 8nat,
    {
        let mut statements: Vec<Statement> = Vec::new();
        self.next_token();
        while !self.curr_token_is(TokenType::RightBrace) && !self.curr_token_is(TokenType::Eof)
            invariant
                self.follows(old(self)),
                block_loop_of(self@, statements_view(statements@, statements@.len())) == block_of(
                    old(self)@,
                ),
            decreases self@.measure(),
        {
            let ghost list = statements@;
            let stmt = self.parse_statement();
            proof {
                lemma_statements_view_push(list, stmt);
            }
            statements.push(stmt);
            self.next_token();
        }
        BlockStatement { statements }
    }

    /// `fn`, the parameters in parentheses, and the body.
    fn parse_function_literal(&mut self) -> (expr: Expression)
        requires
            old(self).wf(),
            old(self)@.current().0 != TokenType::Eof,
        ensures
            final(self).follows(old(self)),
            (expression_view(expr), final(self)@) == parse_prefix_of(
                PrefixParser::Function,
                old(self)@,
            ),
        decreases old(self)@.measure(), 2nat,
    {
        let token = self.current.clone();
        if !self.expect_peek(TokenType::LeftParen) {
            return Expression::Nil;
        }
        let params = self.parse_function_params();
        if !self.expect_peek(TokenType::LeftBrace) {
            return Expression::Nil;
        }
        let body = self.parse_block_statement();
        Expression::Function(FunctionLiteral { token, params, body, name: String::new() })
    }

    /// The names between the parentheses of a function literal, separated
    /// by commas. Where the closing parenthesis is missing, an error is left
    /// and no names are given.
    fn parse_function_params(&mut self) -> (identifiers: Vec<Identifier>)
        requires
            old(self).wf(),
            old(self)@.current().0 != TokenType::Eof,
        ensures
            final(self).follows(old(self)),
            (identifiers_view(identifiers@, identifiers@.len()), final(self)@) == params_of(
                old(self)@,
            ),
    {
        let mut identifiers: Vec<Identifier> = Vec::new();
        if self.peek_token_is(TokenType::RightParen) {
            self.next_token();
            return identifiers;
        }
        self.next_token();
        let token_ident = self.current.clone();
        let first = Identifier { value: token_ident.literal.clone(), token: token_ident };
        proof {
            lemma_identifiers_view_push(identifiers@, first);
        }
        identifiers.push(first);
        let ghost head = self@;
        while self.peek_token_is(TokenType::Comma)
            invariant
                self.follows(old(self)),
                params_loop_of(self@, identifiers_view(identifiers@, identifiers@.len()))
                    == params_loop_of(head, seq![(head.current(), head.current().1)]),
            decreases self@.measure(),
        {
            self.next_token();
            self.next_token();
            let token_ident = self.current.clone();
            let more = Identifier { value: token_ident.literal.clone(), token: token_ident };
            proof {
                lemma_identifiers_view_push(identifiers@, more);
            }
            identifiers.push(more);
        }
        if !self.expect_peek(TokenType::RightParen) {
            return Vec::new();
        }
        identifiers
    }

    /// The arguments of a call. The parser looks at the opening parenthesis.
    fn parse_call_expression(&mut self, func: Expression) -> (expr: Expression)
        requires
            old(self).wf(),
            old(self)@.current().0 != TokenType::Eof,
        ensures
            final(self).follows(old(self)),
            final(self)@.measure() < old(self)@.measure(),
            (expression_view(expr), final(self)@) == parse_infix_of(
                InfixParser::Call,
                old(self)@,
                expression_view(func),
            ),
        decreases old(self)@.measure(), 2nat,
    {
        let token = self.current.clone();
        let args = self.parse_expression_list(TokenType::RightParen);
        Expression::Call(CallExpr { token, func: Box::new(func), args })
    }

    /// Expressions separated by commas, up to a token of kind `ttype_end`.
    /// Where that token is missing, an error is left and no expressions are
    /// given.
    fn parse_expression_list(&mut self, ttype_end: TokenType) -> (args: Vec<Expression>)
        requires
            old(self).wf(),
            old(self)@.current().0 != TokenType::Eof,
        ensures
            final(self).follows(old(self)),
            final(self)@.measure() < old(self)@.measure(),
            (expressions_view(args@, args@.len()), final(self)@) == list_of(old(self)@, ttype_end),
        decreases old(self)@.measure(), 1nat,
    {
        let mut args: Vec<Expression> = Vec::new();
        if self.peek_token_is(ttype_end) {
            self.next_token();
            return args;
        }
        self.next_token();
        let first = self.parse_expression(Precedence::Lowest);
        proof {
            lemma_expressions_view_push(args@, first);
        }
        let ghost first_view = expression_view(first);
        args.push(first);
        let ghost head = self@;
        while self.peek_token_is(TokenType::Comma)
            invariant
                self.follows(old(self)),
                self@.measure() < old(self)@.measure(),
                list_loop_of(self@, expressions_view(args@, args@.len())) == list_loop_of(
                    head,
                    seq![first_view],
                ),
            decreases self@.measure(),
        {
            self.next_token();
            self.next_token();
            let expr = self.parse_expression(Precedence::Lowest);
            proof {
                lemma_expressions_view_push(args@, expr);
            }
            args.push(expr);
        }
        if !self.expect_peek(ttype_end) {
            return Vec::new();
        }
        args
    }

    /// The elements of an array literal. The parser looks at the opening
    /// bracket.
    fn parse_array_literal(&mut self) -> (expr: Expression)
        requires
            old(self).wf(),
            old(self)@.current().0 != TokenType::Eof,
        ensures
            final(self).follows(old(self)),
            (expression_view(expr), final(self)@) == parse_prefix_of(
                PrefixParser::Array,
                old(self)@,
            ),
        decreases old(self)@.measure(), 2nat,
    {
        let token = self.current.clone();
        let elements = self.parse_expression_list(TokenType::RightBracket);
        Expression::Array(ArrayLiteral { token, elements })
    }

    /// The pairs of a mapping literal, each a key, a colon and a value,
    /// separated by commas. The parser looks at the opening brace.
    fn parse_hash_literal(&mut self) -> (expr: Expression)
        requires
            old(self).wf(),
            old(self)@.current().0 != TokenType::Eof,
        ensures
            final(self).follows(old(self)),
            (expression_view(expr), final(self)@) == parse_prefix_of(
                PrefixParser::Hash,
                old(self)@,
            ),
        decreases old(self)@.measure(), 2nat,
    {
        let token = self.current.clone();
        let mut pairs: Vec<(Expression, Expression)> = Vec::new();
        while !self.peek_token_is(TokenType::RightBrace)
            invariant
                self.follows(old(self)),
                self@.peek().0 != TokenType::RightBrace ==> self@.current().0 != TokenType::Eof,
                hash_loop_of(self@, pairs_view(pairs@, pairs@.len())) == hash_loop_of(
                    old(self)@,
                    Seq::empty(),
                ),
            decreases self@.measure(),
        {
            self.next_token();
            let key = self.parse_expression(Precedence::Lowest);
            if !self.expect_peek(TokenType::Colon) {
                return Expression::Nil;
            }
            self.next_token();
            let value = self.parse_expression(Precedence::Lowest);
            proof {
                lemma_pairs_view_push(pairs@, (key, value));
            }
            pairs.push((key, value));
            if !self.peek_token_is(TokenType::RightBrace) && !self.expect_peek(TokenType::Comma) {
                return Expression::Nil;
            }
        }
        if !self.expect_peek(TokenType::RightBrace) {
            return Expression::Nil;
        }
        Expression::Hash(HashLiteral { token, pairs })
    }

    /// An index in brackets behind the expression it indexes. The parser
    /// looks at the opening bracket.
    fn parse_index_expression(&mut self, left: Expression) -> (expr: Expression)
        requires
            old(self).wf(),
            old(self)@.current().0 != TokenType::Eof,
        ensures
            final(self).follows(old(self)),
            final(self)@.measure() < old(self)@.measure(),
            (expression_view(expr), final(self)@) == parse_infix_of(
                InfixParser::Index,
                old(self)@,
                expression_view(left),
            ),
        decreases old(self)@.measure(), 2nat,
    {
        let token = self.current.clone();
        self.next_token();
        let index = self.parse_expression(Precedence::Lowest);
        if !self.expect_peek(TokenType::RightBracket) {
            return Expression::Nil;
        }
        Expression::Index(IndexExpr { token, left: Box::new(left), index: Box::new(index) })
    }
}

} // verus!
