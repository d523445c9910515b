//! What the parser does, said over plain values: where a parser stands, and
//! the tree that it reads from there.

use vstd::prelude::*;

use crate::common::number::{all_digits, decimal_value, nearest_double};
use crate::parser::ast::{Node, StatementNode, TokenView};
use crate::parser::precedence::{rank_of, Precedence};
use crate::parser::rules::{rule_of, InfixParser, PrefixParser};
use crate::scanner::token::{token_type_name, TokenType};
use crate::scanner::{next_token_of, state_after_token, ScannerState};
use crate::text::decimal;

verus! {

/// One for a token that is not `Eof`, zero for `Eof`.
pub open spec fn token_weight(ttype: TokenType) -> nat {
    if ttype == TokenType::Eof {
        0
    } else {
        1
    }
}

/// The text of a parse error: the line that the scanner is on, then the
/// message.
pub open spec fn parse_error_text(line: usize, msg: Seq<char>) -> Seq<char> {
    "[line "@ + decimal(line as nat) + "] "@ + msg
}

/// The message for a token that is not the one the grammar asks for.
pub open spec fn peek_error_message(wanted: TokenType, got: TokenType) -> Seq<char> {
    "expected next token to be "@ + token_type_name(wanted) + ", got "@ + token_type_name(got)
        + " instead"@
}

/// The message for a token that no expression can start with.
pub open spec fn no_prefix_message(ttype: TokenType) -> Seq<char> {
    ("no prefix parser is available for token type '"@ + token_type_name(ttype)).push('\'')
}

/// The message for a number token whose text is no run of digits.
pub open spec fn not_a_number_message(text: Seq<char>) -> Seq<char> {
    "could not parse "@ + text + " as a number"@
}

/// What the digits of a number token give: the pattern of the nearest
/// double, or nothing for text that is no run of digits.
pub open spec fn number_from_digits_spec(text: Seq<char>) -> Option<u64> {
    if text.len() > 0 && all_digits(text) {
        Some(nearest_double(decimal_value(text)))
    } else {
        None
    }
}

/// Where a parser stands: the state of the scanner before the token that the
/// parser looks at, and the errors met so far. The token looked at is the
/// scanner's next token from there, and the token seen is the one after it.
pub struct ParserState {
    pub origin: ScannerState,
    pub errors: Seq<Seq<char>>,
}

impl ParserState {
    /// The token that the parser looks at.
    pub open spec fn current(self) -> TokenView {
        next_token_of(self.origin)
    }

    /// The token behind the one that the parser looks at.
    pub open spec fn peek(self) -> TokenView {
        next_token_of(state_after_token(self.origin))
    }

    /// Where the scanner stands: behind the two tokens that the parser
    /// holds.
    pub open spec fn scanner(self) -> ScannerState {
        state_after_token(state_after_token(self.origin))
    }

    /// The state one token on.
    pub open spec fn next(self) -> ParserState {
        ParserState { origin: state_after_token(self.origin), ..self }
    }

    /// The state with one more error, which bears the line that the scanner
    /// is on.
    pub open spec fn with_error(self, msg: Seq<char>) -> ParserState {
        ParserState {
            errors: self.errors.push(parse_error_text(self.scanner().line, msg)),
            ..self
        }
    }

    /// A bound on the work that is left: the characters that the scanner has
    /// yet to pass, and one for each of the two tokens held that is not
    /// `Eof`.
    pub open spec fn measure(self) -> nat {
        let rest = self.scanner().input.len() - self.scanner().position;
        (if rest >= 0 {
            rest as nat
        } else {
            0nat
        }) + token_weight(self.peek().0) + token_weight(self.current().0)
    }

    /// One token on where the token seen is of the kind asked for; else an
    /// error, and the state stays where it is.
    pub open spec fn expect_peek(self, ttype: TokenType) -> (bool, ParserState) {
        if self.peek().0 == ttype {
            (true, self.next())
        } else {
            (false, self.with_error(peek_error_message(ttype, self.peek().0)))
        }
    }

    /// One token on where the token seen is a semicolon.
    pub open spec fn skip_semicolon(self) -> ParserState {
        if self.peek().0 == TokenType::Semicolon {
            self.next()
        } else {
            self
        }
    }
}

/// A function literal that a `let` binds learns the name; any other
/// expression stays as it is.
pub open spec fn named(value: Node, name: Seq<char>) -> Node {
    match value {
        Node::Function { token, params, body, name: _ } => Node::Function {
            token,
            params,
            body,
            name,
        },
        other => other,
    }
}

/// The expression that starts at the token looked at and whose operators
/// bind more tightly than `precedence`, and the state behind it. Where no
/// expression can start with the token, the result is `Nil` and an error.
pub open spec fn parse_expression_of(p: ParserState, precedence: Precedence) -> (Node, ParserState)
    decreases p.measure(), 4nat,
{
    match rule_of(p.current().0).prefix {
        None => (Node::Nil, p.with_error(no_prefix_message(p.current().0))),
        Some(kind) => {
            let first = parse_prefix_of(kind, p);
            if first.1.measure() <= p.measure() {
                infix_loop_of(first.1, precedence, first.0)
            } else {
                first
            }
        },
    }
}

/// The expression that `left` grows into: as long as the token seen is no
/// semicolon and binds more tightly than `precedence`, the expression so far
/// is the left part of the expression that the token goes on with.
pub open spec fn infix_loop_of(p: ParserState, precedence: Precedence, left: Node) -> (
    Node,
    ParserState,
)
    decreases p.measure(), 3nat,
{
    if p.peek().0 == TokenType::Semicolon || !(rank_of(precedence) < rank_of(
        rule_of(p.peek().0).precedence,
    )) {
        (left, p)
    } else {
        match rule_of(p.peek().0).infix {
            None => (left, p),
            Some(kind) => {
                let q = p.next();
                if q.measure() <= p.measure() {
                    let grown = parse_infix_of(kind, q, left);
                    if grown.1.measure() < p.measure() {
                        infix_loop_of(grown.1, precedence, grown.0)
                    } else {
                        grown
                    }
                } else {
                    (left, p)
                }
            },
        }
    }
}

/// The expression that starts at the token looked at, read in the way that
/// the table gives for the token.
pub open spec fn parse_prefix_of(kind: PrefixParser, p: ParserState) -> (Node, ParserState)
    decreases p.measure(), 2nat,
{
    let token = p.current();
    match kind {
        PrefixParser::Identifier => (Node::Ident { token, value: token.1 }, p),
        PrefixParser::Number => match number_from_digits_spec(token.1) {
            Some(value) => (Node::Number { token, value }, p),
            None => (Node::Nil, p.with_error(not_a_number_message(token.1))),
        },
        PrefixParser::Str => (Node::Str { token, value: token.1 }, p),
        PrefixParser::Boolean => (Node::Bool { token, value: token.0 == TokenType::True }, p),
        PrefixParser::Prefix => {
            let q = p.next();
            if q.measure() < p.measure() {
                let right = parse_expression_of(q, Precedence::Unary);
                (Node::Unary { token, operator: token.1, right: Box::new(right.0) }, right.1)
            } else {
                (Node::Nil, p)
            }
        },
        PrefixParser::Grouped => {
            let q = p.next();
            if q.measure() < p.measure() {
                let inner = parse_expression_of(q, Precedence::Lowest);
                let closed = inner.1.expect_peek(TokenType::RightParen);
                (
                    if closed.0 {
                        inner.0
                    } else {
                        Node::Nil
                    },
                    closed.1,
                )
            } else {
                (Node::Nil, p)
            }
        },
        PrefixParser::If => {
            let opened = p.expect_peek(TokenType::LeftParen);
            let q = opened.1.next();
            if !opened.0 {
                (Node::Nil, opened.1)
            } else if q.measure() < p.measure() {
                let condition = parse_expression_of(q, Precedence::Lowest);
                let closed = condition.1.expect_peek(TokenType::RightParen);
                let braced = closed.1.expect_peek(TokenType::LeftBrace);
                if !closed.0 {
                    (Node::Nil, closed.1)
                } else if !braced.0 {
                    (Node::Nil, braced.1)
                } else if braced.1.measure() < p.measure() {
                    let then_stmt = block_of(braced.1);
                    if then_stmt.1.peek().0 == TokenType::Else {
                        let other = then_stmt.1.next().expect_peek(TokenType::LeftBrace);
                        if !other.0 {
                            (Node::Nil, other.1)
                        } else if other.1.measure() < p.measure() {
                            let else_stmt = block_of(other.1);
                            (
                                Node::If {
                                    token,
                                    condition: Box::new(condition.0),
                                    then_stmt: then_stmt.0,
                                    else_stmt: Some(else_stmt.0),
                                },
                                else_stmt.1,
                            )
                        } else {
                            (Node::Nil, p)
                        }
                    } else {
                        (
                            Node::If {
                                token,
                                condition: Box::new(condition.0),
                                then_stmt: then_stmt.0,
                                else_stmt: None,
                            },
                            then_stmt.1,
                        )
                    }
                } else {
                    (Node::Nil, p)
                }
            } else {
                (Node::Nil, p)
            }
        },
        PrefixParser::Function => {
            let opened = p.expect_peek(TokenType::LeftParen);
            let params = params_of(opened.1);
            let braced = params.1.expect_peek(TokenType::LeftBrace);
            if !opened.0 {
                (Node::Nil, opened.1)
            } else if !braced.0 {
                (Node::Nil, braced.1)
            } else if braced.1.measure() < p.measure() {
                let body = block_of(braced.1);
                (
                    Node::Function {
                        token,
                        params: params.0,
                        body: body.0,
                        name: Seq::<char>::empty(),
                    },
                    body.1,
                )
            } else {
                (Node::Nil, p)
            }
        },
        PrefixParser::Array => {
            let list = list_of(p, TokenType::RightBracket);
            (Node::Array { token, elements: list.0 }, list.1)
        },
        PrefixParser::Hash => {
            let read = hash_loop_of(p, Seq::empty());
            match read.0 {
                None => (Node::Nil, read.1),
                Some(pairs) => {
                    let closed = read.1.expect_peek(TokenType::RightBrace);
                    (
                        if closed.0 {
                            Node::Hash { token, pairs }
                        } else {
                            Node::Nil
                        },
                        closed.1,
                    )
                },
            }
        },
    }
}

/// The expression that `left` is the left part of, read in the way that the
/// table gives for the token looked at.
pub open spec fn parse_infix_of(kind: InfixParser, p: ParserState, left: Node) -> (
    Node,
    ParserState,
)
    decreases p.measure(), 2nat,
{
    let token = p.current();
    match kind {
        InfixParser::Infix => {
            let q = p.next();
            if q.measure() < p.measure() {
                let right = parse_expression_of(q, rule_of(token.0).precedence);
                (
                    Node::Binary {
                        token,
                        operator: token.1,
                        left: Box::new(left),
                        right: Box::new(right.0),
                    },
                    right.1,
                )
            } else {
                (Node::Nil, p)
            }
        },
        InfixParser::Call => {
            let list = list_of(p, TokenType::RightParen);
            (Node::Call { token, func: Box::new(left), args: list.0 }, list.1)
        },
        InfixParser::Index => {
            let q = p.next();
            if q.measure() < p.measure() {
                let index = parse_expression_of(q, Precedence::Lowest);
                let closed = index.1.expect_peek(TokenType::RightBracket);
                (
                    if closed.0 {
                        Node::Index { token, left: Box::new(left), index: Box::new(index.0) }
                    } else {
                        Node::Nil
                    },
                    closed.1,
                )
            } else {
                (Node::Nil, p)
            }
        },
    }
}

/// The names between the parentheses of a function literal. The state
/// looks at the opening parenthesis. Where the closing parenthesis is
/// missing there is an error and no names.
pub open spec fn params_of(p: ParserState) -> (Seq<(TokenView, Seq<char>)>, ParserState) {
    if p.peek().0 == TokenType::RightParen {
        (Seq::empty(), p.next())
    } else {
        let q = p.next();
        let read = params_loop_of(q, seq![(q.current(), q.current().1)]);
        let closed = read.1.expect_peek(TokenType::RightParen);
        (
            if closed.0 {
                read.0
            } else {
                Seq::empty()
            },
            closed.1,
        )
    }
}

/// The names so far and those that follow, each behind a comma.
pub open spec fn params_loop_of(p: ParserState, names: Seq<(TokenView, Seq<char>)>) -> (
    Seq<(TokenView, Seq<char>)>,
    ParserState,
)
    decreases p.measure(),
{
    let q = p.next().next();
    if p.peek().0 == TokenType::Comma && q.measure() < p.measure() {
        params_loop_of(q, names.push((q.current(), q.current().1)))
    } else {
        (names, p)
    }
}

/// The expressions of a list, separated by commas, up to a token of kind
/// `end`. The state looks at the token that opens the list. Where the token
/// that ends it is missing there is an error and no expressions.
pub open spec fn list_of(p: ParserState, end: TokenType) -> (Seq<Node>, ParserState)
    decreases p.measure(), 1nat,
{
    let q = p.next();
    if p.peek().0 == end {
        (Seq::empty(), q)
    } else if q.measure() < p.measure() {
        let first = parse_expression_of(q, Precedence::Lowest);
        if first.1.measure() < p.measure() {
            let read = list_loop_of(first.1, seq![first.0]);
            let closed = read.1.expect_peek(end);
            (
                if closed.0 {
                    read.0
                } else {
                    Seq::empty()
                },
                closed.1,
            )
        } else {
            (Seq::empty(), p)
        }
    } else {
        (Seq::empty(), p)
    }
}

/// The expressions so far and those that follow, each behind a comma.
pub open spec fn list_loop_of(p: ParserState, items: Seq<Node>) -> (Seq<Node>, ParserState)
    decreases p.measure(), 0nat,
{
    let q = p.next().next();
    if p.peek().0 == TokenType::Comma && q.measure() < p.measure() {
        let item = parse_expression_of(q, Precedence::Lowest);
        if item.1.measure() < p.measure() {
            list_loop_of(item.1, items.push(item.0))
        } else {
            (items, p)
        }
    } else {
        (items, p)
    }
}

/// The pairs so far and those that follow in a mapping literal, up to the
/// closing brace; nothing where a colon or a comma is missing.
pub open spec fn hash_loop_of(p: ParserState, pairs: Seq<(Node, Node)>) -> (
    Option<Seq<(Node, Node)>>,
    ParserState,
)
    decreases p.measure(), 1nat,
{
    let q = p.next();
    if p.peek().0 == TokenType::RightBrace {
        (Some(pairs), p)
    } else if q.measure() < p.measure() {
        let key = parse_expression_of(q, Precedence::Lowest);
        let colon = key.1.expect_peek(TokenType::Colon);
        let r = colon.1.next();
        if !colon.0 {
            (None, colon.1)
        } else if r.measure() < p.measure() {
            let value = parse_expression_of(r, Precedence::Lowest);
            let more = pairs.push((key.0, value.0));
            let comma = value.1.expect_peek(TokenType::Comma);
            if value.1.peek().0 == TokenType::RightBrace {
                if value.1.measure() < p.measure() {
                    hash_loop_of(value.1, more)
                } else {
                    (None, p)
                }
            } else if !comma.0 {
                (None, comma.1)
            } else if comma.1.measure() < p.measure() {
                hash_loop_of(comma.1, more)
            } else {
                (None, p)
            }
        } else {
            (None, p)
        }
    } else {
        (None, p)
    }
}

/// The statements of a block, up to the closing brace or the end of the
/// source. The state looks at the opening brace.
pub open spec fn block_of(p: ParserState) -> (Seq<StatementNode>, ParserState)
    decreases p.measure(), 8nat,
{
    let q = p.next();
    if q.measure() <= p.measure() {
        block_loop_of(q, Seq::empty())
    } else {
        (Seq::empty(), p)
    }
}

/// The statements so far and those that follow in a block.
pub open spec fn block_loop_of(p: ParserState, statements: Seq<StatementNode>) -> (
    Seq<StatementNode>,
    ParserState,
)
    decreases p.measure(), 7nat,
{
    if p.current().0 == TokenType::RightBrace || p.current().0 == TokenType::Eof {
        (statements, p)
    } else {
        let read = statement_of(p);
        let q = read.1.next();
        if q.measure() < p.measure() {
            block_loop_of(q, statements.push(read.0))
        } else {
            (statements.push(read.0), q)
        }
    }
}

/// The statement that starts at the token looked at.
pub open spec fn statement_of(p: ParserState) -> (StatementNode, ParserState)
    decreases p.measure(), 6nat,
{
    let token = p.current();
    if token.0 == TokenType::Let {
        let named_by = p.expect_peek(TokenType::Identifier);
        let ident = named_by.1.current();
        let assigned = named_by.1.expect_peek(TokenType::Assign);
        let q = assigned.1.next();
        if !named_by.0 {
            (StatementNode::Nil, named_by.1)
        } else if !assigned.0 {
            (StatementNode::Nil, assigned.1)
        } else if q.measure() <= p.measure() {
            let value = parse_expression_of(q, Precedence::Lowest);
            (
                StatementNode::Let {
                    token,
                    name: (ident, ident.1),
                    value: named(value.0, ident.1),
                },
                value.1.skip_semicolon(),
            )
        } else {
            (StatementNode::Nil, p)
        }
    } else if token.0 == TokenType::Return {
        let q = p.next();
        if q.measure() <= p.measure() {
            let value = parse_expression_of(q, Precedence::Lowest);
            (StatementNode::Return { token, value: value.0 }, value.1.skip_semicolon())
        } else {
            (StatementNode::Nil, p)
        }
    } else {
        let value = parse_expression_of(p, Precedence::Lowest);
        (StatementNode::Expr { token, value: value.0 }, value.1.skip_semicolon())
    }
}

/// The statements so far and those that follow, up to the first `Eof`.
pub open spec fn program_loop_of(p: ParserState, statements: Seq<StatementNode>) -> (
    Seq<StatementNode>,
    ParserState,
)
    decreases p.measure(), 7nat,
{
    if p.current().0 == TokenType::Eof {
        (statements, p)
    } else {
        let read = statement_of(p);
        let q = read.1.next();
        if q.measure() < p.measure() {
            program_loop_of(q, statements.push(read.0))
        } else {
            (statements.push(read.0), q)
        }
    }
}

/// The statements of a whole source, and the state at its end.
pub open spec fn program_of(p: ParserState) -> (Seq<StatementNode>, ParserState) {
    program_loop_of(p, Seq::empty())
}

} // verus!
