//! The table of the Pratt parser: for each kind of token, how an expression
//! that starts with it is parsed, how one that goes on with it is parsed,
//! and how tightly it binds.

use vstd::prelude::*;

use crate::parser::precedence::Precedence;
use crate::scanner::token::TokenType;

verus! {

/// The ways to parse an expression from its first token.
#[derive(Debug, Clone, Copy, PartialEq, Eq, Structural)]
pub enum PrefixParser {
    Identifier,
    Number,
    Str,
    /// A prefix operator and its operand.
    Prefix,
    Boolean,
    /// An expression in parentheses.
    Grouped,
    If,
    Function,
    Array,
    Hash,
}

/// The ways to go on with an expression at a token that follows its left
/// part.
#[derive(Debug, Clone, Copy, PartialEq, Eq, Structural)]
pub enum InfixParser {
    /// A binary operator and its right operand.
    Infix,
    Call,
    Index,
}

/// The entry of the table for one kind of token.
#[derive(Debug, Clone, Copy, PartialEq, Eq, Structural)]
pub struct ParseRule {
    pub prefix: Option<PrefixParser>,
    pub infix: Option<InfixParser>,
    pub precedence: Precedence,
}

impl ParseRule {
    pub fn new(
        prefix: Option<PrefixParser>,
        infix: Option<InfixParser>,
        precedence: Precedence,
    ) -> (rule: ParseRule)
        ensures
            rule == (ParseRule { prefix, infix, precedence }),
    {
        ParseRule { prefix, infix, precedence }
    }
}

/// The table.
pub open spec fn rule_of(ttype: TokenType) -> ParseRule {
    match ttype {
        TokenType::Identifier => ParseRule {
            prefix: Some(PrefixParser::Identifier),
            infix: None,
            precedence: Precedence::Lowest,
        },
        TokenType::Number => ParseRule {
            prefix: Some(PrefixParser::Number),
            infix: None,
            precedence: Precedence::Lowest,
        },
        TokenType::Str => ParseRule {
            prefix: Some(PrefixParser::Str),
            infix: None,
            precedence: Precedence::Lowest,
        },
        TokenType::Bang => ParseRule {
            prefix: Some(PrefixParser::Prefix),
            infix: None,
            precedence: Precedence::Lowest,
        },
        TokenType::Equal | TokenType::BangEqual => ParseRule {
            prefix: None,
            infix: Some(InfixParser::Infix),
            precedence: Precedence::Equality,
        },
        TokenType::Less | TokenType::Greater => ParseRule {
            prefix: None,
            infix: Some(InfixParser::Infix),
            precedence: Precedence::Comparison,
        },
        TokenType::Plus => ParseRule {
            prefix: None,
            infix: Some(InfixParser::Infix),
            precedence: Precedence::Term,
        },
        TokenType::Minus => ParseRule {
            prefix: Some(PrefixParser::Prefix),
            infix: Some(InfixParser::Infix),
            precedence: Precedence::Term,
        },
        TokenType::Asterisk | TokenType::Slash => ParseRule {
            prefix: None,
            infix: Some(InfixParser::Infix),
            precedence: Precedence::Factor,
        },
        TokenType::True | TokenType::False => ParseRule {
            prefix: Some(PrefixParser::Boolean),
            infix: None,
            precedence: Precedence::Lowest,
        },
        TokenType::LeftParen => ParseRule {
            prefix: Some(PrefixParser::Grouped),
            infix: Some(InfixParser::Call),
            precedence: Precedence::Call,
        },
        TokenType::If => ParseRule {
            prefix: Some(PrefixParser::If),
            infix: None,
            precedence: Precedence::Lowest,
        },
        TokenType::Function => ParseRule {
            prefix: Some(PrefixParser::Function),
            infix: None,
            precedence: Precedence::Lowest,
        },
        TokenType::LeftBracket => ParseRule {
            prefix: Some(PrefixParser::Array),
            infix: Some(InfixParser::Index),
            precedence: Precedence::Call,
        },
        TokenType::LeftBrace => ParseRule {
            prefix: Some(PrefixParser::Hash),
            infix: None,
            precedence: Precedence::Lowest,
        },
        _ => ParseRule { prefix: None, infix: None, precedence: Precedence::Lowest },
    }
}

/// Looks a kind of token up in the table.
pub fn parse_rule(ttype: TokenType) -> (rule: ParseRule)
    ensures
        rule == rule_of(ttype),
{
    match ttype {
        TokenType::Identifier => ParseRule::new(
            Some(PrefixParser::Identifier),
            None,
            Precedence::Lowest,
        ),
        TokenType::Number => ParseRule::new(Some(PrefixParser::Number), None, Precedence::Lowest),
        TokenType::Str => ParseRule::new(Some(PrefixParser::Str), None, Precedence::Lowest),
        TokenType::Bang => ParseRule::new(Some(PrefixParser::Prefix), None, Precedence::Lowest),
        TokenType::Equal | TokenType::BangEqual => ParseRule::new(
            None,
            Some(InfixParser::Infix),
            Precedence::Equality,
        ),
        TokenType::Less | TokenType::Greater => ParseRule::new(
            None,
            Some(InfixParser::Infix),
            Precedence::Comparison,
        ),
        TokenType::Plus => ParseRule::new(None, Some(InfixParser::Infix), Precedence::Term),
        TokenType::Minus => ParseRule::new(
            Some(PrefixParser::Prefix),
            Some(InfixParser::Infix),
            Precedence::Term,
        ),
        TokenType::Asterisk | TokenType::Slash => ParseRule::new(
            None,
            Some(InfixParser::Infix),
            Precedence::Factor,
        ),
        TokenType::True | TokenType::False => ParseRule::new(
            Some(PrefixParser::Boolean),
            None,
            Precedence::Lowest,
        ),
        TokenType::LeftParen => ParseRule::new(
            Some(PrefixParser::Grouped),
            Some(InfixParser::Call),
            Precedence::Call,
        ),
        TokenType::If => ParseRule::new(Some(PrefixParser::If), None, Precedence::Lowest),
        TokenType::Function => ParseRule::new(
            Some(PrefixParser::Function),
            None,
            Precedence::Lowest,
        ),
        TokenType::LeftBracket => ParseRule::new(
            Some(PrefixParser::Array),
            Some(InfixParser::Index),
            Precedence::Call,
        ),
        TokenType::LeftBrace => ParseRule::new(Some(PrefixParser::Hash), None, Precedence::Lowest),
        _ => ParseRule::new(None, None, Precedence::Lowest),
    }
}

} // verus!
