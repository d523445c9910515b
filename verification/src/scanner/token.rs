use vstd::prelude::*;

verus! {

/// The kinds of token that the scanner tells apart.
#[derive(Debug, Clone, Copy, PartialEq, Eq, Structural)]
pub enum TokenType {
    Illegal,
    Eof,
    // Identifiers and literals
    Identifier,
    Number,
    Str,
    // Operators
    Assign,
    Plus,
    Minus,
    Bang,
    Asterisk,
    Slash,
    Less,
    LessEqual,
    Greater,
    GreaterEqual,
    Equal,
    BangEqual,
    // Delimiters
    Comma,
    Semicolon,
    Colon,
    LeftParen,
    RightParen,
    LeftBrace,
    RightBrace,
    LeftBracket,
    RightBracket,
    // Keywords
    Function,
    Let,
    True,
    False,
    If,
    Else,
    Return,
    NumberOfTokens,
}

/// The name under which a kind of token is printed.
pub open spec fn token_type_name(ttype: TokenType) -> Seq<char> {
    match ttype {
        TokenType::Illegal => "ILLEGAL"@,
        TokenType::Eof => "EOF"@,
        TokenType::Identifier => "IDENT"@,
        TokenType::Number => "INT"@,
        TokenType::Str => "STRING"@,
        TokenType::Assign => "="@,
        TokenType::Plus => "+"@,
        TokenType::Minus => "-"@,
        TokenType::Bang => "!"@,
        TokenType::Asterisk => "*"@,
        TokenType::Slash => "/"@,
        TokenType::Less => "<"@,
        TokenType::LessEqual => "<="@,
        TokenType::Greater => ">"@,
        TokenType::GreaterEqual => ">="@,
        TokenType::Equal => "=="@,
        TokenType::BangEqual => "!="@,
        TokenType::Comma => ","@,
        TokenType::Semicolon => ";"@,
        TokenType::Colon => ":"@,
        TokenType::LeftParen => "("@,
        TokenType::RightParen => ")"@,
        TokenType::LeftBrace => "{"@,
        TokenType::RightBrace => "}"@,
        TokenType::LeftBracket => "["@,
        TokenType::RightBracket => "]"@,
        TokenType::Function => "FUNCTION"@,
        TokenType::Let => "LET"@,
        TokenType::True => "TRUE"@,
        TokenType::False => "FALSE"@,
        TokenType::If => "IF"@,
        TokenType::Else => "ELSE"@,
        TokenType::Return => "RETURN"@,
        TokenType::NumberOfTokens => ""@,
    }
}

impl TokenType {
    /// The name under which this kind of token is printed.
    pub fn name(self) -> (name: &'static str)
        ensures
            name@ == token_type_name(self),
    {
        match self {
            TokenType::Illegal => "ILLEGAL",
            TokenType::Eof => "EOF",
            TokenType::Identifier => "IDENT",
            TokenType::Number => "INT",
            TokenType::Str => "STRING",
            TokenType::Assign => "=",
            TokenType::Plus => "+",
            TokenType::Minus => "-",
            TokenType::Bang => "!",
            TokenType::Asterisk => "*",
            TokenType::Slash => "/",
            TokenType::Less => "<",
            TokenType::LessEqual => "<=",
            TokenType::Greater => ">",
            TokenType::GreaterEqual => ">=",
            TokenType::Equal => "==",
            TokenType::BangEqual => "!=",
            TokenType::Comma => ",",
            TokenType::Semicolon => ";",
            TokenType::Colon => ":",
            TokenType::LeftParen => "(",
            TokenType::RightParen => ")",
            TokenType::LeftBrace => "{",
            TokenType::RightBrace => "}",
            TokenType::LeftBracket => "[",
            TokenType::RightBracket => "]",
            TokenType::Function => "FUNCTION",
            TokenType::Let => "LET",
            TokenType::True => "TRUE",
            TokenType::False => "FALSE",
            TokenType::If => "IF",
            TokenType::Else => "ELSE",
            TokenType::Return => "RETURN",
            TokenType::NumberOfTokens => "",
        }
    }

    /// The printed form of this kind of token.
    pub fn to_string(&self) -> (text: String)
        ensures
            text@ == token_type_name(*self),
    {
        self.name().to_owned()
    }
}

/// A token: its kind, its text in the source, and the line it stands on.
#[derive(Debug, PartialEq, Eq)]
pub struct Token {
    pub ttype: TokenType,
    pub literal: String,
    pub line: usize,
}

impl Token {
    pub fn new(ttype: TokenType, literal: &str, line: usize) -> (token: Token)
        ensures
            token.ttype == ttype,
            token.literal@ == literal@,
            token.line == line,
    {
        Token { ttype, literal: literal.to_owned(), line }
    }

    /// The printed form of a token is its text.
    pub fn to_string(&self) -> (text: String)
        ensures
            text@ == self.literal@,
    {
        self.literal.clone()
    }

    /// What the contracts say of a token: its kind, the characters of its
    /// text and its line.
    pub open spec fn view(&self) -> (TokenType, Seq<char>, usize) {
        (self.ttype, self.literal@, self.line)
    }
}

impl Clone for Token {
    fn clone(&self) -> (token: Token)
        ensures
            token == *self,
    {
        Token { ttype: self.ttype, literal: self.literal.clone(), line: self.line }
    }
}

impl Default for Token {
    fn default() -> (token: Token)
        ensures
            token.ttype == TokenType::Illegal,
            token.literal@ == Seq::<char>::empty(),
            token.line == 0,
    {
        Token { ttype: TokenType::Illegal, literal: String::new(), line: 0 }
    }
}

} // verus!
