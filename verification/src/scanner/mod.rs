//! The scanner: source text to tokens.

pub mod token;

use vstd::prelude::*;

use crate::scanner::token::{Token, TokenType};

verus! {

/// Whether a character has Unicode's `Alphabetic` property.
pub uninterp spec fn unicode_alphabetic(c: char) -> bool;

/// Whether a character is alphabetic or numeric in Unicode's sense.
pub uninterp spec fn unicode_alphanumeric(c: char) -> bool;

/// `char::is_alphabetic` of the standard library, whose answer depends on
/// the character alone.
pub assume_specification[ char::is_alphabetic ](c: char) -> (b: bool)
    ensures
        b == unicode_alphabetic(c),
;

/// `char::is_alphanumeric` of the standard library, whose answer depends on
/// the character alone.
pub assume_specification[ char::is_alphanumeric ](c: char) -> (b: bool)
    ensures
        b == unicode_alphanumeric(c),
;

/// Where a scanner stands: the characters of the source, the index of the
/// character it looks at, and the line that character is on.
pub struct ScannerState {
    pub input: Seq<char>,
    pub position: int,
    pub line: usize,
}

/// The character at `pos`, or NUL past the end of the source.
pub open spec fn char_at(input: Seq<char>, pos: int) -> char {
    if 0 <= pos < input.len() {
        input[pos]
    } else {
        '\0'
    }
}

/// One character further, but never past the end of the source.
pub open spec fn advance(input: Seq<char>, pos: int) -> int {
    if pos < input.len() {
        pos + 1
    } else {
        pos
    }
}

/// The next line's number; the count stops at the largest `usize`.
pub open spec fn bump_line(line: usize) -> usize {
    if line < usize::MAX {
        (line + 1) as usize
    } else {
        line
    }
}

/// Whether an identifier can start with this character.
pub open spec fn identifier_first(c: char) -> bool {
    unicode_alphabetic(c) || c == '_'
}

/// Whether an identifier can go on with this character.
pub open spec fn identifier_remaining(c: char) -> bool {
    unicode_alphanumeric(c) || c == '_'
}

/// Whether the character is one of the ten ASCII digits.
pub open spec fn ascii_digit(c: char) -> bool {
    '0' <= c <= '9'
}

/// The position and line behind the blanks, tabs and line ends that start
/// at `pos`. Each line end, `\n` or `\r`, counts as one line.
pub open spec fn after_whitespace(input: Seq<char>, pos: int, line: usize) -> (int, usize)
    decreases input.len() - pos,
{
    if pos < 0 || pos >= input.len() {
        (pos, line)
    } else if input[pos] == ' ' || input[pos] == '\t' {
        after_whitespace(input, pos + 1, line)
    } else if input[pos] == '\n' || input[pos] == '\r' {
        after_whitespace(input, pos + 1, bump_line(line))
    } else {
        (pos, line)
    }
}

/// The first position from `pos` on that holds a line feed or a NUL, or the
/// end of the source: where a comment that runs over `pos` ends.
pub open spec fn comment_end(input: Seq<char>, pos: int) -> int
    decreases input.len() - pos,
{
    if pos < 0 || pos >= input.len() {
        pos
    } else if input[pos] == '\n' || input[pos] == '\0' {
        pos
    } else {
        comment_end(input, pos + 1)
    }
}

/// The position and line behind the comments that start at `pos`, each
/// taken with the whitespace that follows it.
pub open spec fn after_comments(input: Seq<char>, pos: int, line: usize) -> (int, usize)
    decreases input.len() - pos,
{
    if 0 <= pos && char_at(input, pos) == '/' && char_at(input, pos + 1) == '/' {
        let end = comment_end(input, pos + 1);
        let next = after_whitespace(input, end, line);
        if pos < next.0 <= input.len() {
            after_comments(input, next.0, next.1)
        } else {
            next
        }
    } else {
        (pos, line)
    }
}

/// The first position from `pos` on whose character cannot go on an
/// identifier.
pub open spec fn identifier_end(input: Seq<char>, pos: int) -> int
    decreases input.len() - pos,
{
    if pos < 0 || pos >= input.len() || !identifier_remaining(input[pos]) {
        pos
    } else {
        identifier_end(input, pos + 1)
    }
}

/// The first position from `pos` on whose character is no ASCII digit.
pub open spec fn digits_end(input: Seq<char>, pos: int) -> int
    decreases input.len() - pos,
{
    if pos < 0 || pos >= input.len() || !ascii_digit(input[pos]) {
        pos
    } else {
        digits_end(input, pos + 1)
    }
}

/// The first position from `pos` on that holds a double quote or a NUL, or
/// the end of the source: where a string's text ends.
pub open spec fn string_end(input: Seq<char>, pos: int) -> int
    decreases input.len() - pos,
{
    if pos < 0 || pos >= input.len() || input[pos] == '"' || input[pos] == '\0' {
        pos
    } else {
        string_end(input, pos + 1)
    }
}

/// The kind of token that a word is: one of the seven keywords, or an
/// identifier.
pub open spec fn word_type(word: Seq<char>) -> TokenType {
    if word == "let"@ {
        TokenType::Let
    } else if word == "fn"@ {
        TokenType::Function
    } else if word == "true"@ {
        TokenType::True
    } else if word == "false"@ {
        TokenType::False
    } else if word == "if"@ {
        TokenType::If
    } else if word == "else"@ {
        TokenType::Else
    } else if word == "return"@ {
        TokenType::Return
    } else {
        TokenType::Identifier
    }
}

/// The kind of token that a single character makes by itself, where it
/// makes one.
pub open spec fn single_type(c: char) -> Option<TokenType> {
    if c == ';' {
        Some(TokenType::Semicolon)
    } else if c == ',' {
        Some(TokenType::Comma)
    } else if c == ':' {
        Some(TokenType::Colon)
    } else if c == '(' {
        Some(TokenType::LeftParen)
    } else if c == ')' {
        Some(TokenType::RightParen)
    } else if c == '{' {
        Some(TokenType::LeftBrace)
    } else if c == '}' {
        Some(TokenType::RightBrace)
    } else if c == '[' {
        Some(TokenType::LeftBracket)
    } else if c == ']' {
        Some(TokenType::RightBracket)
    } else if c == '+' {
        Some(TokenType::Plus)
    } else if c == '-' {
        Some(TokenType::Minus)
    } else if c == '*' {
        Some(TokenType::Asterisk)
    } else if c == '/' {
        Some(TokenType::Slash)
    } else {
        None
    }
}

/// For a character that starts a one- or two-character operator: its kind
/// alone, and its kind with `=` behind it.
pub open spec fn twin_types(c: char) -> Option<(TokenType, TokenType)> {
    if c == '=' {
        Some((TokenType::Assign, TokenType::Equal))
    } else if c == '!' {
        Some((TokenType::Bang, TokenType::BangEqual))
    } else if c == '<' {
        Some((TokenType::Less, TokenType::LessEqual))
    } else if c == '>' {
        Some((TokenType::Greater, TokenType::GreaterEqual))
    } else {
        None
    }
}

/// The token that starts at `pos`, which is behind all whitespace and
/// comments, and the position behind it: its kind, its text and where the
/// scanner stands afterwards.
pub open spec fn token_at(input: Seq<char>, pos: int) -> (TokenType, Seq<char>, int) {
    let c = char_at(input, pos);
    if c == '\0' {
        (TokenType::Eof, Seq::<char>::empty(), advance(input, pos))
    } else if single_type(c) is Some {
        (single_type(c).unwrap(), seq![c], advance(input, pos))
    } else if twin_types(c) is Some {
        let kinds = twin_types(c).unwrap();
        if char_at(input, pos + 1) == '=' {
            (kinds.1, seq![c, '='], advance(input, pos + 1))
        } else {
            (kinds.0, seq![c], advance(input, pos))
        }
    } else if c == '"' {
        let end = string_end(input, pos + 1);
        (TokenType::Str, input.subrange(pos + 1, end), advance(input, end))
    } else if identifier_first(c) {
        let end = identifier_end(input, pos + 1);
        (word_type(input.subrange(pos, end)), input.subrange(pos, end), end)
    } else if ascii_digit(c) {
        let end = digits_end(input, pos + 1);
        (TokenType::Number, input.subrange(pos, end), end)
    } else {
        (TokenType::Illegal, seq![c], advance(input, pos))
    }
}

/// Where the next token starts: behind the whitespace at `pos` and the
/// comments that follow it.
pub open spec fn token_start(input: Seq<char>, pos: int, line: usize) -> (int, usize) {
    let blank = after_whitespace(input, pos, line);
    after_comments(input, blank.0, blank.1)
}

/// The next token of a scanner in state `s`.
#[verifier::opaque]
pub open spec fn next_token_of(s: ScannerState) -> (TokenType, Seq<char>, usize) {
    let start = token_start(s.input, s.position, s.line);
    let token = token_at(s.input, start.0);
    (token.0, token.1, start.1)
}

/// The state of a scanner after it has given the next token.
#[verifier::opaque]
pub open spec fn state_after_token(s: ScannerState) -> ScannerState {
    let start = token_start(s.input, s.position, s.line);
    let token = token_at(s.input, start.0);
    ScannerState { input: s.input, position: token.2, line: start.1 }
}

/// A scanner over the characters of a source text.
pub struct Scanner {
    input: Vec<char>,
    position: usize,
    read_position: usize,
    ch: char,
    line: usize,
}

impl Scanner {
    /// Where the scanner stands.
    pub closed spec fn view(&self) -> ScannerState {
        ScannerState { input: self.input@, position: self.position as int, line: self.line }
    }

    /// The fields agree: the scanner looks at the character at its position,
    /// or at NUL once it is at the end, and the next character to read is the
    /// one behind it.
    pub closed spec fn wf(&self) -> bool {
        &&& self.position <= self.input@.len()
        &&& self.ch == char_at(self.input@, self.position as int)
        &&& self.read_position == advance(self.input@, self.position as int)
    }

    /// The number of characters that the scanner has yet to pass.
    pub open spec fn remaining(&self) -> int {
        self@.input.len() - self@.position
    }

    /// A scanner is never past the end of its source.
    pub proof fn lemma_remaining(&self)
        requires
            self.wf(),
        ensures
            self.remaining() >= 0,
    {
    }

    pub fn new(source: &str) -> (scanner: Scanner)
        ensures
            scanner.wf(),
            scanner@ == (ScannerState { input: source@, position: 0, line: 1 }),
    {
        let mut input: Vec<char> = Vec::new();
        for c in iter: source.chars()
            invariant
                iter.seq() == source@,
                input@ == iter.seq().take(iter.index() as int),
        {
            input.push(c);
            assert(input@ =~= iter.seq().take(iter.index() + 1));
        }
        assert(input@ =~= source@);
        let mut scanner = Scanner { input, position: 0, read_position: 0, ch: '\0', line: 1 };
        if scanner.input.len() > 0 {
            scanner.ch = scanner.input[0];
            scanner.read_position = 1;
        }
        scanner
    }

    /// Steps to the next character; at the end of the source the scanner
    /// stays where it is and looks at NUL.
    pub fn read_char(&mut self)
        requires
            old(self).wf(),
        ensures
            final(self).wf(),
            final(self)@ == (ScannerState {
                position: advance(old(self)@.input, old(self)@.position),
                ..old(self)@
            }),
    {
        if self.read_position >= self.input.len() {
            self.ch = '\0';
            self.position = self.input.len();
        } else {
            self.ch = self.input[self.read_position];
            self.position = self.read_position;
            self.read_position = self.read_position + 1;
        }
    }

    /// The character behind the one that the scanner looks at.
    pub fn peek_char(&self) -> (c: char)
        requires
            self.wf(),
        ensures
            c == char_at(self@.input, self@.position + 1),
    {
        if self.position >= self.input.len() || self.read_position >= self.input.len() {
            '\0'
        } else {
            self.input[self.read_position]
        }
    }

    /// The line that the scanner is on.
    pub fn get_line(&self) -> (line: usize)
        ensures
            line == self@.line,
    {
        self.line
    }

    /// Gives the next token: skips whitespace and comments, then reads one
    /// token and stands behind it. At the end of the source, and at a NUL, the
    /// token is `Eof`.
    pub fn next_token(&mut self) -> (token: Token)
        requires
            old(self).wf(),
        ensures
            final(self).wf(),
            token@ == next_token_of(old(self)@),
            final(self)@ == state_after_token(old(self)@),
            final(self).remaining() <= old(self).remaining(),
            token.ttype != TokenType::Eof ==> final(self).remaining() < old(self).remaining(),
            old(self).remaining() > 0 ==> final(self).remaining() < old(self).remaining(),
    {
        proof {
            reveal(next_token_of);
            reveal(state_after_token);
        }
        self.skip_whitespace();
        self.skip_comments();
        let c = self.ch;
        let token = if c == '\0' {
            proof {
                reveal_strlit("");
            }
            self.make_token(TokenType::Eof, "")
        } else if c == ';' {
            self.make_token_ch(TokenType::Semicolon)
        } else if c == ',' {
            self.make_token_ch(TokenType::Comma)
        } else if c == ':' {
            self.make_token_ch(TokenType::Colon)
        } else if c == '(' {
            self.make_token_ch(TokenType::LeftParen)
        } else if c == ')' {
            self.make_token_ch(TokenType::RightParen)
        } else if c == '{' {
            self.make_token_ch(TokenType::LeftBrace)
        } else if c == '}' {
            self.make_token_ch(TokenType::RightBrace)
        } else if c == '[' {
            self.make_token_ch(TokenType::LeftBracket)
        } else if c == ']' {
            self.make_token_ch(TokenType::RightBracket)
        } else if c == '+' {
            self.make_token_ch(TokenType::Plus)
        } else if c == '-' {
            self.make_token_ch(TokenType::Minus)
        } else if c == '*' {
            self.make_token_ch(TokenType::Asterisk)
        } else if c == '/' {
            self.make_token_ch(TokenType::Slash)
        } else if c == '=' {
            self.make_token_twin('=', TokenType::Assign, TokenType::Equal)
        } else if c == '!' {
            self.make_token_twin('=', TokenType::Bang, TokenType::BangEqual)
        } else if c == '<' {
            self.make_token_twin('=', TokenType::Less, TokenType::LessEqual)
        } else if c == '>' {
            self.make_token_twin('=', TokenType::Greater, TokenType::GreaterEqual)
        } else if c == '"' {
            self.read_string()
        } else if Self::is_identifier_first(c) {
            return self.read_identifier();
        } else if c >= '0' && c <= '9' {
            return self.read_number();
        } else {
            self.make_token_ch(TokenType::Illegal)
        };
        self.read_char();
        token
    }

    fn make_token(&self, ttype: TokenType, literal: &str) -> (token: Token)
        ensures
            token@ == (ttype, literal@, self@.line),
    {
        Token::new(ttype, literal, self.line)
    }

    /// A token whose text is the character that the scanner looks at.
    fn make_token_ch(&self, ttype: TokenType) -> (token: Token)
        requires
            self.wf(),
        ensures
            token@ == (ttype, seq![char_at(self@.input, self@.position)], self@.line),
    {
        let mut literal = String::new();
        literal.push(self.ch);
        assert(literal@ =~= seq![self.ch]);
        Token { ttype, literal, line: self.line }
    }

    /// A token of one or two characters: where `next` follows the character
    /// that the scanner looks at, the token takes both and is of kind `twin`;
    /// else it takes the one and is of kind `single`.
    fn make_token_twin(&mut self, next: char, single: TokenType, twin: TokenType) -> (token:
        Token)
        requires
            old(self).wf(),
        ensures
            final(self).wf(),
            final(self)@.input == old(self)@.input,
            final(self)@.line == old(self)@.line,
            char_at(old(self)@.input, old(self)@.position + 1) == next ==> token@ == (
                twin,
                seq![char_at(old(self)@.input, old(self)@.position), next],
                old(self)@.line,
            ) && final(self)@.position == advance(old(self)@.input, old(self)@.position),
            char_at(old(self)@.input, old(self)@.position + 1) != next ==> token@ == (
                single,
                seq![char_at(old(self)@.input, old(self)@.position)],
                old(self)@.line,
            ) && final(self)@.position == old(self)@.position,
    {
        let curr = self.ch;
        if self.peek_char() == next {
            self.read_char();
            let mut literal = String::new();
            literal.push(curr);
            literal.push(next);
            assert(literal@ =~= seq![curr, next]);
            Token { ttype: twin, literal, line: self.line }
        } else {
            self.make_token_ch(single)
        }
    }

    /// The characters of the source from `from` up to `to`, as a string.
    fn text_between(&self, from: usize, to: usize) -> (text: String)
        requires
            from <= to <= self@.input.len(),
        ensures
            text@ == self@.input.subrange(from as int, to as int),
    {
        let mut text = String::new();
        let mut i = from;
        while i < to
            invariant
                from <= i <= to,
                to <= self.input@.len(),
                text@ == self.input@.subrange(from as int, i as int),
            decreases to - i,
        {
            text.push(self.input[i]);
            i = i + 1;
            assert(text@ =~= self.input@.subrange(from as int, i as int));
        }
        text
    }

    /// Reads an identifier or keyword; the scanner looks at its first
    /// character and ends behind its last.
    fn read_identifier(&mut self) -> (token: Token)
        requires
            old(self).wf(),
            old(self)@.position < old(self)@.input.len(),
        ensures
            final(self).wf(),
            final(self)@.input == old(self)@.input,
            final(self)@.line == old(self)@.line,
            final(self)@.position == identifier_end(old(self)@.input, old(self)@.position + 1),
            old(self)@.position < final(self)@.position,
            token@ == (
                word_type(
                    old(self)@.input.subrange(old(self)@.position, final(self)@.position),
                ),
                old(self)@.input.subrange(old(self)@.position, final(self)@.position),
                old(self)@.line,
            ),
    {
        let position = self.position;
        self.read_char();
        while self.position < self.input.len() && Self::is_identifier_remaining(self.ch)
            invariant
                self.wf(),
                self@.input == old(self)@.input,
                self@.line == old(self)@.line,
                position < self.position,
                identifier_end(self@.input, self@.position) == identifier_end(
                    old(self)@.input,
                    old(self)@.position + 1,
                ),
            decreases self.input@.len() - self.position,
        {
            self.read_char();
        }
        let identifier = self.text_between(position, self.position);
        let ttype = Self::lookup_identifier(&identifier);
        Token { ttype, literal: identifier, line: self.line }
    }

    /// Reads a run of digits; the scanner looks at the first and ends behind
    /// the last.
    fn read_number(&mut self) -> (token: Token)
        requires
            old(self).wf(),
            old(self)@.position < old(self)@.input.len(),
        ensures
            final(self).wf(),
            final(self)@.input == old(self)@.input,
            final(self)@.line == old(self)@.line,
            final(self)@.position == digits_end(old(self)@.input, old(self)@.position + 1),
            old(self)@.position < final(self)@.position,
            token@ == (
                TokenType::Number,
                old(self)@.input.subrange(old(self)@.position, final(self)@.position),
                old(self)@.line,
            ),
    {
        let position = self.position;
        self.read_char();
        while self.position < self.input.len() && self.ch >= '0' && self.ch <= '9'
            invariant
                self.wf(),
                self@.input == old(self)@.input,
                self@.line == old(self)@.line,
                position < self.position,
                digits_end(self@.input, self@.position) == digits_end(
                    old(self)@.input,
                    old(self)@.position + 1,
                ),
            decreases self.input@.len() - self.position,
        {
            self.read_char();
        }
        let number = self.text_between(position, self.position);
        Token { ttype: TokenType::Number, literal: number, line: self.line }
    }

    /// Reads a string's text; the scanner looks at the opening quote and ends
    /// at the closing quote, at a NUL or at the end of the source.
    fn read_string(&mut self) -> (token: Token)
        requires
            old(self).wf(),
            old(self)@.position < old(self)@.input.len(),
        ensures
            final(self).wf(),
            final(self)@.input == old(self)@.input,
            final(self)@.line == old(self)@.line,
            final(self)@.position == string_end(old(self)@.input, old(self)@.position + 1),
            old(self)@.position < final(self)@.position,
            token@ == (
                TokenType::Str,
                old(self)@.input.subrange(old(self)@.position + 1, final(self)@.position),
                old(self)@.line,
            ),
    {
        let position = self.position + 1;
        self.read_char();
        while self.position < self.input.len() && self.ch != '"' && self.ch != '\0'
            invariant
                self.wf(),
                self@.input == old(self)@.input,
                self@.line == old(self)@.line,
                position <= self.position,
                string_end(self@.input, self@.position) == string_end(
                    old(self)@.input,
                    old(self)@.position + 1,
                ),
            decreases self.input@.len() - self.position,
        {
            self.read_char();
        }
        let the_str = self.text_between(position, self.position);
        Token { ttype: TokenType::Str, literal: the_str, line: self.line }
    }

    fn is_identifier_first(ch: char) -> (b: bool)
        ensures
            b == identifier_first(ch),
    {
        ch.is_alphabetic() || ch == '_'
    }

    fn is_identifier_remaining(ch: char) -> (b: bool)
        ensures
            b == identifier_remaining(ch),
    {
        ch.is_alphanumeric() || ch == '_'
    }

    /// The kind of token that a word is.
    fn lookup_identifier(identifier: &String) -> (ttype: TokenType)
        ensures
            ttype == word_type(identifier@),
    {
        let word = identifier.as_str();
        if str_equal(word, "let") {
            TokenType::Let
        } else if str_equal(word, "fn") {
            TokenType::Function
        } else if str_equal(word, "true") {
            TokenType::True
        } else if str_equal(word, "false") {
            TokenType::False
        } else if str_equal(word, "if") {
            TokenType::If
        } else if str_equal(word, "else") {
            TokenType::Else
        } else if str_equal(word, "return") {
            TokenType::Return
        } else {
            TokenType::Identifier
        }
    }

    /// Passes blanks, tabs and line ends, counting the line ends.
    fn skip_whitespace(&mut self)
        requires
            old(self).wf(),
        ensures
            final(self).wf(),
            final(self)@.input == old(self)@.input,
            (final(self)@.position, final(self)@.line) == after_whitespace(
                old(self)@.input,
                old(self)@.position,
                old(self)@.line,
            ),
            old(self)@.position <= final(self)@.position,
    {
        loop
            invariant
                self.wf(),
                self@.input == old(self)@.input,
                old(self)@.position <= self@.position,
                after_whitespace(self@.input, self@.position, self@.line) == after_whitespace(
                    old(self)@.input,
                    old(self)@.position,
                    old(self)@.line,
                ),
            ensures
                self.wf(),
                self@.input == old(self)@.input,
                old(self)@.position <= self@.position,
                (self@.position, self@.line) == after_whitespace(
                    old(self)@.input,
                    old(self)@.position,
                    old(self)@.line,
                ),
            decreases self.input@.len() - self.position,
        {
            if self.position >= self.input.len() {
                break ;
            }
            if self.ch == ' ' || self.ch == '\t' {
                self.read_char();
            } else if self.ch == '\n' || self.ch == '\r' {
                if self.line < usize::MAX {
                    self.line = self.line + 1;
                }
                self.read_char();
            } else {
                break ;
            }
        }
    }

    /// Passes comments, each from `//` to the end of its line, and the
    /// whitespace behind each.
    fn skip_comments(&mut self)
        requires
            old(self).wf(),
        ensures
            final(self).wf(),
            final(self)@.input == old(self)@.input,
            (final(self)@.position, final(self)@.line) == after_comments(
                old(self)@.input,
                old(self)@.position,
                old(self)@.line,
            ),
            old(self)@.position <= final(self)@.position,
    {
        loop
            invariant
                self.wf(),
                self@.input == old(self)@.input,
                old(self)@.position <= self@.position,
                after_comments(self@.input, self@.position, self@.line) == after_comments(
                    old(self)@.input,
                    old(self)@.position,
                    old(self)@.line,
                ),
            ensures
                self.wf(),
                self@.input == old(self)@.input,
                old(self)@.position <= self@.position,
                (self@.position, self@.line) == after_comments(
                    old(self)@.input,
                    old(self)@.position,
                    old(self)@.line,
                ),
            decreases self.input@.len() - self.position,
        {
            if self.ch == '/' && self.peek_char() == '/' {
                let ghost start = self@.position;
                let ghost line = self@.line;
                self.read_char();
                while self.position < self.input.len() && self.ch != '\n' && self.ch != '\0'
                    invariant
                        self.wf(),
                        self@.input == old(self)@.input,
                        self@.line == line,
                        start < self@.position,
                        comment_end(self@.input, self@.position) == comment_end(
                            self@.input,
                            start + 1,
                        ),
                    decreases self.input@.len() - self.position,
                {
                    self.read_char();
                }
                self.skip_whitespace();
            } else {
                break ;
            }
        }
    }
}

/// Whether two pieces of text hold the same characters.
pub fn str_equal(a: &str, b: &str) -> (same: bool)
    ensures
        same == (a@ == b@),
{
    let n = a.unicode_len();
    if n != b.unicode_len() {
        return false;
    }
    let mut i: usize = 0;
    while i < n
        invariant
            n == a@.len(),
            n == b@.len(),
            i <= n,
            a@.subrange(0, i as int) == b@.subrange(0, i as int),
        decreases n - i,
    {
        if a.get_char(i) != b.get_char(i) {
            return false;
        }
        i = i + 1;
        assert(a@.subrange(0, i as int) =~= a@.subrange(0, i - 1).push(a@[i - 1]));
        assert(b@.subrange(0, i as int) =~= b@.subrange(0, i - 1).push(b@[i - 1]));
    }
    assert(a@ =~= a@.subrange(0, n as int));
    assert(b@ =~= b@.subrange(0, n as int));
    true
}

} // verus!
