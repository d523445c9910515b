use vstd::prelude::*;

use crate::text::{decimal, push_decimal};

verus! {

/// An error found while compiling, with the source line it is about.
#[derive(Debug)]
pub struct CompileError {
    pub msg: String,
    pub line: usize,
}

/// The printed form of an error: the line in square brackets, the kind of
/// error and the message.
pub open spec fn error_text(kind: Seq<char>, msg: Seq<char>, line: usize) -> Seq<char> {
    "[line "@ + decimal(line as nat) + "] "@ + kind + ": "@ + msg
}

/// Writes an error out as `error_text` says.
fn render(kind: &str, msg: &str, line: usize) -> (text: String)
    ensures
        text@ == error_text(kind@, msg@, line),
{
    let mut text = "[line ".to_owned();
    push_decimal(&mut text, line);
    text.append("] ");
    text.append(kind);
    text.append(": ");
    text.append(msg);
    text
}

impl CompileError {
    pub fn new(msg: &str, line: usize) -> (err: CompileError)
        ensures
            err.msg@ == msg@,
            err.line == line,
    {
        CompileError { msg: msg.to_owned(), line }
    }

    /// The printed form of the error.
    pub fn to_string(&self) -> (text: String)
        ensures
            text@ == error_text("compile error"@, self.msg@, self.line),
    {
        render("compile error", self.msg.as_str(), self.line)
    }
}

/// An error met while running, with the source line of the instruction that
/// met it.
#[derive(Debug)]
pub struct RTError {
    pub msg: String,
    pub line: usize,
}

impl RTError {
    pub fn new(msg: &str, line: usize) -> (err: RTError)
        ensures
            err.msg@ == msg@,
            err.line == line,
    {
        RTError { msg: msg.to_owned(), line }
    }

    /// The printed form of the error.
    pub fn to_string(&self) -> (text: String)
        ensures
            text@ == error_text("Runtime error"@, self.msg@, self.line),
    {
        render("Runtime error", self.msg.as_str(), self.line)
    }
}

} // verus!
