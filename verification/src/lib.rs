//! A small dynamically typed expression language: a scanner and Pratt parser,
//! a bytecode compiler with a scope-aware symbol table, and a stack machine
//! that runs the emitted instruction stream.

pub mod code;
pub mod common;
pub mod compiler;
pub mod parser;
pub mod scanner;
pub mod text;
pub mod vm;
