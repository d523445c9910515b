//! The stack machine that runs compiled programs.

pub mod balance;
pub mod frame;
pub mod interpreter;
pub mod state;
