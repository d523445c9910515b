//! The instruction set and its byte encoding.

pub mod balance;
pub mod definitions;
pub mod opcode;
