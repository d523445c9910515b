//! What the compiler and the machine share: errors and run-time values.

pub mod builtins;
pub mod error;
pub mod number;
pub mod object;
pub mod shared;
