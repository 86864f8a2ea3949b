//! A verified interpreter for Brainfuck programs running on a fixed tape of
//! 30000 byte cells.

pub mod brackets;
pub mod context;
pub mod error;
pub mod instruction;
pub mod laws;
pub mod machine;
