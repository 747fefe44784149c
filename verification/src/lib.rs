//! A tree-walking interpreter for a small scripting language built around a
//! five-valued status type.  Errors, pending states and unknowns propagate
//! through ordinary expressions as status values instead of exceptions.
//!
//! The execution engine walks a flat token sequence with an instruction
//! pointer, using a precomputed brace-matching index for O(1) block skips and
//! explicit scope, loop and call stacks for all control flow.

pub mod engine;
pub mod logic;
pub mod memory;
pub mod parser;
pub mod stdlib;
pub mod tokens;
pub mod types;
