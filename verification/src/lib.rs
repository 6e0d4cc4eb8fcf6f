//! A postfix (Reverse Polish Notation) arithmetic calculator core.
//!
//! The library tokenizes a whitespace-separated input line into operator and
//! number tokens, and evaluates a postfix token sequence with a value stack.
//! Numeric values are carried as the 64-bit IEEE-754 bit patterns of doubles;
//! the arithmetic itself is performed by the embedding program, which the
//! evaluation state machine directs one operation at a time.

pub mod eval;
pub mod literal;
pub mod token;
