//! A line-oriented calculator with named memory slots.
//!
//! A line is split into tokens, and is then either a command that adds the
//! previous result to a slot or takes it from one, or an expression over
//! numbers, slots, the four operators and parentheses.
//!
//! The library never looks inside a number. It is generic in the type `V` of
//! its values and is handed the arithmetic as a function from an
//! [`arithmetic::Operation`] to its result, and the reading of a number as a
//! function from its spelling. What it guarantees is stated relative to what
//! those two functions promise.

pub mod arithmetic;
pub mod error;
pub mod eval;
pub mod grammar;
pub mod groups;
pub mod memory;
pub mod precedence;
pub mod session;
pub mod token;
pub mod words;
