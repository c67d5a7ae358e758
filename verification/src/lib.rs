//! The verified core of an interactive line calculator.
//!
//! The core turns a line of text into tokens, validates and parses the two
//! operand tokens, dispatches an operator over signed 64-bit integers, and
//! renders the outcome back to text.  Every step carries a contract that
//! pins its result down exactly; the surrounding program only reads lines
//! and prints what the core hands back.

pub mod text;

pub mod parse;

pub mod eval;

pub mod render;

pub mod session;
