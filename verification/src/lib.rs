//! A verified parser and evaluator for a minimal stack-based language:
//! single-character operators over an operand stack, 26 global variables,
//! and nestable executable blocks for conditionals, loops, and first-class
//! code values.
//!
//! `ast` holds the instruction tree, `parser` turns source text into it,
//! `semantics` states what running a program means as a small-step
//! machine, `interpreter` executes that machine, and `laws` proves the
//! language-level properties the semantics guarantees.

pub mod ast;
pub mod semantics;
pub mod interpreter;
pub mod laws;
pub mod parser;
