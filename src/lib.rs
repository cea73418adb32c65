//! Arithmetic expressions over 64-bit integers: a lexer from text to
//! tokens, a precedence-climbing parser from tokens to a syntax tree, an
//! evaluator and an outline printer over that tree.
use vstd::prelude::*;

pub mod ast;
pub mod evaluator;
pub mod lexer;
pub mod parser;

verus! {

} // verus!
