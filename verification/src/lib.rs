//! A small S-expression language: tokenizer, parser, scope arena and a
//! depth-bounded tree-walking evaluator with lexical closures.
//!
//! The functions here are verified against a mathematical model of the
//! language. What is believed and not verified is how the hash maps of
//! `rustc_hash` behave, which the private wrappers of [`env`] state, and
//! what `String::push` and `==` on string slices do, which [`lexer`]
//! states.
//!
//! - [`lexer`] and [`grammar`] say what the tokens of a text and the parse
//!   of a token sequence are, and [`parser`] computes them;
//! - [`model`] describes values, scopes and the scope store, and
//!   [`semantics`] gives the meaning of evaluation over them;
//! - [`env`] holds the store in hash maps of `rustc_hash`, and [`eval`]
//!   is the evaluator;
//! - [`scoping`] proves what makes scoping lexical: evaluation in one
//!   scope leaves the others alone, and a closure keeps access to what it
//!   captured;
//! - [`depth`] proves that the depth given to an evaluation is only a
//!   bound, and [`numeric`] that numbers stay numbers.
//!
//! Numbers are kept in exact symbolic form (literals as written, and
//! products of them), so evaluation is deterministic and free of
//! rounding; lowering a [`number::Number`] to a machine representation is
//! left to the caller.
pub mod depth;
pub mod env;
pub mod error;
pub mod eval;
pub mod grammar;
pub mod lexer;
pub mod model;
pub mod number;
pub mod numeric;
pub mod parser;
pub mod scoping;
pub mod semantics;
pub mod syntax;
