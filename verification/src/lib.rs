//! A small Lisp: a tokenizer, a reader that makes expressions of tokens,
//! environments of nested scopes, and an evaluator with a few special forms
//! and primitive functions.
//!
//! Source text goes through [`tokenizer`] and [`parser`] and becomes an
//! expression of [`types`]; [`env`] evaluates it in an environment, with the
//! primitives of [`builtins`]; [`repl`] does all of this for one line of
//! input. What the functions do is stated over mathematical values: the
//! grammar of tokens in [`tokenizer`], the reader in [`parser`], the text of
//! an expression in [`types`], evaluation in [`semantics`]. [`laws`] and
//! [`round_trip`] hold what follows from these statements.
//!
//! Nothing here reads or writes: what a program prints is handed back as
//! lines, for the caller to print. The functions that take an expression
//! apart go as deep as the expression is nested, so that the depth of an
//! expression is limited by the call stack.

pub mod builtins;
pub mod decimal;
pub mod env;
pub mod laws;
pub mod message;
pub mod order;
pub mod parser;
pub mod repl;
pub mod round_trip;
pub mod semantics;
pub mod text;
pub mod tokenizer;
pub mod types;
