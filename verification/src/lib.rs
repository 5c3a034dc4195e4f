//! The core of nice-expr, a small language of expressions: the values and
//! types of the language, its environment of scopes, its operators and
//! functions, and the evaluator, each with a verified contract.
//!
//! A program is a syntax tree ([`ast`]). It is evaluated by a
//! [`machine::Machine`], which [`interpreter::Interpreter::step`] moves one
//! step at a time, as [`semantics::transition`] says. The machine does not
//! write, read or compute with decimals itself: it asks its driver to, with
//! a [`machine::Action`], and takes the answer as a [`machine::Event`].
//!
//! The rules that the steps apply are functions of their own: the
//! operators on values ([`operators`]), the functions that every program
//! starts with ([`builtin`]), and the bindings of names ([`env`]). What
//! holds of them whatever the values is proved in [`laws`].

pub mod arith;
pub mod ast;
pub mod builtin;
pub mod dec;
pub mod env;
pub mod error;
pub mod interpreter;
pub mod laws;
pub mod machine;
pub mod operators;
pub mod semantics;
pub mod text;
pub mod types;
pub mod util;
pub mod value;
