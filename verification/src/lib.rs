//! KeyForge: a small embeddable command language.
//!
//! The crate holds the interpreter engine: the tokenizer, the value model,
//! the variable store, the expression evaluator, the command dispatcher and
//! the control-flow engine. Input acquisition, console output and file
//! access live outside, behind the `Host` trait.

pub mod arith;
pub mod b64;
pub mod errors;
pub mod exec;
pub mod expr;
pub mod float;
pub mod interp;
pub mod numtext;
pub mod parse;
pub mod rng;
pub mod resolve;
pub mod state;
pub mod store;
pub mod text;
pub mod tokenize;
pub mod value;
