//! A small scripting language, verified with Verus. Source text is parsed
//! into statements, and the statements are run against a store of named
//! values, each a 64-bit integer or an array of them.
//!
//! - [`ir`]: the statements, expressions and literals of a program.
//! - [`lexer`] and [`grammar`]: what the tokens of a text are, and what
//!   program a text is.
//! - [`parser`]: [`parser::parse`], which reads a text as the grammar says.
//! - [`value`] and [`semantics`]: the values, the line that printing one
//!   emits, and what running a statement means.
//! - [`interpreter`]: [`interpreter::Interpreter`], which runs statements as
//!   the semantics say.
//! - [`session`]: [`session::respond`], which parses a text and runs it.
//! - [`laws`] and [`round_trip`]: what holds of every program, proved from
//!   the definitions.

pub mod grammar;
pub mod interpreter;
pub mod ir;
pub mod laws;
pub mod lexer;
pub mod parser;
pub mod round_trip;
pub mod semantics;
pub mod session;
pub mod value;
