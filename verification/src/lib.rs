//! A zero-copy parser-combinator core: small parsers on borrowed input, and the
//! operators that compose them, each with a contract over the parsers it is given.
//!
//! - `outcome`: what a parser hands back;
//! - `error`: the error representations, from none to a chain;
//! - `input`: the cursor and what can be asked of it;
//! - `parser`: what it means to apply a parser that is given as a function;
//! - `primitive`: one character, a literal, a span;
//! - `sequence`, `combinator`, `branch`, `multi`, `context`: the operators;
//! - `progress`: no parser leaves more input than it was given.

pub mod branch;
pub mod combinator;
pub mod context;
pub mod error;
pub mod input;
pub mod multi;
pub mod outcome;
pub mod parser;
pub mod primitive;
pub mod progress;
pub mod sequence;
