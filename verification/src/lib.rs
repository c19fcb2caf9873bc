//! A small parser-combinator toolkit together with a grammar, built on it,
//! for a simplified XML-like element syntax.
//!
//! A parser is a value of the [`parser::Parser`] type; running it over an
//! input view either produces a typed value and the remaining view, or fails
//! carrying a view. The meaning of every parser is given by the spec
//! interpreter in [`model`], and the executable interpreter is verified
//! against it, so parsing is deterministic by construction.

pub mod combinators;
pub mod model;
pub mod parser;
pub mod xml;
