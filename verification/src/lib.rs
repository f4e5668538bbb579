//! A small boolean query language over chemical-element facts.
//!
//! A query string such as `"z == 1 || (group == 1 && period >= 2)"` is parsed
//! into an expression tree and evaluated against one element's facts at a
//! time, yielding a boolean verdict or a descriptive error.

pub mod ast;
pub mod elements;
pub mod eval;
pub mod parser;
pub mod query;
pub mod value;
