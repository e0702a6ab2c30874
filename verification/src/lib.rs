//! A recursive-descent parser for a small imperative language.
//!
//! Source text is turned into an abstract syntax tree: a program is a list
//! of functions, a function body is a list of statements, and expressions
//! follow the usual operator precedence (logical or, logical and, addition,
//! subtraction, multiplication, division, unary not/negate, atoms).
//!
//! The grammar itself is written down once, as specification functions over
//! `Seq<char>` (see `parse::grammar`); every executable parser is proved to
//! return exactly what the specification grammar says.

pub mod compile;
pub mod parse;
