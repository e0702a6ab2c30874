//! Keyword tokenizers.
//!
//! Each keyword matches its exact text, provided the text is not immediately
//! followed by an identifier character: `iffy` and `lettuce` are
//! identifiers, not keywords.

use super::grammar::{
    kw_else, kw_function, kw_if, kw_let, kw_return, kw_while, spec_match_keyword,
};
use super::util::{match_keyword, rest_from};
use super::ParseError;
use vstd::prelude::*;

verus! {

/// The `function` keyword.
pub struct Function {}

/// The `if` keyword.
pub struct If {}

/// The `else` keyword.
pub struct Else {}

/// The `while` keyword.
pub struct While {}

/// The `return` keyword.
pub struct Return {}

/// The `let` keyword.
pub struct Let {}

impl Function {
    /// Parse the `function` keyword at the start of `input`.
    pub fn parse(input: &str) -> (r: Result<(&str, Function), ParseError>)
        ensures
            match spec_match_keyword(input@, 0, kw_function()) {
                Some(p) => r matches Ok(ok) && ok.0@ == input@.subrange(p, input@.len() as int),
                None => r is Err,
            },
    {
        proof {
            reveal_strlit("function");
            assert("function"@ =~= kw_function());
        }
        match match_keyword(input, 0, "function") {
            Some(p) => Ok((rest_from(input, p), Function {})),
            None => Err(ParseError { at: 0 }),
        }
    }
}

impl If {
    /// Parse the `if` keyword at the start of `input`.
    pub fn parse(input: &str) -> (r: Result<(&str, If), ParseError>)
        ensures
            match spec_match_keyword(input@, 0, kw_if()) {
                Some(p) => r matches Ok(ok) && ok.0@ == input@.subrange(p, input@.len() as int),
                None => r is Err,
            },
    {
        proof {
            reveal_strlit("if");
            assert("if"@ =~= kw_if());
        }
        match match_keyword(input, 0, "if") {
            Some(p) => Ok((rest_from(input, p), If {})),
            None => Err(ParseError { at: 0 }),
        }
    }
}

impl Else {
    /// Parse the `else` keyword at the start of `input`.
    pub fn parse(input: &str) -> (r: Result<(&str, Else), ParseError>)
        ensures
            match spec_match_keyword(input@, 0, kw_else()) {
                Some(p) => r matches Ok(ok) && ok.0@ == input@.subrange(p, input@.len() as int),
                None => r is Err,
            },
    {
        proof {
            reveal_strlit("else");
            assert("else"@ =~= kw_else());
        }
        match match_keyword(input, 0, "else") {
            Some(p) => Ok((rest_from(input, p), Else {})),
            None => Err(ParseError { at: 0 }),
        }
    }
}

impl While {
    /// Parse the `while` keyword at the start of `input`.
    pub fn parse(input: &str) -> (r: Result<(&str, While), ParseError>)
        ensures
            match spec_match_keyword(input@, 0, kw_while()) {
                Some(p) => r matches Ok(ok) && ok.0@ == input@.subrange(p, input@.len() as int),
                None => r is Err,
            },
    {
        proof {
            reveal_strlit("while");
            assert("while"@ =~= kw_while());
        }
        match match_keyword(input, 0, "while") {
            Some(p) => Ok((rest_from(input, p), While {})),
            None => Err(ParseError { at: 0 }),
        }
    }
}

impl Return {
    /// Parse the `return` keyword at the start of `input`.
    pub fn parse(input: &str) -> (r: Result<(&str, Return), ParseError>)
        ensures
            match spec_match_keyword(input@, 0, kw_return()) {
                Some(p) => r matches Ok(ok) && ok.0@ == input@.subrange(p, input@.len() as int),
                None => r is Err,
            },
    {
        proof {
            reveal_strlit("return");
            assert("return"@ =~= kw_return());
        }
        match match_keyword(input, 0, "return") {
            Some(p) => Ok((rest_from(input, p), Return {})),
            None => Err(ParseError { at: 0 }),
        }
    }
}

impl Let {
    /// Parse the `let` keyword at the start of `input`.
    pub fn parse(input: &str) -> (r: Result<(&str, Let), ParseError>)
        ensures
            match spec_match_keyword(input@, 0, kw_let()) {
                Some(p) => r matches Ok(ok) && ok.0@ == input@.subrange(p, input@.len() as int),
                None => r is Err,
            },
    {
        proof {
            reveal_strlit("let");
            assert("let"@ =~= kw_let());
        }
        match match_keyword(input, 0, "let") {
            Some(p) => Ok((rest_from(input, p), Let {})),
            None => Err(ParseError { at: 0 }),
        }
    }
}

} // verus!
