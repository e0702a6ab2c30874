//! Literals: an identifier with an optional call-argument list.

use super::grammar::{spec_parse_literal, spec_skip_ws, SpecLiteral};
use super::tuple::{tuple_at, Tuple};
use super::util::{rest_from, skip_whitespace};
use super::{ident_text_at, Ident, ParseError};
use vstd::prelude::*;

verus! {

/// An identifier optionally followed by a call-argument list.
///
/// `call_arguments` of `None` is a bare variable reference; `Some` of an
/// empty tuple is a call with zero arguments.  The two are distinct.
#[derive(Debug, PartialEq, Eq)]
pub struct Literal {
    pub ident: Ident,
    pub call_arguments: Option<Tuple>,
}

/// A literal at `pos`: an identifier, then (after whitespace) an optional
/// argument tuple.
pub(crate) fn literal_at(s: &str, pos: usize) -> (r: Option<(usize, Literal)>)
    requires
        pos <= s@.len(),
    ensures
        match r {
            Some((p, l)) => spec_parse_literal(s@, pos as int) == Some((p as int, l@)) && pos < p
                <= s@.len(),
            None => spec_parse_literal(s@, pos as int) is None,
        },
    decreases s@.len() - pos, 2int,
{
    match ident_text_at(s, pos) {
        Some((p1, text)) => {
            let q = skip_whitespace(s, p1);
            match tuple_at(s, q) {
                Some((p2, t)) => Some(
                    (p2, Literal { ident: Ident(text), call_arguments: Some(t) }),
                ),
                None => Some((p1, Literal { ident: Ident(text), call_arguments: None })),
            }
        },
        None => None,
    }
}

impl Literal {
    /// Parse a literal at the start of `input`.
    pub fn parse(input: &str) -> (r: Result<(&str, Literal), ParseError>)
        ensures
            match spec_parse_literal(input@, 0) {
                Some((p, l)) => r matches Ok(ok) && ok.0@ == input@.subrange(
                    p,
                    input@.len() as int,
                ) && ok.1@ == l,
                None => r == Err::<(&str, Literal), ParseError>(ParseError { at: 0 }),
            },
    {
        match literal_at(input, 0) {
            Some((p, l)) => Ok((rest_from(input, p), l)),
            None => Err(ParseError { at: 0 }),
        }
    }

    /// Parse a literal after any leading whitespace.
    pub fn parse_ws(input: &str) -> (r: Result<(&str, Literal), ParseError>)
        ensures
            match spec_parse_literal(input@, spec_skip_ws(input@, 0)) {
                Some((p, l)) => r matches Ok(ok) && ok.0@ == input@.subrange(
                    p,
                    input@.len() as int,
                ) && ok.1@ == l,
                None => r is Err,
            },
    {
        let q = skip_whitespace(input, 0);
        match literal_at(input, q) {
            Some((p, l)) => Ok((rest_from(input, p), l)),
            None => Err(ParseError { at: q }),
        }
    }
}

} // verus!
