//! Call-argument tuples.

use super::expression::{expression_at, Expression};
use super::grammar::{
    spec_parse_tuple, spec_skip_ws, spec_tuple_items, spec_tuple_more, SpecExpression,
};
use super::util::{rest_from, skip_whitespace};
use super::views::{expr_view, exprs_view, lemma_exprs_view_push};
use super::ParseError;
use vstd::prelude::*;

verus! {

broadcast use vstd::seq::group_seq_axioms;

/// A parenthesized, comma-separated list of expressions: the arguments of a
/// call.
#[derive(Debug, PartialEq, Eq)]
pub struct Tuple(pub Vec<Expression>);

impl Tuple {
    /// The empty tuple: a call with zero arguments.
    pub fn new() -> (r: Tuple)
        ensures
            r@ =~= Seq::<SpecExpression>::empty(),
    {
        Tuple(Vec::new())
    }

    /// Parse an argument tuple at the start of `input`.
    pub fn parse(input: &str) -> (r: Result<(&str, Tuple), ParseError>)
        ensures
            match spec_parse_tuple(input@, 0) {
                Some((p, items)) => r matches Ok(ok) && ok.0@ == input@.subrange(
                    p,
                    input@.len() as int,
                ) && ok.1@ == items,
                None => r == Err::<(&str, Tuple), ParseError>(ParseError { at: 0 }),
            },
    {
        match tuple_at(input, 0) {
            Some((p, t)) => Ok((rest_from(input, p), t)),
            None => Err(ParseError { at: 0 }),
        }
    }

    /// Parse an argument tuple after any leading whitespace.
    pub fn parse_ws(input: &str) -> (r: Result<(&str, Tuple), ParseError>)
        ensures
            match spec_parse_tuple(input@, spec_skip_ws(input@, 0)) {
                Some((p, items)) => r matches Ok(ok) && ok.0@ == input@.subrange(
                    p,
                    input@.len() as int,
                ) && ok.1@ == items,
                None => r is Err,
            },
    {
        let q = skip_whitespace(input, 0);
        match tuple_at(input, q) {
            Some((p, t)) => Ok((rest_from(input, p), t)),
            None => Err(ParseError { at: q }),
        }
    }
}

/// Zero or more comma-separated expressions at `pos`; never fails.
pub(crate) fn tuple_items_at(s: &str, pos: usize) -> (r: (usize, Vec<Expression>))
    requires
        pos <= s@.len(),
    ensures
        spec_tuple_items(s@, pos as int).0 == r.0 as int,
        spec_tuple_items(s@, pos as int).1 =~= exprs_view(r.1@),
        pos <= r.0 <= s@.len(),
    decreases s@.len() - pos, 23int,
{
    let n = s.unicode_len();
    let e = skip_whitespace(s, pos);
    match expression_at(s, e) {
        None => (pos, Vec::new()),
        Some((p1, v1)) => {
            let ghost v1v = expr_view(&v1);
            let ghost full = spec_tuple_more(s@, p1 as int);
            let mut items: Vec<Expression> = Vec::new();
            proof {
                lemma_exprs_view_push(items@, v1);
            }
            items.push(v1);
            let mut cur = p1;
            let mut done = false;
            while !done
                invariant
                    pos < cur <= n == s@.len(),
                    items@.len() >= 1,
                    spec_tuple_more(s@, cur as int).0 == full.0,
                    exprs_view(items@) + spec_tuple_more(s@, cur as int).1 =~= seq![v1v] + full.1,
                    done ==> spec_tuple_more(s@, cur as int).0 == cur as int,
                    done ==> spec_tuple_more(s@, cur as int).1 =~= Seq::<SpecExpression>::empty(),
                decreases n - cur + (if done { 0int } else { 1int }),
            {
                let q = skip_whitespace(s, cur);
                if q < n && s.get_char(q) == ',' {
                    let e2 = skip_whitespace(s, q + 1);
                    match expression_at(s, e2) {
                        Some((p2, v2)) => {
                            proof {
                                lemma_exprs_view_push(items@, v2);
                            }
                            items.push(v2);
                            cur = p2;
                        },
                        None => {
                            done = true;
                        },
                    }
                } else {
                    done = true;
                }
            }
            proof {
                assert(exprs_view(items@) =~= seq![v1v] + full.1);
            }
            (cur, items)
        },
    }
}

/// A parenthesized argument tuple at `pos`.
pub(crate) fn tuple_at(s: &str, pos: usize) -> (r: Option<(usize, Tuple)>)
    requires
        pos <= s@.len(),
    ensures
        match r {
            Some((p, t)) => spec_parse_tuple(s@, pos as int) == Some((p as int, t@)) && pos < p
                <= s@.len(),
            None => spec_parse_tuple(s@, pos as int) is None,
        },
    decreases s@.len() - pos, 24int,
{
    let n = s.unicode_len();
    if pos < n && s.get_char(pos) == '(' {
        let (p1, items) = tuple_items_at(s, pos + 1);
        let q = skip_whitespace(s, p1);
        if q < n && s.get_char(q) == ')' {
            Some((q + 1, Tuple(items)))
        } else {
            None
        }
    } else {
        None
    }
}

} // verus!
