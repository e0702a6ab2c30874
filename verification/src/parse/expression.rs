//! Expressions and the executable precedence ladder.

use super::grammar::{
    level_op, spec_atom, spec_chain, spec_chain_more, spec_negative, spec_not, spec_operand,
    spec_parse_expression, spec_skip_ws, spec_value_expr, SpecExpression,
};
use super::literal::{literal_at, Literal};
use super::util::{rest_from, skip_whitespace};
use super::value::{value_at, Value};
use super::views::{expr_view, exprs_view, lemma_exprs_view_push};
use super::ParseError;
use vstd::prelude::*;

verus! {

broadcast use vstd::seq::group_seq_axioms;

/// An expression tree.
///
/// Each n-ary variant holds the operands of one left-flattened chain of the
/// same operator, in source order.  The parser never produces an n-ary
/// variant with a single child: such a chain collapses to the child itself.
#[derive(Debug, PartialEq, Eq)]
pub enum Expression {
    Or(Vec<Expression>),
    And(Vec<Expression>),
    Add(Vec<Expression>),
    Subtract(Vec<Expression>),
    Multiply(Vec<Expression>),
    Divide(Vec<Expression>),
    Not(Box<Expression>),
    Negative(Box<Expression>),
    Literal(Literal),
    Value(Value),
}

/// The operator character of a precedence level.
fn level_op_char(lvl: u8) -> (c: char)
    requires
        lvl <= 5,
    ensures
        c == level_op(lvl as int),
{
    if lvl == 0 {
        '|'
    } else if lvl == 1 {
        '&'
    } else if lvl == 2 {
        '+'
    } else if lvl == 3 {
        '-'
    } else if lvl == 4 {
        '*'
    } else {
        '/'
    }
}

/// Wrap collected operands in the level's variant, collapsing a chain of a
/// single operand to that operand.
fn level_node_of(lvl: u8, items: Vec<Expression>) -> (r: Expression)
    requires
        lvl <= 5,
        items@.len() >= 1,
    ensures
        r@ == crate::parse::grammar::level_node(lvl as int, exprs_view(items@)),
{
    proof {
        lemma_exprs_view_len(items@);
    }
    let ghost orig = items@;
    let mut items = items;
    if items.len() == 1 {
        let x = items.pop().unwrap();
        proof {
            assert(x == orig[0]);
            assert(exprs_view(orig) == seq![expr_view(&orig[0])] + exprs_view(orig.drop_first()));
            assert(exprs_view(orig)[0] == expr_view(&orig[0]));
        }
        x
    } else {
        if lvl == 0 {
            Expression::Or(items)
        } else if lvl == 1 {
            Expression::And(items)
        } else if lvl == 2 {
            Expression::Add(items)
        } else if lvl == 3 {
            Expression::Subtract(items)
        } else if lvl == 4 {
            Expression::Multiply(items)
        } else {
            Expression::Divide(items)
        }
    }
}

/// A vector's view has the vector's length.
pub proof fn lemma_exprs_view_len(v: Seq<Expression>)
    ensures
        exprs_view(v).len() == v.len(),
    decreases v.len(),
{
    if v.len() > 0 {
        lemma_exprs_view_len(v.drop_first());
    }
}

/// A value literal or a parenthesized expression at `pos`.
pub(crate) fn value_expr_at(s: &str, pos: usize) -> (r: Option<(usize, Expression)>)
    requires
        pos <= s@.len(),
    ensures
        match r {
            Some((p, e)) => spec_value_expr(s@, pos as int) == Some((p as int, e@)) && pos < p
                <= s@.len(),
            None => spec_value_expr(s@, pos as int) is None,
        },
    decreases s@.len() - pos, 2int,
{
    match value_at(s, pos) {
        Some((p, v)) => Some((p, Expression::Value(v))),
        None => {
            let n = s.unicode_len();
            if pos < n && s.get_char(pos) == '(' {
                let e = skip_whitespace(s, pos + 1);
                match expression_at(s, e) {
                    Some((p1, v)) => {
                        let q = skip_whitespace(s, p1);
                        if q < n && s.get_char(q) == ')' {
                            Some((q + 1, v))
                        } else {
                            None
                        }
                    },
                    None => None,
                }
            } else {
                None
            }
        },
    }
}

/// An atom at `pos`: a value or parenthesized expression, else a literal.
pub(crate) fn atom_at(s: &str, pos: usize) -> (r: Option<(usize, Expression)>)
    requires
        pos <= s@.len(),
    ensures
        match r {
            Some((p, e)) => spec_atom(s@, pos as int) == Some((p as int, e@)) && pos < p
                <= s@.len(),
            None => spec_atom(s@, pos as int) is None,
        },
    decreases s@.len() - pos, 3int,
{
    match value_expr_at(s, pos) {
        Some(r) => Some(r),
        None => match literal_at(s, pos) {
            Some((p, l)) => Some((p, Expression::Literal(l))),
            None => None,
        },
    }
}

/// A unary `-` applied to an atom at `pos`, else a bare atom.
pub(crate) fn negative_at(s: &str, pos: usize) -> (r: Option<(usize, Expression)>)
    requires
        pos <= s@.len(),
    ensures
        match r {
            Some((p, e)) => spec_negative(s@, pos as int) == Some((p as int, e@)) && pos < p
                <= s@.len(),
            None => spec_negative(s@, pos as int) is None,
        },
    decreases s@.len() - pos, 4int,
{
    let n = s.unicode_len();
    if pos < n && s.get_char(pos) == '-' {
        match atom_at(s, pos + 1) {
            Some((p, e)) => Some((p, Expression::Negative(Box::new(e)))),
            None => atom_at(s, pos),
        }
    } else {
        atom_at(s, pos)
    }
}

/// A unary `!` applied to an atom at `pos`, else a `negative`.
pub(crate) fn not_at(s: &str, pos: usize) -> (r: Option<(usize, Expression)>)
    requires
        pos <= s@.len(),
    ensures
        match r {
            Some((p, e)) => spec_not(s@, pos as int) == Some((p as int, e@)) && pos < p
                <= s@.len(),
            None => spec_not(s@, pos as int) is None,
        },
    decreases s@.len() - pos, 5int,
{
    let n = s.unicode_len();
    if pos < n && s.get_char(pos) == '!' {
        match atom_at(s, pos + 1) {
            Some((p, e)) => Some((p, Expression::Not(Box::new(e)))),
            None => negative_at(s, pos),
        }
    } else {
        negative_at(s, pos)
    }
}

/// One operand of level `lvl`.
pub(crate) fn operand_at(s: &str, pos: usize, lvl: u8) -> (r: Option<(usize, Expression)>)
    requires
        pos <= s@.len(),
        lvl <= 5,
    ensures
        match r {
            Some((p, e)) => spec_operand(s@, pos as int, lvl as int) == Some((p as int, e@)) && pos
                < p <= s@.len(),
            None => spec_operand(s@, pos as int, lvl as int) is None,
        },
    decreases s@.len() - pos, 19 - 2 * (lvl as int),
{
    if lvl < 5 {
        chain_at(s, pos, lvl + 1)
    } else {
        not_at(s, pos)
    }
}

/// A chain of level `lvl`: operands of the next tighter level separated by
/// the level's operator, collapsed by `level_node_of`.
pub(crate) fn chain_at(s: &str, pos: usize, lvl: u8) -> (r: Option<(usize, Expression)>)
    requires
        pos <= s@.len(),
        lvl <= 5,
    ensures
        match r {
            Some((p, e)) => spec_chain(s@, pos as int, lvl as int) == Some((p as int, e@)) && pos
                < p <= s@.len(),
            None => spec_chain(s@, pos as int, lvl as int) is None,
        },
    decreases s@.len() - pos, 20 - 2 * (lvl as int),
{
    let n = s.unicode_len();
    let e1 = skip_whitespace(s, pos);
    match operand_at(s, e1, lvl) {
        None => None,
        Some((p1, v1)) => {
            let ghost v1v = expr_view(&v1);
            let ghost full = spec_chain_more(s@, p1 as int, lvl as int);
            let mut items: Vec<Expression> = Vec::new();
            proof {
                lemma_exprs_view_push(items@, v1);
            }
            items.push(v1);
            let mut cur = p1;
            let mut done = false;
            while !done
                invariant
                    pos < cur <= n == s@.len(),
                    lvl <= 5,
                    items@.len() >= 1,
                    spec_chain_more(s@, cur as int, lvl as int).0 == full.0,
                    exprs_view(items@) + spec_chain_more(s@, cur as int, lvl as int).1 =~= seq![
                        v1v,
                    ] + full.1,
                    done ==> spec_chain_more(s@, cur as int, lvl as int).0 == cur as int,
                    done ==> spec_chain_more(s@, cur as int, lvl as int).1 =~= Seq::<
                        SpecExpression,
                    >::empty(),
                decreases n - cur + (if done { 0int } else { 1int }),
            {
                let q = skip_whitespace(s, cur);
                let opc = level_op_char(lvl);
                if q < n && s.get_char(q) == opc {
                    let e2 = skip_whitespace(s, q + 1);
                    match operand_at(s, e2, lvl) {
                        Some((p2, v2)) => {
                            proof {
                                lemma_exprs_view_push(items@, v2);
                            }
                            items.push(v2);
                            cur = p2;
                        },
                        None => {
                            done = true;
                        },
                    }
                } else {
                    done = true;
                }
            }
            proof {
                assert(exprs_view(items@) =~= seq![v1v] + full.1);
            }
            let node = level_node_of(lvl, items);
            Some((cur, node))
        },
    }
}

/// A full expression at `pos`: the lowest-precedence chain.
pub(crate) fn expression_at(s: &str, pos: usize) -> (r: Option<(usize, Expression)>)
    requires
        pos <= s@.len(),
    ensures
        match r {
            Some((p, e)) => spec_parse_expression(s@, pos as int) == Some((p as int, e@)) && pos
                < p <= s@.len(),
            None => spec_parse_expression(s@, pos as int) is None,
        },
    decreases s@.len() - pos, 22int,
{
    chain_at(s, pos, 0)
}

impl Expression {
    /// Parse an expression at the start of `input`.
    pub fn parse(input: &str) -> (r: Result<(&str, Expression), ParseError>)
        ensures
            match spec_parse_expression(input@, 0) {
                Some((p, e)) => r matches Ok(ok) && ok.0@ == input@.subrange(
                    p,
                    input@.len() as int,
                ) && ok.1@ == e,
                None => r == Err::<(&str, Expression), ParseError>(ParseError { at: 0 }),
            },
    {
        match expression_at(input, 0) {
            Some((p, e)) => Ok((rest_from(input, p), e)),
            None => Err(ParseError { at: 0 }),
        }
    }

    /// Parse an expression after any leading whitespace.
    pub fn parse_ws(input: &str) -> (r: Result<(&str, Expression), ParseError>)
        ensures
            match spec_parse_expression(input@, spec_skip_ws(input@, 0)) {
                Some((p, e)) => r matches Ok(ok) && ok.0@ == input@.subrange(
                    p,
                    input@.len() as int,
                ) && ok.1@ == e,
                None => r is Err,
            },
    {
        let q = skip_whitespace(input, 0);
        match expression_at(input, q) {
            Some((p, e)) => Ok((rest_from(input, p), e)),
            None => Err(ParseError { at: q }),
        }
    }
}

} // verus!
