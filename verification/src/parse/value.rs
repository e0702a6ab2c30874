//! Value literals: booleans, integers, and fractional numbers.

use super::grammar::{
    is_digit_char, kw_false, kw_true, spec_digits_end, spec_digits_val, spec_parse_bool,
    spec_parse_float, spec_parse_int, spec_parse_value, SpecValue,
};
use super::grammar::{
    lemma_digits_end_bounds, lemma_digits_end_chars, lemma_digits_val_mono,
    lemma_digits_val_nonneg,
};
use super::util::{match_tag, rest_from};
use super::ParseError;
use vstd::prelude::*;

verus! {

broadcast use vstd::seq::group_seq_axioms;

/// A literal value.
///
/// A fractional literal is kept as its two digit runs, each read as a
/// 64-bit signed integer, which is exactly what the grammar distinguishes;
/// unverified callers may turn the pair into a machine float.
#[derive(Clone, Debug, PartialEq, Eq)]
pub enum Value {
    Boolean(bool),
    Integer(i64),
    Float(i64, i64),
}

impl View for Value {
    type V = SpecValue;

    open spec fn view(&self) -> SpecValue {
        match self {
            Value::Boolean(b) => SpecValue::Boolean(*b),
            Value::Integer(n) => SpecValue::Integer(*n as int),
            Value::Float(w, f) => SpecValue::Float { whole: *w as int, frac: *f as int },
        }
    }
}

/// Index just past the run of decimal digits that starts at `pos`.
fn digits_end_at(s: &str, pos: usize) -> (r: usize)
    requires
        pos <= s@.len(),
    ensures
        r == spec_digits_end(s@, pos as int),
        pos <= r <= s@.len(),
{
    let n = s.unicode_len();
    let mut i = pos;
    while i < n
        invariant
            pos <= i <= n == s@.len(),
            spec_digits_end(s@, pos as int) == spec_digits_end(s@, i as int),
        decreases n - i,
    {
        let c = s.get_char(i);
        if '0' <= c && c <= '9' {
            i = i + 1;
        } else {
            assert(!is_digit_char(s@[i as int]));
            return i;
        }
    }
    i
}

/// A boolean literal at `pos`: the exact text `false` or `true`.
pub(crate) fn bool_at(s: &str, pos: usize) -> (r: Option<(usize, bool)>)
    requires
        pos <= s@.len(),
    ensures
        match r {
            Some((p, b)) => spec_parse_bool(s@, pos as int) == Some((p as int, b))
                && pos < p <= s@.len(),
            None => spec_parse_bool(s@, pos as int) is None,
        },
{
    proof {
        reveal_strlit("false");
        reveal_strlit("true");
        assert("false"@ =~= kw_false());
        assert("true"@ =~= kw_true());
    }
    match match_tag(s, pos, "false") {
        Some(p) => Some((p, false)),
        None => match match_tag(s, pos, "true") {
            Some(p) => Some((p, true)),
            None => None,
        },
    }
}

/// An integer literal at `pos`: one or more decimal digits whose value fits
/// in a 64-bit signed integer.
pub(crate) fn int_at(s: &str, pos: usize) -> (r: Option<(usize, i64)>)
    requires
        pos <= s@.len(),
    ensures
        match r {
            Some((p, v)) => spec_parse_int(s@, pos as int) == Some((p as int, v as int))
                && pos < p <= s@.len(),
            None => spec_parse_int(s@, pos as int) is None,
        },
{
    let n = s.unicode_len();
    if pos >= n {
        return None;
    }
    let c0 = s.get_char(pos);
    if !('0' <= c0 && c0 <= '9') {
        assert(!is_digit_char(s@[pos as int]));
        return None;
    }
    let end = digits_end_at(s, pos);
    proof {
        lemma_digits_end_chars(s@, pos as int);
    }
    let ghost whole = s@.subrange(pos as int, end as int);
    let mut acc: i64 = 0;
    let mut i = pos;
    while i < end
        invariant
            pos <= i <= end <= n == s@.len(),
            end == spec_digits_end(s@, pos as int),
            forall|j: int| pos <= j < end ==> is_digit_char(s@[j]),
            0 <= acc,
            acc == spec_digits_val(s@.subrange(pos as int, i as int)),
        decreases end - i,
    {
        let c = s.get_char(i);
        assert(is_digit_char(s@[i as int]));
        let d = (c as u32 - 48) as i64;
        let step = match acc.checked_mul(10) {
            Some(m) => m.checked_add(d),
            None => None,
        };
        proof {
            assert(s@.subrange(pos as int, i + 1).drop_last() =~= s@.subrange(
                pos as int,
                i as int,
            ));
            assert(spec_digits_val(s@.subrange(pos as int, i + 1)) == acc * 10 + d);
        }
        match step {
            Some(a) => {
                acc = a;
                i = i + 1;
            },
            None => {
                proof {
                    lemma_digits_val_mono(s@, pos as int, i + 1, end as int);
                }
                return None;
            },
        }
    }
    assert(whole =~= s@.subrange(pos as int, i as int));
    assert(pos < end) by {
        assert(spec_digits_end(s@, pos as int) == spec_digits_end(s@, pos + 1));
        lemma_digits_end_bounds(s@, pos + 1);
    }
    Some((end, acc))
}

/// A fractional literal at `pos`: digits, a dot, digits.
pub(crate) fn float_at(s: &str, pos: usize) -> (r: Option<(usize, (i64, i64))>)
    requires
        pos <= s@.len(),
    ensures
        match r {
            Some((p, wf)) => spec_parse_float(s@, pos as int) == Some(
                (p as int, (wf.0 as int, wf.1 as int)),
            ) && pos < p <= s@.len(),
            None => spec_parse_float(s@, pos as int) is None,
        },
{
    let n = s.unicode_len();
    match int_at(s, pos) {
        Some((p1, whole)) => {
            if p1 < n && s.get_char(p1) == '.' {
                match int_at(s, p1 + 1) {
                    Some((p2, frac)) => Some((p2, (whole, frac))),
                    None => None,
                }
            } else {
                None
            }
        },
        None => None,
    }
}

/// A value literal at `pos`: boolean, fractional, or integer, in that order.
pub(crate) fn value_at(s: &str, pos: usize) -> (r: Option<(usize, Value)>)
    requires
        pos <= s@.len(),
    ensures
        match r {
            Some((p, v)) => spec_parse_value(s@, pos as int) == Some((p as int, v@))
                && pos < p <= s@.len(),
            None => spec_parse_value(s@, pos as int) is None,
        },
{
    match bool_at(s, pos) {
        Some((p, b)) => Some((p, Value::Boolean(b))),
        None => match float_at(s, pos) {
            Some((p, wf)) => Some((p, Value::Float(wf.0, wf.1))),
            None => match int_at(s, pos) {
                Some((p, v)) => Some((p, Value::Integer(v))),
                None => None,
            },
        },
    }
}

/// Parse a boolean literal at the start of `input`, returning the remaining
/// input and the value.
pub fn parse_bool(input: &str) -> (r: Result<(&str, bool), ParseError>)
    ensures
        match spec_parse_bool(input@, 0) {
            Some((p, b)) => r matches Ok(ok) && ok.0@ == input@.subrange(p, input@.len() as int)
                && ok.1 == b,
            None => r == Err::<(&str, bool), ParseError>(ParseError { at: 0 }),
        },
{
    match bool_at(input, 0) {
        Some((p, b)) => Ok((rest_from(input, p), b)),
        None => Err(ParseError { at: 0 }),
    }
}

/// Parse an integer literal at the start of `input`, returning the remaining
/// input and the value.
pub fn parse_int(input: &str) -> (r: Result<(&str, i64), ParseError>)
    ensures
        match spec_parse_int(input@, 0) {
            Some((p, v)) => r matches Ok(ok) && ok.0@ == input@.subrange(p, input@.len() as int)
                && ok.1 == v,
            None => r == Err::<(&str, i64), ParseError>(ParseError { at: 0 }),
        },
{
    match int_at(input, 0) {
        Some((p, v)) => Ok((rest_from(input, p), v)),
        None => Err(ParseError { at: 0 }),
    }
}

/// Parse a fractional literal at the start of `input`, returning the
/// remaining input and the two digit runs as integers.
pub fn parse_float(input: &str) -> (r: Result<(&str, (i64, i64)), ParseError>)
    ensures
        match spec_parse_float(input@, 0) {
            Some((p, wf)) => r matches Ok(ok) && ok.0@ == input@.subrange(p, input@.len() as int)
                && ok.1.0 == wf.0 && ok.1.1 == wf.1,
            None => r == Err::<(&str, (i64, i64)), ParseError>(ParseError { at: 0 }),
        },
{
    match float_at(input, 0) {
        Some((p, wf)) => Ok((rest_from(input, p), wf)),
        None => Err(ParseError { at: 0 }),
    }
}

impl Value {
    /// Parse a value literal at the start of `input`.
    pub fn parse(input: &str) -> (r: Result<(&str, Value), ParseError>)
        ensures
            match spec_parse_value(input@, 0) {
                Some((p, v)) => r matches Ok(ok) && ok.0@ == input@.subrange(
                    p,
                    input@.len() as int,
                ) && ok.1@ == v,
                None => r == Err::<(&str, Value), ParseError>(ParseError { at: 0 }),
            },
    {
        match value_at(input, 0) {
            Some((p, v)) => Ok((rest_from(input, p), v)),
            None => Err(ParseError { at: 0 }),
        }
    }
}

} // verus!
