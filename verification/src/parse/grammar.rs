//! The grammar, written as specification functions.
//!
//! Every function here is a mathematical description of one grammar rule,
//! phrased over a sequence of characters and a starting position.  A rule
//! either fails (`None`) or succeeds with the position just past the text it
//! consumed and the parsed value.  The executable parsers in the sibling
//! modules are each proved to return exactly what these functions say.
//!
//! Alternatives are tried in a fixed order and a rule that fails consumes
//! nothing, so backtracking is simply "the position did not move".

use vstd::prelude::*;

verus! {

broadcast use vstd::seq::group_seq_axioms;

// ---------------------------------------------------------------------------
// Character classes
// ---------------------------------------------------------------------------

/// The whitespace characters that may separate tokens.
pub open spec fn is_ws_char(c: char) -> bool {
    c == ' ' || c == '\t' || c == '\n' || c == '\r'
}

/// ASCII letters, the only characters that may start an identifier.
pub open spec fn is_letter_char(c: char) -> bool {
    ('a' <= c && c <= 'z') || ('A' <= c && c <= 'Z')
}

/// ASCII decimal digits.
pub open spec fn is_digit_char(c: char) -> bool {
    '0' <= c && c <= '9'
}

/// Characters allowed after the first character of an identifier.
pub open spec fn is_ident_char(c: char) -> bool {
    is_letter_char(c) || is_digit_char(c) || c == '_'
}

/// Numeric value of a decimal digit.
pub open spec fn digit_val(c: char) -> int {
    c as int - '0' as int
}

// ---------------------------------------------------------------------------
// Keyword and token texts
// ---------------------------------------------------------------------------

pub open spec fn kw_function() -> Seq<char> {
    seq!['f', 'u', 'n', 'c', 't', 'i', 'o', 'n']
}

pub open spec fn kw_if() -> Seq<char> {
    seq!['i', 'f']
}

pub open spec fn kw_else() -> Seq<char> {
    seq!['e', 'l', 's', 'e']
}

pub open spec fn kw_while() -> Seq<char> {
    seq!['w', 'h', 'i', 'l', 'e']
}

pub open spec fn kw_return() -> Seq<char> {
    seq!['r', 'e', 't', 'u', 'r', 'n']
}

pub open spec fn kw_let() -> Seq<char> {
    seq!['l', 'e', 't']
}

pub open spec fn kw_true() -> Seq<char> {
    seq!['t', 'r', 'u', 'e']
}

pub open spec fn kw_false() -> Seq<char> {
    seq!['f', 'a', 'l', 's', 'e']
}

// ---------------------------------------------------------------------------
// Whitespace and literal tokens
// ---------------------------------------------------------------------------

/// Position just past the run of whitespace starting at `pos`.
pub open spec fn spec_skip_ws(s: Seq<char>, pos: int) -> int
    decreases s.len() - pos,
{
    if 0 <= pos < s.len() && is_ws_char(s[pos]) {
        spec_skip_ws(s, pos + 1)
    } else {
        pos
    }
}

/// Match the exact text `t` at `pos`.
pub open spec fn spec_match_tag(s: Seq<char>, pos: int, t: Seq<char>) -> Option<int> {
    if 0 <= pos && pos + t.len() <= s.len() && s.subrange(pos, pos + t.len()) == t {
        Some(pos + t.len())
    } else {
        None
    }
}

/// Match the keyword `t` at `pos`.
///
/// Unlike a bare tag, a keyword must not be immediately followed by an
/// identifier character, so that `lettuce` is an identifier and not the
/// keyword `let` followed by `tuce`.
pub open spec fn spec_match_keyword(s: Seq<char>, pos: int, t: Seq<char>) -> Option<int> {
    match spec_match_tag(s, pos, t) {
        Some(p) => if p < s.len() && is_ident_char(s[p]) {
            None
        } else {
            Some(p)
        },
        None => None,
    }
}

// ---------------------------------------------------------------------------
// Identifiers
// ---------------------------------------------------------------------------

/// Position just past the run of identifier characters starting at `pos`.
pub open spec fn spec_ident_end(s: Seq<char>, pos: int) -> int
    decreases s.len() - pos,
{
    if 0 <= pos < s.len() && is_ident_char(s[pos]) {
        spec_ident_end(s, pos + 1)
    } else {
        pos
    }
}

/// An identifier: an ASCII letter followed by letters, digits or `_`.
/// The parsed value is the identifier's text.
pub open spec fn spec_parse_ident(s: Seq<char>, pos: int) -> Option<(int, Seq<char>)> {
    if 0 <= pos < s.len() && is_letter_char(s[pos]) {
        let end = spec_ident_end(s, pos);
        Some((end, s.subrange(pos, end)))
    } else {
        None
    }
}

// ---------------------------------------------------------------------------
// Value literals
// ---------------------------------------------------------------------------

/// A literal value: a boolean, or a decimal number with or without a
/// fractional part.
///
/// A fractional literal is kept as its two digit runs, each read as a
/// decimal integer, exactly what the grammar can see of it; turning the
/// pair into a machine float is a concern of unverified callers.
pub enum SpecValue {
    Boolean(bool),
    Integer(int),
    Float { whole: int, frac: int },
}

/// Position just past the run of decimal digits starting at `pos`.
pub open spec fn spec_digits_end(s: Seq<char>, pos: int) -> int
    decreases s.len() - pos,
{
    if 0 <= pos < s.len() && is_digit_char(s[pos]) {
        spec_digits_end(s, pos + 1)
    } else {
        pos
    }
}

/// The number denoted by a run of decimal digits.
pub open spec fn spec_digits_val(ds: Seq<char>) -> int
    decreases ds.len(),
{
    if ds.len() == 0 {
        0
    } else {
        spec_digits_val(ds.drop_last()) * 10 + digit_val(ds.last())
    }
}

/// An integer literal: one or more decimal digits, read as a 64-bit signed
/// integer.  A run whose value does not fit in 64 bits is rejected.
pub open spec fn spec_parse_int(s: Seq<char>, pos: int) -> Option<(int, int)> {
    if 0 <= pos < s.len() && is_digit_char(s[pos]) {
        let end = spec_digits_end(s, pos);
        let v = spec_digits_val(s.subrange(pos, end));
        if v <= i64::MAX {
            Some((end, v))
        } else {
            None
        }
    } else {
        None
    }
}

/// A fractional literal: digits, a dot, digits, with both digit runs read
/// as integer literals.
pub open spec fn spec_parse_float(s: Seq<char>, pos: int) -> Option<(int, (int, int))> {
    match spec_parse_int(s, pos) {
        Some((p1, whole)) => if p1 < s.len() && s[p1] == '.' {
            match spec_parse_int(s, p1 + 1) {
                Some((p2, frac)) => Some((p2, (whole, frac))),
                None => None,
            }
        } else {
            None
        },
        None => None,
    }
}

/// A boolean literal: the exact text `false` or `true`, tried in that order.
pub open spec fn spec_parse_bool(s: Seq<char>, pos: int) -> Option<(int, bool)> {
    if spec_match_tag(s, pos, kw_false()) is Some {
        Some((pos + 5, false))
    } else if spec_match_tag(s, pos, kw_true()) is Some {
        Some((pos + 4, true))
    } else {
        None
    }
}

/// A value literal.  Booleans are tried first, then fractional literals,
/// then integers; the fractional form must come before the integer form so
/// that `1.5` is not read as the integer `1` followed by `.5`.
pub open spec fn spec_parse_value(s: Seq<char>, pos: int) -> Option<(int, SpecValue)> {
    match spec_parse_bool(s, pos) {
        Some((p, b)) => Some((p, SpecValue::Boolean(b))),
        None => match spec_parse_float(s, pos) {
            Some((p, wf)) => Some((p, SpecValue::Float { whole: wf.0, frac: wf.1 })),
            None => match spec_parse_int(s, pos) {
                Some((p, n)) => Some((p, SpecValue::Integer(n))),
                None => None,
            },
        },
    }
}

// ---------------------------------------------------------------------------
// The abstract syntax tree, at the specification level
// ---------------------------------------------------------------------------

/// An identifier optionally followed by a call-argument list.
///
/// `call_arguments` distinguishes a bare variable reference (`None`) from a
/// call with zero arguments (`Some` of the empty sequence).
#[verifier::ext_equal]
pub struct SpecLiteral {
    pub ident: Seq<char>,
    pub call_arguments: Option<Seq<SpecExpression>>,
}

/// An expression tree.
///
/// Each n-ary variant holds the operands of one left-flattened chain of the
/// same operator, in source order; a chain of a single operand is never
/// wrapped, it stays the operand itself.
#[verifier::ext_equal]
pub enum SpecExpression {
    Or(Seq<SpecExpression>),
    And(Seq<SpecExpression>),
    Add(Seq<SpecExpression>),
    Subtract(Seq<SpecExpression>),
    Multiply(Seq<SpecExpression>),
    Divide(Seq<SpecExpression>),
    Not(Box<SpecExpression>),
    Negative(Box<SpecExpression>),
    Literal(SpecLiteral),
    Value(SpecValue),
}

/// A statement.
#[verifier::ext_equal]
pub enum SpecStatement {
    Let { name: Seq<char>, assign: Option<SpecExpression> },
    If {
        condition: SpecExpression,
        then: Seq<SpecStatement>,
        otherwise: Option<Seq<SpecStatement>>,
    },
    While { condition: SpecExpression, then: Seq<SpecStatement> },
    Return(Option<SpecExpression>),
    Expression(Box<SpecExpression>),
}

/// A function declaration: name, typed parameters in order, optional return
/// type, and the body's statements in order.
#[verifier::ext_equal]
pub struct SpecFunction {
    pub name: Seq<char>,
    pub args: Seq<(Seq<char>, Seq<char>)>,
    pub return_type: Option<Seq<char>>,
    pub body: Seq<SpecStatement>,
}

// ---------------------------------------------------------------------------
// Position guards for the mutually recursive rules
// ---------------------------------------------------------------------------
//
// The rules below recurse on positions computed by other rules.  Every rule
// in fact moves forward and stays inside the input, but that is a proved
// property, not something the termination checker can assume while the
// definitions are still being made.  The two guards below clamp a position
// into the range the checker needs; at every reachable use they are the
// identity, which is what the executable parsers prove when they establish
// that they return exactly these functions' results.

/// `p`, clamped into `[lo, s.len()]`.
pub open spec fn at_least(s: Seq<char>, lo: int, p: int) -> int {
    if p < lo {
        if lo > s.len() {
            s.len() as int
        } else {
            lo
        }
    } else if p > s.len() {
        s.len() as int
    } else {
        p
    }
}

/// `p`, clamped into `[lo + 1, s.len()]`: one past `lo` at the very least.
pub open spec fn past(s: Seq<char>, lo: int, p: int) -> int {
    if p <= lo {
        if lo + 1 > s.len() {
            s.len() as int
        } else {
            lo + 1
        }
    } else if p > s.len() {
        s.len() as int
    } else {
        p
    }
}

// ---------------------------------------------------------------------------
// Expressions: the precedence ladder
// ---------------------------------------------------------------------------
//
// Levels, from loosest to tightest binding:
//   0 `|`  1 `&`  2 `+`  3 `-`  4 `*`  5 `/`
// then the unary operators `!` and `-`, then atoms.

/// The operator character of a precedence level.
pub open spec fn level_op(lvl: int) -> char {
    if lvl == 0 {
        '|'
    } else if lvl == 1 {
        '&'
    } else if lvl == 2 {
        '+'
    } else if lvl == 3 {
        '-'
    } else if lvl == 4 {
        '*'
    } else {
        '/'
    }
}

/// A level index, clamped to the ladder.
pub open spec fn level_clamp(lvl: int) -> int {
    if 0 <= lvl <= 5 {
        lvl
    } else {
        5
    }
}

/// Wrap collected operands in the level's variant — unless the chain has a
/// single operand, which stays bare.  This is the collapsing rule: no n-ary
/// node with exactly one child ever appears in a parsed tree.
pub open spec fn level_node(lvl: int, items: Seq<SpecExpression>) -> SpecExpression
    recommends
        items.len() >= 1,
{
    if items.len() == 1 {
        items[0]
    } else if lvl == 0 {
        SpecExpression::Or(items)
    } else if lvl == 1 {
        SpecExpression::And(items)
    } else if lvl == 2 {
        SpecExpression::Add(items)
    } else if lvl == 3 {
        SpecExpression::Subtract(items)
    } else if lvl == 4 {
        SpecExpression::Multiply(items)
    } else {
        SpecExpression::Divide(items)
    }
}

/// A full expression: the lowest-precedence chain.
pub open spec fn spec_parse_expression(s: Seq<char>, pos: int) -> Option<(int, SpecExpression)>
    decreases s.len() - pos, 22int,
{
    if pos < 0 || pos > s.len() {
        None
    } else {
        spec_chain(s, pos, 0)
    }
}

/// One operand of level `lvl`: the next tighter chain, or a unary expression
/// at the tightest level.
pub open spec fn spec_operand(s: Seq<char>, pos: int, lvl: int) -> Option<(int, SpecExpression)>
    decreases s.len() - pos, 19 - 2 * level_clamp(lvl),
{
    if pos < 0 || pos > s.len() {
        None
    } else if level_clamp(lvl) < 5 {
        spec_chain(s, pos, level_clamp(lvl) + 1)
    } else {
        spec_not(s, pos)
    }
}

/// A chain of level `lvl`: one or more operands of the next tighter level,
/// separated by the level's operator, whitespace allowed around operands and
/// operators.  The collected operands collapse by `level_node`.
pub open spec fn spec_chain(s: Seq<char>, pos: int, lvl: int) -> Option<(int, SpecExpression)>
    decreases s.len() - pos, 20 - 2 * level_clamp(lvl),
{
    if pos < 0 || pos > s.len() {
        None
    } else {
        let e1 = at_least(s, pos, spec_skip_ws(s, pos));
        match spec_operand(s, e1, lvl) {
            Some((p1, v1)) => {
                let (p2, rest) = spec_chain_more(s, past(s, pos, p1), lvl);
                Some((p2, level_node(level_clamp(lvl), seq![v1] + rest)))
            },
            None => None,
        }
    }
}

/// The continuation of a chain: as many `operator operand` steps as match.
/// A trailing operator with no operand after it is left unconsumed.
pub open spec fn spec_chain_more(s: Seq<char>, pos: int, lvl: int) -> (int, Seq<SpecExpression>)
    decreases s.len() - pos, 19 - 2 * level_clamp(lvl),
{
    if pos < 0 || pos > s.len() {
        (pos, Seq::empty())
    } else {
        let q = at_least(s, pos, spec_skip_ws(s, pos));
        if q < s.len() && s[q] == level_op(level_clamp(lvl)) {
            let e = at_least(s, q + 1, spec_skip_ws(s, q + 1));
            match spec_operand(s, e, lvl) {
                Some((p2, v)) => {
                    let (p3, rest) = spec_chain_more(s, past(s, pos, p2), lvl);
                    (p3, seq![v] + rest)
                },
                None => (pos, Seq::empty()),
            }
        } else {
            (pos, Seq::empty())
        }
    }
}

/// A unary `!` applied to an atom; otherwise a `negative`.
pub open spec fn spec_not(s: Seq<char>, pos: int) -> Option<(int, SpecExpression)>
    decreases s.len() - pos, 5int,
{
    if pos < 0 || pos > s.len() {
        None
    } else if 0 <= pos < s.len() && s[pos] == '!' {
        match spec_atom(s, pos + 1) {
            Some((p, v)) => Some((p, SpecExpression::Not(Box::new(v)))),
            None => spec_negative(s, pos),
        }
    } else {
        spec_negative(s, pos)
    }
}

/// A unary `-` applied to an atom; otherwise a bare atom.
pub open spec fn spec_negative(s: Seq<char>, pos: int) -> Option<(int, SpecExpression)>
    decreases s.len() - pos, 4int,
{
    if pos < 0 || pos > s.len() {
        None
    } else if 0 <= pos < s.len() && s[pos] == '-' {
        match spec_atom(s, pos + 1) {
            Some((p, v)) => Some((p, SpecExpression::Negative(Box::new(v)))),
            None => spec_atom(s, pos),
        }
    } else {
        spec_atom(s, pos)
    }
}

/// An atom: a value literal or parenthesized expression first, otherwise an
/// identifier with an optional call-argument list.
pub open spec fn spec_atom(s: Seq<char>, pos: int) -> Option<(int, SpecExpression)>
    decreases s.len() - pos, 3int,
{
    if pos < 0 || pos > s.len() {
        None
    } else {
        match spec_value_expr(s, pos) {
            Some(r) => Some(r),
            None => match spec_parse_literal(s, pos) {
                Some((p, l)) => Some((p, SpecExpression::Literal(l))),
                None => None,
            },
        }
    }
}

/// A value literal, or an expression in parentheses (which stands for the
/// inner expression itself — parentheses leave no node behind).
pub open spec fn spec_value_expr(s: Seq<char>, pos: int) -> Option<(int, SpecExpression)>
    decreases s.len() - pos, 2int,
{
    if pos < 0 || pos > s.len() {
        None
    } else {
        match spec_parse_value(s, pos) {
        Some((p, v)) => Some((p, SpecExpression::Value(v))),
        None => if 0 <= pos < s.len() && s[pos] == '(' {
            let e = at_least(s, pos + 1, spec_skip_ws(s, pos + 1));
            match spec_parse_expression(s, e) {
                Some((p1, v)) => {
                    let q = spec_skip_ws(s, p1);
                    if 0 <= q < s.len() && s[q] == ')' {
                        Some((q + 1, v))
                    } else {
                        None
                    }
                },
                None => None,
            }
        } else {
            None
        },
        }
    }
}

/// An identifier, optionally followed (after whitespace) by a parenthesized
/// call-argument list.  Without the list the literal is a variable
/// reference; with it, a call.
pub open spec fn spec_parse_literal(s: Seq<char>, pos: int) -> Option<(int, SpecLiteral)>
    decreases s.len() - pos, 2int,
{
    if pos < 0 || pos > s.len() {
        None
    } else {
        match spec_parse_ident(s, pos) {
            Some((p1, id)) => {
                let q = at_least(s, pos, spec_skip_ws(s, p1));
                match spec_parse_tuple(s, q) {
                    Some((p2, args)) => Some(
                        (p2, SpecLiteral { ident: id, call_arguments: Some(args) }),
                    ),
                    None => Some((p1, SpecLiteral { ident: id, call_arguments: None })),
                }
            },
            None => None,
        }
    }
}

/// A parenthesized, comma-separated, possibly empty list of expressions.
pub open spec fn spec_parse_tuple(s: Seq<char>, pos: int) -> Option<(int, Seq<SpecExpression>)>
    decreases s.len() - pos, 1int,
{
    if pos < 0 || pos > s.len() {
        None
    } else if 0 <= pos < s.len() && s[pos] == '(' {
        let (p1, items) = spec_tuple_items(s, pos + 1);
        let q = spec_skip_ws(s, p1);
        if 0 <= q < s.len() && s[q] == ')' {
            Some((q + 1, items))
        } else {
            None
        }
    } else {
        None
    }
}

/// Zero or more comma-separated expressions; never fails.
pub open spec fn spec_tuple_items(s: Seq<char>, pos: int) -> (int, Seq<SpecExpression>)
    decreases s.len() - pos, 23int,
{
    if pos < 0 || pos > s.len() {
        (pos, Seq::empty())
    } else {
        let e = at_least(s, pos, spec_skip_ws(s, pos));
        match spec_parse_expression(s, e) {
            Some((p1, v)) => {
                let (p2, rest) = spec_tuple_more(s, at_least(s, pos, p1));
                (p2, seq![v] + rest)
            },
            None => (pos, Seq::empty()),
        }
    }
}

/// The continuation of an argument list: as many `, expression` steps as
/// match.  A trailing comma with no expression after it is left unconsumed.
pub open spec fn spec_tuple_more(s: Seq<char>, pos: int) -> (int, Seq<SpecExpression>)
    decreases s.len() - pos, 21int,
{
    if pos < 0 || pos > s.len() {
        (pos, Seq::empty())
    } else {
        let q = at_least(s, pos, spec_skip_ws(s, pos));
        if q < s.len() && s[q] == ',' {
            let e = at_least(s, q + 1, spec_skip_ws(s, q + 1));
            match spec_parse_expression(s, e) {
                Some((p2, v)) => {
                    let (p3, rest) = spec_tuple_more(s, past(s, pos, p2));
                    (p3, seq![v] + rest)
                },
                None => (pos, Seq::empty()),
            }
        } else {
            (pos, Seq::empty())
        }
    }
}

// ---------------------------------------------------------------------------
// Statements and bodies
// ---------------------------------------------------------------------------

/// A brace-delimited body, whitespace allowed before the braces and inside:
/// `{ statement* }`.
pub open spec fn spec_curly_body(s: Seq<char>, pos: int) -> Option<(int, Seq<SpecStatement>)>
    decreases s.len() - pos, 0int,
{
    if pos < 0 || pos > s.len() {
        None
    } else {
        let q = at_least(s, pos, spec_skip_ws(s, pos));
        if q < s.len() && s[q] == '{' {
        let (p1, stmts) = spec_body_items(s, q + 1);
        let r = spec_skip_ws(s, p1);
        if 0 <= r < s.len() && s[r] == '}' {
            Some((r + 1, stmts))
        } else {
            None
        }
        } else {
            None
        }
    }
}

/// Zero or more whitespace-separated statements; never fails.  Whitespace
/// after the last statement is left unconsumed.
pub open spec fn spec_body_items(s: Seq<char>, pos: int) -> (int, Seq<SpecStatement>)
    decreases s.len() - pos, 3int,
{
    if 0 <= pos < s.len() {
        let m = at_least(s, pos, spec_skip_ws(s, pos));
        match spec_parse_statement(s, m) {
            Some((p, st)) => {
                let (p2, rest) = spec_body_items(s, past(s, pos, p));
                (p2, seq![st] + rest)
            },
            None => (pos, Seq::empty()),
        }
    } else {
        (pos, Seq::empty())
    }
}

/// A `let` statement, continued after its keyword (which ends at `p`):
/// a name, then an optional `= expression`.  An `=` that is not followed by
/// an expression is left unconsumed and the binding has no initializer.
pub open spec fn spec_let_stmt(s: Seq<char>, p: int) -> Option<(int, SpecStatement)> {
    match spec_parse_ident(s, spec_skip_ws(s, p)) {
        Some((p1, name)) => {
            let q = spec_skip_ws(s, p1);
            if 0 <= q < s.len() && s[q] == '=' {
                match spec_parse_expression(s, spec_skip_ws(s, q + 1)) {
                    Some((p2, e)) => Some((p2, SpecStatement::Let { name, assign: Some(e) })),
                    None => Some((p1, SpecStatement::Let { name, assign: None })),
                }
            } else {
                Some((p1, SpecStatement::Let { name, assign: None }))
            }
        },
        None => None,
    }
}

/// A `while` statement, continued after its keyword (which ends at `p`):
/// a condition, then a brace-delimited body.
pub open spec fn spec_while_stmt(s: Seq<char>, pos: int, p: int) -> Option<(int, SpecStatement)>
    decreases s.len() - pos, 1int,
{
    if pos < 0 || pos > s.len() {
        None
    } else {
        match spec_parse_expression(s, spec_skip_ws(s, p)) {
            Some((pc, cond)) => match spec_curly_body(s, at_least(s, pos, pc)) {
                Some((pb, stmts)) => Some(
                    (pb, SpecStatement::While { condition: cond, then: stmts }),
                ),
                None => None,
            },
            None => None,
        }
    }
}

/// An `if` statement, continued after its keyword (which ends at `p`):
/// a condition, a brace-delimited branch, and an optional `else` branch.
/// An `else` that is not followed by a brace-delimited body is left
/// unconsumed and the statement has no `else` branch.
pub open spec fn spec_if_stmt(s: Seq<char>, pos: int, p: int) -> Option<(int, SpecStatement)>
    decreases s.len() - pos, 1int,
{
    if pos < 0 || pos > s.len() {
        None
    } else {
        match spec_parse_expression(s, spec_skip_ws(s, p)) {
            Some((pc, cond)) => match spec_curly_body(s, at_least(s, pos, pc)) {
                Some((pt, then_stmts)) => {
                    let q2 = spec_skip_ws(s, pt);
                    match spec_match_keyword(s, q2, kw_else()) {
                        Some(p3) => match spec_curly_body(s, at_least(s, pos, p3)) {
                            Some((pe, else_stmts)) => Some(
                                (
                                    pe,
                                    SpecStatement::If {
                                        condition: cond,
                                        then: then_stmts,
                                        otherwise: Some(else_stmts),
                                    },
                                ),
                            ),
                            None => Some(
                                (
                                    pt,
                                    SpecStatement::If {
                                        condition: cond,
                                        then: then_stmts,
                                        otherwise: None,
                                    },
                                ),
                            ),
                        },
                        None => Some(
                            (
                                pt,
                                SpecStatement::If {
                                    condition: cond,
                                    then: then_stmts,
                                    otherwise: None,
                                },
                            ),
                        ),
                    }
                },
                None => None,
            },
            None => None,
        }
    }
}

/// A `return` statement, continued after its keyword (which ends at `p`):
/// an optional expression.
pub open spec fn spec_return_stmt(s: Seq<char>, p: int) -> Option<(int, SpecStatement)> {
    match spec_parse_expression(s, spec_skip_ws(s, p)) {
        Some((p1, e)) => Some((p1, SpecStatement::Return(Some(e)))),
        None => Some((p, SpecStatement::Return(None))),
    }
}

/// A statement.  The alternatives are tried in the order `let`, `while`,
/// `if`, `return`, bare expression; a keyword, once matched, commits to its
/// alternative — failure after the keyword fails the whole statement rather
/// than falling through to the expression form.
pub open spec fn spec_parse_statement(s: Seq<char>, pos: int) -> Option<(int, SpecStatement)>
    decreases s.len() - pos, 2int,
{
    if pos < 0 || pos > s.len() {
        None
    } else {
        match spec_match_keyword(s, pos, kw_let()) {
            Some(p) => spec_let_stmt(s, p),
            None => match spec_match_keyword(s, pos, kw_while()) {
                Some(p) => spec_while_stmt(s, pos, p),
                None => match spec_match_keyword(s, pos, kw_if()) {
                    Some(p) => spec_if_stmt(s, pos, p),
                    None => match spec_match_keyword(s, pos, kw_return()) {
                        Some(p) => spec_return_stmt(s, p),
                        None => match spec_parse_expression(s, pos) {
                            Some((p, e)) => Some(
                                (p, SpecStatement::Expression(Box::new(e))),
                            ),
                            None => None,
                        },
                    },
                },
            },
        }
    }
}

// ---------------------------------------------------------------------------
// Functions and programs
// ---------------------------------------------------------------------------

/// The return-type arrow `->`.
pub open spec fn tok_arrow() -> Seq<char> {
    seq!['-', '>']
}

/// One `name : type` parameter.
pub open spec fn spec_fn_arg_pair(s: Seq<char>, pos: int) -> Option<(int, (Seq<char>, Seq<char>))> {
    match spec_parse_ident(s, spec_skip_ws(s, pos)) {
        Some((p1, id)) => {
            let q = spec_skip_ws(s, p1);
            if 0 <= q < s.len() && s[q] == ':' {
                match spec_parse_ident(s, spec_skip_ws(s, q + 1)) {
                    Some((p2, ty)) => Some((p2, (id, ty))),
                    None => None,
                }
            } else {
                None
            }
        },
        None => None,
    }
}

/// Zero or more comma-separated `name : type` parameters; never fails.
pub open spec fn spec_fn_args_items(s: Seq<char>, pos: int) -> (
    int,
    Seq<(Seq<char>, Seq<char>)>,
) {
    match spec_fn_arg_pair(s, pos) {
        Some((p1, pr)) => {
            let (p2, rest) = spec_fn_args_more(s, p1);
            (p2, seq![pr] + rest)
        },
        None => (pos, Seq::empty()),
    }
}

/// The continuation of a parameter list: as many `, name : type` steps as
/// match.
pub open spec fn spec_fn_args_more(s: Seq<char>, pos: int) -> (int, Seq<(Seq<char>, Seq<char>)>)
    decreases s.len() - pos,
{
    if pos < 0 || pos > s.len() {
        (pos, Seq::empty())
    } else {
        let q = at_least(s, pos, spec_skip_ws(s, pos));
        if q < s.len() && s[q] == ',' {
            match spec_fn_arg_pair(s, q + 1) {
                Some((p2, pr)) => {
                    let (p3, rest) = spec_fn_args_more(s, past(s, pos, p2));
                    (p3, seq![pr] + rest)
                },
                None => (pos, Seq::empty()),
            }
        } else {
            (pos, Seq::empty())
        }
    }
}

/// A function declaration: `function name ( params ) [-> type] { body }`.
pub open spec fn spec_parse_function(s: Seq<char>, pos: int) -> Option<(int, SpecFunction)> {
    match spec_match_keyword(s, pos, kw_function()) {
        Some(p) => match spec_parse_ident(s, spec_skip_ws(s, p)) {
            Some((p1, name)) => {
                let q = spec_skip_ws(s, p1);
                if 0 <= q < s.len() && s[q] == '(' {
                    let (p2, args) = spec_fn_args_items(s, q + 1);
                    let r = spec_skip_ws(s, p2);
                    if 0 <= r < s.len() && s[r] == ')' {
                        let t = spec_skip_ws(s, r + 1);
                        let (after_rt, return_type): (int, Option<Seq<char>>) = match
                            spec_match_tag(s, t, tok_arrow()) {
                            Some(a) => match spec_parse_ident(s, spec_skip_ws(s, a)) {
                                Some((p3, ty)) => (p3, Some(ty)),
                                None => (r + 1, None),
                            },
                            None => (r + 1, None),
                        };
                        match spec_curly_body(s, after_rt) {
                            Some((pb, body)) => Some(
                                (pb, SpecFunction { name, args, return_type, body }),
                            ),
                            None => None,
                        }
                    } else {
                        None
                    }
                } else {
                    None
                }
            },
            None => None,
        },
        None => None,
    }
}

/// Zero or more whitespace-separated functions; never fails.  Whitespace
/// after the last function is left unconsumed.
pub open spec fn spec_ast_functions(s: Seq<char>, pos: int) -> (int, Seq<SpecFunction>)
    decreases s.len() - pos,
{
    if 0 <= pos < s.len() {
        match spec_parse_function(s, spec_skip_ws(s, pos)) {
            Some((p, f)) => {
                let (p2, rest) = spec_ast_functions(s, past(s, pos, p));
                (p2, seq![f] + rest)
            },
            None => (pos, Seq::empty()),
        }
    } else {
        (pos, Seq::empty())
    }
}

// ---------------------------------------------------------------------------
// The collapsing invariant
// ---------------------------------------------------------------------------

/// Whether a tree obeys the collapsing rule: every n-ary node, anywhere in
/// the tree, holds at least two operands.
pub open spec fn collapsed_expr(e: SpecExpression) -> bool
    decreases e,
{
    match e {
        SpecExpression::Or(v) => v.len() >= 2 && collapsed_exprs(v),
        SpecExpression::And(v) => v.len() >= 2 && collapsed_exprs(v),
        SpecExpression::Add(v) => v.len() >= 2 && collapsed_exprs(v),
        SpecExpression::Subtract(v) => v.len() >= 2 && collapsed_exprs(v),
        SpecExpression::Multiply(v) => v.len() >= 2 && collapsed_exprs(v),
        SpecExpression::Divide(v) => v.len() >= 2 && collapsed_exprs(v),
        SpecExpression::Not(b) => collapsed_expr(*b),
        SpecExpression::Negative(b) => collapsed_expr(*b),
        SpecExpression::Literal(l) => match l.call_arguments {
            Some(args) => collapsed_exprs(args),
            None => true,
        },
        SpecExpression::Value(_) => true,
    }
}

/// Whether every tree of a sequence obeys the collapsing rule.
pub open spec fn collapsed_exprs(v: Seq<SpecExpression>) -> bool
    decreases v,
{
    if v.len() == 0 {
        true
    } else {
        collapsed_expr(v[0]) && collapsed_exprs(v.drop_first())
    }
}

/// Atoms obey the collapsing rule.
proof fn lemma_value_expr_collapsed(s: Seq<char>, pos: int)
    ensures
        spec_value_expr(s, pos) matches Some(r) ==> collapsed_expr(r.1),
    decreases s.len() - pos, 2int,
{
    if pos < 0 || pos > s.len() {
    } else {
        match spec_parse_value(s, pos) {
            Some(_) => {},
            None => {
                if 0 <= pos < s.len() && s[pos] == '(' {
                    let e = at_least(s, pos + 1, spec_skip_ws(s, pos + 1));
                    lemma_parse_expression_collapsed(s, e);
                }
            },
        }
    }
}

/// Literals obey the collapsing rule.
proof fn lemma_literal_collapsed(s: Seq<char>, pos: int)
    ensures
        spec_parse_literal(s, pos) matches Some(r) ==> collapsed_expr(
            SpecExpression::Literal(r.1),
        ),
    decreases s.len() - pos, 2int,
{
    if pos < 0 || pos > s.len() {
    } else {
        match spec_parse_ident(s, pos) {
            Some((p1, _)) => {
                let q = at_least(s, pos, spec_skip_ws(s, p1));
                lemma_tuple_collapsed(s, q);
            },
            None => {},
        }
    }
}

/// Argument tuples obey the collapsing rule.
proof fn lemma_tuple_collapsed(s: Seq<char>, pos: int)
    ensures
        spec_parse_tuple(s, pos) matches Some(r) ==> collapsed_exprs(r.1),
    decreases s.len() - pos, 1int,
{
    if pos < 0 || pos > s.len() {
    } else if 0 <= pos < s.len() && s[pos] == '(' {
        lemma_tuple_items_collapsed(s, pos + 1);
    }
}

/// The items of an argument list obey the collapsing rule.
proof fn lemma_tuple_items_collapsed(s: Seq<char>, pos: int)
    ensures
        collapsed_exprs(spec_tuple_items(s, pos).1),
    decreases s.len() - pos, 23int,
{
    if pos < 0 || pos > s.len() {
    } else {
        let e = at_least(s, pos, spec_skip_ws(s, pos));
        lemma_parse_expression_collapsed(s, e);
        match spec_parse_expression(s, e) {
            Some((p1, v)) => {
                lemma_tuple_more_collapsed(s, at_least(s, pos, p1));
                let rest = spec_tuple_more(s, at_least(s, pos, p1)).1;
                assert((seq![v] + rest)[0] == v);
                assert((seq![v] + rest).drop_first() =~= rest);
            },
            None => {},
        }
    }
}

/// The continuation of an argument list obeys the collapsing rule.
proof fn lemma_tuple_more_collapsed(s: Seq<char>, pos: int)
    ensures
        collapsed_exprs(spec_tuple_more(s, pos).1),
    decreases s.len() - pos, 21int,
{
    if pos < 0 || pos > s.len() {
    } else {
        let q = at_least(s, pos, spec_skip_ws(s, pos));
        if q < s.len() && s[q] == ',' {
            let e = at_least(s, q + 1, spec_skip_ws(s, q + 1));
            lemma_parse_expression_collapsed(s, e);
            match spec_parse_expression(s, e) {
                Some((p2, v)) => {
                    lemma_tuple_more_collapsed(s, past(s, pos, p2));
                    let rest = spec_tuple_more(s, past(s, pos, p2)).1;
                    assert((seq![v] + rest)[0] == v);
                    assert((seq![v] + rest).drop_first() =~= rest);
                },
                None => {},
            }
        }
    }
}

/// Atoms, with or without a unary operator, obey the collapsing rule.
proof fn lemma_atom_collapsed(s: Seq<char>, pos: int)
    ensures
        spec_atom(s, pos) matches Some(r) ==> collapsed_expr(r.1),
    decreases s.len() - pos, 3int,
{
    if pos < 0 || pos > s.len() {
    } else {
        lemma_value_expr_collapsed(s, pos);
        lemma_literal_collapsed(s, pos);
    }
}

/// A negated atom obeys the collapsing rule.
proof fn lemma_negative_collapsed(s: Seq<char>, pos: int)
    ensures
        spec_negative(s, pos) matches Some(r) ==> collapsed_expr(r.1),
    decreases s.len() - pos, 4int,
{
    if pos < 0 || pos > s.len() {
    } else {
        if 0 <= pos < s.len() && s[pos] == '-' {
            lemma_atom_collapsed(s, pos + 1);
        }
        lemma_atom_collapsed(s, pos);
    }
}

/// A logically negated atom obeys the collapsing rule.
proof fn lemma_not_collapsed(s: Seq<char>, pos: int)
    ensures
        spec_not(s, pos) matches Some(r) ==> collapsed_expr(r.1),
    decreases s.len() - pos, 5int,
{
    if pos < 0 || pos > s.len() {
    } else {
        if 0 <= pos < s.len() && s[pos] == '!' {
            lemma_atom_collapsed(s, pos + 1);
        }
        lemma_negative_collapsed(s, pos);
    }
}

/// Operands obey the collapsing rule.
proof fn lemma_operand_collapsed(s: Seq<char>, pos: int, lvl: int)
    ensures
        spec_operand(s, pos, lvl) matches Some(r) ==> collapsed_expr(r.1),
    decreases s.len() - pos, 19 - 2 * level_clamp(lvl),
{
    if pos < 0 || pos > s.len() {
    } else if level_clamp(lvl) < 5 {
        lemma_chain_collapsed(s, pos, level_clamp(lvl) + 1);
    } else {
        lemma_not_collapsed(s, pos);
    }
}

/// Chains obey the collapsing rule: a chain of one operand is the operand,
/// and a longer chain wraps two or more collapsed operands.
proof fn lemma_chain_collapsed(s: Seq<char>, pos: int, lvl: int)
    ensures
        spec_chain(s, pos, lvl) matches Some(r) ==> collapsed_expr(r.1),
    decreases s.len() - pos, 20 - 2 * level_clamp(lvl),
{
    if pos < 0 || pos > s.len() {
    } else {
        let e1 = at_least(s, pos, spec_skip_ws(s, pos));
        lemma_operand_collapsed(s, e1, lvl);
        match spec_operand(s, e1, lvl) {
            Some((p1, v1)) => {
                lemma_chain_more_collapsed(s, past(s, pos, p1), lvl);
                let rest = spec_chain_more(s, past(s, pos, p1), lvl).1;
                let items = seq![v1] + rest;
                assert(items[0] == v1);
                assert(items.drop_first() =~= rest);
                assert(collapsed_exprs(items));
            },
            None => {},
        }
    }
}

/// The continuation of a chain obeys the collapsing rule.
proof fn lemma_chain_more_collapsed(s: Seq<char>, pos: int, lvl: int)
    ensures
        collapsed_exprs(spec_chain_more(s, pos, lvl).1),
    decreases s.len() - pos, 19 - 2 * level_clamp(lvl),
{
    if pos < 0 || pos > s.len() {
    } else {
        let q = at_least(s, pos, spec_skip_ws(s, pos));
        if q < s.len() && s[q] == level_op(level_clamp(lvl)) {
            let e = at_least(s, q + 1, spec_skip_ws(s, q + 1));
            lemma_operand_collapsed(s, e, lvl);
            match spec_operand(s, e, lvl) {
                Some((p2, v)) => {
                    lemma_chain_more_collapsed(s, past(s, pos, p2), lvl);
                    let rest = spec_chain_more(s, past(s, pos, p2), lvl).1;
                    assert((seq![v] + rest)[0] == v);
                    assert((seq![v] + rest).drop_first() =~= rest);
                },
                None => {},
            }
        }
    }
}

/// Every expression the grammar accepts obeys the collapsing rule: no
/// n-ary node with exactly one child ever appears in a parsed tree.  This
/// is the invariant that makes equality-based tests meaningful — parsing
/// `1` yields the bare integer value, never a one-operand chain around it.
pub proof fn lemma_parse_expression_collapsed(s: Seq<char>, pos: int)
    ensures
        spec_parse_expression(s, pos) matches Some(r) ==> collapsed_expr(r.1),
    decreases s.len() - pos, 22int,
{
    if pos < 0 || pos > s.len() {
    } else {
        lemma_chain_collapsed(s, pos, 0);
    }
}

/// Whether every expression held by a statement obeys the collapsing rule.
pub open spec fn collapsed_stmt(st: SpecStatement) -> bool
    decreases st,
{
    match st {
        SpecStatement::Let { name: _, assign } => match assign {
            Some(e) => collapsed_expr(e),
            None => true,
        },
        SpecStatement::If { condition, then, otherwise } => collapsed_expr(condition)
            && collapsed_stmts(then) && (match otherwise {
            Some(b) => collapsed_stmts(b),
            None => true,
        }),
        SpecStatement::While { condition, then } => collapsed_expr(condition) && collapsed_stmts(
            then,
        ),
        SpecStatement::Return(e) => match e {
            Some(e) => collapsed_expr(e),
            None => true,
        },
        SpecStatement::Expression(e) => collapsed_expr(*e),
    }
}

/// Whether every statement of a sequence obeys the collapsing rule.
pub open spec fn collapsed_stmts(v: Seq<SpecStatement>) -> bool
    decreases v,
{
    if v.len() == 0 {
        true
    } else {
        collapsed_stmt(v[0]) && collapsed_stmts(v.drop_first())
    }
}

/// Whether every expression in a function's body obeys the collapsing rule.
pub open spec fn collapsed_function(f: SpecFunction) -> bool {
    collapsed_stmts(f.body)
}

/// Whether every function of a sequence obeys the collapsing rule.
pub open spec fn collapsed_functions(v: Seq<SpecFunction>) -> bool
    decreases v,
{
    if v.len() == 0 {
        true
    } else {
        collapsed_function(v[0]) && collapsed_functions(v.drop_first())
    }
}

/// Brace-delimited bodies obey the collapsing rule.
proof fn lemma_curly_collapsed(s: Seq<char>, pos: int)
    ensures
        spec_curly_body(s, pos) matches Some(r) ==> collapsed_stmts(r.1),
    decreases s.len() - pos, 0int,
{
    if pos < 0 || pos > s.len() {
    } else {
        let q = at_least(s, pos, spec_skip_ws(s, pos));
        if q < s.len() && s[q] == '{' {
            lemma_body_items_collapsed(s, q + 1);
        }
    }
}

/// `let` statements obey the collapsing rule.
proof fn lemma_let_collapsed(s: Seq<char>, p: int)
    ensures
        spec_let_stmt(s, p) matches Some(r) ==> collapsed_stmt(r.1),
{
    match spec_parse_ident(s, spec_skip_ws(s, p)) {
        Some((p1, _)) => {
            let q = spec_skip_ws(s, p1);
            if 0 <= q < s.len() && s[q] == '=' {
                lemma_parse_expression_collapsed(s, spec_skip_ws(s, q + 1));
            }
        },
        None => {},
    }
}

/// `while` statements obey the collapsing rule.
proof fn lemma_while_collapsed(s: Seq<char>, pos: int, p: int)
    ensures
        spec_while_stmt(s, pos, p) matches Some(r) ==> collapsed_stmt(r.1),
    decreases s.len() - pos, 1int,
{
    if pos < 0 || pos > s.len() {
    } else {
        lemma_parse_expression_collapsed(s, spec_skip_ws(s, p));
        match spec_parse_expression(s, spec_skip_ws(s, p)) {
            Some((pc, _)) => {
                lemma_curly_collapsed(s, at_least(s, pos, pc));
            },
            None => {},
        }
    }
}

/// `if` statements obey the collapsing rule.
proof fn lemma_if_collapsed(s: Seq<char>, pos: int, p: int)
    ensures
        spec_if_stmt(s, pos, p) matches Some(r) ==> collapsed_stmt(r.1),
    decreases s.len() - pos, 1int,
{
    if pos < 0 || pos > s.len() {
    } else {
        lemma_parse_expression_collapsed(s, spec_skip_ws(s, p));
        match spec_parse_expression(s, spec_skip_ws(s, p)) {
            Some((pc, _)) => {
                lemma_curly_collapsed(s, at_least(s, pos, pc));
                match spec_curly_body(s, at_least(s, pos, pc)) {
                    Some((pt, _)) => {
                        let q2 = spec_skip_ws(s, pt);
                        match spec_match_keyword(s, q2, kw_else()) {
                            Some(p3) => {
                                lemma_curly_collapsed(s, at_least(s, pos, p3));
                            },
                            None => {},
                        }
                    },
                    None => {},
                }
            },
            None => {},
        }
    }
}

/// `return` statements obey the collapsing rule.
proof fn lemma_return_collapsed(s: Seq<char>, p: int)
    ensures
        spec_return_stmt(s, p) matches Some(r) ==> collapsed_stmt(r.1),
{
    lemma_parse_expression_collapsed(s, spec_skip_ws(s, p));
}

/// Every statement the grammar accepts obeys the collapsing rule.
pub proof fn lemma_parse_statement_collapsed(s: Seq<char>, pos: int)
    ensures
        spec_parse_statement(s, pos) matches Some(r) ==> collapsed_stmt(r.1),
    decreases s.len() - pos, 2int,
{
    if pos < 0 || pos > s.len() {
    } else {
        match spec_match_keyword(s, pos, kw_let()) {
            Some(p) => {
                lemma_let_collapsed(s, p);
            },
            None => match spec_match_keyword(s, pos, kw_while()) {
                Some(p) => {
                    lemma_while_collapsed(s, pos, p);
                },
                None => match spec_match_keyword(s, pos, kw_if()) {
                    Some(p) => {
                        lemma_if_collapsed(s, pos, p);
                    },
                    None => match spec_match_keyword(s, pos, kw_return()) {
                        Some(p) => {
                            lemma_return_collapsed(s, p);
                        },
                        None => {
                            lemma_parse_expression_collapsed(s, pos);
                        },
                    },
                },
            },
        }
    }
}

/// The statements of a body obey the collapsing rule.
proof fn lemma_body_items_collapsed(s: Seq<char>, pos: int)
    ensures
        collapsed_stmts(spec_body_items(s, pos).1),
    decreases s.len() - pos, 3int,
{
    if 0 <= pos < s.len() {
        let m = at_least(s, pos, spec_skip_ws(s, pos));
        lemma_parse_statement_collapsed(s, m);
        match spec_parse_statement(s, m) {
            Some((p, st)) => {
                lemma_body_items_collapsed(s, past(s, pos, p));
                let rest = spec_body_items(s, past(s, pos, p)).1;
                assert((seq![st] + rest)[0] == st);
                assert((seq![st] + rest).drop_first() =~= rest);
            },
            None => {},
        }
    }
}

/// Every function the grammar accepts obeys the collapsing rule.
pub proof fn lemma_parse_function_collapsed(s: Seq<char>, pos: int)
    ensures
        spec_parse_function(s, pos) matches Some(r) ==> collapsed_function(r.1),
{
    match spec_match_keyword(s, pos, kw_function()) {
        Some(p) => match spec_parse_ident(s, spec_skip_ws(s, p)) {
            Some((p1, _)) => {
                let q = spec_skip_ws(s, p1);
                if 0 <= q < s.len() && s[q] == '(' {
                    let (p2, _) = spec_fn_args_items(s, q + 1);
                    let r = spec_skip_ws(s, p2);
                    if 0 <= r < s.len() && s[r] == ')' {
                        let t = spec_skip_ws(s, r + 1);
                        let after_rt: int = match spec_match_tag(s, t, tok_arrow()) {
                            Some(a) => match spec_parse_ident(s, spec_skip_ws(s, a)) {
                                Some((p3, _)) => p3,
                                None => r + 1,
                            },
                            None => r + 1,
                        };
                        lemma_curly_collapsed(s, after_rt);
                    }
                }
            },
            None => {},
        },
        None => {},
    }
}

/// Every program the grammar accepts obeys the collapsing rule: no n-ary
/// node with exactly one child appears anywhere in a fully-parsed tree.
pub proof fn lemma_parse_ast_collapsed(s: Seq<char>, pos: int)
    ensures
        collapsed_functions(spec_ast_functions(s, pos).1),
    decreases s.len() - pos,
{
    if 0 <= pos < s.len() {
        lemma_parse_function_collapsed(s, spec_skip_ws(s, pos));
        match spec_parse_function(s, spec_skip_ws(s, pos)) {
            Some((p, f)) => {
                lemma_parse_ast_collapsed(s, past(s, pos, p));
                let rest = spec_ast_functions(s, past(s, pos, p)).1;
                assert((seq![f] + rest)[0] == f);
                assert((seq![f] + rest).drop_first() =~= rest);
            },
            None => {},
        }
    }
}

// ---------------------------------------------------------------------------
// An atom standing alone is a complete expression
// ---------------------------------------------------------------------------

/// A successful atom begins with a letter, a digit, or an opening
/// parenthesis — never with whitespace or an operator character.
pub proof fn lemma_atom_first_char(s: Seq<char>, pos: int)
    requires
        spec_atom(s, pos) is Some,
    ensures
        0 <= pos < s.len(),
        is_letter_char(s[pos]) || is_digit_char(s[pos]) || s[pos] == '(',
{
    if spec_value_expr(s, pos) is Some {
        if spec_parse_value(s, pos) is Some {
            if spec_parse_bool(s, pos) is Some {
                if spec_match_tag(s, pos, kw_false()) is Some {
                    assert(s.subrange(pos, pos + 5)[0] == s[pos]);
                    assert(s[pos] == 'f');
                } else {
                    assert(s.subrange(pos, pos + 4)[0] == s[pos]);
                    assert(s[pos] == 't');
                }
            }
        }
    }
}

/// The characters that separate the operands of a chain.
pub open spec fn is_op_char(c: char) -> bool {
    c == '|' || c == '&' || c == '+' || c == '-' || c == '*' || c == '/'
}

/// A successful unary expression begins with `!`, `-`, or an atom's first
/// character — never with whitespace.
pub proof fn lemma_unary_first_char(s: Seq<char>, pos: int)
    requires
        spec_not(s, pos) is Some,
    ensures
        0 <= pos < s.len(),
        !is_ws_char(s[pos]),
{
    if !(0 <= pos < s.len() && (s[pos] == '!' || s[pos] == '-')) {
        lemma_atom_first_char(s, pos);
    }
}

/// A unary expression followed by anything but an operator is a complete
/// chain at every level: there is no second operand to collect, and a chain
/// of a single operand collapses to the operand.
proof fn lemma_chain_of_unary(s: Seq<char>, pos: int, lvl: int)
    requires
        0 <= lvl <= 5,
        spec_not(s, pos) matches Some(r) && pos < r.0 <= s.len() && (at_least(
            s,
            r.0,
            spec_skip_ws(s, r.0),
        ) == s.len() || !is_op_char(s[at_least(s, r.0, spec_skip_ws(s, r.0))])),
    ensures
        spec_chain(s, pos, lvl) == spec_not(s, pos),
    decreases 5 - lvl,
{
    let (p, e) = spec_not(s, pos)->Some_0;
    lemma_unary_first_char(s, pos);
    assert(spec_skip_ws(s, pos) == pos);
    assert(at_least(s, pos, spec_skip_ws(s, pos)) == pos);
    if lvl == 5 {
        assert(spec_operand(s, pos, 5) == spec_not(s, pos));
    } else {
        lemma_chain_of_unary(s, pos, lvl + 1);
        assert(spec_operand(s, pos, lvl) == spec_chain(s, pos, lvl + 1));
    }
    assert(past(s, pos, p) == p);
    assert(spec_chain_more(s, p, lvl) == (p, Seq::<SpecExpression>::empty()));
    assert((seq![e] + Seq::<SpecExpression>::empty()).len() == 1);
    assert((seq![e] + Seq::<SpecExpression>::empty())[0] == e);
    assert(level_node(level_clamp(lvl), seq![e] + Seq::<SpecExpression>::empty()) == e);
}

/// A unary expression followed by anything but an operator is a complete
/// expression: the collapsing rule leaves no chain node behind.
pub proof fn lemma_expression_of_unary(s: Seq<char>, pos: int)
    requires
        spec_not(s, pos) matches Some(r) && pos < r.0 <= s.len() && (at_least(
            s,
            r.0,
            spec_skip_ws(s, r.0),
        ) == s.len() || !is_op_char(s[at_least(s, r.0, spec_skip_ws(s, r.0))])),
    ensures
        spec_parse_expression(s, pos) == spec_not(s, pos),
{
    lemma_unary_first_char(s, pos);
    lemma_chain_of_unary(s, pos, 0);
}

/// An atom that reaches the end of the input is a complete expression: the
/// collapsing rule leaves no chain node behind.
pub proof fn lemma_expression_of_full_atom(s: Seq<char>, pos: int)
    requires
        spec_atom(s, pos) matches Some(r) && r.0 == s.len(),
    ensures
        spec_parse_expression(s, pos) == spec_atom(s, pos),
{
    let (p, e) = spec_atom(s, pos)->Some_0;
    lemma_atom_first_char(s, pos);
    assert(s[pos] != '!' && s[pos] != '-');
    assert(spec_negative(s, pos) == spec_atom(s, pos));
    assert(spec_not(s, pos) == spec_atom(s, pos));
    let n = s.len() as int;
    assert(spec_skip_ws(s, n) == n);
    assert(at_least(s, n, spec_skip_ws(s, n)) == n);
    lemma_expression_of_unary(s, pos);
}

// ---------------------------------------------------------------------------
// Bounds of the terminal rules
// ---------------------------------------------------------------------------

/// An identifier-character run never moves backwards nor past the end.
pub proof fn lemma_ident_end_bounds(s: Seq<char>, pos: int)
    requires
        0 <= pos <= s.len(),
    ensures
        pos <= spec_ident_end(s, pos) <= s.len(),
    decreases s.len() - pos,
{
    if pos < s.len() && is_ident_char(s[pos]) {
        lemma_ident_end_bounds(s, pos + 1);
    }
}

/// A digit run never moves backwards nor past the end.
pub proof fn lemma_digits_end_bounds(s: Seq<char>, pos: int)
    requires
        0 <= pos <= s.len(),
    ensures
        pos <= spec_digits_end(s, pos) <= s.len(),
    decreases s.len() - pos,
{
    if pos < s.len() && is_digit_char(s[pos]) {
        lemma_digits_end_bounds(s, pos + 1);
    }
}

/// An identifier-character run over text that is all identifier characters
/// runs to the end of the text.
pub proof fn lemma_ident_end_full(s: Seq<char>, pos: int)
    requires
        0 <= pos <= s.len(),
        forall|i: int| pos <= i < s.len() ==> is_ident_char(s[i]),
    ensures
        spec_ident_end(s, pos) == s.len(),
    decreases s.len() - pos,
{
    if pos < s.len() {
        lemma_ident_end_full(s, pos + 1);
    }
}

/// Every text of the identifier shape — an ASCII letter followed by ASCII
/// letters, digits or underscores — parses as an identifier: parsing
/// consumes all of it and yields exactly that text.
pub proof fn lemma_identifier_complete(s: Seq<char>)
    requires
        s.len() >= 1,
        is_letter_char(s[0]),
        forall|i: int| 1 <= i < s.len() ==> is_ident_char(s[i]),
    ensures
        spec_parse_ident(s, 0) == Some((s.len() as int, s)),
{
    assert(is_ident_char(s[0]));
    lemma_ident_end_full(s, 0);
    assert(s.subrange(0, s.len() as int) =~= s);
}

/// Every character strictly before the end of a digit run is a digit.
pub proof fn lemma_digits_end_chars(s: Seq<char>, pos: int)
    requires
        0 <= pos <= s.len(),
    ensures
        forall|j: int| pos <= j < spec_digits_end(s, pos) ==> is_digit_char(s[j]),
    decreases s.len() - pos,
{
    lemma_digits_end_bounds(s, pos);
    if pos < s.len() && is_digit_char(s[pos]) {
        lemma_digits_end_chars(s, pos + 1);
    }
}

/// The number denoted by a digit run is never negative.
pub proof fn lemma_digits_val_nonneg(ds: Seq<char>)
    requires
        forall|j: int| 0 <= j < ds.len() ==> is_digit_char(ds[j]),
    ensures
        spec_digits_val(ds) >= 0,
    decreases ds.len(),
{
    if ds.len() > 0 {
        lemma_digits_val_nonneg(ds.drop_last());
    }
}

/// Extending a digit run to the right never shrinks its value.
pub proof fn lemma_digits_val_mono(s: Seq<char>, pos: int, i: int, end: int)
    requires
        0 <= pos <= i <= end <= s.len(),
        forall|j: int| pos <= j < end ==> is_digit_char(s[j]),
    ensures
        spec_digits_val(s.subrange(pos, i)) <= spec_digits_val(s.subrange(pos, end)),
    decreases end - i,
{
    if i < end {
        let a = s.subrange(pos, i + 1);
        assert(a.drop_last() =~= s.subrange(pos, i));
        assert(forall|j: int| 0 <= j < s.subrange(pos, i).len()
            ==> is_digit_char(s.subrange(pos, i)[j]));
        lemma_digits_val_nonneg(s.subrange(pos, i));
        assert(spec_digits_val(a) == spec_digits_val(s.subrange(pos, i)) * 10 + digit_val(s[i]));
        lemma_digits_val_mono(s, pos, i + 1, end);
    }
}

} // verus!
