//! A textual form for parsed trees.
//!
//! `to_text` renders a tree back to source text that the grammar accepts.
//! Composite sub-expressions are parenthesized, so the rendered text parses
//! back without re-association; `lemma_value_print_parse` proves the
//! round trip for value literals, and the collapsing rule makes the added
//! parentheses vanish on re-parsing.

use super::expression::Expression;
use super::grammar::{
    digit_val, is_digit_char, is_ident_char, is_letter_char, is_ws_char, kw_else, kw_false,
    kw_function, kw_if, kw_let, kw_return, kw_true, kw_while, level_op, spec_atom,
    spec_digits_end, spec_digits_val, spec_match_tag, spec_parse_bool, spec_parse_expression,
    spec_parse_float, spec_parse_int, spec_parse_value, spec_skip_ws, SpecExpression,
    SpecFunction, SpecLiteral, SpecStatement, SpecValue,
};
use super::literal::Literal;
use super::value::Value;
use super::views::{expr_view, exprs_view, stmt_view, stmts_view};
use super::{Ast, Body, Function, Statement};
use vstd::prelude::*;

verus! {

broadcast use vstd::seq::group_seq_axioms;

// ---------------------------------------------------------------------------
// The textual form, as specification functions
// ---------------------------------------------------------------------------

/// The decimal digit character for `d`.
pub open spec fn digit_char(d: int) -> char {
    if d == 0 {
        '0'
    } else if d == 1 {
        '1'
    } else if d == 2 {
        '2'
    } else if d == 3 {
        '3'
    } else if d == 4 {
        '4'
    } else if d == 5 {
        '5'
    } else if d == 6 {
        '6'
    } else if d == 7 {
        '7'
    } else if d == 8 {
        '8'
    } else {
        '9'
    }
}

/// The decimal digits of a non-negative number, most significant first.
pub open spec fn spec_print_digits(n: int) -> Seq<char>
    recommends
        n >= 0,
    decreases n,
{
    if n < 10 {
        seq![digit_char(n)]
    } else {
        spec_print_digits(n / 10).push(digit_char(n % 10))
    }
}

/// A decimal integer, with a leading `-` if negative.
pub open spec fn spec_print_int(n: int) -> Seq<char> {
    if n >= 0 {
        spec_print_digits(n)
    } else {
        seq!['-'] + spec_print_digits(-n)
    }
}

/// A value literal's text.  Parsed literals never hold negative numbers —
/// negation is an operator, not part of a literal.
pub open spec fn spec_print_value(v: SpecValue) -> Seq<char> {
    match v {
        SpecValue::Boolean(b) => if b {
            kw_true()
        } else {
            kw_false()
        },
        SpecValue::Integer(n) => spec_print_int(n),
        SpecValue::Float { whole, frac } => spec_print_int(whole) + seq!['.'] + spec_print_int(
            frac,
        ),
    }
}

/// An expression's text.  Chains and unary operands are parenthesized, so
/// the text is an atom wherever it is embedded.
pub open spec fn spec_print_expr(e: SpecExpression) -> Seq<char>
    decreases e,
{
    match e {
        SpecExpression::Or(v) => seq!['('] + spec_print_chain(v, level_op(0)) + seq![')'],
        SpecExpression::And(v) => seq!['('] + spec_print_chain(v, level_op(1)) + seq![')'],
        SpecExpression::Add(v) => seq!['('] + spec_print_chain(v, level_op(2)) + seq![')'],
        SpecExpression::Subtract(v) => seq!['('] + spec_print_chain(v, level_op(3)) + seq![')'],
        SpecExpression::Multiply(v) => seq!['('] + spec_print_chain(v, level_op(4)) + seq![')'],
        SpecExpression::Divide(v) => seq!['('] + spec_print_chain(v, level_op(5)) + seq![')'],
        SpecExpression::Not(b) => seq!['!', '('] + spec_print_expr(*b) + seq![')'],
        SpecExpression::Negative(b) => seq!['-', '('] + spec_print_expr(*b) + seq![')'],
        SpecExpression::Literal(l) => spec_print_literal(l),
        SpecExpression::Value(v) => spec_print_value(v),
    }
}

/// The operands of a chain, joined by its operator.
pub open spec fn spec_print_chain(v: Seq<SpecExpression>, op: char) -> Seq<char>
    decreases v,
{
    if v.len() == 0 {
        Seq::empty()
    } else if v.len() == 1 {
        spec_print_expr(v[0])
    } else {
        spec_print_expr(v[0]) + seq![op] + spec_print_chain(v.drop_first(), op)
    }
}

/// A literal's text: the identifier, with its argument list if it has one.
pub open spec fn spec_print_literal(l: SpecLiteral) -> Seq<char>
    decreases l,
{
    match l.call_arguments {
        None => l.ident,
        Some(args) => l.ident + seq!['('] + spec_print_args(args) + seq![')'],
    }
}

/// Call arguments, comma-separated.
pub open spec fn spec_print_args(v: Seq<SpecExpression>) -> Seq<char>
    decreases v,
{
    if v.len() == 0 {
        Seq::empty()
    } else if v.len() == 1 {
        spec_print_expr(v[0])
    } else {
        spec_print_expr(v[0]) + seq![',', ' '] + spec_print_args(v.drop_first())
    }
}

/// A statement's text.
pub open spec fn spec_print_stmt(st: SpecStatement) -> Seq<char>
    decreases st,
{
    match st {
        SpecStatement::Let { name, assign: None } => kw_let() + seq![' '] + name,
        SpecStatement::Let { name, assign: Some(e) } => kw_let() + seq![' '] + name + seq![
            ' ',
            '=',
            ' ',
        ] + spec_print_expr(e),
        SpecStatement::If { condition, then, otherwise: None } => kw_if() + seq![' ']
            + spec_print_expr(condition) + seq![' ', '{', ' '] + spec_print_stmts(then) + seq![
            ' ',
            '}',
        ],
        SpecStatement::If { condition, then, otherwise: Some(e) } => kw_if() + seq![' ']
            + spec_print_expr(condition) + seq![' ', '{', ' '] + spec_print_stmts(then) + seq![
            ' ',
            '}',
            ' ',
        ] + kw_else() + seq![' ', '{', ' '] + spec_print_stmts(e) + seq![' ', '}'],
        SpecStatement::While { condition, then } => kw_while() + seq![' '] + spec_print_expr(
            condition,
        ) + seq![' ', '{', ' '] + spec_print_stmts(then) + seq![' ', '}'],
        SpecStatement::Return(None) => kw_return(),
        SpecStatement::Return(Some(e)) => kw_return() + seq![' '] + spec_print_expr(e),
        SpecStatement::Expression(e) => spec_print_expr(*e),
    }
}

/// A body's statements, space-separated.
pub open spec fn spec_print_stmts(v: Seq<SpecStatement>) -> Seq<char>
    decreases v,
{
    if v.len() == 0 {
        Seq::empty()
    } else if v.len() == 1 {
        spec_print_stmt(v[0])
    } else {
        spec_print_stmt(v[0]) + seq![' '] + spec_print_stmts(v.drop_first())
    }
}

/// A parameter list's text: `name: type`, comma-separated.
pub open spec fn spec_print_fn_args(v: Seq<(Seq<char>, Seq<char>)>) -> Seq<char>
    decreases v,
{
    if v.len() == 0 {
        Seq::empty()
    } else if v.len() == 1 {
        v[0].0 + seq![':', ' '] + v[0].1
    } else {
        v[0].0 + seq![':', ' '] + v[0].1 + seq![',', ' '] + spec_print_fn_args(v.drop_first())
    }
}

/// A function declaration's text.
pub open spec fn spec_print_function(f: SpecFunction) -> Seq<char> {
    let head = kw_function() + seq![' '] + f.name + seq!['('] + spec_print_fn_args(f.args) + seq![
        ')',
    ];
    let with_rt = match f.return_type {
        Some(t) => head + seq![' ', '-', '>', ' '] + t,
        None => head,
    };
    with_rt + seq![' ', '{', ' '] + spec_print_stmts(f.body) + seq![' ', '}']
}

/// A program's text: its functions, one per line.
pub open spec fn spec_print_ast(v: Seq<SpecFunction>) -> Seq<char>
    decreases v,
{
    if v.len() == 0 {
        Seq::empty()
    } else if v.len() == 1 {
        spec_print_function(v[0])
    } else {
        spec_print_function(v[0]) + seq!['\n'] + spec_print_ast(v.drop_first())
    }
}

// ---------------------------------------------------------------------------
// Printing a value literal and parsing it back
// ---------------------------------------------------------------------------

/// The values a parse can produce: booleans, and numbers whose digit runs
/// came from 64-bit signed integers.  Negative numbers never appear — in
/// source text, negation is an operator, not part of a literal.
pub open spec fn printable_value(v: SpecValue) -> bool {
    match v {
        SpecValue::Boolean(_) => true,
        SpecValue::Integer(n) => 0 <= n <= i64::MAX,
        SpecValue::Float { whole, frac } => 0 <= whole <= i64::MAX && 0 <= frac <= i64::MAX,
    }
}

/// The printed digits of a non-negative number are a non-empty digit run.
pub proof fn lemma_print_digits_digits(n: int)
    requires
        n >= 0,
    ensures
        spec_print_digits(n).len() >= 1,
        forall|i: int|
            0 <= i < spec_print_digits(n).len() ==> is_digit_char(#[trigger] spec_print_digits(
                n,
            )[i]),
    decreases n,
{
    if n >= 10 {
        lemma_print_digits_digits(n / 10);
    }
}

/// Reading back the printed digits of a non-negative number gives the
/// number.
pub proof fn lemma_digits_val_of_print(n: int)
    requires
        n >= 0,
    ensures
        spec_digits_val(spec_print_digits(n)) == n,
    decreases n,
{
    if n < 10 {
        assert(spec_digits_val(seq![digit_char(n)]) == spec_digits_val(
            seq![digit_char(n)].drop_last(),
        ) * 10 + digit_val(digit_char(n)));
        assert(seq![digit_char(n)].drop_last() =~= Seq::empty());
    } else {
        lemma_digits_val_of_print(n / 10);
        let x = spec_print_digits(n / 10);
        let d = digit_char(n % 10);
        assert(x.push(d).drop_last() =~= x);
        assert(spec_digits_val(x.push(d)) == spec_digits_val(x) * 10 + digit_val(d));
    }
}

/// A digit run ends exactly where the digits end.
pub proof fn lemma_digits_end_exact(s: Seq<char>, pos: int, k: int)
    requires
        0 <= pos <= k <= s.len(),
        forall|i: int| pos <= i < k ==> is_digit_char(s[i]),
        k == s.len() || !is_digit_char(s[k]),
    ensures
        spec_digits_end(s, pos) == k,
    decreases k - pos,
{
    if pos < k {
        lemma_digits_end_exact(s, pos + 1, k);
    }
}

/// Where a stretch of text is exactly the printed digits of `n`, followed by
/// the end of the text or a non-digit, an integer literal parses there: it
/// consumes exactly that stretch and yields `n`.
pub proof fn lemma_parse_int_of_digits(s: Seq<char>, pos: int, k: int, n: int)
    requires
        0 <= pos <= k <= s.len(),
        0 <= n <= i64::MAX,
        s.subrange(pos, k) == spec_print_digits(n),
        k == s.len() || !is_digit_char(s[k]),
    ensures
        spec_parse_int(s, pos) == Some((k, n)),
{
    lemma_print_digits_digits(n);
    assert(forall|i: int| pos <= i < k ==> s[i] == spec_print_digits(n)[i - pos]);
    assert(forall|i: int| pos <= i < k ==> is_digit_char(s[i]));
    assert(pos < k);
    assert(is_digit_char(s[pos]));
    lemma_digits_end_exact(s, pos, k);
    lemma_digits_val_of_print(n);
}

/// No boolean literal starts with a digit or a parenthesis.
pub proof fn lemma_bool_fails_at(s: Seq<char>, pos: int)
    requires
        0 <= pos < s.len(),
        is_digit_char(s[pos]) || s[pos] == '(',
    ensures
        spec_parse_bool(s, pos) is None,
{
    if spec_match_tag(s, pos, kw_false()) is Some {
        assert(s.subrange(pos, pos + 5)[0] == s[pos]);
        assert(false);
    }
    if spec_match_tag(s, pos, kw_true()) is Some {
        assert(s.subrange(pos, pos + 4)[0] == s[pos]);
        assert(false);
    }
}

/// Where a stretch of text is exactly a printable value's text, followed by
/// the end of the text or by a character that extends neither a digit run
/// nor an integer into a fractional literal, a value literal parses there:
/// it consumes exactly that stretch and yields the value.
pub proof fn lemma_parse_value_embedded(s: Seq<char>, pos: int, k: int, v: SpecValue)
    requires
        printable_value(v),
        0 <= pos <= k <= s.len(),
        s.subrange(pos, k) == spec_print_value(v),
        k == s.len() || (!is_digit_char(s[k]) && s[k] != '.'),
    ensures
        spec_parse_value(s, pos) == Some((k, v)),
{
    let t = spec_print_value(v);
    assert(forall|i: int| pos <= i < k ==> s[i] == t[i - pos]);
    match v {
        SpecValue::Boolean(b) => {
            if b {
                assert(pos < s.len() && s[pos] == 't');
                if spec_match_tag(s, pos, kw_false()) is Some {
                    assert(s.subrange(pos, pos + 5)[0] == s[pos]);
                    assert(false);
                }
                assert(s.subrange(pos, pos + 4) =~= kw_true());
            } else {
                assert(s.subrange(pos, pos + 5) =~= kw_false());
            }
        },
        SpecValue::Integer(n) => {
            lemma_print_digits_digits(n);
            assert(is_digit_char(s[pos]));
            lemma_bool_fails_at(s, pos);
            lemma_parse_int_of_digits(s, pos, k, n);
            assert(spec_parse_float(s, pos) is None);
        },
        SpecValue::Float { whole, frac } => {
            let pw = spec_print_digits(whole);
            let pf = spec_print_digits(frac);
            let a = pw.len() as int;
            assert(t == pw + seq!['.'] + pf);
            lemma_print_digits_digits(whole);
            lemma_print_digits_digits(frac);
            assert(s[pos] == pw[0]);
            lemma_bool_fails_at(s, pos);
            assert(s.subrange(pos, pos + a) =~= pw);
            assert(s[pos + a] == '.');
            assert(!is_digit_char(s[pos + a]));
            lemma_parse_int_of_digits(s, pos, pos + a, whole);
            assert(s.subrange(pos + a + 1, k) =~= pf);
            lemma_parse_int_of_digits(s, pos + a + 1, k, frac);
        },
    }
}

/// Printing a value literal and parsing the text back gives the value, with
/// the whole text consumed.  This is the round trip at the leaves of the
/// tree.
pub proof fn lemma_value_print_parse(v: SpecValue)
    requires
        printable_value(v),
    ensures
        spec_parse_value(spec_print_value(v), 0) == Some(
            (spec_print_value(v).len() as int, v),
        ),
{
    let s = spec_print_value(v);
    assert(s.subrange(0, s.len() as int) =~= s);
    lemma_parse_value_embedded(s, 0, s.len() as int, v);
}

/// A printable value's text never starts with whitespace, `!`, or `-`.
proof fn lemma_print_value_first_char(v: SpecValue)
    requires
        printable_value(v),
    ensures
        spec_print_value(v).len() >= 1,
        !is_ws_char(spec_print_value(v)[0]),
        spec_print_value(v)[0] != '!',
        spec_print_value(v)[0] != '-',
        is_digit_char(spec_print_value(v)[0]) || spec_print_value(v)[0] == 't'
            || spec_print_value(v)[0] == 'f',
{
    match v {
        SpecValue::Boolean(_) => {},
        SpecValue::Integer(n) => {
            lemma_print_digits_digits(n);
        },
        SpecValue::Float { whole, frac } => {
            lemma_print_digits_digits(whole);
            assert(spec_print_value(v)[0] == spec_print_digits(whole)[0]);
        },
    }
}

/// A parenthesized printable value is an atom: `(`, the value's text, `)`,
/// standing for the value itself.
proof fn lemma_atom_of_paren_value(s: Seq<char>, pos: int, k: int, v: SpecValue)
    requires
        printable_value(v),
        0 <= pos,
        pos + 2 + spec_print_value(v).len() == k,
        k <= s.len(),
        s[pos] == '(',
        s.subrange(pos + 1, k - 1) == spec_print_value(v),
        s[k - 1] == ')',
    ensures
        spec_atom(s, pos) == Some((k, SpecExpression::Value(v))),
{
    lemma_print_value_first_char(v);
    // the opening parenthesis is not a value literal
    lemma_bool_fails_at(s, pos);
    assert(!is_digit_char(s[pos]));
    assert(spec_parse_int(s, pos) is None);
    assert(spec_parse_float(s, pos) is None);
    assert(spec_parse_value(s, pos) is None);
    // the inner text parses as the value
    assert(s[pos + 1] == spec_print_value(v)[0]);
    assert(!is_ws_char(s[pos + 1]));
    assert(spec_skip_ws(s, pos + 1) == pos + 1);
    assert(super::grammar::at_least(s, pos + 1, spec_skip_ws(s, pos + 1)) == pos + 1);
    lemma_parse_value_embedded(s, pos + 1, k - 1, v);
    assert(super::grammar::spec_value_expr(s, pos + 1) == Some(
        (k - 1, SpecExpression::Value(v)),
    ));
    assert(super::grammar::spec_atom(s, pos + 1) == Some((k - 1, SpecExpression::Value(v))));
    // the inner value is a complete inner expression: `)` is not an operator
    assert(s[pos + 1] != '!' && s[pos + 1] != '-');
    assert(super::grammar::spec_negative(s, pos + 1) == super::grammar::spec_atom(s, pos + 1));
    assert(super::grammar::spec_not(s, pos + 1) == super::grammar::spec_atom(s, pos + 1));
    assert(spec_skip_ws(s, k - 1) == k - 1);
    assert(super::grammar::at_least(s, k - 1, spec_skip_ws(s, k - 1)) == k - 1);
    assert(!super::grammar::is_op_char(s[k - 1]));
    super::grammar::lemma_expression_of_unary(s, pos + 1);
    assert(spec_parse_expression(s, pos + 1) == Some((k - 1, SpecExpression::Value(v))));
    // and the closing parenthesis completes the atom
    assert(super::grammar::spec_value_expr(s, pos) == Some((k, SpecExpression::Value(v))));
}

/// Unary `!` over a value leaf round-trips: its text `!( value )` parses
/// back to the same tree, consuming everything.
pub proof fn lemma_not_value_print_parse(v: SpecValue)
    requires
        printable_value(v),
    ensures
        ({
            let e = SpecExpression::Not(Box::new(SpecExpression::Value(v)));
            spec_parse_expression(spec_print_expr(e), 0) == Some(
                (spec_print_expr(e).len() as int, e),
            )
        }),
{
    let e = SpecExpression::Not(Box::new(SpecExpression::Value(v)));
    let s = spec_print_expr(e);
    let pv = spec_print_value(v);
    assert(spec_print_expr(SpecExpression::Value(v)) == pv);
    assert(s == seq!['!', '('] + pv + seq![')']);
    let k = s.len() as int;
    assert(s[1] == '(');
    assert(s.subrange(2, k - 1) =~= pv);
    assert(s[k - 1] == ')');
    lemma_atom_of_paren_value(s, 1, k, v);
    assert(s[0] == '!');
    assert(super::grammar::spec_not(s, 0) == Some((k, e)));
    assert(spec_skip_ws(s, k) == k);
    assert(super::grammar::at_least(s, k, spec_skip_ws(s, k)) == k);
    super::grammar::lemma_expression_of_unary(s, 0);
}

/// Unary `-` over a value leaf round-trips: its text `-( value )` parses
/// back to the same tree, consuming everything.
pub proof fn lemma_negative_value_print_parse(v: SpecValue)
    requires
        printable_value(v),
    ensures
        ({
            let e = SpecExpression::Negative(Box::new(SpecExpression::Value(v)));
            spec_parse_expression(spec_print_expr(e), 0) == Some(
                (spec_print_expr(e).len() as int, e),
            )
        }),
{
    let e = SpecExpression::Negative(Box::new(SpecExpression::Value(v)));
    let s = spec_print_expr(e);
    let pv = spec_print_value(v);
    assert(spec_print_expr(SpecExpression::Value(v)) == pv);
    assert(s == seq!['-', '('] + pv + seq![')']);
    let k = s.len() as int;
    assert(s[1] == '(');
    assert(s.subrange(2, k - 1) =~= pv);
    assert(s[k - 1] == ')');
    lemma_atom_of_paren_value(s, 1, k, v);
    assert(s[0] == '-');
    assert(super::grammar::spec_negative(s, 0) == Some((k, e)));
    assert(super::grammar::spec_not(s, 0) == Some((k, e)));
    assert(spec_skip_ws(s, k) == k);
    assert(super::grammar::at_least(s, k, spec_skip_ws(s, k)) == k);
    super::grammar::lemma_expression_of_unary(s, 0);
}

/// A value leaf prints as its literal text, and the printed text parses
/// back as an expression to the same leaf, consuming everything: the
/// precedence ladder collapses around a lone atom.
pub proof fn lemma_value_expression_print_parse(v: SpecValue)
    requires
        printable_value(v),
    ensures
        spec_print_expr(SpecExpression::Value(v)) == spec_print_value(v),
        spec_parse_expression(spec_print_value(v), 0) == Some(
            (spec_print_value(v).len() as int, SpecExpression::Value(v)),
        ),
{
    let s = spec_print_value(v);
    lemma_value_print_parse(v);
    assert(super::grammar::spec_value_expr(s, 0) == Some(
        (s.len() as int, SpecExpression::Value(v)),
    ));
    assert(super::grammar::spec_atom(s, 0) == Some(
        (s.len() as int, SpecExpression::Value(v)),
    ));
    super::grammar::lemma_expression_of_full_atom(s, 0);
}

/// A variable reference — a literal with no argument list — prints as its
/// identifier, and the printed text parses back to the same tree, consuming
/// everything.  One family of names is excluded: a name beginning with the
/// exact text `true` or `false` is read as the boolean literal first, so
/// such a tree never comes out of the parser and has no faithful text.
pub proof fn lemma_variable_print_parse(id: Seq<char>)
    requires
        id.len() >= 1,
        is_letter_char(id[0]),
        forall|i: int| 1 <= i < id.len() ==> is_ident_char(id[i]),
        spec_match_tag(id, 0, kw_true()) is None,
        spec_match_tag(id, 0, kw_false()) is None,
    ensures
        spec_print_expr(
            SpecExpression::Literal(SpecLiteral { ident: id, call_arguments: None }),
        ) == id,
        spec_parse_expression(id, 0) == Some(
            (
                id.len() as int,
                SpecExpression::Literal(SpecLiteral { ident: id, call_arguments: None }),
            ),
        ),
{
    let n = id.len() as int;
    assert(spec_print_literal(SpecLiteral { ident: id, call_arguments: None }) == id);
    assert(spec_print_expr(
        SpecExpression::Literal(SpecLiteral { ident: id, call_arguments: None }),
    ) == id);
    assert(spec_parse_bool(id, 0) is None);
    assert(!is_digit_char(id[0]));
    assert(spec_parse_int(id, 0) is None);
    assert(spec_parse_float(id, 0) is None);
    assert(id[0] != '(');
    assert(spec_parse_value(id, 0) is None);
    assert(super::grammar::spec_value_expr(id, 0) is None);
    super::grammar::lemma_identifier_complete(id);
    assert(super::grammar::spec_skip_ws(id, n) == n);
    assert(super::grammar::at_least(id, 0, super::grammar::spec_skip_ws(id, n)) == n);
    assert(super::grammar::spec_parse_tuple(id, n) is None);
    assert(super::grammar::spec_parse_literal(id, 0) == Some(
        (n, SpecLiteral { ident: id, call_arguments: None }),
    ));
    assert(super::grammar::spec_atom(id, 0) == Some(
        (n, SpecExpression::Literal(SpecLiteral { ident: id, call_arguments: None })),
    ));
    super::grammar::lemma_expression_of_full_atom(id, 0);
}

// ---------------------------------------------------------------------------
// The executable printer
// ---------------------------------------------------------------------------

/// The one-character text of a decimal digit.
fn digit_str(d: u64) -> (r: &'static str)
    requires
        d < 10,
    ensures
        r@ == seq![digit_char(d as int)],
{
    let digits = "0123456789";
    proof {
        reveal_strlit("0123456789");
    }
    let r = digits.substring_char(d as usize, d as usize + 1);
    proof {
        assert(r@ =~= seq![digit_char(d as int)]);
    }
    r
}

/// Append the decimal digits of `m`.
fn push_digits(out: &mut String, m: u64)
    ensures
        final(out)@ == old(out)@ + spec_print_digits(m as int),
    decreases m,
{
    if m < 10 {
        out.append(digit_str(m));
    } else {
        push_digits(out, m / 10);
        out.append(digit_str(m % 10));
        proof {
            assert(out@ =~= old(out)@ + spec_print_digits(m as int));
        }
    }
}

/// Append a decimal integer, `-`-signed if negative.
fn push_int(out: &mut String, n: i64)
    ensures
        final(out)@ == old(out)@ + spec_print_int(n as int),
{
    if n >= 0 {
        push_digits(out, n as u64);
    } else {
        proof {
            reveal_strlit("-");
        }
        out.append("-");
        let m: u64 = ((-(n + 1)) as u64) + 1;
        proof {
            assert(m as int == -(n as int));
        }
        push_digits(out, m);
        proof {
            assert(out@ =~= old(out)@ + spec_print_int(n as int));
        }
    }
}

/// Append a value literal.
fn push_value(out: &mut String, v: &Value)
    ensures
        final(out)@ == old(out)@ + spec_print_value(v@),
{
    match v {
        Value::Boolean(b) => {
            proof {
                reveal_strlit("true");
                reveal_strlit("false");
                assert("true"@ =~= kw_true());
                assert("false"@ =~= kw_false());
            }
            if *b {
                out.append("true");
            } else {
                out.append("false");
            }
        },
        Value::Integer(n) => {
            push_int(out, *n);
        },
        Value::Float(w, f) => {
            push_int(out, *w);
            proof {
                reveal_strlit(".");
            }
            out.append(".");
            push_int(out, *f);
            proof {
                assert(out@ =~= old(out)@ + spec_print_value(v@));
            }
        },
    }
}

/// Append an expression.
fn push_expr(out: &mut String, e: &Expression)
    ensures
        final(out)@ == old(out)@ + spec_print_expr(expr_view(e)),
    decreases e,
{
    proof {
        reveal_strlit("(");
        reveal_strlit(")");
        reveal_strlit("!(");
        reveal_strlit("-(");
    }
    match e {
        Expression::Or(v) => {
            out.append("(");
            push_chain_from(out, v, 0, 0);
            out.append(")");
            proof {
                assert(out@ =~= old(out)@ + spec_print_expr(expr_view(e)));
            }
        },
        Expression::And(v) => {
            out.append("(");
            push_chain_from(out, v, 0, 1);
            out.append(")");
            proof {
                assert(out@ =~= old(out)@ + spec_print_expr(expr_view(e)));
            }
        },
        Expression::Add(v) => {
            out.append("(");
            push_chain_from(out, v, 0, 2);
            out.append(")");
            proof {
                assert(out@ =~= old(out)@ + spec_print_expr(expr_view(e)));
            }
        },
        Expression::Subtract(v) => {
            out.append("(");
            push_chain_from(out, v, 0, 3);
            out.append(")");
            proof {
                assert(out@ =~= old(out)@ + spec_print_expr(expr_view(e)));
            }
        },
        Expression::Multiply(v) => {
            out.append("(");
            push_chain_from(out, v, 0, 4);
            out.append(")");
            proof {
                assert(out@ =~= old(out)@ + spec_print_expr(expr_view(e)));
            }
        },
        Expression::Divide(v) => {
            out.append("(");
            push_chain_from(out, v, 0, 5);
            out.append(")");
            proof {
                assert(out@ =~= old(out)@ + spec_print_expr(expr_view(e)));
            }
        },
        Expression::Not(b) => {
            out.append("!(");
            push_expr(out, &**b);
            out.append(")");
            proof {
                assert(out@ =~= old(out)@ + spec_print_expr(expr_view(e)));
            }
        },
        Expression::Negative(b) => {
            out.append("-(");
            push_expr(out, &**b);
            out.append(")");
            proof {
                assert(out@ =~= old(out)@ + spec_print_expr(expr_view(e)));
            }
        },
        Expression::Literal(l) => {
            push_literal(out, l);
        },
        Expression::Value(v) => {
            push_value(out, v);
        },
    }
}

/// The one-character text of a level's operator.
fn op_str(lvl: u8) -> (r: &'static str)
    requires
        lvl <= 5,
    ensures
        r@ == seq![level_op(lvl as int)],
{
    proof {
        reveal_strlit("|");
        reveal_strlit("&");
        reveal_strlit("+");
        reveal_strlit("-");
        reveal_strlit("*");
        reveal_strlit("/");
    }
    if lvl == 0 {
        "|"
    } else if lvl == 1 {
        "&"
    } else if lvl == 2 {
        "+"
    } else if lvl == 3 {
        "-"
    } else if lvl == 4 {
        "*"
    } else {
        "/"
    }
}

/// Append the operands of a chain from index `i` on, joined by the level's
/// operator.
fn push_chain_from(out: &mut String, v: &Vec<Expression>, i: usize, lvl: u8)
    requires
        i <= v@.len(),
        lvl <= 5,
    ensures
        final(out)@ == old(out)@ + spec_print_chain(
            exprs_view(v@).skip(i as int),
            level_op(lvl as int),
        ),
        i == 0 ==> final(out)@ == old(out)@ + spec_print_chain(
            exprs_view(v@),
            level_op(lvl as int),
        ),
    decreases v, v@.len() - i,
{
    proof {
        assert(exprs_view(v@).skip(0) =~= exprs_view(v@));
        super::expression::lemma_exprs_view_len(v@);
        if (i as int) < v@.len() {
            lemma_exprs_view_index(v@, i as int);
        }
    }
    if i >= v.len() {
        proof {
            assert(exprs_view(v@).skip(i as int) =~= Seq::empty());
        }
    } else {
        push_expr(out, &v[i]);
        if i + 1 < v.len() {
            out.append(op_str(lvl));
            push_chain_from(out, v, i + 1, lvl);
            proof {
                assert(exprs_view(v@).skip(i as int).drop_first() =~= exprs_view(v@).skip(i + 1));
                assert(out@ =~= old(out)@ + spec_print_chain(
                    exprs_view(v@).skip(i as int),
                    level_op(lvl as int),
                ));
            }
        } else {
            proof {
                assert(exprs_view(v@).skip(i as int).len() == 1);
            }
        }
    }
}

/// The view of element `i` of a vector of expressions.
pub proof fn lemma_exprs_view_index(v: Seq<Expression>, i: int)
    requires
        0 <= i < v.len(),
    ensures
        exprs_view(v)[i] == expr_view(&v[i]),
    decreases v.len(),
{
    assert(exprs_view(v) == seq![expr_view(&v[0])] + exprs_view(v.drop_first()));
    if i > 0 {
        lemma_exprs_view_index(v.drop_first(), i - 1);
        super::expression::lemma_exprs_view_len(v.drop_first());
        assert(v.drop_first()[i - 1] == v[i]);
        assert(exprs_view(v)[i] == exprs_view(v.drop_first())[i - 1]);
    }
}

/// Append a literal.
fn push_literal(out: &mut String, l: &Literal)
    ensures
        final(out)@ == old(out)@ + spec_print_literal(super::views::literal_view(l)),
    decreases l,
{
    proof {
        reveal_strlit("(");
        reveal_strlit(")");
    }
    out.append(l.ident.0.as_str());
    match &l.call_arguments {
        None => {
        },
        Some(t) => {
            out.append("(");
            push_args_from(out, &t.0, 0);
            out.append(")");
            proof {
                assert(out@ =~= old(out)@ + spec_print_literal(super::views::literal_view(l)));
            }
        },
    }
}

/// Append call arguments from index `i` on, comma-separated.
#[verifier::rlimit(50)]
fn push_args_from(out: &mut String, v: &Vec<Expression>, i: usize)
    requires
        i <= v@.len(),
    ensures
        final(out)@ == old(out)@ + spec_print_args(exprs_view(v@).skip(i as int)),
        i == 0 ==> final(out)@ == old(out)@ + spec_print_args(exprs_view(v@)),
    decreases v, v@.len() - i,
{
    proof {
        assert(exprs_view(v@).skip(0) =~= exprs_view(v@));
        super::expression::lemma_exprs_view_len(v@);
        if (i as int) < v@.len() {
            lemma_exprs_view_index(v@, i as int);
        }
        reveal_strlit(", ");
    }
    if i >= v.len() {
        proof {
            assert(exprs_view(v@).skip(i as int) =~= Seq::empty());
        }
    } else {
        push_expr(out, &v[i]);
        if i + 1 < v.len() {
            out.append(", ");
            push_args_from(out, v, i + 1);
            proof {
                assert(exprs_view(v@).skip(i as int).drop_first() =~= exprs_view(v@).skip(i + 1));
                assert(out@ =~= old(out)@ + spec_print_args(exprs_view(v@).skip(i as int)));
            }
        } else {
            proof {
                assert(exprs_view(v@).skip(i as int).len() == 1);
            }
        }
    }
}

/// Append a statement.
fn push_stmt(out: &mut String, st: &Statement)
    ensures
        final(out)@ == old(out)@ + spec_print_stmt(stmt_view(st)),
    decreases st,
{
    proof {
        reveal_strlit("let ");
        reveal_strlit(" = ");
        reveal_strlit("if ");
        reveal_strlit("while ");
        reveal_strlit("return");
        reveal_strlit("return ");
        reveal_strlit(" { ");
        reveal_strlit(" }");
        reveal_strlit(" } else { ");
        assert("let "@ =~= kw_let() + seq![' ']);
        assert("if "@ =~= kw_if() + seq![' ']);
        assert("while "@ =~= kw_while() + seq![' ']);
        assert("return"@ =~= kw_return());
        assert("return "@ =~= kw_return() + seq![' ']);
        assert(" } else { "@ =~= seq![' ', '}', ' '] + kw_else() + seq![' ', '{', ' ']);
    }
    match st {
        Statement::Let { name, assign } => {
            out.append("let ");
            out.append(name.0.as_str());
            match assign {
                Some(e) => {
                    out.append(" = ");
                    push_expr(out, e);
                    proof {
                        assert(out@ =~= old(out)@ + spec_print_stmt(stmt_view(st)));
                    }
                },
                None => {
                    proof {
                        assert(out@ =~= old(out)@ + spec_print_stmt(stmt_view(st)));
                    }
                },
            }
        },
        Statement::If { condition, then, otherwise } => {
            out.append("if ");
            push_expr(out, condition);
            out.append(" { ");
            push_stmts_from(out, &then.statements, 0);
            match otherwise {
                Some(b) => {
                    out.append(" } else { ");
                    push_stmts_from(out, &b.statements, 0);
                    out.append(" }");
                    proof {
                        assert(out@ =~= old(out)@ + spec_print_stmt(stmt_view(st)));
                    }
                },
                None => {
                    out.append(" }");
                    proof {
                        assert(out@ =~= old(out)@ + spec_print_stmt(stmt_view(st)));
                    }
                },
            }
        },
        Statement::While { condition, then } => {
            out.append("while ");
            push_expr(out, condition);
            out.append(" { ");
            push_stmts_from(out, &then.statements, 0);
            out.append(" }");
            proof {
                assert(out@ =~= old(out)@ + spec_print_stmt(stmt_view(st)));
            }
        },
        Statement::Return(e) => {
            match e {
                Some(e) => {
                    out.append("return ");
                    push_expr(out, e);
                    proof {
                        assert(out@ =~= old(out)@ + spec_print_stmt(stmt_view(st)));
                    }
                },
                None => {
                    out.append("return");
                },
            }
        },
        Statement::Expression(e) => {
            push_expr(out, &**e);
        },
    }
}

/// The view of element `i` of a vector of statements.
pub proof fn lemma_stmts_view_index(v: Seq<Statement>, i: int)
    requires
        0 <= i < v.len(),
    ensures
        stmts_view(v)[i] == stmt_view(&v[i]),
        stmts_view(v).len() == v.len(),
    decreases v.len(),
{
    lemma_stmts_view_len(v);
    if i > 0 {
        lemma_stmts_view_index(v.drop_first(), i - 1);
    }
}

/// A vector's view has the vector's length.
pub proof fn lemma_stmts_view_len(v: Seq<Statement>)
    ensures
        stmts_view(v).len() == v.len(),
    decreases v.len(),
{
    if v.len() > 0 {
        lemma_stmts_view_len(v.drop_first());
    }
}

/// Append statements from index `i` on, space-separated.
#[verifier::rlimit(50)]
fn push_stmts_from(out: &mut String, v: &Vec<Statement>, i: usize)
    requires
        i <= v@.len(),
    ensures
        final(out)@ == old(out)@ + spec_print_stmts(stmts_view(v@).skip(i as int)),
        i == 0 ==> final(out)@ == old(out)@ + spec_print_stmts(stmts_view(v@)),
    decreases v, v@.len() - i,
{
    proof {
        assert(stmts_view(v@).skip(0) =~= stmts_view(v@));
        lemma_stmts_view_len(v@);
        if (i as int) < v@.len() {
            lemma_stmts_view_index(v@, i as int);
        }
        reveal_strlit(" ");
    }
    if i >= v.len() {
        proof {
            assert(stmts_view(v@).skip(i as int) =~= Seq::empty());
        }
    } else {
        push_stmt(out, &v[i]);
        if i + 1 < v.len() {
            out.append(" ");
            push_stmts_from(out, v, i + 1);
            proof {
                assert(stmts_view(v@).skip(i as int).drop_first() =~= stmts_view(v@).skip(i + 1));
                assert(out@ =~= old(out)@ + spec_print_stmts(stmts_view(v@).skip(i as int)));
            }
        } else {
            proof {
                assert(stmts_view(v@).skip(i as int).len() == 1);
            }
        }
    }
}

/// Append a function declaration.
fn push_function(out: &mut String, f: &Function)
    ensures
        final(out)@ == old(out)@ + spec_print_function(super::views::function_view(f)),
{
    proof {
        reveal_strlit("function ");
        reveal_strlit("(");
        reveal_strlit(")");
        reveal_strlit(" -> ");
        reveal_strlit(" { ");
        reveal_strlit(" }");
        assert("function "@ =~= kw_function() + seq![' ']);
        assert(" -> "@ =~= seq![' ', '-', '>', ' ']);
    }
    out.append("function ");
    out.append(f.name.0.as_str());
    out.append("(");
    push_fn_args_from(out, &f.args, 0);
    out.append(")");
    match &f.return_type {
        Some(t) => {
            out.append(" -> ");
            out.append(t.0.as_str());
        },
        None => {
        },
    }
    out.append(" { ");
    push_stmts_from(out, &f.body.statements, 0);
    out.append(" }");
    proof {
        assert(out@ =~= old(out)@ + spec_print_function(super::views::function_view(f)));
    }
}

/// Append `name: type` parameters from index `i` on, comma-separated.
fn push_fn_args_from(out: &mut String, v: &Vec<(super::Ident, super::Type)>, i: usize)
    requires
        i <= v@.len(),
    ensures
        final(out)@ == old(out)@ + spec_print_fn_args(super::views::args_view(v@).skip(i as int)),
        i == 0 ==> final(out)@ == old(out)@ + spec_print_fn_args(super::views::args_view(v@)),
    decreases v@.len() - i,
{
    proof {
        assert(super::views::args_view(v@).skip(0) =~= super::views::args_view(v@));
        reveal_strlit(": ");
        reveal_strlit(", ");
    }
    if i >= v.len() {
        proof {
            assert(super::views::args_view(v@).skip(i as int) =~= Seq::empty());
        }
    } else {
        out.append(v[i].0.0.as_str());
        out.append(": ");
        out.append(v[i].1.0.as_str());
        if i + 1 < v.len() {
            out.append(", ");
            push_fn_args_from(out, v, i + 1);
            proof {
                assert(super::views::args_view(v@).skip(i as int).drop_first()
                    =~= super::views::args_view(v@).skip(i + 1));
                assert(out@ =~= old(out)@ + spec_print_fn_args(
                    super::views::args_view(v@).skip(i as int),
                ));
            }
        } else {
            proof {
                assert(super::views::args_view(v@).skip(i as int).len() == 1);
                assert(out@ =~= old(out)@ + spec_print_fn_args(
                    super::views::args_view(v@).skip(i as int),
                ));
            }
        }
    }
}

impl Value {
    /// This value's source text.
    pub fn to_text(&self) -> (r: String)
        ensures
            r@ == spec_print_value(self@),
    {
        let mut out = String::new();
        push_value(&mut out, self);
        out
    }
}

impl Expression {
    /// This expression's source text.
    pub fn to_text(&self) -> (r: String)
        ensures
            r@ == spec_print_expr(self@),
    {
        let mut out = String::new();
        push_expr(&mut out, self);
        out
    }
}

impl Literal {
    /// This literal's source text.
    pub fn to_text(&self) -> (r: String)
        ensures
            r@ == spec_print_literal(self@),
    {
        let mut out = String::new();
        push_literal(&mut out, self);
        out
    }
}

impl Statement {
    /// This statement's source text.
    pub fn to_text(&self) -> (r: String)
        ensures
            r@ == spec_print_stmt(self@),
    {
        let mut out = String::new();
        push_stmt(&mut out, self);
        out
    }
}

impl Body {
    /// This body's source text: its statements, space-separated, without the
    /// surrounding braces.
    pub fn to_text(&self) -> (r: String)
        ensures
            r@ == spec_print_stmts(self@),
    {
        let mut out = String::new();
        push_stmts_from(&mut out, &self.statements, 0);
        proof {
            assert(stmts_view(self.statements@).skip(0) =~= stmts_view(self.statements@));
        }
        out
    }
}

impl Function {
    /// This function declaration's source text.
    pub fn to_text(&self) -> (r: String)
        ensures
            r@ == spec_print_function(self@),
    {
        let mut out = String::new();
        push_function(&mut out, self);
        out
    }
}

/// Appending one more function to a program appends a line.
pub proof fn lemma_print_ast_snoc(w: Seq<SpecFunction>, f: SpecFunction)
    ensures
        w.len() == 0 ==> spec_print_ast(w.push(f)) == spec_print_function(f),
        w.len() > 0 ==> spec_print_ast(w.push(f)) == spec_print_ast(w) + seq!['\n']
            + spec_print_function(f),
    decreases w.len(),
{
    if w.len() == 0 {
        assert(w.push(f)[0] == f);
        assert(spec_print_ast(w.push(f)) == spec_print_function(f));
    } else {
        lemma_print_ast_snoc(w.drop_first(), f);
        assert(w.push(f).drop_first() =~= w.drop_first().push(f));
        assert(w.push(f)[0] == w[0]);
        if w.len() == 1 {
            assert(spec_print_ast(w.push(f)) =~= spec_print_ast(w) + seq!['\n']
                + spec_print_function(f));
        } else {
            assert(spec_print_ast(w.push(f)) =~= spec_print_ast(w) + seq!['\n']
                + spec_print_function(f));
        }
    }
}

impl Ast {
    /// This program's source text: its functions, one per line.
    pub fn to_text(&self) -> (r: String)
        ensures
            r@ == spec_print_ast(self@),
    {
        proof {
            reveal_strlit("\n");
        }
        let ghost fsv = super::views::functions_view(self.functions@);
        let mut out = String::new();
        let nf = self.functions.len();
        let mut i: usize = 0;
        while i < nf
            invariant
                0 <= i <= nf == self.functions@.len(),
                fsv == super::views::functions_view(self.functions@),
                fsv.len() == nf,
                out@ =~= spec_print_ast(fsv.take(i as int)),
            decreases nf - i,
        {
            proof {
                assert(fsv.take(i + 1) =~= fsv.take(i as int).push(fsv[i as int]));
                lemma_print_ast_snoc(fsv.take(i as int), fsv[i as int]);
            }
            if i > 0 {
                proof {
                    reveal_strlit("\n");
                }
                out.append("\n");
            }
            push_function(&mut out, &self.functions[i]);
            i = i + 1;
        }
        proof {
            assert(fsv.take(nf as int) =~= fsv);
        }
        out
    }
}

} // verus!
