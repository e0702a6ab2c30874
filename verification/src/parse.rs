//! Parsing: source text in, abstract syntax tree out.

pub mod expression;
pub mod grammar;
pub mod keyword;
pub mod literal;
pub mod printer;
pub mod tuple;
pub mod util;
pub mod value;
pub mod views;

pub use expression::Expression;
pub use literal::Literal;
pub use tuple::Tuple;
pub use value::Value;

use expression::expression_at;
use grammar::{
    is_ident_char, is_letter_char, kw_else, kw_function, kw_if, kw_let, kw_return, kw_while,
    lemma_ident_end_bounds, spec_ast_functions, spec_body_items, spec_curly_body,
    spec_fn_arg_pair, spec_fn_args_items, spec_fn_args_more, spec_ident_end, spec_parse_function,
    spec_parse_ident, spec_parse_statement, spec_skip_ws, tok_arrow, SpecFunction, SpecStatement,
};
use util::{match_keyword, match_tag, rest_from, skip_whitespace};
use views::{
    args_view, functions_view, lemma_stmts_view_push, stmts_view,
};
use vstd::prelude::*;

verus! {

broadcast use vstd::seq::group_seq_axioms;

/// A parse failure.  `at` is the character position (an index into the
/// input, counted in characters) at which the failing rule was attempted;
/// since a failing rule consumes nothing, the unconsumed input starts there.
#[derive(Clone, Copy, Debug, PartialEq, Eq, Structural)]
pub struct ParseError {
    pub at: usize,
}

/// A name: an ASCII letter followed by ASCII letters, digits or underscores.
/// Used for variables, functions and parameters.
#[derive(Clone, Debug, PartialEq, Eq)]
pub struct Ident(pub String);

/// The name of a type.  Lexically an identifier; kept as a distinct type so
/// that names and type names are never mixed up.
#[derive(Clone, Debug, PartialEq, Eq)]
pub struct Type(pub String);

/// A whole program: its function declarations, in source order.
#[derive(Debug, PartialEq, Eq)]
pub struct Ast {
    pub functions: Vec<Function>,
}

/// A function declaration: name, `(name, type)` parameters in order, an
/// optional return type, and a body.
#[derive(Debug, PartialEq, Eq)]
pub struct Function {
    pub name: Ident,
    pub args: Vec<(Ident, Type)>,
    pub return_type: Option<Type>,
    pub body: Body,
}

/// A block of statements, in execution order.
#[derive(Debug, PartialEq, Eq)]
pub struct Body {
    pub statements: Vec<Statement>,
}

/// A statement.
#[derive(Debug, PartialEq, Eq)]
pub enum Statement {
    Let { name: Ident, assign: Option<Expression> },
    If { condition: Expression, then: Box<Body>, otherwise: Option<Box<Body>> },
    While { condition: Expression, then: Box<Body> },
    Return(Option<Expression>),
    Expression(Box<Expression>),
}

/// Index just past the run of identifier characters that starts at `pos`.
fn ident_end_at(s: &str, pos: usize) -> (r: usize)
    requires
        pos <= s@.len(),
    ensures
        r == spec_ident_end(s@, pos as int),
        pos <= r <= s@.len(),
{
    let n = s.unicode_len();
    let mut i = pos;
    while i < n
        invariant
            pos <= i <= n == s@.len(),
            spec_ident_end(s@, pos as int) == spec_ident_end(s@, i as int),
        decreases n - i,
    {
        let c = s.get_char(i);
        if (('a' <= c && c <= 'z') || ('A' <= c && c <= 'Z')) || ('0' <= c && c <= '9') || c
            == '_' {
            assert(is_ident_char(s@[i as int]));
            i = i + 1;
        } else {
            assert(!is_ident_char(s@[i as int]));
            return i;
        }
    }
    i
}

/// An identifier's text at `pos`: a letter, then the full run of identifier
/// characters.
pub(crate) fn ident_text_at(s: &str, pos: usize) -> (r: Option<(usize, String)>)
    requires
        pos <= s@.len(),
    ensures
        match r {
            Some((p, t)) => spec_parse_ident(s@, pos as int) == Some((p as int, t@)) && pos < p
                <= s@.len(),
            None => spec_parse_ident(s@, pos as int) is None,
        },
{
    let n = s.unicode_len();
    if pos >= n {
        return None;
    }
    let c = s.get_char(pos);
    if !(('a' <= c && c <= 'z') || ('A' <= c && c <= 'Z')) {
        assert(!is_letter_char(s@[pos as int]));
        return None;
    }
    assert(is_letter_char(s@[pos as int]));
    let end = ident_end_at(s, pos);
    assert(pos < end) by {
        assert(is_ident_char(s@[pos as int]));
        assert(spec_ident_end(s@, pos as int) == spec_ident_end(s@, pos + 1));
        lemma_ident_end_bounds(s@, pos + 1);
    }
    let text = s.substring_char(pos, end).to_owned();
    Some((end, text))
}

impl Ident {
    /// Parse an identifier at the start of `input`.
    pub fn parse(input: &str) -> (r: Result<(&str, Ident), ParseError>)
        ensures
            match spec_parse_ident(input@, 0) {
                Some((p, t)) => r matches Ok(ok) && ok.0@ == input@.subrange(
                    p,
                    input@.len() as int,
                ) && ok.1@ == t,
                None => r == Err::<(&str, Ident), ParseError>(ParseError { at: 0 }),
            },
    {
        match ident_text_at(input, 0) {
            Some((p, t)) => Ok((rest_from(input, p), Ident(t))),
            None => Err(ParseError { at: 0 }),
        }
    }

    /// Parse an identifier after any leading whitespace.
    pub fn parse_ws(input: &str) -> (r: Result<(&str, Ident), ParseError>)
        ensures
            match spec_parse_ident(input@, spec_skip_ws(input@, 0)) {
                Some((p, t)) => r matches Ok(ok) && ok.0@ == input@.subrange(
                    p,
                    input@.len() as int,
                ) && ok.1@ == t,
                None => r is Err,
            },
    {
        let q = skip_whitespace(input, 0);
        match ident_text_at(input, q) {
            Some((p, t)) => Ok((rest_from(input, p), Ident(t))),
            None => Err(ParseError { at: q }),
        }
    }
}

/// A brace-delimited body at `pos`: `{ statement* }`, whitespace allowed.
pub(crate) fn curly_body_at(s: &str, pos: usize) -> (r: Option<(usize, Body)>)
    requires
        pos <= s@.len(),
    ensures
        match r {
            Some((p, b)) => spec_curly_body(s@, pos as int) == Some((p as int, b@)) && pos < p
                <= s@.len(),
            None => spec_curly_body(s@, pos as int) is None,
        },
    decreases s@.len() - pos, 0int,
{
    let n = s.unicode_len();
    let q = skip_whitespace(s, pos);
    if q < n && s.get_char(q) == '{' {
        let (p1, stmts) = body_items_at(s, q + 1);
        let r = skip_whitespace(s, p1);
        if r < n && s.get_char(r) == '}' {
            let body = Body { statements: stmts };
            proof {
                assert(stmts_view(body.statements@) =~= spec_body_items(s@, q + 1).1);
            }
            Some((r + 1, body))
        } else {
            None
        }
    } else {
        None
    }
}

/// Zero or more whitespace-separated statements at `pos`; never fails.
pub(crate) fn body_items_at(s: &str, pos: usize) -> (r: (usize, Vec<Statement>))
    requires
        pos <= s@.len(),
    ensures
        spec_body_items(s@, pos as int).0 == r.0 as int,
        spec_body_items(s@, pos as int).1 =~= stmts_view(r.1@),
        pos <= r.0 <= s@.len(),
    decreases s@.len() - pos, 3int,
{
    let n = s.unicode_len();
    let ghost full = spec_body_items(s@, pos as int);
    let mut items: Vec<Statement> = Vec::new();
    let mut cur = pos;
    let mut done = false;
    while !done
        invariant
            pos <= cur <= n == s@.len(),
            spec_body_items(s@, cur as int).0 == full.0,
            stmts_view(items@) + spec_body_items(s@, cur as int).1 =~= full.1,
            done ==> spec_body_items(s@, cur as int).0 == cur as int,
            done ==> spec_body_items(s@, cur as int).1 =~= Seq::<SpecStatement>::empty(),
        decreases n - cur + (if done { 0int } else { 1int }),
    {
        if cur >= n {
            done = true;
        } else {
            let m = skip_whitespace(s, cur);
            match statement_at(s, m) {
                Some((p, st)) => {
                    proof {
                        lemma_stmts_view_push(items@, st);
                    }
                    items.push(st);
                    cur = p;
                },
                None => {
                    done = true;
                },
            }
        }
    }
    proof {
        assert(stmts_view(items@) =~= full.1);
    }
    (cur, items)
}

/// A `let` statement, continued after its keyword (which ends at `p`).
fn let_stmt_at(s: &str, p: usize) -> (r: Option<(usize, Statement)>)
    requires
        p <= s@.len(),
    ensures
        match r {
            Some((p2, st)) => grammar::spec_let_stmt(s@, p as int) == Some((p2 as int, st@)) && p
                <= p2 <= s@.len(),
            None => grammar::spec_let_stmt(s@, p as int) is None,
        },
{
    let n = s.unicode_len();
    let i = skip_whitespace(s, p);
    match ident_text_at(s, i) {
        Some((p1, name)) => {
            let q = skip_whitespace(s, p1);
            if q < n && s.get_char(q) == '=' {
                let e = skip_whitespace(s, q + 1);
                match expression_at(s, e) {
                    Some((p2, ex)) => Some(
                        (p2, Statement::Let { name: Ident(name), assign: Some(ex) }),
                    ),
                    None => Some((p1, Statement::Let { name: Ident(name), assign: None })),
                }
            } else {
                Some((p1, Statement::Let { name: Ident(name), assign: None }))
            }
        },
        None => None,
    }
}

/// A `while` statement, continued after its keyword (which ends at `p`).
fn while_stmt_at(s: &str, pos: usize, p: usize) -> (r: Option<(usize, Statement)>)
    requires
        pos <= p <= s@.len(),
    ensures
        match r {
            Some((p2, st)) => grammar::spec_while_stmt(s@, pos as int, p as int) == Some(
                (p2 as int, st@),
            ) && pos < p2 <= s@.len(),
            None => grammar::spec_while_stmt(s@, pos as int, p as int) is None,
        },
    decreases s@.len() - pos, 1int,
{
    let c = skip_whitespace(s, p);
    match expression_at(s, c) {
        Some((pc, cond)) => match curly_body_at(s, pc) {
            Some((pb, body)) => Some(
                (pb, Statement::While { condition: cond, then: Box::new(body) }),
            ),
            None => None,
        },
        None => None,
    }
}

/// An `if` statement, continued after its keyword (which ends at `p`).
fn if_stmt_at(s: &str, pos: usize, p: usize) -> (r: Option<(usize, Statement)>)
    requires
        pos <= p <= s@.len(),
    ensures
        match r {
            Some((p2, st)) => grammar::spec_if_stmt(s@, pos as int, p as int) == Some(
                (p2 as int, st@),
            ) && pos < p2 <= s@.len(),
            None => grammar::spec_if_stmt(s@, pos as int, p as int) is None,
        },
    decreases s@.len() - pos, 1int,
{
    proof {
        reveal_strlit("else");
        assert("else"@ =~= kw_else());
    }
    let c = skip_whitespace(s, p);
    match expression_at(s, c) {
        Some((pc, cond)) => match curly_body_at(s, pc) {
            Some((pt, then_body)) => {
                let q2 = skip_whitespace(s, pt);
                match match_keyword(s, q2, "else") {
                    Some(p3) => match curly_body_at(s, p3) {
                        Some((pe, else_body)) => Some(
                            (
                                pe,
                                Statement::If {
                                    condition: cond,
                                    then: Box::new(then_body),
                                    otherwise: Some(Box::new(else_body)),
                                },
                            ),
                        ),
                        None => Some(
                            (
                                pt,
                                Statement::If {
                                    condition: cond,
                                    then: Box::new(then_body),
                                    otherwise: None,
                                },
                            ),
                        ),
                    },
                    None => Some(
                        (
                            pt,
                            Statement::If {
                                condition: cond,
                                then: Box::new(then_body),
                                otherwise: None,
                            },
                        ),
                    ),
                }
            },
            None => None,
        },
        None => None,
    }
}

/// A `return` statement, continued after its keyword (which ends at `p`).
fn return_stmt_at(s: &str, p: usize) -> (r: Option<(usize, Statement)>)
    requires
        p <= s@.len(),
    ensures
        match r {
            Some((p2, st)) => grammar::spec_return_stmt(s@, p as int) == Some((p2 as int, st@))
                && p <= p2 <= s@.len(),
            None => grammar::spec_return_stmt(s@, p as int) is None,
        },
{
    let e = skip_whitespace(s, p);
    match expression_at(s, e) {
        Some((p1, ex)) => Some((p1, Statement::Return(Some(ex)))),
        None => Some((p, Statement::Return(None))),
    }
}

/// A statement at `pos`.  Tries `let`, `while`, `if`, `return`, then a bare
/// expression; a matched keyword commits to its alternative.
pub(crate) fn statement_at(s: &str, pos: usize) -> (r: Option<(usize, Statement)>)
    requires
        pos <= s@.len(),
    ensures
        match r {
            Some((p, st)) => spec_parse_statement(s@, pos as int) == Some((p as int, st@)) && pos
                < p <= s@.len(),
            None => spec_parse_statement(s@, pos as int) is None,
        },
    decreases s@.len() - pos, 2int,
{
    proof {
        reveal_strlit("let");
        reveal_strlit("while");
        reveal_strlit("if");
        reveal_strlit("return");
        assert("let"@ =~= kw_let());
        assert("while"@ =~= kw_while());
        assert("if"@ =~= kw_if());
        assert("return"@ =~= kw_return());
    }
    match match_keyword(s, pos, "let") {
        Some(p) => let_stmt_at(s, p),
        None => match match_keyword(s, pos, "while") {
            Some(p) => while_stmt_at(s, pos, p),
            None => match match_keyword(s, pos, "if") {
                Some(p) => if_stmt_at(s, pos, p),
                None => match match_keyword(s, pos, "return") {
                    Some(p) => return_stmt_at(s, p),
                    None => match expression_at(s, pos) {
                        Some((p, ex)) => Some((p, Statement::Expression(Box::new(ex)))),
                        None => None,
                    },
                },
            },
        },
    }
}

/// One `name : type` parameter at `pos`, whitespace allowed.
fn fn_arg_pair_at(s: &str, pos: usize) -> (r: Option<(usize, (Ident, Type))>)
    requires
        pos <= s@.len(),
    ensures
        match r {
            Some((p, pr)) => spec_fn_arg_pair(s@, pos as int) == Some(
                (p as int, (pr.0.0@, pr.1.0@)),
            ) && pos < p <= s@.len(),
            None => spec_fn_arg_pair(s@, pos as int) is None,
        },
{
    let n = s.unicode_len();
    let i = skip_whitespace(s, pos);
    match ident_text_at(s, i) {
        Some((p1, name)) => {
            let q = skip_whitespace(s, p1);
            if q < n && s.get_char(q) == ':' {
                let w = skip_whitespace(s, q + 1);
                match ident_text_at(s, w) {
                    Some((p2, ty)) => Some((p2, (Ident(name), Type(ty)))),
                    None => None,
                }
            } else {
                None
            }
        },
        None => None,
    }
}

/// Zero or more comma-separated parameters at `pos`; never fails.
fn fn_args_items_at(s: &str, pos: usize) -> (r: (usize, Vec<(Ident, Type)>))
    requires
        pos <= s@.len(),
    ensures
        spec_fn_args_items(s@, pos as int).0 == r.0 as int,
        spec_fn_args_items(s@, pos as int).1 =~= args_view(r.1@),
        pos <= r.0 <= s@.len(),
{
    let n = s.unicode_len();
    match fn_arg_pair_at(s, pos) {
        None => (pos, Vec::new()),
        Some((p1, pr1)) => {
            let ghost pr1v = (pr1.0.0@, pr1.1.0@);
            let ghost full = spec_fn_args_more(s@, p1 as int);
            let mut items: Vec<(Ident, Type)> = Vec::new();
            items.push(pr1);
            let mut cur = p1;
            let mut done = false;
            while !done
                invariant
                    pos < cur <= n == s@.len(),
                    items@.len() >= 1,
                    spec_fn_args_more(s@, cur as int).0 == full.0,
                    args_view(items@) + spec_fn_args_more(s@, cur as int).1 =~= seq![pr1v]
                        + full.1,
                    done ==> spec_fn_args_more(s@, cur as int).0 == cur as int,
                    done ==> spec_fn_args_more(s@, cur as int).1 =~= Seq::<
                        (Seq<char>, Seq<char>),
                    >::empty(),
                decreases n - cur + (if done { 0int } else { 1int }),
            {
                let q = skip_whitespace(s, cur);
                if q < n && s.get_char(q) == ',' {
                    match fn_arg_pair_at(s, q + 1) {
                        Some((p2, pr2)) => {
                            proof {
                                assert(args_view(items@.push(pr2)) =~= args_view(items@).push(
                                    (pr2.0.0@, pr2.1.0@),
                                ));
                            }
                            items.push(pr2);
                            cur = p2;
                        },
                        None => {
                            done = true;
                        },
                    }
                } else {
                    done = true;
                }
            }
            proof {
                assert(args_view(items@) =~= seq![pr1v] + full.1);
            }
            (cur, items)
        },
    }
}

/// A function declaration at `pos`:
/// `function name ( params ) [-> type] { body }`.
pub(crate) fn function_at(s: &str, pos: usize) -> (r: Option<(usize, Function)>)
    requires
        pos <= s@.len(),
    ensures
        match r {
            Some((p, f)) => spec_parse_function(s@, pos as int) == Some((p as int, f@)) && pos < p
                <= s@.len(),
            None => spec_parse_function(s@, pos as int) is None,
        },
{
    let n = s.unicode_len();
    proof {
        reveal_strlit("function");
        reveal_strlit("->");
        assert("function"@ =~= kw_function());
        assert("->"@ =~= tok_arrow());
    }
    match match_keyword(s, pos, "function") {
        Some(p) => {
            let i = skip_whitespace(s, p);
            match ident_text_at(s, i) {
                Some((p1, name)) => {
                    let q = skip_whitespace(s, p1);
                    if q < n && s.get_char(q) == '(' {
                        let (p2, args) = fn_args_items_at(s, q + 1);
                        let r = skip_whitespace(s, p2);
                        if r < n && s.get_char(r) == ')' {
                            let t = skip_whitespace(s, r + 1);
                            let (after_rt, rt): (usize, Option<Type>) = match match_tag(
                                s,
                                t,
                                "->",
                            ) {
                                Some(a) => {
                                    let w = skip_whitespace(s, a);
                                    match ident_text_at(s, w) {
                                        Some((p3, ty)) => (p3, Some(Type(ty))),
                                        None => (r + 1, None),
                                    }
                                },
                                None => (r + 1, None),
                            };
                            match curly_body_at(s, after_rt) {
                                Some((pb, body)) => {
                                    let f = Function {
                                        name: Ident(name),
                                        args,
                                        return_type: rt,
                                        body,
                                    };
                                    Some((pb, f))
                                },
                                None => None,
                            }
                        } else {
                            None
                        }
                    } else {
                        None
                    }
                },
                None => None,
            }
        },
        None => None,
    }
}

/// Zero or more whitespace-separated functions at `pos`; never fails.
pub(crate) fn ast_functions_at(s: &str, pos: usize) -> (r: (usize, Vec<Function>))
    requires
        pos <= s@.len(),
    ensures
        spec_ast_functions(s@, pos as int).0 == r.0 as int,
        spec_ast_functions(s@, pos as int).1 =~= functions_view(r.1@),
        pos <= r.0 <= s@.len(),
{
    let n = s.unicode_len();
    let ghost full = spec_ast_functions(s@, pos as int);
    let mut items: Vec<Function> = Vec::new();
    let mut cur = pos;
    let mut done = false;
    while !done
        invariant
            pos <= cur <= n == s@.len(),
            spec_ast_functions(s@, cur as int).0 == full.0,
            functions_view(items@) + spec_ast_functions(s@, cur as int).1 =~= full.1,
            done ==> spec_ast_functions(s@, cur as int).0 == cur as int,
            done ==> spec_ast_functions(s@, cur as int).1 =~= Seq::<SpecFunction>::empty(),
        decreases n - cur + (if done { 0int } else { 1int }),
    {
        if cur >= n {
            done = true;
        } else {
            let m = skip_whitespace(s, cur);
            match function_at(s, m) {
                Some((p, f)) => {
                    proof {
                        assert(functions_view(items@.push(f)) =~= functions_view(items@).push(
                            views::function_view(&f),
                        ));
                    }
                    items.push(f);
                    cur = p;
                },
                None => {
                    done = true;
                },
            }
        }
    }
    proof {
        assert(functions_view(items@) =~= full.1);
    }
    (cur, items)
}

impl Statement {
    /// Parse a statement at the start of `input`.
    pub fn parse(input: &str) -> (r: Result<(&str, Statement), ParseError>)
        ensures
            match spec_parse_statement(input@, 0) {
                Some((p, st)) => r matches Ok(ok) && ok.0@ == input@.subrange(
                    p,
                    input@.len() as int,
                ) && ok.1@ == st,
                None => r == Err::<(&str, Statement), ParseError>(ParseError { at: 0 }),
            },
    {
        match statement_at(input, 0) {
            Some((p, st)) => Ok((rest_from(input, p), st)),
            None => Err(ParseError { at: 0 }),
        }
    }

    /// Parse a statement after any leading whitespace.
    pub fn parse_ws(input: &str) -> (r: Result<(&str, Statement), ParseError>)
        ensures
            match spec_parse_statement(input@, spec_skip_ws(input@, 0)) {
                Some((p, st)) => r matches Ok(ok) && ok.0@ == input@.subrange(
                    p,
                    input@.len() as int,
                ) && ok.1@ == st,
                None => r is Err,
            },
    {
        let q = skip_whitespace(input, 0);
        match statement_at(input, q) {
            Some((p, st)) => Ok((rest_from(input, p), st)),
            None => Err(ParseError { at: q }),
        }
    }
}

impl Body {
    /// Parse a body at the start of `input`: as many statements as match.
    /// Never fails; an empty body is a valid body.
    pub fn parse(input: &str) -> (r: Result<(&str, Body), ParseError>)
        ensures
            r matches Ok(ok) && ok.0@ == input@.subrange(
                spec_body_items(input@, 0).0,
                input@.len() as int,
            ) && ok.1@ == spec_body_items(input@, 0).1,
    {
        let (p, stmts) = body_items_at(input, 0);
        let body = Body { statements: stmts };
        proof {
            assert(stmts_view(body.statements@) =~= spec_body_items(input@, 0).1);
        }
        Ok((rest_from(input, p), body))
    }

    /// Parse a body after any leading whitespace.
    pub fn parse_ws(input: &str) -> (r: Result<(&str, Body), ParseError>)
        ensures
            r matches Ok(ok) && ok.0@ == input@.subrange(
                spec_body_items(input@, spec_skip_ws(input@, 0)).0,
                input@.len() as int,
            ) && ok.1@ == spec_body_items(input@, spec_skip_ws(input@, 0)).1,
    {
        let q = skip_whitespace(input, 0);
        let (p, stmts) = body_items_at(input, q);
        let body = Body { statements: stmts };
        proof {
            assert(stmts_view(body.statements@) =~= spec_body_items(input@, q as int).1);
        }
        Ok((rest_from(input, p), body))
    }
}

impl Function {
    /// Parse a function declaration at the start of `input`.
    pub fn parse(input: &str) -> (r: Result<(&str, Function), ParseError>)
        ensures
            match spec_parse_function(input@, 0) {
                Some((p, f)) => r matches Ok(ok) && ok.0@ == input@.subrange(
                    p,
                    input@.len() as int,
                ) && ok.1@ == f,
                None => r == Err::<(&str, Function), ParseError>(ParseError { at: 0 }),
            },
    {
        match function_at(input, 0) {
            Some((p, f)) => Ok((rest_from(input, p), f)),
            None => Err(ParseError { at: 0 }),
        }
    }

    /// Parse a function declaration after any leading whitespace.
    pub fn parse_ws(input: &str) -> (r: Result<(&str, Function), ParseError>)
        ensures
            match spec_parse_function(input@, spec_skip_ws(input@, 0)) {
                Some((p, f)) => r matches Ok(ok) && ok.0@ == input@.subrange(
                    p,
                    input@.len() as int,
                ) && ok.1@ == f,
                None => r is Err,
            },
    {
        let q = skip_whitespace(input, 0);
        match function_at(input, q) {
            Some((p, f)) => Ok((rest_from(input, p), f)),
            None => Err(ParseError { at: q }),
        }
    }
}

impl Ast {
    /// Parse as many function declarations as match, from the start of
    /// `input`.  Never fails; what the functions did not consume is returned.
    pub fn parse(input: &str) -> (r: Result<(&str, Ast), ParseError>)
        ensures
            r matches Ok(ok) && ok.0@ == input@.subrange(
                spec_ast_functions(input@, 0).0,
                input@.len() as int,
            ) && ok.1@ == spec_ast_functions(input@, 0).1,
    {
        let (p, functions) = ast_functions_at(input, 0);
        let ast = Ast { functions };
        proof {
            assert(functions_view(ast.functions@) =~= spec_ast_functions(input@, 0).1);
        }
        Ok((rest_from(input, p), ast))
    }

    /// Parse as many function declarations as match, after any leading
    /// whitespace.
    pub fn parse_ws(input: &str) -> (r: Result<(&str, Ast), ParseError>)
        ensures
            r matches Ok(ok) && ok.0@ == input@.subrange(
                spec_ast_functions(input@, spec_skip_ws(input@, 0)).0,
                input@.len() as int,
            ) && ok.1@ == spec_ast_functions(input@, spec_skip_ws(input@, 0)).1,
    {
        let q = skip_whitespace(input, 0);
        let (p, functions) = ast_functions_at(input, q);
        let ast = Ast { functions };
        proof {
            assert(functions_view(ast.functions@) =~= spec_ast_functions(input@, q as int).1);
        }
        Ok((rest_from(input, p), ast))
    }

    /// Parse a whole program: function declarations followed by nothing but
    /// whitespace.  Fails if anything else remains, identifying where the
    /// unparseable remainder starts.
    pub fn new(input: &str) -> (r: Result<Ast, ParseError>)
        ensures
            ({
                let p = spec_ast_functions(input@, 0).0;
                if spec_skip_ws(input@, p) == input@.len() {
                    r matches Ok(a) && a@ == spec_ast_functions(input@, 0).1
                } else {
                    r == Err::<Ast, ParseError>(
                        ParseError { at: spec_ast_functions(input@, 0).0 as usize },
                    )
                }
            }),
    {
        let n = input.unicode_len();
        let (p, functions) = ast_functions_at(input, 0);
        let q = skip_whitespace(input, p);
        if q == n {
            let ast = Ast { functions };
            proof {
                assert(functions_view(ast.functions@) =~= spec_ast_functions(input@, 0).1);
            }
            Ok(ast)
        } else {
            Err(ParseError { at: p })
        }
    }
}

impl Type {
    /// Parse a type name at the start of `input`.  Type names are lexically
    /// identifiers.
    pub fn parse(input: &str) -> (r: Result<(&str, Type), ParseError>)
        ensures
            match spec_parse_ident(input@, 0) {
                Some((p, t)) => r matches Ok(ok) && ok.0@ == input@.subrange(
                    p,
                    input@.len() as int,
                ) && ok.1@ == t,
                None => r == Err::<(&str, Type), ParseError>(ParseError { at: 0 }),
            },
    {
        match ident_text_at(input, 0) {
            Some((p, t)) => Ok((rest_from(input, p), Type(t))),
            None => Err(ParseError { at: 0 }),
        }
    }

    /// Parse a type name after any leading whitespace.
    pub fn parse_ws(input: &str) -> (r: Result<(&str, Type), ParseError>)
        ensures
            match spec_parse_ident(input@, spec_skip_ws(input@, 0)) {
                Some((p, t)) => r matches Ok(ok) && ok.0@ == input@.subrange(
                    p,
                    input@.len() as int,
                ) && ok.1@ == t,
                None => r is Err,
            },
    {
        let q = skip_whitespace(input, 0);
        match ident_text_at(input, q) {
            Some((p, t)) => Ok((rest_from(input, p), Type(t))),
            None => Err(ParseError { at: q }),
        }
    }
}

} // verus!
