//! Views: the mapping from the executable syntax tree to the specification
//! syntax tree that the grammar in `grammar` speaks about.

use super::expression::Expression;
use super::grammar::{SpecExpression, SpecFunction, SpecLiteral, SpecStatement};
use super::literal::Literal;
use super::tuple::Tuple;
use super::{Ast, Body, Function, Ident, Statement, Type};
use vstd::prelude::*;

verus! {

broadcast use vstd::seq::group_seq_axioms;

pub open spec fn expr_view(e: &Expression) -> SpecExpression
    decreases e,
{
    match e {
        Expression::Or(v) => SpecExpression::Or(exprs_view(v@)),
        Expression::And(v) => SpecExpression::And(exprs_view(v@)),
        Expression::Add(v) => SpecExpression::Add(exprs_view(v@)),
        Expression::Subtract(v) => SpecExpression::Subtract(exprs_view(v@)),
        Expression::Multiply(v) => SpecExpression::Multiply(exprs_view(v@)),
        Expression::Divide(v) => SpecExpression::Divide(exprs_view(v@)),
        Expression::Not(b) => SpecExpression::Not(Box::new(expr_view(&**b))),
        Expression::Negative(b) => SpecExpression::Negative(Box::new(expr_view(&**b))),
        Expression::Literal(l) => SpecExpression::Literal(literal_view(l)),
        Expression::Value(v) => SpecExpression::Value(v@),
    }
}

pub open spec fn exprs_view(v: Seq<Expression>) -> Seq<SpecExpression>
    decreases v,
{
    if v.len() == 0 {
        Seq::empty()
    } else {
        seq![expr_view(&v[0])] + exprs_view(v.drop_first())
    }
}

pub open spec fn literal_view(l: &Literal) -> SpecLiteral
    decreases l,
{
    SpecLiteral {
        ident: l.ident.0@,
        call_arguments: match &l.call_arguments {
            Some(t) => Some(exprs_view(t.0@)),
            None => None,
        },
    }
}

pub open spec fn stmt_view(st: &Statement) -> SpecStatement
    decreases st,
{
    match st {
        Statement::Let { name, assign } => SpecStatement::Let {
            name: name.0@,
            assign: match assign {
                Some(e) => Some(expr_view(e)),
                None => None,
            },
        },
        Statement::If { condition, then, otherwise } => SpecStatement::If {
            condition: expr_view(condition),
            then: stmts_view(then.statements@),
            otherwise: match otherwise {
                Some(b) => Some(stmts_view(b.statements@)),
                None => None,
            },
        },
        Statement::While { condition, then } => SpecStatement::While {
            condition: expr_view(condition),
            then: stmts_view(then.statements@),
        },
        Statement::Return(e) => SpecStatement::Return(
            match e {
                Some(e) => Some(expr_view(e)),
                None => None,
            },
        ),
        Statement::Expression(e) => SpecStatement::Expression(Box::new(expr_view(&**e))),
    }
}

pub open spec fn stmts_view(v: Seq<Statement>) -> Seq<SpecStatement>
    decreases v,
{
    if v.len() == 0 {
        Seq::empty()
    } else {
        seq![stmt_view(&v[0])] + stmts_view(v.drop_first())
    }
}

pub open spec fn args_view(v: Seq<(Ident, Type)>) -> Seq<(Seq<char>, Seq<char>)> {
    Seq::new(v.len(), |i: int| (v[i].0.0@, v[i].1.0@))
}

pub open spec fn function_view(f: &Function) -> SpecFunction {
    SpecFunction {
        name: f.name.0@,
        args: args_view(f.args@),
        return_type: match &f.return_type {
            Some(t) => Some(t.0@),
            None => None,
        },
        body: stmts_view(f.body.statements@),
    }
}

pub open spec fn functions_view(v: Seq<Function>) -> Seq<SpecFunction> {
    Seq::new(v.len(), |i: int| function_view(&v[i]))
}

impl View for Ident {
    type V = Seq<char>;

    open spec fn view(&self) -> Seq<char> {
        self.0@
    }
}

impl View for Type {
    type V = Seq<char>;

    open spec fn view(&self) -> Seq<char> {
        self.0@
    }
}

impl View for Expression {
    type V = SpecExpression;

    open spec fn view(&self) -> SpecExpression {
        expr_view(self)
    }
}

impl View for Literal {
    type V = SpecLiteral;

    open spec fn view(&self) -> SpecLiteral {
        literal_view(self)
    }
}

impl View for Tuple {
    type V = Seq<SpecExpression>;

    open spec fn view(&self) -> Seq<SpecExpression> {
        exprs_view(self.0@)
    }
}

impl View for Statement {
    type V = SpecStatement;

    open spec fn view(&self) -> SpecStatement {
        stmt_view(self)
    }
}

impl View for Body {
    type V = Seq<SpecStatement>;

    open spec fn view(&self) -> Seq<SpecStatement> {
        stmts_view(self.statements@)
    }
}

impl View for Function {
    type V = SpecFunction;

    open spec fn view(&self) -> SpecFunction {
        function_view(self)
    }
}

impl View for Ast {
    type V = Seq<SpecFunction>;

    open spec fn view(&self) -> Seq<SpecFunction> {
        functions_view(self.functions@)
    }
}

/// Appending an expression to a vector appends its view.
pub proof fn lemma_exprs_view_push(v: Seq<Expression>, e: Expression)
    ensures
        exprs_view(v.push(e)) =~= exprs_view(v).push(expr_view(&e)),
    decreases v.len(),
{
    if v.len() == 0 {
        assert(v.push(e).drop_first() =~= Seq::empty());
        assert(v.push(e)[0] == e);
        assert(exprs_view(v.push(e)) == seq![expr_view(&e)] + exprs_view(Seq::empty()));
        assert(exprs_view(v.push(e)) =~= exprs_view(v).push(expr_view(&e)));
    } else {
        assert(v.push(e).drop_first() =~= v.drop_first().push(e));
        assert(v.push(e)[0] == v[0]);
        lemma_exprs_view_push(v.drop_first(), e);
        assert(exprs_view(v.push(e)) == seq![expr_view(&v[0])] + exprs_view(
            v.drop_first().push(e),
        ));
        assert(exprs_view(v.push(e)) =~= exprs_view(v).push(expr_view(&e)));
    }
}

/// Appending a statement to a vector appends its view.
pub proof fn lemma_stmts_view_push(v: Seq<Statement>, st: Statement)
    ensures
        stmts_view(v.push(st)) =~= stmts_view(v).push(stmt_view(&st)),
    decreases v.len(),
{
    if v.len() == 0 {
        assert(v.push(st).drop_first() =~= Seq::empty());
        assert(v.push(st)[0] == st);
        assert(stmts_view(v.push(st)) == seq![stmt_view(&st)] + stmts_view(Seq::empty()));
        assert(stmts_view(v.push(st)) =~= stmts_view(v).push(stmt_view(&st)));
    } else {
        assert(v.push(st).drop_first() =~= v.drop_first().push(st));
        assert(v.push(st)[0] == v[0]);
        lemma_stmts_view_push(v.drop_first(), st);
        assert(stmts_view(v.push(st)) == seq![stmt_view(&v[0])] + stmts_view(
            v.drop_first().push(st),
        ));
        assert(stmts_view(v.push(st)) =~= stmts_view(v).push(stmt_view(&st)));
    }
}

} // verus!
