use learn_compiler::compile::extract_functions;
use learn_compiler::parse::expression::Expression;
use learn_compiler::parse::literal::Literal;
use learn_compiler::parse::tuple::Tuple;
use learn_compiler::parse::value::Value;
use learn_compiler::parse::{Ast, Ident, ParseError, Statement};

fn num(n: i64) -> Expression {
    Expression::Value(Value::Integer(n))
}

fn var(name: &str) -> Expression {
    Expression::Literal(Literal {
        ident: Ident(name.to_string()),
        call_arguments: None,
    })
}

#[test]
fn identifier_consumes_all_of_itself() {
    for s in ["a", "Z", "a9", "A_b_c42", "iffy", "lettuce", "x_"] {
        assert_eq!(Ident::parse(s), Ok(("", Ident(s.to_string()))));
    }
}

#[test]
fn identifier_must_start_with_letter() {
    assert_eq!(Ident::parse("9lives"), Err(ParseError { at: 0 }));
    assert_eq!(Ident::parse("_x"), Err(ParseError { at: 0 }));
    assert_eq!(Ident::parse(""), Err(ParseError { at: 0 }));
}

#[test]
fn single_operand_collapses() {
    assert_eq!(Expression::parse("1"), Ok(("", num(1))));
}

#[test]
fn addition_chain_is_flat() {
    assert_eq!(
        Expression::parse("1+2+3"),
        Ok(("", Expression::Add(vec![num(1), num(2), num(3)])))
    );
}

#[test]
fn multiplication_binds_tighter_than_addition() {
    assert_eq!(
        Expression::parse("1 + 2 * 3"),
        Ok((
            "",
            Expression::Add(vec![num(1), Expression::Multiply(vec![num(2), num(3)])])
        ))
    );
}

#[test]
fn parentheses_leave_no_node() {
    assert_eq!(
        Expression::parse("(1+2)*3"),
        Ok((
            "",
            Expression::Multiply(vec![Expression::Add(vec![num(1), num(2)]), num(3)])
        ))
    );
}

#[test]
fn unary_minus_binds_tighter_than_addition() {
    assert_eq!(
        Expression::parse("-a+b"),
        Ok((
            "",
            Expression::Add(vec![Expression::Negative(Box::new(var("a"))), var("b")])
        ))
    );
}

#[test]
fn unary_minus_of_parenthesized_sum() {
    assert_eq!(
        Expression::parse("-(a+b)"),
        Ok((
            "",
            Expression::Negative(Box::new(Expression::Add(vec![var("a"), var("b")])))
        ))
    );
}

#[test]
fn fractional_literal_is_not_an_integer() {
    assert_eq!(
        Expression::parse("1.5"),
        Ok(("", Expression::Value(Value::Float(1, 5))))
    );
}

#[test]
fn zero_argument_call_is_not_a_variable() {
    let call = Expression::parse("f()").unwrap().1;
    let variable = Expression::parse("f").unwrap().1;
    assert_ne!(call, variable);
    assert_eq!(
        call,
        Expression::Literal(Literal {
            ident: Ident("f".to_string()),
            call_arguments: Some(Tuple::new()),
        })
    );
}

#[test]
fn keyword_needs_a_boundary() {
    assert_eq!(
        Statement::parse_ws("lettuce"),
        Ok((
            "",
            Statement::Expression(Box::new(var("lettuce")))
        ))
    );
}

#[test]
fn committed_keyword_does_not_fall_through() {
    assert!(Statement::parse_ws("let 5").is_err());
}

#[test]
fn integer_overflow_is_rejected() {
    assert!(learn_compiler::parse::value::parse_int("99999999999999999999").is_err());
    assert_eq!(
        learn_compiler::parse::value::parse_int("9223372036854775807"),
        Ok(("", i64::MAX))
    );
}

#[test]
fn expression_failure_reports_position() {
    assert_eq!(Expression::parse("@"), Err(ParseError { at: 0 }));
}

#[test]
fn program_with_trailing_garbage_is_rejected() {
    let err = Ast::new("function f() {} trailing()").unwrap_err();
    assert_eq!(err.at, 15);
    assert!(Ast::new("function f() {} function").is_err());
}

#[test]
fn program_parse_accepts_trailing_whitespace() {
    let ast = Ast::new("function f() {}\n").unwrap();
    assert_eq!(ast.functions.len(), 1);
}

#[test]
fn empty_program_is_a_program() {
    let ast = Ast::new("").unwrap();
    assert_eq!(ast.functions.len(), 0);
}

#[test]
fn program_function_count_matches_declarations() {
    let src = "function fibonacci(n: int) -> int {
    if smaller(n, 2) { return n } else { return fibonacci(n - 1) + fibonacci(n - 2) }
}
function smaller(a: int, b: int) -> bool { return less(a, b) }
function main() { print(fibonacci(10)) }";
    let ast = Ast::new(src).unwrap();
    assert_eq!(ast.functions.len(), 3);
    assert_eq!(ast.functions[0].name, Ident("fibonacci".to_string()));
    assert_eq!(ast.functions[0].args.len(), 1);
}

#[test]
fn value_round_trip() {
    for s in ["true", "false", "0", "123", "0.0", "123.456"] {
        let (rest, v) = Value::parse(s).unwrap();
        assert_eq!(rest, "");
        let printed = v.to_text();
        assert_eq!(Value::parse(&printed), Ok(("", v)));
    }
}

#[test]
fn expression_round_trip() {
    for s in ["1 + 2 * 3", "a | b & c", "-(a+b)", "!x", "f(1, 2.5, g())", "(1-2)/3"] {
        let (rest, e) = Expression::parse(s).unwrap();
        assert_eq!(rest, "");
        let printed = e.to_text();
        let (rest2, e2) = Expression::parse(&printed).unwrap();
        assert_eq!(rest2, "");
        assert_eq!(e2, e);
    }
}

#[test]
fn statement_round_trip() {
    for s in [
        "let x = 1 + 2",
        "if a { let y } else { return 1 }",
        "while go() { step() }",
        "return f(x)",
    ] {
        let (rest, st) = Statement::parse_ws(s).unwrap();
        assert_eq!(rest, "");
        let printed = st.to_text();
        let (rest2, st2) = Statement::parse_ws(&printed).unwrap();
        assert_eq!(rest2, "");
        assert_eq!(st2, st);
    }
}

#[test]
fn program_round_trip() {
    let src = "function fibonacci(n: int) -> int {
    if smaller(n, 2) { return n } else { return fibonacci(n - 1) + fibonacci(n - 2) }
}
function main() { print(fibonacci(10)) }";
    let ast = Ast::new(src).unwrap();
    let printed = ast.to_text();
    let ast2 = Ast::new(&printed).unwrap();
    assert_eq!(ast2, ast);
}

#[test]
fn extract_functions_keeps_last_declaration() {
    let ast = Ast::new(
        "function f(x: int) -> int { return x } function f(x: int) -> bool { return true }",
    )
    .unwrap();
    let table = extract_functions(&ast);
    assert_eq!(table.len(), 1);
    assert_eq!(table[0].0.name, Ident("f".to_string()));
    assert_eq!(
        table[0].1.return_type,
        Some(learn_compiler::parse::Type("bool".to_string()))
    );
}

#[test]
fn extract_functions_separates_overloads() {
    let ast = Ast::new(
        "function f(x: int) -> int { return x } function f(x: bool) { } function g() { }",
    )
    .unwrap();
    let table = extract_functions(&ast);
    assert_eq!(table.len(), 3);
}

#[test]
fn empty_argument_tuple_tolerates_whitespace() {
    let res = Tuple::parse("( )");
    assert_eq!(res, Ok(("", Tuple(Vec::new()))));
}

#[test]
fn trailing_operator_is_left_unconsumed() {
    assert_eq!(
        Expression::parse("1+2+"),
        Ok(("+", Expression::Add(vec![num(1), num(2)])))
    );
}
