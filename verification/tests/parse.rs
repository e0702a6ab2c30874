use learn_compiler::parse::expression::Expression;
use learn_compiler::parse::keyword::{Else, If, Let, Return, While};
use learn_compiler::parse::literal::Literal;
use learn_compiler::parse::tuple::Tuple;
use learn_compiler::parse::value::{parse_bool, parse_float, parse_int, Value};
use learn_compiler::parse::{Ast, Body, Function, Ident, Statement};

#[test]
fn simple() {
    assert_eq!(
        Ident::parse("hello_world12345"),
        Ok(("", Ident("hello_world12345".to_string())))
    )
}

#[test]
fn mod_simple() {
    assert_eq!(
        Ident::parse("hello_world12345"),
        Ok(("", Ident("hello_world12345".to_string())))
    )
}

#[test]
fn value() {
    assert_eq!(
        Expression::parse("true"),
        Ok(("", Expression::Value(Value::Boolean(true))),)
    );
}

#[test]
fn keywords() {
    assert_eq!(If::parse("if").unwrap().0, "");
    assert_eq!(Else::parse("else").unwrap().0, "");

    assert_eq!(While::parse("while").unwrap().0, "");
    assert_eq!(Return::parse("return").unwrap().0, "");
    assert_eq!(Let::parse("let").unwrap().0, "");
}

#[test]
fn variable() {
    assert_eq!(
        Literal::parse("hannover"),
        Ok((
            "",
            Literal {
                ident: Ident("hannover".to_string()),
                call_arguments: None
            }
        ))
    );
}

#[test]
fn function() {
    assert_eq!(
        Literal::parse("leibniz()"),
        Ok((
            "",
            Literal {
                ident: Ident("leibniz".to_string()),
                call_arguments: Some(Tuple::new())
            }
        ))
    );
}

#[test]
fn fibonacci_sample() {
    let input = "function fibonacci(n: int) -> int {
    if smaller(n, 2) {
        return n
    } else {
        return fibonacci(n - 1) + fibonacci(n - 2)
    }
}
function main() {
    print(fibonacci(10))
}";
    let result = Ast::parse_ws(input);

    assert!(result.is_ok());

    assert_eq!(result.unwrap().0, "");
}

#[test]
fn function_simple() {
    assert_eq!(
        Function::parse("function hello() {}"),
        Ok((
            "",
            Function {
                name: Ident("hello".to_string()),
                args: Vec::new(),
                return_type: None,
                body: Body {
                    statements: Vec::new()
                },
            }
        ))
    )
}

#[test]
fn test_let() {
    assert_eq!(
        Statement::parse_ws("let x"),
        Ok((
            "",
            Statement::Let {
                name: Ident("x".to_string()),
                assign: None
            }
        ))
    );
}

#[test]
fn test_let_assign_expression() {
    assert_eq!(
        Statement::parse_ws("let x = true"),
        Ok((
            "",
            Statement::Let {
                name: Ident("x".to_string()),
                assign: Some(Expression::Value(Value::Boolean(true)))
            }
        ))
    );
}

#[test]
fn test_if() {
    assert_eq!(
        Statement::parse_ws("if true { true }"),
        Ok((
            "",
            Statement::If {
                condition: Expression::parse("true").unwrap().1,
                then: Box::new(Body::parse("true").unwrap().1),
                otherwise: None,
            }
        ))
    );
}

#[test]
fn test_if_else() {
    assert_eq!(
        Statement::parse_ws("if true { true } else { false }"),
        Ok((
            "",
            Statement::If {
                condition: Expression::parse("true").unwrap().1,
                then: Box::new(Body::parse("true").unwrap().1),
                otherwise: Some(Box::new(Body::parse("false").unwrap().1)),
            }
        ))
    );
}

#[test]
fn test_while() {
    assert_eq!(
        Statement::parse_ws("while true { doStuff() }"),
        Ok((
            "",
            Statement::While {
                condition: Expression::parse("true").unwrap().1,
                then: Box::new(Body::parse("doStuff()").unwrap().1),
            }
        ))
    );
}

#[test]
fn empty_tuple() {
    let res = Tuple::parse("()");
    assert_eq!(res, Ok(("", Tuple(Vec::new()))));
}

#[test]
fn bool() {
    assert!(parse_int("").is_err());
    assert_eq!(parse_bool("true"), Ok(("", true)));
    assert_eq!(parse_bool("false"), Ok(("", false)));
}

#[test]
fn int_literal() {
    assert!(parse_int("").is_err());
    assert_eq!(parse_int("0"), Ok(("", 0)));
    assert_eq!(parse_int("123"), Ok(("", 123)));
    assert_eq!(parse_int("987654321"), Ok(("", 987654321)));
}

#[test]
fn float() {
    assert!(parse_int("").is_err());
    assert_eq!(parse_float("0.0"), Ok(("", (0, 0))));
    assert_eq!(parse_float("0.000000"), Ok(("", (0, 0))));
    assert_eq!(parse_float("123.456"), Ok(("", (123, 456))));
}
