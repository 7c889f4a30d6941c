use spade::evaluate::Value;
use spade::expressions::{BinaryOp, Expr, Literal, Statement};
use spade::interpreter::Interpreter;
use spade::token::scan_tokens;
use spade::tree::parse_stmt;

fn num(x: f64) -> Expr {
    Expr::Literal(Literal::Number(x.to_bits()))
}

#[test]
fn test_print_statement() {
    let mut interpreter = Interpreter::new();
    let statement = Statement::Print(Expr::Literal(Literal::String("Hello, World!".to_string())));
    let result = interpreter.interpret(vec![statement]);
    assert!(result.is_ok());
    assert_eq!(interpreter.output(), &vec!["Hello, World!".to_string()]);
}

#[test]
fn test_expression_statement() {
    let mut interpreter = Interpreter::new();
    let statement = Statement::Expression(num(42.0));
    let result = interpreter.interpret(vec![statement]);
    assert!(result.is_ok());
}

#[test]
fn test_multiple_statements() {
    let mut interpreter = Interpreter::new();
    let statements = vec![
        Statement::Print(num(1.0)),
        Statement::Print(Expr::Literal(Literal::Bool(true))),
        Statement::Expression(Expr::Literal(Literal::Nil)),
    ];
    let result = interpreter.interpret(statements);
    assert!(result.is_ok());
    assert_eq!(interpreter.output(), &vec!["1".to_string(), "true".to_string()]);
}

#[test]
fn test_stringify_values() {
    let interpreter = Interpreter::new();

    assert_eq!(interpreter.stringify(Value::Nil), "nil");
    assert_eq!(interpreter.stringify(Value::Bool(true)), "true");
    assert_eq!(interpreter.stringify(Value::Bool(false)), "false");
    assert_eq!(interpreter.stringify(Value::Number(42.0f64.to_bits())), "42");
    assert_eq!(interpreter.stringify(Value::Number(3.14f64.to_bits())), "3.14");
    assert_eq!(interpreter.stringify(Value::String("hello".to_string())), "hello");
}

#[test]
fn interpreter_test_complex_expression() {
    let mut interpreter = Interpreter::new();
    let expr = Expr::Binary {
        left: Box::new(num(3.0)),
        op: BinaryOp::Plus,
        right: Box::new(num(4.0)),
    };
    let statement = Statement::Print(expr);
    let result = interpreter.interpret(vec![statement]);
    assert!(result.is_ok());
    assert_eq!(interpreter.output(), &vec!["7".to_string()]);
}

#[test]
fn test_error_propagation() {
    let mut interpreter = Interpreter::new();
    let expr = Expr::Binary {
        left: Box::new(Expr::Literal(Literal::String("hello".to_string()))),
        op: BinaryOp::Minus,
        right: Box::new(num(5.0)),
    };
    let statement = Statement::Print(expr);
    let result = interpreter.interpret(vec![statement]);
    assert!(result.is_err());
}

#[test]
fn test_assign_and_print() {
    let mut interpreter = Interpreter::new();
    let code = "let x = 1; print x;".to_string();
    let tokens = scan_tokens(code.to_string()).unwrap();
    let statements = parse_stmt(tokens).unwrap();
    let result = interpreter.interpret(statements);
    assert!(result.is_ok());
}

#[test]
fn test_assign_and_print_2() {
    let mut interpreter = Interpreter::new();
    let code = "let x = 1; { let y = 2; print x;} print y;".to_string();
    let tokens = scan_tokens(code.to_string()).unwrap();
    let statements = parse_stmt(tokens).unwrap();
    let result = interpreter.interpret(statements);
    assert!(result.is_err());
}

#[test]
fn test_if_statement() {
    let mut interpreter = Interpreter::new();
    let code = "if (false) { print \"true\"; } else { print \"false\"; }".to_string();
    let tokens = scan_tokens(code.to_string()).unwrap();
    let statements = parse_stmt(tokens).unwrap();
    let result = interpreter.interpret(statements);
    let _ = result;
}

#[test]
fn test_return_statement() {
    let mut interpreter = Interpreter::new();
    let code = "return 1;".to_string();
    let tokens = scan_tokens(code.to_string()).unwrap();
    let statements = parse_stmt(tokens).unwrap();
    let result = interpreter.interpret(statements);
    let _ = result;
}
