use spade::environment::Environment;
use spade::evaluate::{evaluate_expression, Value};
use spade::expressions::{BinaryOp, Expr, Literal, UnaryOp};

const FUEL: u64 = 64;

fn num(x: f64) -> Expr {
    Expr::Literal(Literal::Number(x.to_bits()))
}

#[test]
fn test_literal_evaluation() {
    let expr = num(42.0);
    let mut env = Environment::new();
    let mut out: Vec<String> = Vec::new();
    let result = evaluate_expression(&expr, &mut env, &mut out, FUEL).unwrap();
    assert_eq!(matches!(result, Value::Number(b) if b == 42.0f64.to_bits()), true);

    let expr = Expr::Literal(Literal::String("hello".to_string()));
    let mut env = Environment::new();
    let result = evaluate_expression(&expr, &mut env, &mut out, FUEL).unwrap();
    assert_eq!(matches!(result, Value::String(ref s) if s == "hello"), true);

    let expr = Expr::Literal(Literal::Bool(true));
    let mut env = Environment::new();
    let result = evaluate_expression(&expr, &mut env, &mut out, FUEL).unwrap();
    assert_eq!(matches!(result, Value::Bool(true)), true);

    let expr = Expr::Literal(Literal::Nil);
    let mut env = Environment::new();
    let result = evaluate_expression(&expr, &mut env, &mut out, FUEL).unwrap();
    assert_eq!(matches!(result, Value::Nil), true);
}

#[test]
fn test_binary_arithmetic() {
    let mut out: Vec<String> = Vec::new();
    // Addition
    let expr = Expr::Binary {
        left: Box::new(num(3.0)),
        op: BinaryOp::Plus,
        right: Box::new(num(4.0)),
    };
    let mut env = Environment::new();
    let result = evaluate_expression(&expr, &mut env, &mut out, FUEL).unwrap();
    assert_eq!(matches!(result, Value::Number(b) if b == 7.0f64.to_bits()), true);

    // Subtraction
    let expr = Expr::Binary {
        left: Box::new(num(10.0)),
        op: BinaryOp::Minus,
        right: Box::new(num(3.0)),
    };
    let mut env = Environment::new();
    let result = evaluate_expression(&expr, &mut env, &mut out, FUEL).unwrap();
    assert_eq!(matches!(result, Value::Number(b) if b == 7.0f64.to_bits()), true);

    // Multiplication
    let expr = Expr::Binary {
        left: Box::new(num(6.0)),
        op: BinaryOp::Multiply,
        right: Box::new(num(7.0)),
    };
    let mut env = Environment::new();
    let result = evaluate_expression(&expr, &mut env, &mut out, FUEL).unwrap();
    assert_eq!(matches!(result, Value::Number(b) if b == 42.0f64.to_bits()), true);

    // Division
    let expr = Expr::Binary {
        left: Box::new(num(15.0)),
        op: BinaryOp::Divide,
        right: Box::new(num(3.0)),
    };
    let mut env = Environment::new();
    let result = evaluate_expression(&expr, &mut env, &mut out, FUEL).unwrap();
    assert_eq!(matches!(result, Value::Number(b) if b == 5.0f64.to_bits()), true);
}

#[test]
fn test_division_by_zero() {
    let expr = Expr::Binary {
        left: Box::new(num(10.0)),
        op: BinaryOp::Divide,
        right: Box::new(num(0.0)),
    };
    let mut env = Environment::new();
    let mut out: Vec<String> = Vec::new();
    let result = evaluate_expression(&expr, &mut env, &mut out, FUEL);
    assert!(result.is_err());
}

#[test]
fn test_unary_minus() {
    let expr = Expr::Unary {
        op: UnaryOp::Minus,
        expr: Box::new(num(42.0)),
    };
    let mut env = Environment::new();
    let mut out: Vec<String> = Vec::new();
    let result = evaluate_expression(&expr, &mut env, &mut out, FUEL).unwrap();
    assert_eq!(matches!(result, Value::Number(b) if b == (-42.0f64).to_bits()), true);
}

#[test]
fn test_unary_not() {
    let mut out: Vec<String> = Vec::new();
    // With a boolean
    let expr = Expr::Unary {
        op: UnaryOp::Not,
        expr: Box::new(Expr::Literal(Literal::Bool(true))),
    };
    let mut env = Environment::new();
    let result = evaluate_expression(&expr, &mut env, &mut out, FUEL).unwrap();
    assert_eq!(matches!(result, Value::Bool(false)), true);

    let expr = Expr::Unary {
        op: UnaryOp::Not,
        expr: Box::new(Expr::Literal(Literal::Bool(false))),
    };
    let mut env = Environment::new();
    let result = evaluate_expression(&expr, &mut env, &mut out, FUEL).unwrap();
    assert_eq!(matches!(result, Value::Bool(true)), true);

    // With nil (yields true)
    let expr = Expr::Unary {
        op: UnaryOp::Not,
        expr: Box::new(Expr::Literal(Literal::Nil)),
    };
    let mut env = Environment::new();
    let result = evaluate_expression(&expr, &mut env, &mut out, FUEL).unwrap();
    assert_eq!(matches!(result, Value::Bool(true)), true);

    // With a number (yields false)
    let expr = Expr::Unary {
        op: UnaryOp::Not,
        expr: Box::new(num(42.0)),
    };
    let mut env = Environment::new();
    let result = evaluate_expression(&expr, &mut env, &mut out, FUEL).unwrap();
    assert_eq!(matches!(result, Value::Bool(false)), true);
}

#[test]
fn test_grouping() {
    let expr = Expr::Grouping(Box::new(num(42.0)));
    let mut env = Environment::new();
    let mut out: Vec<String> = Vec::new();
    let result = evaluate_expression(&expr, &mut env, &mut out, FUEL).unwrap();
    assert_eq!(matches!(result, Value::Number(b) if b == 42.0f64.to_bits()), true);
}

#[test]
fn test_invalid_operands() {
    let mut out: Vec<String> = Vec::new();
    // Invalid operands for arithmetic
    let expr = Expr::Binary {
        left: Box::new(Expr::Literal(Literal::String("hello".to_string()))),
        op: BinaryOp::Minus,
        right: Box::new(num(5.0)),
    };
    let mut env = Environment::new();
    let result = evaluate_expression(&expr, &mut env, &mut out, FUEL);
    assert!(result.is_err());

    // Invalid operand for unary minus
    let expr = Expr::Unary {
        op: UnaryOp::Minus,
        expr: Box::new(Expr::Literal(Literal::String("hello".to_string()))),
    };
    let mut env = Environment::new();
    let result = evaluate_expression(&expr, &mut env, &mut out, FUEL);
    assert!(result.is_err());
}

#[test]
fn evaluate_test_complex_expression() {
    // (3 + 4) * 2
    let expr = Expr::Binary {
        left: Box::new(Expr::Grouping(Box::new(Expr::Binary {
            left: Box::new(num(3.0)),
            op: BinaryOp::Plus,
            right: Box::new(num(4.0)),
        }))),
        op: BinaryOp::Multiply,
        right: Box::new(num(2.0)),
    };
    let mut env = Environment::new();
    let mut out: Vec<String> = Vec::new();
    let result = evaluate_expression(&expr, &mut env, &mut out, FUEL).unwrap();
    assert_eq!(matches!(result, Value::Number(b) if b == 14.0f64.to_bits()), true);
}

#[test]
fn test_unsupported_binary_operator() {
    let expr = Expr::Binary {
        left: Box::new(num(1.0)),
        op: BinaryOp::Less,
        right: Box::new(num(2.0)),
    };
    let mut env = Environment::new();
    let mut out: Vec<String> = Vec::new();
    let err = evaluate_expression(&expr, &mut env, &mut out, FUEL).unwrap_err();
    match err {
        spade::error::SpadeError::RuntimeError { message, .. } => {
            assert_eq!(message, "Unsupported binary operator");
        },
        _ => panic!("expected a runtime error"),
    }
}

#[test]
fn test_environment_shadowing() {
    let mut env = Environment::new();
    env.define("x".to_string(), Value::Number(1.0f64.to_bits()));
    env.push_scope();
    env.define("x".to_string(), Value::Number(2.0f64.to_bits()));
    let inner = env.get("x").unwrap();
    assert!(matches!(inner, Value::Number(b) if b == 2.0f64.to_bits()));
    env.pop();
    let outer = env.get("x").unwrap();
    assert!(matches!(outer, Value::Number(b) if b == 1.0f64.to_bits()));
}

#[test]
fn test_environment_assign() {
    let mut env = Environment::new();
    env.define("x".to_string(), Value::Number(1.0f64.to_bits()));
    env.push_scope();
    env.assign("x".to_string(), Value::Number(5.0f64.to_bits())).unwrap();
    env.pop();
    let v = env.get("x").unwrap();
    assert!(matches!(v, Value::Number(b) if b == 5.0f64.to_bits()));
    let err = env.assign("missing".to_string(), Value::Nil).unwrap_err();
    assert_eq!(err, "Undefined variable 'missing'.");
}
