use spade::expressions::{BinaryOp, Expr, Literal, Statement, UnaryOp};
use spade::token::scan_tokens;
use spade::tree::{parse, parse_stmt};

#[test]
fn test_literal() {
    let tokens = scan_tokens("42".to_string()).unwrap();
    let expr = parse(tokens).unwrap();
    let ground_truth_expr = Expr::Literal(Literal::Number(42.0f64.to_bits()));
    assert_eq!(expr.to_text(), ground_truth_expr.to_text());
}

#[test]
fn test_binary_expression() {
    let tokens = scan_tokens("1+2".to_string()).unwrap();
    let expr = parse(tokens).unwrap();
    let ground_truth_expr = Expr::Binary {
        left: Box::new(Expr::Literal(Literal::Number(1.0f64.to_bits()))),
        op: BinaryOp::Plus,
        right: Box::new(Expr::Literal(Literal::Number(2.0f64.to_bits()))),
    };
    assert_eq!(expr.to_text(), ground_truth_expr.to_text());
}

#[test]
fn test_unary_expression() {
    let tokens = scan_tokens("-42".to_string()).unwrap();
    let expr = parse(tokens).unwrap();
    let ground_truth_expr = Expr::Unary {
        op: UnaryOp::Minus,
        expr: Box::new(Expr::Literal(Literal::Number(42.0f64.to_bits()))),
    };
    assert_eq!(expr.to_text(), ground_truth_expr.to_text());
}

#[test]
fn test_variable_statement() {
    let tokens = scan_tokens("let dog = 3; print dog;".to_string()).unwrap();
    let declarations = parse_stmt(tokens).unwrap();
    let dog_token = spade::token::Token {
        token_type: spade::token::TokenType::Identifier,
        lexeme: "dog".to_string(),
        literal: None,
        line: 1,
    };
    let ground_truth_declaration = vec![
        Statement::VarDec {
            name: "dog".to_string(),
            initializer: Some(Expr::Literal(Literal::Number(3.0f64.to_bits()))),
        },
        Statement::Print(Expr::Literal(Literal::Var(dog_token))),
    ];
    assert_eq!(declarations[0].to_text(), ground_truth_declaration[0].to_text());
    assert_eq!(declarations[1].to_text(), ground_truth_declaration[1].to_text());
}

#[test]
fn test_precedence_shape() {
    let tokens = scan_tokens("1 + 2 * 3".to_string()).unwrap();
    let expr = parse(tokens).unwrap();
    // multiplication binds tighter, so the tree is 1 + (2 * 3)
    match expr {
        Expr::Binary { op: BinaryOp::Plus, right, .. } => match *right {
            Expr::Binary { op: BinaryOp::Multiply, .. } => {},
            _ => panic!("expected multiplication on the right"),
        },
        _ => panic!("expected addition at the top"),
    }
}

#[test]
fn test_missing_semicolon() {
    let tokens = scan_tokens("print 1".to_string()).unwrap();
    let err = parse_stmt(tokens).unwrap_err();
    assert_eq!(err, "Expect ';' after value.");
}

#[test]
fn test_let_without_initializer() {
    let tokens = scan_tokens("let x;".to_string()).unwrap();
    let statements = parse_stmt(tokens).unwrap();
    assert_eq!(statements.len(), 1);
    match &statements[0] {
        Statement::VarDec { name, initializer } => {
            assert_eq!(name, "x");
            assert!(initializer.is_none());
        },
        _ => panic!("expected a declaration"),
    }
}

#[test]
fn test_dangling_else() {
    let tokens = scan_tokens("if (true) if (false) print 1; else print 2;".to_string()).unwrap();
    let statements = parse_stmt(tokens).unwrap();
    // the else belongs to the nearest if
    match &statements[0] {
        Statement::If { else_branch, then_branch, .. } => {
            assert!(else_branch.is_none());
            match &**then_branch {
                Statement::If { else_branch, .. } => assert!(else_branch.is_some()),
                _ => panic!("expected a nested if"),
            }
        },
        _ => panic!("expected an if"),
    }
}

#[test]
fn test_call_chain() {
    let tokens = scan_tokens("f(1)(2, 3)".to_string()).unwrap();
    let expr = parse(tokens).unwrap();
    match expr {
        Expr::Call { callee, arguments } => {
            assert_eq!(arguments.len(), 2);
            match *callee {
                Expr::Call { arguments, .. } => assert_eq!(arguments.len(), 1),
                _ => panic!("expected an inner call"),
            }
        },
        _ => panic!("expected a call"),
    }
}

#[test]
fn test_round_trip_text() {
    // printing a parsed expression and parsing the text again gives the
    // same tree
    let tokens = scan_tokens("!(1 + 2) * 3 - f(4, nil) / true".to_string()).unwrap();
    let expr = parse(tokens).unwrap();
    let text = expr.to_text();
    let tokens2 = scan_tokens(text.clone()).unwrap();
    let expr2 = parse(tokens2).unwrap();
    assert_eq!(text, expr2.to_text());
}

#[test]
fn test_parse_error_messages() {
    let cases: Vec<(&str, &str)> = vec![
        ("print 1", "Expect ';' after value."),
        ("let = 1;", "'let' assignment must be provided a name"),
        ("let x 1;", "'let' assignment must be followed by '='"),
        ("if true { print 1; }", "Expect '(' after 'if'"),
        ("if (true { print 1; }", "Expect ')' after condition"),
        ("{ print 1;", "Expect '}' after block"),
        ("fn () {}", "Expect function name"),
        ("fn f {}", "Expect '(' after function name"),
        ("fn f(1) {}", "Expect parameter name"),
        ("fn f(a) return 1;", "Expect '{' before function body"),
        ("return 1", "Expect ';' after return value"),
        ("(1 + 2;", "Expect ')' after expression"),
        (";", "Expect expression"),
    ];
    for (source, expected) in cases {
        let tokens = scan_tokens(source.to_string()).unwrap();
        let err = parse_stmt(tokens).unwrap_err();
        assert_eq!(err, expected, "source: {}", source);
    }
}

#[test]
fn test_no_trailing_comma_in_arguments() {
    // the grammar separates arguments with commas and allows no trailing one
    let tokens = scan_tokens("f(1,)".to_string()).unwrap();
    let err = parse(tokens).unwrap_err();
    assert_eq!(err, "Expect expression");
}

#[test]
fn test_empty_argument_list() {
    let tokens = scan_tokens("f()".to_string()).unwrap();
    let expr = parse(tokens).unwrap();
    match expr {
        Expr::Call { arguments, .. } => assert_eq!(arguments.len(), 0),
        _ => panic!("expected a call"),
    }
}
