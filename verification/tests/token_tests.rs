use spade::token::{scan_tokens, Literal, TokenType};

fn match_types(tokens: Vec<spade::token::Token>, types: Vec<TokenType>) {
    for (token, ttype) in tokens.iter().zip(types.iter()) {
        assert_eq!(token.token_type, *ttype);
    }
}

#[test]
fn test_scan_simple_tokens() {
    let source = "(){},.+-;*".to_string();
    let expected_types = vec![
        TokenType::LeftParen,
        TokenType::RightParen,
        TokenType::LeftBrace,
        TokenType::RightBrace,
        TokenType::Comma,
        TokenType::Dot,
        TokenType::Plus,
        TokenType::Minus,
        TokenType::Semicolon,
        TokenType::Star,
    ];
    let tokens = scan_tokens(source).unwrap();
    match_types(tokens, expected_types)
}

#[test]
fn test_multiple_tokens() {
    let source = "! != == = > >= < <=".to_string();
    let expected_types = vec![
        TokenType::Bang,
        TokenType::BangEqual,
        TokenType::EqualEqual,
        TokenType::Equal,
        TokenType::Greater,
        TokenType::GreaterEqual,
        TokenType::Less,
        TokenType::LessEqual,
    ];
    let tokens = scan_tokens(source).unwrap();
    match_types(tokens, expected_types)
}

#[test]
fn test_string() {
    let source = "\"hello world\"".to_string();
    let string_token = &scan_tokens(source).unwrap()[0];
    assert_eq!(string_token.token_type, TokenType::String);
    assert_eq!(
        string_token.literal,
        Some(Literal::String("hello world".to_string()))
    );
}

#[test]
fn test_number() {
    let source: String = "34.33".to_string();
    let string_token = &scan_tokens(source).unwrap()[0];
    assert_eq!(string_token.literal, Some(Literal::Number(34.33f64.to_bits())));
}

#[test]
fn test_arithmetic() {
    let source: String = "3+4".to_string();
    let tokens = scan_tokens(source).unwrap();
    let _ = tokens;
}

#[test]
fn test_identifier() {
    let source: String = "abcd".to_string();
    let string_token = &scan_tokens(source).unwrap()[0];
    assert_eq!(string_token.token_type, TokenType::Identifier);
    assert_eq!(string_token.lexeme, "abcd");

    let source: String = "orchid".to_string();
    let string_token = &scan_tokens(source).unwrap()[0];
    assert_eq!(string_token.token_type, TokenType::Identifier);
    assert_eq!(string_token.lexeme, "orchid");

    let source: String = "or".to_string();
    let string_token = &scan_tokens(source).unwrap()[0];
    assert_eq!(string_token.token_type, TokenType::Or);
}

#[test]
fn test_comment_and_lines() {
    let tokens = scan_tokens("// nothing here\nprint 1;".to_string()).unwrap();
    assert_eq!(tokens[0].token_type, TokenType::Print);
    assert_eq!(tokens[0].line, 2);
}

#[test]
fn test_unexpected_character() {
    let err = scan_tokens("let x = @;".to_string()).unwrap_err();
    assert_eq!(err, "Unexpected character: @");
}

#[test]
fn test_unterminated_string() {
    let err = scan_tokens("\"hello".to_string()).unwrap_err();
    assert_eq!(err, "Unterminated string");
}

#[test]
fn test_keywords() {
    let tokens = scan_tokens("and class else false for fn if nil print return super this true let while".to_string()).unwrap();
    let kinds: Vec<TokenType> = tokens.iter().map(|t| t.token_type).collect();
    assert_eq!(
        kinds,
        vec![
            TokenType::And,
            TokenType::Class,
            TokenType::Else,
            TokenType::False,
            TokenType::For,
            TokenType::Fn,
            TokenType::If,
            TokenType::Nil,
            TokenType::Print,
            TokenType::Return,
            TokenType::Super,
            TokenType::This,
            TokenType::True,
            TokenType::Let,
            TokenType::While,
        ]
    );
}
