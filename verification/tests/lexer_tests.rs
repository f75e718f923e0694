use jlang::lexer::Lexer;
use jlang::lexer_error::LexerError;
use jlang::token::{Token, TokenType};

#[test]
fn test_empty_input() {
    let mut lexer = Lexer::new("");
    assert!(matches!(lexer.next_token().unwrap().token_type, TokenType::EOF));
}

#[test]
fn test_single_character_tokens() {
    let mut lexer = Lexer::new("{}():.,");
    let expected = vec![
        TokenType::LeftBrace,
        TokenType::RightBrace,
        TokenType::LeftParen,
        TokenType::RightParen,
        TokenType::Colon,
        TokenType::Dot,
        TokenType::Comma,
        TokenType::EOF,
    ];

    for expected_type in expected {
        assert_eq!(lexer.next_token().unwrap().token_type, expected_type);
    }
}

#[test]
fn test_keywords() {
    let mut lexer = Lexer::new("module type const let");
    let expected = vec![
        TokenType::Module,
        TokenType::Type,
        TokenType::Const,
        TokenType::Let,
        TokenType::EOF,
    ];

    for expected_type in expected {
        assert_eq!(lexer.next_token().unwrap().token_type, expected_type);
    }
}

#[test]
fn test_string_literal() {
    let mut lexer = Lexer::new(r#""Hello, World!""#);
    match lexer.next_token().unwrap().token_type {
        TokenType::StringLiteral(s) => assert_eq!(s, "Hello, World!"),
        _ => panic!("Expected string literal"),
    }
}

#[test]
fn test_number_literal() {
    let mut lexer = Lexer::new("42 3.14");

    match lexer.next_token().unwrap().token_type {
        TokenType::NumberLiteral(n) => assert_eq!(n.parse::<f64>().unwrap(), 42.0),
        _ => panic!("Expected number literal"),
    }

    match lexer.next_token().unwrap().token_type {
        TokenType::NumberLiteral(n) => assert_eq!(n.parse::<f64>().unwrap(), 3.14),
        _ => panic!("Expected number literal"),
    }
}

#[test]
fn test_identifier() {
    let mut lexer = Lexer::new("foo_bar123");
    match lexer.next_token().unwrap().token_type {
        TokenType::Identifier(s) => assert_eq!(s, "foo_bar123"),
        _ => panic!("Expected identifier"),
    }
}

#[test]
fn test_unterminated_string() {
    let mut lexer = Lexer::new("\"unterminated");
    assert!(matches!(
        lexer.next_token().unwrap_err(),
        LexerError::UnterminatedString { .. }
    ));
}

#[test]
fn test_comments() {
    let mut lexer = Lexer::new("let x = 42 // This is a comment\nlet y = 23");
    let expected = vec![
        TokenType::Let,
        TokenType::Identifier("x".to_string()),
        TokenType::Equals,
        TokenType::NumberLiteral("42".to_string()),
        TokenType::Let,
        TokenType::Identifier("y".to_string()),
        TokenType::Equals,
        TokenType::NumberLiteral("23".to_string()),
        TokenType::EOF,
    ];

    for expected_type in expected {
        assert_eq!(lexer.next_token().unwrap().token_type, expected_type);
    }
}

#[test]
fn test_token_display() {
    let token = Token::new(TokenType::Identifier("test".to_string()), 1, 1);
    assert_eq!(token.display_string(), "test at line 1, column 1");

    let token = Token::new(TokenType::NumberLiteral("42".to_string()), 2, 3);
    assert_eq!(token.display_string(), "42 at line 2, column 3");

    let token = Token::new(TokenType::StringLiteral("hello".to_string()), 3, 4);
    assert_eq!(token.display_string(), "\"hello\" at line 3, column 4");
}

#[test]
fn test_token_type_checks() {
    let token = Token::new(TokenType::Module, 1, 1);
    assert!(token.is_keyword());
    assert!(!token.is_literal());

    let token = Token::new(TokenType::NumberLiteral("42".to_string()), 1, 1);
    assert!(token.is_literal());
    assert!(!token.is_keyword());

    let token = Token::new(TokenType::Identifier("test".to_string()), 1, 1);
    assert!(!token.is_keyword());
    assert!(!token.is_literal());
}

#[test]
fn test_error_display() {
    let err = LexerError::UnterminatedString {
        line: 1,
        column: 10,
    };
    assert_eq!(
        err.message(),
        "Unterminated string literal at line 1, column 10"
    );

    let err = LexerError::InvalidNumber { line: 2, column: 5 };
    assert_eq!(err.message(), "Invalid number at line 2, column 5");

    let err = LexerError::UnexpectedCharacter {
        char: '@',
        line: 3,
        column: 15,
    };
    assert_eq!(err.message(), "Unexpected character '@' at line 3, column 15");
}

#[test]
fn test_error_debug() {
    let err = LexerError::UnexpectedEOF {
        line: 5,
        column: 20,
    };
    assert_eq!(format!("{:?}", err), "UnexpectedEOF { line: 5, column: 20 }");
}

#[test]
fn test_error_equality() {
    let err1 = LexerError::UnterminatedString {
        line: 1,
        column: 10,
    };
    let err2 = LexerError::UnterminatedString {
        line: 1,
        column: 10,
    };
    let err3 = LexerError::UnterminatedString {
        line: 2,
        column: 10,
    };

    assert_eq!(err1, err2);
    assert_ne!(err1, err3);
}
