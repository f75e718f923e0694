use jlang::ast::{Expression, Statement};
use jlang::lexer::Lexer;
use jlang::lexer_error::LexerError;
use jlang::parser::Parser;
use jlang::parser_error::ParseError;
use jlang::token::{Token, TokenType};

fn kinds(tokens: &[Token]) -> Vec<String> {
    tokens
        .iter()
        .map(|t| match &t.token_type {
            TokenType::Identifier(s) => format!("Identifier({})", s),
            TokenType::NumberLiteral(s) => format!("NumberLiteral({})", s),
            TokenType::StringLiteral(s) => format!("StringLiteral({})", s),
            TokenType::BooleanLiteral(b) => format!("BooleanLiteral({})", b),
            other => format!("{:?}", other),
        })
        .collect()
}

// Whole pipeline on a valid source: the counts match the declared
// structure.
#[test]
fn test_pipeline_structure_counts() {
    let source = "module a { let x = 1 const y = 2 } module b { type T => { f: Number } }";
    let tokens = Lexer::new(source).tokenize().unwrap();
    let program = Parser::new(tokens).parse().unwrap();
    assert_eq!(program.modules.len(), 2);
    assert_eq!(program.modules[0].statements.len(), 2);
    assert_eq!(program.modules[1].statements.len(), 1);
    match &program.modules[1].statements[0] {
        Statement::TypeDef(d) => assert_eq!(d.fields.len(), 1),
        _ => panic!("Expected type definition"),
    }
}

// Inserting and removing runs of spaces, tabs and newlines outside
// tokens leaves the token categories unchanged.
#[test]
fn test_whitespace_formatting_invariance() {
    let compact = "module whitespace{type Space=>{x:Number,y:Number}let x=42 const PI=3.14159}";
    let spread = "module   whitespace {\n\ttype Space => {\r\n\t\tx: Number,\n\t\ty: Number\n\t}\n\tlet x = 42\n\tconst PI = 3.14159\n}\n";
    let a = Lexer::new(compact).tokenize().unwrap();
    let b = Lexer::new(spread).tokenize().unwrap();
    assert_eq!(kinds(&a), kinds(&b));
}

// Inserting a comment run before a newline leaves the token categories
// unchanged.
#[test]
fn test_comment_stripping() {
    let plain = "module m {\nlet x = 1\n}";
    let commented = "// leading note\nmodule m { // after header\nlet x = 1 // binding\n}";
    let a = Lexer::new(plain).tokenize().unwrap();
    let b = Lexer::new(commented).tokenize().unwrap();
    assert_eq!(kinds(&a), kinds(&b));
}

// Object-literal and type-definition field order is source order, with
// no reordering or deduplication.
#[test]
fn test_field_order_preserved() {
    let source = "module m { let o = { b: 1, a: 2, b: 3 } type T => { z: Number, a: String, z: Boolean } }";
    let tokens = Lexer::new(source).tokenize().unwrap();
    let program = Parser::new(tokens).parse().unwrap();
    match &program.modules[0].statements[0] {
        Statement::Let { value, .. } => match &**value {
            Expression::Object { fields } => {
                let names: Vec<&str> = fields.iter().map(|f| f.0.as_str()).collect();
                assert_eq!(names, vec!["b", "a", "b"]);
            }
            _ => panic!("Expected object literal"),
        },
        _ => panic!("Expected let statement"),
    }
    match &program.modules[0].statements[1] {
        Statement::TypeDef(d) => {
            let names: Vec<&str> = d.fields.iter().map(|f| f.name.as_str()).collect();
            assert_eq!(names, vec!["z", "a", "z"]);
        }
        _ => panic!("Expected type definition"),
    }
}

// The reported error position is exactly the offending token's.
#[test]
fn test_error_locality() {
    // the '@' sits on line 2, column 9
    let source = "module m {\nlet x = @\n}";
    match Lexer::new(source).tokenize() {
        Err(LexerError::UnexpectedCharacter { char, line, column }) => {
            assert_eq!(char, '@');
            assert_eq!(line, 2);
            assert_eq!(column, 9);
        }
        other => panic!("Expected UnexpectedCharacter, got {:?}", other),
    }

    // the stray '=' sits on line 1, column 12
    let source = "module m { = }";
    let tokens = Lexer::new(source).tokenize().unwrap();
    match Parser::new(tokens).parse() {
        Err(ParseError::UnexpectedToken { line, column, .. }) => {
            assert_eq!(line, 1);
            assert_eq!(column, 12);
        }
        other => panic!("Expected UnexpectedToken, got {:?}", other),
    }
}

// Reaching EOF where more input was expected is reported against the
// EOF token, at its position.
#[test]
fn test_error_at_end_of_input() {
    // module name missing: EOF sits at (1, 7)
    let tokens = Lexer::new("module").tokenize().unwrap();
    match Parser::new(tokens).parse() {
        Err(ParseError::UnexpectedToken {
            expected,
            found,
            line,
            column,
        }) => {
            assert!(expected.contains("identifier"));
            assert_eq!(found, "EOF");
            assert_eq!((line, column), (1, 7));
        }
        other => panic!("Expected UnexpectedToken, got {:?}", other),
    }

    // binding name missing: EOF sits at (1, 15)
    let tokens = Lexer::new("module m { let").tokenize().unwrap();
    match Parser::new(tokens).parse() {
        Err(ParseError::UnexpectedToken {
            expected,
            found,
            line,
            column,
        }) => {
            assert!(expected.contains("identifier"));
            assert_eq!(found, "EOF");
            assert_eq!((line, column), (1, 15));
        }
        other => panic!("Expected UnexpectedToken, got {:?}", other),
    }

    // type name missing after a field's colon: EOF sits at (1, 26)
    let tokens = Lexer::new("module m { type T => { x:").tokenize().unwrap();
    match Parser::new(tokens).parse() {
        Err(ParseError::UnexpectedToken {
            expected,
            found,
            line,
            column,
        }) => {
            assert!(expected.contains("type"));
            assert_eq!(found, "EOF");
            assert_eq!((line, column), (1, 26));
        }
        other => panic!("Expected UnexpectedToken, got {:?}", other),
    }
}

// A non-identifier in name position that is not EOF is still reported
// at its own position.
#[test]
fn test_error_name_position_not_eof() {
    let tokens = Lexer::new("module 123 {}").tokenize().unwrap();
    match Parser::new(tokens).parse() {
        Err(ParseError::UnexpectedToken {
            expected,
            found,
            line,
            column,
        }) => {
            assert!(expected.contains("identifier"));
            assert_eq!(found, "NumberLiteral(123)");
            assert_eq!((line, column), (1, 8));
        }
        other => panic!("Expected UnexpectedToken, got {:?}", other),
    }
}

// Empty source scans to exactly one EOF token; a stream of only EOF
// parses to a program with zero modules.
#[test]
fn test_empty_source_boundary() {
    let tokens = Lexer::new("").tokenize().unwrap();
    assert_eq!(tokens.len(), 1);
    assert!(matches!(tokens[0].token_type, TokenType::EOF));
    assert_eq!(tokens[0].line, 1);
    assert_eq!(tokens[0].column, 1);

    let program = Parser::new(tokens).parse().unwrap();
    assert_eq!(program.modules.len(), 0);
}

// Scenario: the exact token sequence and AST of a small module.
#[test]
fn test_scenario_basic_tokens_and_ast() {
    let tokens = Lexer::new("module m { let x = 42 }").tokenize().unwrap();
    assert_eq!(
        kinds(&tokens),
        vec![
            "Module",
            "Identifier(m)",
            "LeftBrace",
            "Let",
            "Identifier(x)",
            "Equals",
            "NumberLiteral(42)",
            "RightBrace",
            "EOF",
        ]
    );
    let program = Parser::new(tokens).parse().unwrap();
    assert_eq!(program.modules.len(), 1);
    assert_eq!(program.modules[0].name, "m");
    match &program.modules[0].statements[0] {
        Statement::Let { name, value } => {
            assert_eq!(name, "x");
            match &**value {
                Expression::NumberLiteral(n) => assert_eq!(n.parse::<f64>().unwrap(), 42.0),
                _ => panic!("Expected number literal"),
            }
        }
        _ => panic!("Expected let statement"),
    }
}

// Scenario: a trailing comma parses identically to the same source
// without it.
#[test]
fn test_scenario_trailing_comma() {
    let with = "module o { let p = { x: 10, y: 20, } }";
    let without = "module o { let p = { x: 10, y: 20 } }";
    let a = Parser::new(Lexer::new(with).tokenize().unwrap()).parse().unwrap();
    let b = Parser::new(Lexer::new(without).tokenize().unwrap()).parse().unwrap();
    assert_eq!(a, b);
}

// Scenario: an unterminated module fails expecting the closing brace at
// EOF's position.
#[test]
fn test_scenario_unterminated_module() {
    let source = "module bad {";
    let tokens = Lexer::new(source).tokenize().unwrap();
    match Parser::new(tokens).parse() {
        Err(ParseError::UnexpectedToken {
            expected,
            found,
            line,
            column,
        }) => {
            assert!(expected.contains("RightBrace"));
            assert_eq!(found, "EOF");
            assert_eq!(line, 1);
            assert_eq!(column, 13);
        }
        other => panic!("Expected UnexpectedToken, got {:?}", other),
    }
}

// Scenario: an unterminated string fails at the scanner stage, at the
// position reached at end of input.
#[test]
fn test_scenario_unterminated_string() {
    let source = "module s { let t = \"unterminated";
    match Lexer::new(source).tokenize() {
        Err(LexerError::UnterminatedString { line, column }) => {
            assert_eq!(line, 1);
            assert_eq!(column, 33);
        }
        other => panic!("Expected UnterminatedString, got {:?}", other),
    }
}

// Strings keep their exact content; a number keeps its exact spelling.
#[test]
fn test_literal_fidelity() {
    let tokens = Lexer::new("\"a b\tc\" 007.500").tokenize().unwrap();
    match &tokens[0].token_type {
        TokenType::StringLiteral(s) => assert_eq!(s, "a b\tc"),
        _ => panic!("Expected string literal"),
    }
    match &tokens[1].token_type {
        TokenType::NumberLiteral(n) => {
            assert_eq!(n, "007.500");
            assert_eq!(n.parse::<f64>().unwrap(), 7.5);
        }
        _ => panic!("Expected number literal"),
    }
}

// A dot not followed by a digit is left for the next token; '=' alone
// and '=>' are told apart.
#[test]
fn test_number_dot_and_arrow() {
    let tokens = Lexer::new("1. = =>").tokenize().unwrap();
    assert_eq!(
        kinds(&tokens),
        vec!["NumberLiteral(1)", "Dot", "Equals", "Arrow", "EOF"]
    );
}

// Positions: the column resets to 1 after a newline, and each token
// records its first character's position.
#[test]
fn test_token_positions() {
    let tokens = Lexer::new("ab c\nde").tokenize().unwrap();
    assert_eq!((tokens[0].line, tokens[0].column), (1, 1));
    assert_eq!((tokens[1].line, tokens[1].column), (1, 4));
    assert_eq!((tokens[2].line, tokens[2].column), (2, 1));
}

// The parse error message renders the offending token's description.
#[test]
fn test_parse_error_message_text() {
    let tokens = Lexer::new("42").tokenize().unwrap();
    match Parser::new(tokens).parse() {
        Err(e) => {
            assert_eq!(
                e.message(),
                "Unexpected token at line 1, column 1. Expected module, found NumberLiteral(42)"
            );
        }
        Ok(_) => panic!("Expected parser error"),
    }
}

// A string literal may span lines: its content keeps the newline, its
// position is the opening quote's, and the line counter advances for
// what follows.
#[test]
fn test_multiline_string() {
    let tokens = Lexer::new("\"a\nb\" x").tokenize().unwrap();
    match &tokens[0].token_type {
        TokenType::StringLiteral(s) => assert_eq!(s, "a\nb"),
        _ => panic!("Expected string literal"),
    }
    assert_eq!((tokens[0].line, tokens[0].column), (1, 1));
    assert_eq!((tokens[1].line, tokens[1].column), (2, 4));
}

// Nested object literals parse to nested AST nodes.
#[test]
fn test_nested_object() {
    let source = "module n { let o = { inner: { k: 1 } } }";
    let tokens = Lexer::new(source).tokenize().unwrap();
    let program = Parser::new(tokens).parse().unwrap();
    match &program.modules[0].statements[0] {
        Statement::Let { value, .. } => match &**value {
            Expression::Object { fields } => {
                assert_eq!(fields[0].0, "inner");
                match &fields[0].1 {
                    Expression::Object { fields } => {
                        assert_eq!(fields[0].0, "k");
                    }
                    _ => panic!("Expected nested object"),
                }
            }
            _ => panic!("Expected object literal"),
        },
        _ => panic!("Expected let statement"),
    }
}

// Booleans are classified as literals, not identifiers.
#[test]
fn test_boolean_classification() {
    let tokens = Lexer::new("true false truthy").tokenize().unwrap();
    assert_eq!(
        kinds(&tokens),
        vec![
            "BooleanLiteral(true)",
            "BooleanLiteral(false)",
            "Identifier(truthy)",
            "EOF",
        ]
    );
}
