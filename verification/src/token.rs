//! The lexical vocabulary: token categories and the position-tagged token.
//!
//! Number literals carry the exact run of characters consumed from the
//! source (digits, optionally one dot and more digits); no information is
//! lost, and a caller that wants a numeric value converts the text itself.
use vstd::prelude::*;
use vstd::string::StringExecFns;
use crate::text::{dec_digits, usize_to_string};

verus! {

/// The display text of a token category: keywords and punctuation as
/// they stand in source, literals and identifiers by their text, string
/// literals with their quotes put back.
pub open spec fn token_type_display(t: TokenTypeS) -> Seq<char> {
    match t {
        TokenTypeS::Module => "module"@,
        TokenTypeS::Type => "type"@,
        TokenTypeS::Const => "const"@,
        TokenTypeS::Let => "let"@,
        TokenTypeS::Number => "Number"@,
        TokenTypeS::String => "String"@,
        TokenTypeS::Boolean => "Boolean"@,
        TokenTypeS::LeftBrace => "{"@,
        TokenTypeS::RightBrace => "}"@,
        TokenTypeS::LeftParen => "("@,
        TokenTypeS::RightParen => ")"@,
        TokenTypeS::Colon => ":"@,
        TokenTypeS::Arrow => "=>"@,
        TokenTypeS::Equals => "="@,
        TokenTypeS::Dot => "."@,
        TokenTypeS::Comma => ","@,
        TokenTypeS::Identifier(s) => s,
        TokenTypeS::NumberLiteral(s) => s,
        TokenTypeS::StringLiteral(s) => "\""@ + s + "\""@,
        TokenTypeS::BooleanLiteral(b) => if b {
            "true"@
        } else {
            "false"@
        },
        TokenTypeS::EOF => "EOF"@,
    }
}

/// The display text of a token: its category's text and its position.
pub open spec fn token_display(t: TokenS) -> Seq<char> {
    token_type_display(t.token_type) + " at line "@ + dec_digits(t.line) + ", column "@
        + dec_digits(t.column)
}

/// Mathematical model of a token category: payloads are character
/// sequences, so that two tokens are equal exactly when their category and
/// text agree.
pub ghost enum TokenTypeS {
    Module,
    Type,
    Const,
    Let,
    Number,
    String,
    Boolean,
    LeftBrace,
    RightBrace,
    LeftParen,
    RightParen,
    Colon,
    Arrow,
    Equals,
    Dot,
    Comma,
    Identifier(Seq<char>),
    NumberLiteral(Seq<char>),
    StringLiteral(Seq<char>),
    BooleanLiteral(bool),
    EOF,
}

/// Mathematical model of a token: category plus the 1-indexed position of
/// its first character.
pub ghost struct TokenS {
    pub token_type: TokenTypeS,
    pub line: nat,
    pub column: nat,
}

/// Represents the different types of tokens in the language.
#[derive(Debug, Clone, PartialEq)]
pub enum TokenType {
    // Keywords
    Module,
    Type,
    Const,
    Let,
    // Types
    Number,
    String,
    Boolean,
    // Symbols
    LeftBrace,
    RightBrace,
    LeftParen,
    RightParen,
    Colon,
    Arrow,
    Equals,
    Dot,
    Comma,
    // Values
    Identifier(String),
    NumberLiteral(String),
    StringLiteral(String),
    BooleanLiteral(bool),
    EOF,
}

impl View for TokenType {
    type V = TokenTypeS;

    open spec fn view(&self) -> TokenTypeS {
        match self {
            TokenType::Module => TokenTypeS::Module,
            TokenType::Type => TokenTypeS::Type,
            TokenType::Const => TokenTypeS::Const,
            TokenType::Let => TokenTypeS::Let,
            TokenType::Number => TokenTypeS::Number,
            TokenType::String => TokenTypeS::String,
            TokenType::Boolean => TokenTypeS::Boolean,
            TokenType::LeftBrace => TokenTypeS::LeftBrace,
            TokenType::RightBrace => TokenTypeS::RightBrace,
            TokenType::LeftParen => TokenTypeS::LeftParen,
            TokenType::RightParen => TokenTypeS::RightParen,
            TokenType::Colon => TokenTypeS::Colon,
            TokenType::Arrow => TokenTypeS::Arrow,
            TokenType::Equals => TokenTypeS::Equals,
            TokenType::Dot => TokenTypeS::Dot,
            TokenType::Comma => TokenTypeS::Comma,
            TokenType::Identifier(s) => TokenTypeS::Identifier(s@),
            TokenType::NumberLiteral(s) => TokenTypeS::NumberLiteral(s@),
            TokenType::StringLiteral(s) => TokenTypeS::StringLiteral(s@),
            TokenType::BooleanLiteral(b) => TokenTypeS::BooleanLiteral(*b),
            TokenType::EOF => TokenTypeS::EOF,
        }
    }
}

/// Represents a token with its type and position information.
#[derive(Debug, Clone, PartialEq)]
pub struct Token {
    pub token_type: TokenType,
    pub line: usize,
    pub column: usize,
}

impl View for Token {
    type V = TokenS;

    open spec fn view(&self) -> TokenS {
        TokenS { token_type: self.token_type@, line: self.line as nat, column: self.column as nat }
    }
}

impl Token {
    /// Creates a new token with the given type and position.
    pub fn new(token_type: TokenType, line: usize, column: usize) -> (t: Token)
        ensures
            t@ == (TokenS { token_type: token_type@, line: line as nat, column: column as nat }),
    {
        Token { token_type, line, column }
    }

    /// Returns true if this token is of the given type, text included.
    pub fn is_type(&self, token_type: TokenType) -> (r: bool)
        ensures
            r == (self.token_type@ == token_type@),
    {
        token_type_eq(&self.token_type, &token_type)
    }

    /// Returns true if this token represents a literal value.
    pub fn is_literal(&self) -> (r: bool)
        ensures
            r == (self.token_type@ is NumberLiteral || self.token_type@ is StringLiteral
                || self.token_type@ is BooleanLiteral),
    {
        match &self.token_type {
            TokenType::NumberLiteral(_) => true,
            TokenType::StringLiteral(_) => true,
            TokenType::BooleanLiteral(_) => true,
            _ => false,
        }
    }

    /// Returns true if this token represents a keyword.
    pub fn is_keyword(&self) -> (r: bool)
        ensures
            r == (self.token_type@ is Module || self.token_type@ is Type
                || self.token_type@ is Const || self.token_type@ is Let),
    {
        match &self.token_type {
            TokenType::Module => true,
            TokenType::Type => true,
            TokenType::Const => true,
            TokenType::Let => true,
            _ => false,
        }
    }

    /// The display text of the token: its category and its position.
    pub fn display_string(&self) -> (s: String)
        ensures
            s@ == token_display(self@),
    {
        let mut s = self.token_type.display_string();
        s.append(" at line ");
        s.append(usize_to_string(self.line).as_str());
        s.append(", column ");
        s.append(usize_to_string(self.column).as_str());
        s
    }
}

impl TokenType {
    /// The display text of this token category.
    pub fn display_string(&self) -> (s: String)
        ensures
            s@ == token_type_display(self@),
    {
        match self {
            TokenType::Module => String::from_str("module"),
            TokenType::Type => String::from_str("type"),
            TokenType::Const => String::from_str("const"),
            TokenType::Let => String::from_str("let"),
            TokenType::Number => String::from_str("Number"),
            TokenType::String => String::from_str("String"),
            TokenType::Boolean => String::from_str("Boolean"),
            TokenType::LeftBrace => String::from_str("{"),
            TokenType::RightBrace => String::from_str("}"),
            TokenType::LeftParen => String::from_str("("),
            TokenType::RightParen => String::from_str(")"),
            TokenType::Colon => String::from_str(":"),
            TokenType::Arrow => String::from_str("=>"),
            TokenType::Equals => String::from_str("="),
            TokenType::Dot => String::from_str("."),
            TokenType::Comma => String::from_str(","),
            TokenType::Identifier(x) => x.clone(),
            TokenType::NumberLiteral(x) => x.clone(),
            TokenType::StringLiteral(x) => {
                let mut s = String::from_str("\"");
                s.append(x.as_str());
                s.append("\"");
                s
            },
            TokenType::BooleanLiteral(b) => {
                if *b {
                    String::from_str("true")
                } else {
                    String::from_str("false")
                }
            },
            TokenType::EOF => String::from_str("EOF"),
        }
    }
}

/// The model of a token sequence: each token replaced by its model.
pub open spec fn view_tokens(v: Seq<Token>) -> Seq<TokenS> {
    v.map_values(|t: Token| t@)
}

/// Appending a token commutes with taking the model.
pub proof fn lemma_view_tokens_push(v: Seq<Token>, t: Token)
    ensures
        view_tokens(v.push(t)) == view_tokens(v).push(t@),
{
    assert(view_tokens(v.push(t)) =~= view_tokens(v).push(t@));
}

/// Decides equality of two token types, comparing carried text or values.
#[verifier::rlimit(60)]
pub fn token_type_eq(a: &TokenType, b: &TokenType) -> (r: bool)
    ensures
        r == (a@ == b@),
{
    match (a, b) {
        (TokenType::Module, TokenType::Module) => true,
        (TokenType::Type, TokenType::Type) => true,
        (TokenType::Const, TokenType::Const) => true,
        (TokenType::Let, TokenType::Let) => true,
        (TokenType::Number, TokenType::Number) => true,
        (TokenType::String, TokenType::String) => true,
        (TokenType::Boolean, TokenType::Boolean) => true,
        (TokenType::LeftBrace, TokenType::LeftBrace) => true,
        (TokenType::RightBrace, TokenType::RightBrace) => true,
        (TokenType::LeftParen, TokenType::LeftParen) => true,
        (TokenType::RightParen, TokenType::RightParen) => true,
        (TokenType::Colon, TokenType::Colon) => true,
        (TokenType::Arrow, TokenType::Arrow) => true,
        (TokenType::Equals, TokenType::Equals) => true,
        (TokenType::Dot, TokenType::Dot) => true,
        (TokenType::Comma, TokenType::Comma) => true,
        (TokenType::Identifier(x), TokenType::Identifier(y)) => x.eq(y),
        (TokenType::NumberLiteral(x), TokenType::NumberLiteral(y)) => x.eq(y),
        (TokenType::StringLiteral(x), TokenType::StringLiteral(y)) => x.eq(y),
        (TokenType::BooleanLiteral(x), TokenType::BooleanLiteral(y)) => *x == *y,
        (TokenType::EOF, TokenType::EOF) => true,
        _ => false,
    }
}

} // verus!
