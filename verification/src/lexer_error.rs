//! Errors of the lexical stage, each carrying the 1-indexed line and column
//! of the failure point.
use vstd::prelude::*;
use vstd::string::StringExecFns;
use crate::text::{dec_digits, usize_to_string, push_char};

verus! {

/// The human-readable rendering of a lexical error.
pub open spec fn lexer_error_message(e: LexerErrorS) -> Seq<char> {
    match e {
        LexerErrorS::UnterminatedString { line, column } => "Unterminated string literal at line "@
            + dec_digits(line) + ", column "@ + dec_digits(column),
        LexerErrorS::InvalidNumber { line, column } => "Invalid number at line "@ + dec_digits(
            line,
        ) + ", column "@ + dec_digits(column),
        LexerErrorS::UnexpectedCharacter { char, line, column } => "Unexpected character '"@
            + seq![char] + "' at line "@ + dec_digits(line) + ", column "@ + dec_digits(column),
        LexerErrorS::UnexpectedEOF { line, column } => "Unexpected end of file at line "@
            + dec_digits(line) + ", column "@ + dec_digits(column),
    }
}

/// Mathematical model of a lexical error.
pub ghost enum LexerErrorS {
    UnterminatedString { line: nat, column: nat },
    InvalidNumber { line: nat, column: nat },
    UnexpectedCharacter { char: char, line: nat, column: nat },
    UnexpectedEOF { line: nat, column: nat },
}

/// Represents possible errors that can occur during lexical analysis.
#[derive(Debug, Clone, PartialEq)]
pub enum LexerError {
    /// String literal was not properly terminated.
    UnterminatedString { line: usize, column: usize },
    /// Failed to parse a number literal.
    InvalidNumber { line: usize, column: usize },
    /// Encountered an unexpected character.
    UnexpectedCharacter { char: char, line: usize, column: usize },
    /// Reached end of file unexpectedly.
    UnexpectedEOF { line: usize, column: usize },
}

impl View for LexerError {
    type V = LexerErrorS;

    open spec fn view(&self) -> LexerErrorS {
        match self {
            LexerError::UnterminatedString { line, column } => LexerErrorS::UnterminatedString {
                line: *line as nat,
                column: *column as nat,
            },
            LexerError::InvalidNumber { line, column } => LexerErrorS::InvalidNumber {
                line: *line as nat,
                column: *column as nat,
            },
            LexerError::UnexpectedCharacter { char, line, column } => LexerErrorS::UnexpectedCharacter {
                char: *char,
                line: *line as nat,
                column: *column as nat,
            },
            LexerError::UnexpectedEOF { line, column } => LexerErrorS::UnexpectedEOF {
                line: *line as nat,
                column: *column as nat,
            },
        }
    }
}

impl LexerError {
    /// The display text of the error, with its line and column.
    pub fn message(&self) -> (s: String)
        ensures
            s@ == lexer_error_message(self@),
    {
        match self {
            LexerError::UnterminatedString { line, column } => {
                let mut s = String::from_str("Unterminated string literal at line ");
                s.append(usize_to_string(*line).as_str());
                s.append(", column ");
                s.append(usize_to_string(*column).as_str());
                s
            },
            LexerError::InvalidNumber { line, column } => {
                let mut s = String::from_str("Invalid number at line ");
                s.append(usize_to_string(*line).as_str());
                s.append(", column ");
                s.append(usize_to_string(*column).as_str());
                s
            },
            LexerError::UnexpectedCharacter { char, line, column } => {
                let mut s = String::from_str("Unexpected character '");
                push_char(&mut s, *char);
                proof {
                    assert(s@ =~= "Unexpected character '"@ + seq![*char]);
                }
                s.append("' at line ");
                s.append(usize_to_string(*line).as_str());
                s.append(", column ");
                s.append(usize_to_string(*column).as_str());
                s
            },
            LexerError::UnexpectedEOF { line, column } => {
                let mut s = String::from_str("Unexpected end of file at line ");
                s.append(usize_to_string(*line).as_str());
                s.append(", column ");
                s.append(usize_to_string(*column).as_str());
                s
            },
        }
    }
}

} // verus!
