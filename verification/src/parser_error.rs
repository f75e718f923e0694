//! Errors of the syntactic stage. `UnexpectedToken` carries a description
//! of what was expected and of what was found, and the position of the
//! offending token. The other two kinds are part of the taxonomy but are
//! not produced by this grammar: every failure is an unexpected token,
//! EOF being an ordinary token with a position.
use vstd::prelude::*;
use vstd::string::StringExecFns;
use crate::text::{dec_digits, usize_to_string};

verus! {

/// The human-readable rendering of a syntactic error.
pub open spec fn parse_error_message(e: ParseErrorS) -> Seq<char> {
    match e {
        ParseErrorS::UnexpectedToken { expected, found, line, column } => {
            "Unexpected token at line "@ + dec_digits(line) + ", column "@ + dec_digits(column)
                + ". Expected "@ + expected + ", found "@ + found
        },
        ParseErrorS::InvalidExpression { message, line, column } => {
            "Invalid expression at line "@ + dec_digits(line) + ", column "@ + dec_digits(column)
                + ": "@ + message
        },
        ParseErrorS::UnexpectedEOF { line, column } => {
            "Unexpected end of file at line "@ + dec_digits(line) + ", column "@ + dec_digits(
                column,
            )
        },
    }
}

/// Mathematical model of a syntactic error.
pub ghost enum ParseErrorS {
    UnexpectedToken { expected: Seq<char>, found: Seq<char>, line: nat, column: nat },
    InvalidExpression { message: Seq<char>, line: nat, column: nat },
    UnexpectedEOF { line: nat, column: nat },
}

/// Represents possible errors that can occur during parsing.
#[derive(Debug, Clone, PartialEq)]
pub enum ParseError {
    UnexpectedToken { expected: String, found: String, line: usize, column: usize },
    InvalidExpression { message: String, line: usize, column: usize },
    UnexpectedEOF { line: usize, column: usize },
}

impl View for ParseError {
    type V = ParseErrorS;

    open spec fn view(&self) -> ParseErrorS {
        match self {
            ParseError::UnexpectedToken { expected, found, line, column } => {
                ParseErrorS::UnexpectedToken {
                    expected: expected@,
                    found: found@,
                    line: *line as nat,
                    column: *column as nat,
                }
            },
            ParseError::InvalidExpression { message, line, column } => {
                ParseErrorS::InvalidExpression {
                    message: message@,
                    line: *line as nat,
                    column: *column as nat,
                }
            },
            ParseError::UnexpectedEOF { line, column } => ParseErrorS::UnexpectedEOF {
                line: *line as nat,
                column: *column as nat,
            },
        }
    }
}

impl ParseError {
    /// The display text of the error, with its line and column.
    pub fn message(&self) -> (s: String)
        ensures
            s@ == parse_error_message(self@),
    {
        match self {
            ParseError::UnexpectedToken { expected, found, line, column } => {
                let mut s = String::from_str("Unexpected token at line ");
                s.append(usize_to_string(*line).as_str());
                s.append(", column ");
                s.append(usize_to_string(*column).as_str());
                s.append(". Expected ");
                s.append(expected.as_str());
                s.append(", found ");
                s.append(found.as_str());
                s
            },
            ParseError::InvalidExpression { message, line, column } => {
                let mut s = String::from_str("Invalid expression at line ");
                s.append(usize_to_string(*line).as_str());
                s.append(", column ");
                s.append(usize_to_string(*column).as_str());
                s.append(": ");
                s.append(message.as_str());
                s
            },
            ParseError::UnexpectedEOF { line, column } => {
                let mut s = String::from_str("Unexpected end of file at line ");
                s.append(usize_to_string(*line).as_str());
                s.append(", column ");
                s.append(usize_to_string(*column).as_str());
                s
            },
        }
    }
}

} // verus!
