//! Mathematical model of the parser.
//!
//! Each grammar production has a spec function over the token sequence
//! and a cursor; it returns the parsed node and the cursor after it, or
//! the first syntax error, exactly as the executable parser does. The
//! cursor never moves backwards, and never moves past the final EOF
//! token.
use vstd::prelude::*;
use crate::token::{TokenS, TokenTypeS};
use crate::ast::{TypeS, ExprS, TypeFieldS, TypeDefinitionS, StatementS, ModuleS, ProgramS};
use crate::parser_error::ParseErrorS;

verus! {

/// A well-formed token stream: what the scanner produces. It ends with
/// exactly one EOF token.
pub open spec fn wf_tokens(toks: Seq<TokenS>) -> bool {
    &&& toks.len() >= 1
    &&& toks.last().token_type is EOF
    &&& forall|k: int| 0 <= k < toks.len() - 1 ==> !((#[trigger] toks[k]).token_type is EOF)
}

/// The rendering of a token category in error messages: the category's
/// name, with the carried text or value in parentheses.
pub open spec fn token_type_desc(t: TokenTypeS) -> Seq<char> {
    match t {
        TokenTypeS::Module => "Module"@,
        TokenTypeS::Type => "Type"@,
        TokenTypeS::Const => "Const"@,
        TokenTypeS::Let => "Let"@,
        TokenTypeS::Number => "Number"@,
        TokenTypeS::String => "String"@,
        TokenTypeS::Boolean => "Boolean"@,
        TokenTypeS::LeftBrace => "LeftBrace"@,
        TokenTypeS::RightBrace => "RightBrace"@,
        TokenTypeS::LeftParen => "LeftParen"@,
        TokenTypeS::RightParen => "RightParen"@,
        TokenTypeS::Colon => "Colon"@,
        TokenTypeS::Arrow => "Arrow"@,
        TokenTypeS::Equals => "Equals"@,
        TokenTypeS::Dot => "Dot"@,
        TokenTypeS::Comma => "Comma"@,
        TokenTypeS::Identifier(s) => "Identifier(\""@ + s + "\")"@,
        TokenTypeS::NumberLiteral(s) => "NumberLiteral("@ + s + ")"@,
        TokenTypeS::StringLiteral(s) => "StringLiteral(\""@ + s + "\")"@,
        TokenTypeS::BooleanLiteral(b) => if b {
            "BooleanLiteral(true)"@
        } else {
            "BooleanLiteral(false)"@
        },
        TokenTypeS::EOF => "EOF"@,
    }
}

/// The token under the cursor; out of range it reads as EOF, a case the
/// well-formedness of the stream rules out.
pub open spec fn tok(toks: Seq<TokenS>, i: int) -> TokenS {
    if 0 <= i < toks.len() {
        toks[i]
    } else {
        TokenS { token_type: TokenTypeS::EOF, line: 0, column: 0 }
    }
}

/// Whether the cursor stands on the EOF token.
pub open spec fn at_end(toks: Seq<TokenS>, i: int) -> bool {
    tok(toks, i).token_type is EOF
}

/// The cursor after one `advance`: it does not move past EOF.
pub open spec fn adv(toks: Seq<TokenS>, i: int) -> int {
    if at_end(toks, i) {
        i
    } else {
        i + 1
    }
}

/// The token `advance` hands back: the one before the new cursor.
pub open spec fn prev(toks: Seq<TokenS>, i: int) -> TokenS {
    tok(toks, i - 1)
}

/// The error reported when the token at `i` is not what was expected.
pub open spec fn unexpected(toks: Seq<TokenS>, i: int, expected: Seq<char>) -> ParseErrorS {
    ParseErrorS::UnexpectedToken {
        expected,
        found: token_type_desc(tok(toks, i).token_type),
        line: tok(toks, i).line,
        column: tok(toks, i).column,
    }
}

/// Consuming one expected token: the cursor moves over it, or the error
/// names the expected category and the offending token.
pub open spec fn spec_consume(toks: Seq<TokenS>, i: int, expected: TokenTypeS) -> Result<
    int,
    ParseErrorS,
> {
    if !at_end(toks, i) && tok(toks, i).token_type == expected {
        Ok(i + 1)
    } else {
        Err(unexpected(toks, i, token_type_desc(expected)))
    }
}

/// TypeName := 'Number' | 'String' | 'Boolean' | Identifier; any other
/// token under the cursor, EOF included, is the offending one.
pub open spec fn spec_parse_type(toks: Seq<TokenS>, i: int) -> Result<(TypeS, int), ParseErrorS> {
    match tok(toks, i).token_type {
        TokenTypeS::Number => Ok((TypeS::Number, i + 1)),
        TokenTypeS::String => Ok((TypeS::String, i + 1)),
        TokenTypeS::Boolean => Ok((TypeS::Boolean, i + 1)),
        TokenTypeS::Identifier(name) => Ok((TypeS::Custom(name), i + 1)),
        _ => Err(unexpected(toks, i, "type"@)),
    }
}

/// Literal | Identifier, consumed as one token.
pub open spec fn spec_parse_primary(toks: Seq<TokenS>, i: int) -> Result<
    (ExprS, int),
    ParseErrorS,
> {
    match tok(toks, i).token_type {
        TokenTypeS::NumberLiteral(s) => Ok((ExprS::NumberLiteral(s), i + 1)),
        TokenTypeS::StringLiteral(s) => Ok((ExprS::StringLiteral(s), i + 1)),
        TokenTypeS::BooleanLiteral(b) => Ok((ExprS::BooleanLiteral(b), i + 1)),
        TokenTypeS::Identifier(name) => Ok((ExprS::Identifier(name), i + 1)),
        _ => Err(unexpected(toks, i, "literal or identifier"@)),
    }
}

/// ObjectLiteral := '{' (Identifier ':' Expression (',' Identifier ':'
/// Expression)* ','?)? '}', with the field list handled by
/// `spec_parse_object_fields`.
pub open spec fn spec_parse_object(toks: Seq<TokenS>, i: int) -> Result<(ExprS, int), ParseErrorS>
    decreases toks.len() - i, 0int,
{
    match spec_consume(toks, i, TokenTypeS::LeftBrace) {
        Err(e) => Err(e),
        Ok(i1) => {
            if i < i1 <= toks.len() {
                match spec_parse_object_fields(toks, i1) {
                    Err(e) => Err(e),
                    Ok((fields, j)) => {
                        match spec_consume(toks, j, TokenTypeS::RightBrace) {
                            Err(e) => Err(e),
                            Ok(j1) => Ok((ExprS::Object { fields }, j1)),
                        }
                    },
                }
            } else {
                // never taken: consuming moves the cursor forward by one
                Err(unexpected(toks, i, "expression"@))
            }
        },
    }
}

/// The field list of an object literal, each field an identifier, a
/// colon and an expression, with one optional comma after each field.
pub open spec fn spec_parse_object_fields(toks: Seq<TokenS>, i: int) -> Result<
    (Seq<(Seq<char>, ExprS)>, int),
    ParseErrorS,
>
    decreases toks.len() - i, 2int,
{
    if at_end(toks, i) || tok(toks, i).token_type is RightBrace {
        Ok((Seq::empty(), i))
    } else {
        match tok(toks, i).token_type {
            TokenTypeS::Identifier(name) => {
                match spec_consume(toks, i + 1, TokenTypeS::Colon) {
                    Err(e) => Err(e),
                    Ok(i2) => {
                        if i < i2 <= toks.len() {
                            match spec_parse_expression(toks, i2) {
                                Err(e) => Err(e),
                                Ok((value, j)) => {
                                    let j2 = if !at_end(toks, j) && tok(toks, j).token_type
                                        is Comma {
                                        j + 1
                                    } else {
                                        j
                                    };
                                    if i < j2 <= toks.len() {
                                        match spec_parse_object_fields(toks, j2) {
                                            Err(e) => Err(e),
                                            Ok((rest, k)) => Ok(
                                                (seq![(name, value)] + rest, k),
                                            ),
                                        }
                                    } else {
                                        // never taken: parsing an
                                        // expression moves the cursor
                                        Err(unexpected(toks, i, "expression"@))
                                    }
                                },
                            }
                        } else {
                            // never taken: consuming moves the cursor
                            Err(unexpected(toks, i, "expression"@))
                        }
                    },
                }
            },
            _ => Err(unexpected(toks, i, "identifier"@)),
        }
    }
}

/// Expression := Literal | Identifier | ObjectLiteral, decided by one
/// token of lookahead.
pub open spec fn spec_parse_expression(toks: Seq<TokenS>, i: int) -> Result<
    (ExprS, int),
    ParseErrorS,
>
    decreases toks.len() - i, 1int,
{
    match tok(toks, i).token_type {
        TokenTypeS::NumberLiteral(_) => spec_parse_primary(toks, i),
        TokenTypeS::StringLiteral(_) => spec_parse_primary(toks, i),
        TokenTypeS::BooleanLiteral(_) => spec_parse_primary(toks, i),
        TokenTypeS::Identifier(_) => spec_parse_primary(toks, i),
        TokenTypeS::LeftBrace => spec_parse_object(toks, i),
        _ => Err(unexpected(toks, i, "expression"@)),
    }
}

/// TypeField := Identifier ':' TypeName
pub open spec fn spec_parse_type_field(toks: Seq<TokenS>, i: int) -> Result<
    (TypeFieldS, int),
    ParseErrorS,
> {
    match tok(toks, i).token_type {
        TokenTypeS::Identifier(name) => {
            match spec_consume(toks, i + 1, TokenTypeS::Colon) {
                Err(e) => Err(e),
                Ok(i2) => {
                    match spec_parse_type(toks, i2) {
                        Err(e) => Err(e),
                        Ok((field_type, j)) => Ok((TypeFieldS { name, field_type }, j)),
                    }
                },
            }
        },
        _ => Err(unexpected(toks, i, "identifier"@)),
    }
}

/// The field list of a type definition, one optional comma after each
/// field, ended by the closing brace or the end of the stream.
pub open spec fn spec_parse_type_fields(toks: Seq<TokenS>, i: int) -> Result<
    (Seq<TypeFieldS>, int),
    ParseErrorS,
>
    decreases toks.len() - i,
{
    if at_end(toks, i) || tok(toks, i).token_type is RightBrace {
        Ok((Seq::empty(), i))
    } else {
        match spec_parse_type_field(toks, i) {
            Err(e) => Err(e),
            Ok((f, j)) => {
                let j2 = if !at_end(toks, j) && tok(toks, j).token_type is Comma {
                    j + 1
                } else {
                    j
                };
                if i < j2 <= toks.len() {
                    match spec_parse_type_fields(toks, j2) {
                        Err(e) => Err(e),
                        Ok((rest, k)) => Ok((seq![f] + rest, k)),
                    }
                } else {
                    // never taken: parsing a field moves the cursor
                    Err(unexpected(toks, i, "identifier"@))
                }
            },
        }
    }
}

/// TypeDefStmt := 'type' Identifier '=>' '{' TypeField (',' TypeField)*
/// ','? '}'; the cursor stands after the 'type' keyword.
pub open spec fn spec_parse_type_definition(toks: Seq<TokenS>, i: int) -> Result<
    (StatementS, int),
    ParseErrorS,
> {
    match tok(toks, i).token_type {
        TokenTypeS::Identifier(name) => {
            match spec_consume(toks, i + 1, TokenTypeS::Arrow) {
                Err(e) => Err(e),
                Ok(i2) => {
                    match spec_consume(toks, i2, TokenTypeS::LeftBrace) {
                        Err(e) => Err(e),
                        Ok(i3) => {
                            match spec_parse_type_fields(toks, i3) {
                                Err(e) => Err(e),
                                Ok((fields, j)) => {
                                    match spec_consume(toks, j, TokenTypeS::RightBrace) {
                                        Err(e) => Err(e),
                                        Ok(j1) => Ok(
                                            (
                                                StatementS::TypeDef(
                                                    TypeDefinitionS { name, fields },
                                                ),
                                                j1,
                                            ),
                                        ),
                                    }
                                },
                            }
                        },
                    }
                },
            }
        },
        _ => Err(unexpected(toks, i, "identifier"@)),
    }
}

/// LetStmt := 'let' Identifier '=' Expression; the cursor stands after
/// the 'let' keyword.
pub open spec fn spec_parse_let(toks: Seq<TokenS>, i: int) -> Result<
    (StatementS, int),
    ParseErrorS,
> {
    match tok(toks, i).token_type {
        TokenTypeS::Identifier(name) => {
            match spec_consume(toks, i + 1, TokenTypeS::Equals) {
                Err(e) => Err(e),
                Ok(i2) => {
                    match spec_parse_expression(toks, i2) {
                        Err(e) => Err(e),
                        Ok((value, j)) => Ok((StatementS::Let { name, value }, j)),
                    }
                },
            }
        },
        _ => Err(unexpected(toks, i, "identifier"@)),
    }
}

/// ConstStmt := 'const' Identifier '=' Expression; the cursor stands
/// after the 'const' keyword.
pub open spec fn spec_parse_const(toks: Seq<TokenS>, i: int) -> Result<
    (StatementS, int),
    ParseErrorS,
> {
    match tok(toks, i).token_type {
        TokenTypeS::Identifier(name) => {
            match spec_consume(toks, i + 1, TokenTypeS::Equals) {
                Err(e) => Err(e),
                Ok(i2) => {
                    match spec_parse_expression(toks, i2) {
                        Err(e) => Err(e),
                        Ok((value, j)) => Ok((StatementS::Const { name, value }, j)),
                    }
                },
            }
        },
        _ => Err(unexpected(toks, i, "identifier"@)),
    }
}

/// Statement := LetStmt | ConstStmt | TypeDefStmt, decided by the
/// leading keyword.
pub open spec fn spec_parse_statement(toks: Seq<TokenS>, i: int) -> Result<
    (StatementS, int),
    ParseErrorS,
> {
    if tok(toks, i).token_type is Let {
        spec_parse_let(toks, i + 1)
    } else if tok(toks, i).token_type is Const {
        spec_parse_const(toks, i + 1)
    } else if tok(toks, i).token_type is Type {
        spec_parse_type_definition(toks, i + 1)
    } else {
        Err(unexpected(toks, i, "let, const, or type"@))
    }
}

/// The statement list of a module body, ended by the closing brace or
/// the end of the stream.
pub open spec fn spec_parse_statements(toks: Seq<TokenS>, i: int) -> Result<
    (Seq<StatementS>, int),
    ParseErrorS,
>
    decreases toks.len() - i,
{
    if at_end(toks, i) || tok(toks, i).token_type is RightBrace {
        Ok((Seq::empty(), i))
    } else {
        match spec_parse_statement(toks, i) {
            Err(e) => Err(e),
            Ok((s, j)) => {
                if i < j <= toks.len() {
                    match spec_parse_statements(toks, j) {
                        Err(e) => Err(e),
                        Ok((rest, k)) => Ok((seq![s] + rest, k)),
                    }
                } else {
                    // never taken: parsing a statement moves the cursor
                    Err(unexpected(toks, i, "let, const, or type"@))
                }
            },
        }
    }
}

/// Module := 'module' Identifier '{' Statement* '}'; the cursor stands
/// after the 'module' keyword.
pub open spec fn spec_parse_module(toks: Seq<TokenS>, i: int) -> Result<
    (ModuleS, int),
    ParseErrorS,
> {
    match tok(toks, i).token_type {
        TokenTypeS::Identifier(name) => {
            match spec_consume(toks, i + 1, TokenTypeS::LeftBrace) {
                Err(e) => Err(e),
                Ok(i2) => {
                    match spec_parse_statements(toks, i2) {
                        Err(e) => Err(e),
                        Ok((statements, j)) => {
                            match spec_consume(toks, j, TokenTypeS::RightBrace) {
                                Err(e) => Err(e),
                                Ok(j1) => Ok((ModuleS { name, statements }, j1)),
                            }
                        },
                    }
                },
            }
        },
        _ => Err(unexpected(toks, i, "identifier"@)),
    }
}

/// Program := Module*: only module declarations may stand at the top
/// level, and the whole stream must be consumed down to EOF.
pub open spec fn spec_parse_program(toks: Seq<TokenS>, i: int) -> Result<
    (Seq<ModuleS>, int),
    ParseErrorS,
>
    decreases toks.len() - i,
{
    if at_end(toks, i) {
        Ok((Seq::empty(), i))
    } else if tok(toks, i).token_type is Module {
        match spec_parse_module(toks, i + 1) {
            Err(e) => Err(e),
            Ok((m, j)) => {
                if i < j <= toks.len() {
                    match spec_parse_program(toks, j) {
                        Err(e) => Err(e),
                        Ok((rest, k)) => Ok((seq![m] + rest, k)),
                    }
                } else {
                    // never taken: parsing a module moves the cursor
                    Err(unexpected(toks, i, "module"@))
                }
            },
        }
    } else {
        Err(unexpected(toks, i, "module"@))
    }
}

/// The meaning of parsing a whole well-formed token stream from the
/// start.
pub open spec fn spec_parse(toks: Seq<TokenS>) -> Result<ProgramS, ParseErrorS> {
    match spec_parse_program(toks, 0) {
        Err(e) => Err(e),
        Ok((modules, _)) => Ok(ProgramS { modules }),
    }
}

} // verus!
