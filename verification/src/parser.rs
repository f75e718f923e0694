//! The executable recursive-descent parser, proved to follow the model
//! in `parser_spec`: `parse` returns exactly the program or the first
//! syntax error that `spec_parse_program` prescribes for its token
//! stream.
use vstd::prelude::*;
use vstd::string::StringExecFns;
use crate::token::{Token, TokenType, TokenS, TokenTypeS, token_type_eq, view_tokens};
use crate::ast::{
    Type, Expression, TypeField, TypeDefinition, Statement, Module, Program, ExprS, TypeFieldS,
    StatementS, ModuleS, ProgramS, expr_fields_view,
};
use crate::parser_error::{ParseError, ParseErrorS};
use crate::parser_spec::{
    wf_tokens, token_type_desc, tok, at_end, adv, prev, spec_consume, spec_parse_type,
    spec_parse_primary, spec_parse_object, spec_parse_object_fields, spec_parse_expression,
    spec_parse_type_field, spec_parse_type_fields, spec_parse_type_definition, spec_parse_let,
    spec_parse_const, spec_parse_statement, spec_parse_statements, spec_parse_module,
    spec_parse_program,
};

verus! {

/// Renders a token category for an error message.
fn token_type_desc_exec(t: &TokenType) -> (s: String)
    ensures
        s@ == token_type_desc(t@),
{
    match t {
        TokenType::Module => String::from_str("Module"),
        TokenType::Type => String::from_str("Type"),
        TokenType::Const => String::from_str("Const"),
        TokenType::Let => String::from_str("Let"),
        TokenType::Number => String::from_str("Number"),
        TokenType::String => String::from_str("String"),
        TokenType::Boolean => String::from_str("Boolean"),
        TokenType::LeftBrace => String::from_str("LeftBrace"),
        TokenType::RightBrace => String::from_str("RightBrace"),
        TokenType::LeftParen => String::from_str("LeftParen"),
        TokenType::RightParen => String::from_str("RightParen"),
        TokenType::Colon => String::from_str("Colon"),
        TokenType::Arrow => String::from_str("Arrow"),
        TokenType::Equals => String::from_str("Equals"),
        TokenType::Dot => String::from_str("Dot"),
        TokenType::Comma => String::from_str("Comma"),
        TokenType::Identifier(x) => {
            let mut s = String::from_str("Identifier(\"");
            s.append(x.as_str());
            s.append("\")");
            s
        },
        TokenType::NumberLiteral(x) => {
            let mut s = String::from_str("NumberLiteral(");
            s.append(x.as_str());
            s.append(")");
            s
        },
        TokenType::StringLiteral(x) => {
            let mut s = String::from_str("StringLiteral(\"");
            s.append(x.as_str());
            s.append("\")");
            s
        },
        TokenType::BooleanLiteral(b) => {
            if *b {
                String::from_str("BooleanLiteral(true)")
            } else {
                String::from_str("BooleanLiteral(false)")
            }
        },
        TokenType::EOF => String::from_str("EOF"),
    }
}

/// Recursive-descent parser over a complete, EOF-terminated token
/// stream, with a single forward cursor.
pub struct Parser {
    tokens: Vec<Token>,
    current: usize,
}

impl Parser {
    /// The model of the token stream.
    pub closed spec fn toks(&self) -> Seq<TokenS> {
        view_tokens(self.tokens@)
    }

    /// The cursor.
    pub closed spec fn cur(&self) -> int {
        self.current as int
    }

    /// The stream is well formed (EOF-terminated, produced by the
    /// scanner) and the cursor stands on a token.
    pub open spec fn wf(&self) -> bool {
        &&& wf_tokens(self.toks())
        &&& 0 <= self.cur() < self.toks().len()
    }

    /// Wraps a complete token sequence for parsing.
    pub fn new(tokens: Vec<Token>) -> (p: Parser)
        ensures
            p.toks() == view_tokens(tokens@),
            p.cur() == 0,
    {
        Parser { tokens, current: 0 }
    }

    /// True when the cursor stands on the EOF token.
    fn is_at_end(&self) -> (r: bool)
        requires
            self.wf(),
        ensures
            r == at_end(self.toks(), self.cur()),
    {
        match &self.tokens[self.current].token_type {
            TokenType::EOF => true,
            _ => false,
        }
    }

    /// The token under the cursor.
    fn peek(&self) -> (t: &Token)
        requires
            self.wf(),
        ensures
            t@ == tok(self.toks(), self.cur()),
    {
        &self.tokens[self.current]
    }

    /// The token before the cursor.
    fn previous(&self) -> (t: &Token)
        requires
            self.wf(),
            self.cur() >= 1,
        ensures
            t@ == prev(self.toks(), self.cur()),
    {
        &self.tokens[self.current - 1]
    }

    /// Moves the cursor over the current token unless it is EOF, and
    /// hands back the token before the (new) cursor.
    fn advance(&mut self) -> (t: &Token)
        requires
            old(self).wf(),
            old(self).cur() >= 1 || !at_end(old(self).toks(), old(self).cur()),
        ensures
            final(self).wf(),
            final(self).toks() == old(self).toks(),
            final(self).cur() == adv(old(self).toks(), old(self).cur()),
            final(self).cur() >= 1,
            t@ == prev(final(self).toks(), final(self).cur()),
    {
        let n = self.tokens.len();
        if !self.is_at_end() {
            proof {
                assert(self.cur() < n);
            }
            self.current = self.current + 1;
        }
        self.previous()
    }

    /// True when the cursor stands on a token of the given type, text
    /// included.
    fn check(&self, token_type: &TokenType) -> (r: bool)
        requires
            self.wf(),
        ensures
            r == (!at_end(self.toks(), self.cur()) && tok(self.toks(), self.cur()).token_type
                == token_type@),
    {
        if self.is_at_end() {
            false
        } else {
            token_type_eq(&self.peek().token_type, token_type)
        }
    }

    /// Consumes the current token when it is of the given type.
    fn match_token(&mut self, token_type: &TokenType) -> (r: bool)
        requires
            old(self).wf(),
        ensures
            final(self).wf(),
            final(self).toks() == old(self).toks(),
            r == (!at_end(old(self).toks(), old(self).cur()) && tok(
                old(self).toks(),
                old(self).cur(),
            ).token_type == token_type@),
            final(self).cur() == (if r {
                old(self).cur() + 1
            } else {
                old(self).cur()
            }),
    {
        if self.check(token_type) {
            self.advance();
            true
        } else {
            false
        }
    }

    /// Consumes one expected token or reports the offending one; the
    /// message parameter is kept for callers' documentation.
    fn consume(&mut self, token_type: &TokenType, message: &str) -> (r: Result<
        &Token,
        ParseError,
    >)
        requires
            old(self).wf(),
        ensures
            final(self).wf(),
            final(self).toks() == old(self).toks(),
            match r {
                Ok(_) => spec_consume(old(self).toks(), old(self).cur(), token_type@) matches Ok(j)
                    && final(self).cur() == j,
                Err(e) => spec_consume(old(self).toks(), old(self).cur(), token_type@) matches Err(
                    es,
                ) && e@ == es && final(self).cur() == old(self).cur(),
            },
    {
        if self.check(token_type) {
            Ok(self.advance())
        } else {
            let found = token_type_desc_exec(&self.peek().token_type);
            Err(ParseError::UnexpectedToken {
                expected: token_type_desc_exec(token_type),
                found,
                line: self.peek().line,
                column: self.peek().column,
            })
        }
    }

    /// TypeName := 'Number' | 'String' | 'Boolean' | Identifier; any
    /// other token under the cursor, EOF included, is the offending one.
    fn parse_type(&mut self) -> (r: Result<Type, ParseError>)
        requires
            old(self).wf(),
        ensures
            final(self).wf(),
            final(self).toks() == old(self).toks(),
            match r {
                Ok(x) => spec_parse_type(old(self).toks(), old(self).cur()) matches Ok(p) && x@
                    == p.0 && final(self).cur() == p.1 && final(self).cur() >= old(self).cur(),
                Err(e) => spec_parse_type(old(self).toks(), old(self).cur()) matches Err(es) && e@
                    == es,
            },
    {
        let field_type = match &self.peek().token_type {
            TokenType::Number => Type::Number,
            TokenType::String => Type::String,
            TokenType::Boolean => Type::Boolean,
            TokenType::Identifier(name) => Type::Custom(name.clone()),
            _ => {
                return Err(ParseError::UnexpectedToken {
                    expected: String::from_str("type"),
                    found: token_type_desc_exec(&self.peek().token_type),
                    line: self.peek().line,
                    column: self.peek().column,
                });
            },
        };
        self.advance();
        Ok(field_type)
    }

    /// Literal | Identifier, consumed as one token.
    fn parse_primary(&mut self) -> (r: Result<Expression, ParseError>)
        requires
            old(self).wf(),
        ensures
            final(self).wf(),
            final(self).toks() == old(self).toks(),
            match r {
                Ok(x) => spec_parse_primary(old(self).toks(), old(self).cur()) matches Ok(p) && x@
                    == p.0 && final(self).cur() == p.1 && final(self).cur() >= old(self).cur(),
                Err(e) => spec_parse_primary(old(self).toks(), old(self).cur()) matches Err(es)
                    && e@ == es,
            },
    {
        let e = match &self.peek().token_type {
            TokenType::NumberLiteral(n) => Expression::NumberLiteral(n.clone()),
            TokenType::StringLiteral(s) => Expression::StringLiteral(s.clone()),
            TokenType::BooleanLiteral(b) => Expression::BooleanLiteral(*b),
            TokenType::Identifier(name) => Expression::Identifier(name.clone()),
            _ => {
                return Err(ParseError::UnexpectedToken {
                    expected: String::from_str("literal or identifier"),
                    found: token_type_desc_exec(&self.peek().token_type),
                    line: self.peek().line,
                    column: self.peek().column,
                });
            },
        };
        self.advance();
        Ok(e)
    }

    /// Expression := Literal | Identifier | ObjectLiteral, decided by
    /// one token of lookahead.
    fn parse_expression(&mut self) -> (r: Result<Expression, ParseError>)
        requires
            old(self).wf(),
        ensures
            final(self).wf(),
            final(self).toks() == old(self).toks(),
            match r {
                Ok(x) => spec_parse_expression(old(self).toks(), old(self).cur()) matches Ok(p)
                    && x@ == p.0 && final(self).cur() == p.1 && old(self).cur() < final(self).cur(),
                Err(e) => spec_parse_expression(old(self).toks(), old(self).cur()) matches Err(es)
                    && e@ == es,
            },
        decreases old(self).toks().len() - old(self).cur(), 1int,
    {
        match &self.peek().token_type {
            TokenType::NumberLiteral(_) => self.parse_primary(),
            TokenType::StringLiteral(_) => self.parse_primary(),
            TokenType::BooleanLiteral(_) => self.parse_primary(),
            TokenType::Identifier(_) => self.parse_primary(),
            TokenType::LeftBrace => self.parse_object_expression(),
            _ => Err(ParseError::UnexpectedToken {
                expected: String::from_str("expression"),
                found: token_type_desc_exec(&self.peek().token_type),
                line: self.peek().line,
                column: self.peek().column,
            }),
        }
    }

    /// ObjectLiteral := '{' (Identifier ':' Expression (',' Identifier
    /// ':' Expression)* ','?)? '}'
    #[verifier::rlimit(100)]
    fn parse_object_expression(&mut self) -> (r: Result<Expression, ParseError>)
        requires
            old(self).wf(),
        ensures
            final(self).wf(),
            final(self).toks() == old(self).toks(),
            match r {
                Ok(x) => spec_parse_object(old(self).toks(), old(self).cur()) matches Ok(p) && x@
                    == p.0 && final(self).cur() == p.1 && old(self).cur() < final(self).cur(),
                Err(e) => spec_parse_object(old(self).toks(), old(self).cur()) matches Err(es)
                    && e@ == es,
            },
        decreases old(self).toks().len() - old(self).cur(), 0int,
    {
        let ghost toks = old(self).toks();
        let ghost cur0 = old(self).cur();
        match self.consume(&TokenType::LeftBrace, "Expected '{' for object literal") {
            Ok(_) => {},
            Err(e) => {
                return Err(e);
            },
        }
        let ghost i1 = self.cur();
        let mut fields: Vec<(String, Expression)> = Vec::new();
        proof {
            assert(expr_fields_view(fields@) =~= Seq::<(Seq<char>, ExprS)>::empty());
            if let Ok((fs, _j)) = spec_parse_object_fields(toks, i1) {
                assert(expr_fields_view(fields@) + fs =~= fs);
            }
        }
        while !self.check(&TokenType::RightBrace) && !self.is_at_end()
            invariant
                self.wf(),
                self.toks() == toks,
                toks == old(self).toks(),
                cur0 == old(self).cur(),
                wf_tokens(toks),
                cur0 < i1 <= self.cur() < toks.len(),
                spec_consume(toks, cur0, TokenTypeS::LeftBrace) == Ok::<int, ParseErrorS>(i1),
                ({
                    match spec_parse_object_fields(toks, self.cur()) {
                        Ok(p) => spec_parse_object_fields(toks, i1) == Ok::<
                            (Seq<(Seq<char>, ExprS)>, int),
                            ParseErrorS,
                        >((expr_fields_view(fields@) + p.0, p.1)),
                        Err(es) => spec_parse_object_fields(toks, i1) == Err::<
                            (Seq<(Seq<char>, ExprS)>, int),
                            ParseErrorS,
                        >(es),
                    }
                }),
            decreases toks.len() - self.cur(),
        {
            let ghost it0 = self.cur();
            let ghost fields0 = fields@;
            self.advance();
            let nt = self.previous();
            let name = match &nt.token_type {
                TokenType::Identifier(n) => n.clone(),
                _ => {
                    return Err(ParseError::UnexpectedToken {
                        expected: String::from_str("identifier"),
                        found: token_type_desc_exec(&nt.token_type),
                        line: nt.line,
                        column: nt.column,
                    });
                },
            };
            match self.consume(&TokenType::Colon, "Expected ':' after field name") {
                Ok(_) => {},
                Err(e) => {
                    return Err(e);
                },
            }
            let value = match self.parse_expression() {
                Ok(v) => v,
                Err(e) => {
                    return Err(e);
                },
            };
            let ghost vspec = value@;
            fields.push((name, value));
            if self.check(&TokenType::Comma) {
                self.advance();
            }
            proof {
                assert(fields@ == fields0.push((name, value)));
                assert(fields@.drop_last() =~= fields0);
                assert(expr_fields_view(fields@) == expr_fields_view(fields0).push(
                    (name@, vspec),
                ));
                if let Ok((fs, _k)) = spec_parse_object_fields(toks, self.cur()) {
                    assert(expr_fields_view(fields0) + (seq![(name@, vspec)] + fs)
                        =~= expr_fields_view(fields@) + fs);
                }
            }
        }
        match self.consume(&TokenType::RightBrace, "Expected '}' after object fields") {
            Ok(_) => {},
            Err(e) => {
                return Err(e);
            },
        }
        let r = Expression::Object { fields };
        proof {
            if let Ok((fs, _j)) = spec_parse_object_fields(toks, i1) {
                assert(expr_fields_view(fields@) + Seq::<(Seq<char>, ExprS)>::empty()
                    =~= expr_fields_view(fields@));
            }
        }
        Ok(r)
    }

    /// TypeField := Identifier ':' TypeName
    fn parse_type_field(&mut self) -> (r: Result<TypeField, ParseError>)
        requires
            old(self).wf(),
        ensures
            final(self).wf(),
            final(self).toks() == old(self).toks(),
            match r {
                Ok(x) => spec_parse_type_field(old(self).toks(), old(self).cur()) matches Ok(p)
                    && x@ == p.0 && final(self).cur() == p.1 && old(self).cur() < final(self).cur(),
                Err(e) => spec_parse_type_field(old(self).toks(), old(self).cur()) matches Err(es)
                    && e@ == es,
            },
    {
        let name = match &self.peek().token_type {
            TokenType::Identifier(n) => n.clone(),
            _ => {
                return Err(ParseError::UnexpectedToken {
                    expected: String::from_str("identifier"),
                    found: token_type_desc_exec(&self.peek().token_type),
                    line: self.peek().line,
                    column: self.peek().column,
                });
            },
        };
        self.advance();
        match self.consume(&TokenType::Colon, "Expected ':' after field name") {
            Ok(_) => {},
            Err(e) => {
                return Err(e);
            },
        }
        let field_type = match self.parse_type() {
            Ok(t) => t,
            Err(e) => {
                return Err(e);
            },
        };
        Ok(TypeField { name, field_type })
    }

    /// TypeDefStmt := 'type' Identifier '=>' '{' TypeField (','
    /// TypeField)* ','? '}'; the 'type' keyword has been consumed.
    #[verifier::rlimit(100)]
    fn parse_type_definition(&mut self) -> (r: Result<Statement, ParseError>)
        requires
            old(self).wf(),
        ensures
            final(self).wf(),
            final(self).toks() == old(self).toks(),
            match r {
                Ok(x) => spec_parse_type_definition(old(self).toks(), old(self).cur()) matches Ok(
                    p,
                ) && x@ == p.0 && final(self).cur() == p.1 && old(self).cur() < final(self).cur(),
                Err(e) => spec_parse_type_definition(old(self).toks(), old(self).cur()) matches Err(
                    es,
                ) && e@ == es,
            },
    {
        let ghost toks = old(self).toks();
        let ghost cur0 = old(self).cur();
        let name = match &self.peek().token_type {
            TokenType::Identifier(n) => n.clone(),
            _ => {
                return Err(ParseError::UnexpectedToken {
                    expected: String::from_str("identifier"),
                    found: token_type_desc_exec(&self.peek().token_type),
                    line: self.peek().line,
                    column: self.peek().column,
                });
            },
        };
        self.advance();
        match self.consume(&TokenType::Arrow, "Expected '=>' after type name") {
            Ok(_) => {},
            Err(e) => {
                return Err(e);
            },
        }
        let ghost i2a = self.cur();
        match self.consume(&TokenType::LeftBrace, "Expected '{' after '=>'") {
            Ok(_) => {},
            Err(e) => {
                return Err(e);
            },
        }
        let ghost i3 = self.cur();
        let mut fields: Vec<TypeField> = Vec::new();
        proof {
            if let Ok((fs, _j)) = spec_parse_type_fields(toks, i3) {
                assert(Seq::new(fields@.len(), |i: int| fields@[i]@) + fs =~= fs);
            }
        }
        while !self.check(&TokenType::RightBrace) && !self.is_at_end()
            invariant
                self.wf(),
                self.toks() == toks,
                toks == old(self).toks(),
                cur0 == old(self).cur(),
                wf_tokens(toks),
                cur0 < i3 <= self.cur() < toks.len(),
                tok(toks, cur0).token_type == TokenTypeS::Identifier(name@),
                spec_consume(toks, cur0 + 1, TokenTypeS::Arrow) == Ok::<int, ParseErrorS>(i2a),
                spec_consume(toks, i2a, TokenTypeS::LeftBrace) == Ok::<int, ParseErrorS>(i3),
                ({
                    match spec_parse_type_fields(toks, self.cur()) {
                        Ok(p) => spec_parse_type_fields(toks, i3) == Ok::<
                            (Seq<TypeFieldS>, int),
                            ParseErrorS,
                        >((Seq::new(fields@.len(), |i: int| fields@[i]@) + p.0, p.1)),
                        Err(es) => spec_parse_type_fields(toks, i3) == Err::<
                            (Seq<TypeFieldS>, int),
                            ParseErrorS,
                        >(es),
                    }
                }),
            decreases toks.len() - self.cur(),
        {
            let ghost fields0 = fields@;
            let f = match self.parse_type_field() {
                Ok(f) => f,
                Err(e) => {
                    return Err(e);
                },
            };
            let ghost fspec = f@;
            fields.push(f);
            if self.check(&TokenType::Comma) {
                self.advance();
            }
            proof {
                if let Ok((fs, _k)) = spec_parse_type_fields(toks, self.cur()) {
                    assert(Seq::new(fields0.len(), |i: int| fields0[i]@) + (seq![fspec] + fs)
                        =~= Seq::new(fields@.len(), |i: int| fields@[i]@) + fs);
                }
            }
        }
        match self.consume(&TokenType::RightBrace, "Expected '}' after type fields") {
            Ok(_) => {},
            Err(e) => {
                return Err(e);
            },
        }
        let r = Statement::TypeDef(TypeDefinition { name, fields });
        proof {
            if let Ok((fs, _j)) = spec_parse_type_fields(toks, i3) {
                assert(Seq::new(fields@.len(), |i: int| fields@[i]@)
                    + Seq::<TypeFieldS>::empty() =~= Seq::new(
                    fields@.len(),
                    |i: int| fields@[i]@,
                ));
            }
        }
        Ok(r)
    }

    /// LetStmt := 'let' Identifier '=' Expression; the 'let' keyword has
    /// been consumed.
    fn parse_let_statement(&mut self) -> (r: Result<Statement, ParseError>)
        requires
            old(self).wf(),
        ensures
            final(self).wf(),
            final(self).toks() == old(self).toks(),
            match r {
                Ok(x) => spec_parse_let(old(self).toks(), old(self).cur()) matches Ok(p) && x@
                    == p.0 && final(self).cur() == p.1 && old(self).cur() < final(self).cur(),
                Err(e) => spec_parse_let(old(self).toks(), old(self).cur()) matches Err(es) && e@
                    == es,
            },
    {
        let name = match &self.peek().token_type {
            TokenType::Identifier(n) => n.clone(),
            _ => {
                return Err(ParseError::UnexpectedToken {
                    expected: String::from_str("identifier"),
                    found: token_type_desc_exec(&self.peek().token_type),
                    line: self.peek().line,
                    column: self.peek().column,
                });
            },
        };
        self.advance();
        match self.consume(&TokenType::Equals, "Expected '=' after variable name") {
            Ok(_) => {},
            Err(e) => {
                return Err(e);
            },
        }
        let value = match self.parse_expression() {
            Ok(v) => v,
            Err(e) => {
                return Err(e);
            },
        };
        Ok(Statement::Let { name, value: Box::new(value) })
    }

    /// ConstStmt := 'const' Identifier '=' Expression; the 'const'
    /// keyword has been consumed.
    fn parse_const_statement(&mut self) -> (r: Result<Statement, ParseError>)
        requires
            old(self).wf(),
        ensures
            final(self).wf(),
            final(self).toks() == old(self).toks(),
            match r {
                Ok(x) => spec_parse_const(old(self).toks(), old(self).cur()) matches Ok(p) && x@
                    == p.0 && final(self).cur() == p.1 && old(self).cur() < final(self).cur(),
                Err(e) => spec_parse_const(old(self).toks(), old(self).cur()) matches Err(es)
                    && e@ == es,
            },
    {
        let name = match &self.peek().token_type {
            TokenType::Identifier(n) => n.clone(),
            _ => {
                return Err(ParseError::UnexpectedToken {
                    expected: String::from_str("identifier"),
                    found: token_type_desc_exec(&self.peek().token_type),
                    line: self.peek().line,
                    column: self.peek().column,
                });
            },
        };
        self.advance();
        match self.consume(&TokenType::Equals, "Expected '=' after constant name") {
            Ok(_) => {},
            Err(e) => {
                return Err(e);
            },
        }
        let value = match self.parse_expression() {
            Ok(v) => v,
            Err(e) => {
                return Err(e);
            },
        };
        Ok(Statement::Const { name, value: Box::new(value) })
    }

    /// Statement := LetStmt | ConstStmt | TypeDefStmt, decided by the
    /// leading keyword.
    fn parse_statement(&mut self) -> (r: Result<Statement, ParseError>)
        requires
            old(self).wf(),
        ensures
            final(self).wf(),
            final(self).toks() == old(self).toks(),
            match r {
                Ok(x) => spec_parse_statement(old(self).toks(), old(self).cur()) matches Ok(p)
                    && x@ == p.0 && final(self).cur() == p.1 && old(self).cur() < final(self).cur(),
                Err(e) => spec_parse_statement(old(self).toks(), old(self).cur()) matches Err(es)
                    && e@ == es,
            },
    {
        if self.match_token(&TokenType::Let) {
            self.parse_let_statement()
        } else if self.match_token(&TokenType::Const) {
            self.parse_const_statement()
        } else if self.match_token(&TokenType::Type) {
            self.parse_type_definition()
        } else {
            Err(ParseError::UnexpectedToken {
                expected: String::from_str("let, const, or type"),
                found: token_type_desc_exec(&self.peek().token_type),
                line: self.peek().line,
                column: self.peek().column,
            })
        }
    }

    /// Module := 'module' Identifier '{' Statement* '}'; the 'module'
    /// keyword has been consumed.
    #[verifier::rlimit(100)]
    fn parse_module(&mut self) -> (r: Result<Module, ParseError>)
        requires
            old(self).wf(),
        ensures
            final(self).wf(),
            final(self).toks() == old(self).toks(),
            match r {
                Ok(x) => spec_parse_module(old(self).toks(), old(self).cur()) matches Ok(p) && x@
                    == p.0 && final(self).cur() == p.1 && old(self).cur() < final(self).cur(),
                Err(e) => spec_parse_module(old(self).toks(), old(self).cur()) matches Err(es)
                    && e@ == es,
            },
    {
        let ghost toks = old(self).toks();
        let ghost cur0 = old(self).cur();
        let name = match &self.peek().token_type {
            TokenType::Identifier(n) => n.clone(),
            _ => {
                return Err(ParseError::UnexpectedToken {
                    expected: String::from_str("identifier"),
                    found: token_type_desc_exec(&self.peek().token_type),
                    line: self.peek().line,
                    column: self.peek().column,
                });
            },
        };
        self.advance();
        match self.consume(&TokenType::LeftBrace, "Expected '{' after module name") {
            Ok(_) => {},
            Err(e) => {
                return Err(e);
            },
        }
        let ghost i2 = self.cur();
        let mut statements: Vec<Statement> = Vec::new();
        proof {
            if let Ok((ss, _j)) = spec_parse_statements(toks, i2) {
                assert(Seq::new(statements@.len(), |i: int| statements@[i]@) + ss =~= ss);
            }
        }
        while !self.check(&TokenType::RightBrace) && !self.is_at_end()
            invariant
                self.wf(),
                self.toks() == toks,
                toks == old(self).toks(),
                cur0 == old(self).cur(),
                wf_tokens(toks),
                cur0 < i2 <= self.cur() < toks.len(),
                tok(toks, cur0).token_type == TokenTypeS::Identifier(name@),
                spec_consume(toks, cur0 + 1, TokenTypeS::LeftBrace) == Ok::<
                    int,
                    ParseErrorS,
                >(i2),
                ({
                    match spec_parse_statements(toks, self.cur()) {
                        Ok(p) => spec_parse_statements(toks, i2) == Ok::<
                            (Seq<StatementS>, int),
                            ParseErrorS,
                        >((Seq::new(statements@.len(), |i: int| statements@[i]@) + p.0, p.1)),
                        Err(es) => spec_parse_statements(toks, i2) == Err::<
                            (Seq<StatementS>, int),
                            ParseErrorS,
                        >(es),
                    }
                }),
            decreases toks.len() - self.cur(),
        {
            let ghost stmts0 = statements@;
            let s = match self.parse_statement() {
                Ok(s) => s,
                Err(e) => {
                    return Err(e);
                },
            };
            let ghost sspec = s@;
            statements.push(s);
            proof {
                if let Ok((ss, _k)) = spec_parse_statements(toks, self.cur()) {
                    assert(Seq::new(stmts0.len(), |i: int| stmts0[i]@) + (seq![sspec] + ss)
                        =~= Seq::new(statements@.len(), |i: int| statements@[i]@) + ss);
                }
            }
        }
        match self.consume(&TokenType::RightBrace, "Expected '}' after module body") {
            Ok(_) => {},
            Err(e) => {
                return Err(e);
            },
        }
        let r = Module { name, statements };
        proof {
            if let Ok((ss, _j)) = spec_parse_statements(toks, i2) {
                assert(Seq::new(r.statements@.len(), |i: int| r.statements@[i]@)
                    + Seq::<StatementS>::empty() =~= Seq::new(
                    r.statements@.len(),
                    |i: int| r.statements@[i]@,
                ));
            }
        }
        Ok(r)
    }

    /// Parses the whole stream: Program := Module*, consuming every
    /// token down to EOF, or reports the first syntax error.
    #[verifier::rlimit(100)]
    pub fn parse(&mut self) -> (r: Result<Program, ParseError>)
        requires
            old(self).wf(),
        ensures
            final(self).wf(),
            final(self).toks() == old(self).toks(),
            match r {
                Ok(p) => spec_parse_program(old(self).toks(), old(self).cur()) matches Ok(q) && p@
                    == (ProgramS { modules: q.0 }) && final(self).cur() == q.1,
                Err(e) => spec_parse_program(old(self).toks(), old(self).cur()) matches Err(es)
                    && e@ == es,
            },
    {
        let ghost toks = old(self).toks();
        let ghost cur0 = old(self).cur();
        let mut program = Program::new();
        proof {
            if let Ok((ms, _j)) = spec_parse_program(toks, cur0) {
                assert(Seq::new(program.modules@.len(), |i: int| program.modules@[i]@) + ms
                    =~= ms);
            }
        }
        while !self.is_at_end()
            invariant
                self.wf(),
                self.toks() == toks,
                toks == old(self).toks(),
                cur0 == old(self).cur(),
                wf_tokens(toks),
                cur0 <= self.cur() < toks.len(),
                ({
                    match spec_parse_program(toks, self.cur()) {
                        Ok(p) => spec_parse_program(toks, cur0) == Ok::<
                            (Seq<ModuleS>, int),
                            ParseErrorS,
                        >((Seq::new(program.modules@.len(), |i: int| program.modules@[i]@) + p.0,
                        p.1)),
                        Err(es) => spec_parse_program(toks, cur0) == Err::<
                            (Seq<ModuleS>, int),
                            ParseErrorS,
                        >(es),
                    }
                }),
            decreases toks.len() - self.cur(),
        {
            let ghost mods0 = program.modules@;
            if self.match_token(&TokenType::Module) {
                let m = match self.parse_module() {
                    Ok(m) => m,
                    Err(e) => {
                        return Err(e);
                    },
                };
                let ghost mspec = m@;
                program.modules.push(m);
                proof {
                    if let Ok((ms, _k)) = spec_parse_program(toks, self.cur()) {
                        assert(Seq::new(mods0.len(), |i: int| mods0[i]@) + (seq![mspec] + ms)
                            =~= Seq::new(
                            program.modules@.len(),
                            |i: int| program.modules@[i]@,
                        ) + ms);
                    }
                }
            } else {
                return Err(ParseError::UnexpectedToken {
                    expected: String::from_str("module"),
                    found: token_type_desc_exec(&self.peek().token_type),
                    line: self.peek().line,
                    column: self.peek().column,
                });
            }
        }
        proof {
            assert(Seq::new(program.modules@.len(), |i: int| program.modules@[i]@)
                + Seq::<ModuleS>::empty() =~= Seq::new(
                program.modules@.len(),
                |i: int| program.modules@[i]@,
            ));
        }
        Ok(program)
    }
}

} // verus!
