//! The executable scanner, proved to follow the model in `lexer_spec`:
//! every call of `next_token` returns exactly the token or error that
//! `spec_next` prescribes for the current state, and `tokenize` returns
//! exactly `spec_tokenize` of the input.
use vstd::prelude::*;
use crate::token::{Token, TokenType, TokenS, TokenTypeS};
use crate::lexer_error::{LexerError, LexerErrorS};
use crate::lexer_spec::{
    LexSt, spec_skip_ws, spec_skip_comment, spec_scan, spec_scan_string, spec_scan_number,
    spec_scan_ident, spec_next, spec_tokens, step_col, step_line, is_digit_char, is_alpha_char,
    is_ident_char, is_space_char, digit_run_end, ident_run_end, string_body_end, advance_over,
    classify_word, token_at, lemma_skip_ws_props, lemma_skip_comment_props, lemma_digit_run_end,
    lemma_ident_run_end, lemma_string_body_end, lemma_advance_over, lemma_advance_over_snoc,
    lemma_scan_progress, lemma_next_progress,
};
use crate::text::collect_range;
use crate::token::{view_tokens, lemma_view_tokens_push};

verus! {

/// Decides `is_digit_char`.
fn is_digit(c: char) -> (r: bool)
    ensures
        r == is_digit_char(c),
{
    let u = c as u32;
    48 <= u && u <= 57
}

/// Decides `is_alpha_char`.
fn is_alpha(c: char) -> (r: bool)
    ensures
        r == is_alpha_char(c),
{
    let u = c as u32;
    (65 <= u && u <= 90) || (97 <= u && u <= 122) || c == '_'
}

/// Decides `is_ident_char`.
fn is_ident(c: char) -> (r: bool)
    ensures
        r == is_ident_char(c),
{
    is_alpha(c) || is_digit(c)
}

/// Classifies the word `v[lo..hi]` against the keyword table.
#[verifier::rlimit(60)]
fn classify_chars(v: &Vec<char>, lo: usize, hi: usize) -> (tt: TokenType)
    requires
        lo <= hi <= v@.len(),
    ensures
        tt@ == classify_word(v@.subrange(lo as int, hi as int)),
{
    let ghost text = v@.subrange(lo as int, hi as int);
    let n = hi - lo;
    if n == 6 && v[lo] == 'm' && v[lo + 1] == 'o' && v[lo + 2] == 'd' && v[lo + 3] == 'u'
        && v[lo + 4] == 'l' && v[lo + 5] == 'e' {
        proof {
            assert(text =~= seq!['m', 'o', 'd', 'u', 'l', 'e']);
        }
        TokenType::Module
    } else if n == 4 && v[lo] == 't' && v[lo + 1] == 'y' && v[lo + 2] == 'p' && v[lo + 3] == 'e' {
        proof {
            assert(text =~= seq!['t', 'y', 'p', 'e']);
        }
        TokenType::Type
    } else if n == 5 && v[lo] == 'c' && v[lo + 1] == 'o' && v[lo + 2] == 'n' && v[lo + 3] == 's'
        && v[lo + 4] == 't' {
        proof {
            assert(text =~= seq!['c', 'o', 'n', 's', 't']);
        }
        TokenType::Const
    } else if n == 3 && v[lo] == 'l' && v[lo + 1] == 'e' && v[lo + 2] == 't' {
        proof {
            assert(text =~= seq!['l', 'e', 't']);
        }
        TokenType::Let
    } else if n == 6 && v[lo] == 'N' && v[lo + 1] == 'u' && v[lo + 2] == 'm' && v[lo + 3] == 'b'
        && v[lo + 4] == 'e' && v[lo + 5] == 'r' {
        proof {
            assert(text =~= seq!['N', 'u', 'm', 'b', 'e', 'r']);
        }
        TokenType::Number
    } else if n == 6 && v[lo] == 'S' && v[lo + 1] == 't' && v[lo + 2] == 'r' && v[lo + 3] == 'i'
        && v[lo + 4] == 'n' && v[lo + 5] == 'g' {
        proof {
            assert(text =~= seq!['S', 't', 'r', 'i', 'n', 'g']);
        }
        TokenType::String
    } else if n == 7 && v[lo] == 'B' && v[lo + 1] == 'o' && v[lo + 2] == 'o' && v[lo + 3] == 'l'
        && v[lo + 4] == 'e' && v[lo + 5] == 'a' && v[lo + 6] == 'n' {
        proof {
            assert(text =~= seq!['B', 'o', 'o', 'l', 'e', 'a', 'n']);
        }
        TokenType::Boolean
    } else if n == 4 && v[lo] == 't' && v[lo + 1] == 'r' && v[lo + 2] == 'u' && v[lo + 3] == 'e' {
        proof {
            assert(text =~= seq!['t', 'r', 'u', 'e']);
        }
        TokenType::BooleanLiteral(true)
    } else if n == 5 && v[lo] == 'f' && v[lo + 1] == 'a' && v[lo + 2] == 'l' && v[lo + 3] == 's'
        && v[lo + 4] == 'e' {
        proof {
            assert(text =~= seq!['f', 'a', 'l', 's', 'e']);
        }
        TokenType::BooleanLiteral(false)
    } else {
        proof {
            assert(text.len() == n);
            if text == seq!['m', 'o', 'd', 'u', 'l', 'e'] {
                assert(text[0] == 'm' && text[1] == 'o' && text[2] == 'd' && text[3] == 'u'
                    && text[4] == 'l' && text[5] == 'e');
            }
            if text == seq!['t', 'y', 'p', 'e'] {
                assert(text[0] == 't' && text[1] == 'y' && text[2] == 'p' && text[3] == 'e');
            }
            if text == seq!['c', 'o', 'n', 's', 't'] {
                assert(text[0] == 'c' && text[1] == 'o' && text[2] == 'n' && text[3] == 's'
                    && text[4] == 't');
            }
            if text == seq!['l', 'e', 't'] {
                assert(text[0] == 'l' && text[1] == 'e' && text[2] == 't');
            }
            if text == seq!['N', 'u', 'm', 'b', 'e', 'r'] {
                assert(text[0] == 'N' && text[1] == 'u' && text[2] == 'm' && text[3] == 'b'
                    && text[4] == 'e' && text[5] == 'r');
            }
            if text == seq!['S', 't', 'r', 'i', 'n', 'g'] {
                assert(text[0] == 'S' && text[1] == 't' && text[2] == 'r' && text[3] == 'i'
                    && text[4] == 'n' && text[5] == 'g');
            }
            if text == seq!['B', 'o', 'o', 'l', 'e', 'a', 'n'] {
                assert(text[0] == 'B' && text[1] == 'o' && text[2] == 'o' && text[3] == 'l'
                    && text[4] == 'e' && text[5] == 'a' && text[6] == 'n');
            }
            if text == seq!['t', 'r', 'u', 'e'] {
                assert(text[0] == 't' && text[1] == 'r' && text[2] == 'u' && text[3] == 'e');
            }
            if text == seq!['f', 'a', 'l', 's', 'e'] {
                assert(text[0] == 'f' && text[1] == 'a' && text[2] == 'l' && text[3] == 's'
                    && text[4] == 'e');
            }
        }
        TokenType::Identifier(collect_range(v, lo, hi))
    }
}

/// Lexer for tokenizing source code. Tracks position and reports errors
/// with line and column information.
pub struct Lexer {
    input: Vec<char>,
    start: usize,
    current: usize,
    line: usize,
    column: usize,
    start_line: usize,
    start_column: usize,
}

impl View for Lexer {
    type V = LexSt;

    closed spec fn view(&self) -> LexSt {
        LexSt {
            chars: self.input@,
            pos: self.current as int,
            line: self.line as int,
            col: self.column as int,
        }
    }
}

impl Lexer {
    /// The scanner state is well formed and its counters have room to
    /// advance over the remaining input without overflowing.
    pub closed spec fn wf(&self) -> bool {
        &&& self@.wf()
        &&& self.input@.len() < usize::MAX
        &&& self.line + (self.input@.len() - self.current) <= usize::MAX
        &&& self.column + (self.input@.len() - self.current) <= usize::MAX
    }

    /// The state at the first character of the token being scanned.
    spec fn token_start(&self) -> LexSt {
        LexSt {
            chars: self.input@,
            pos: self.start as int,
            line: self.start_line as int,
            col: self.start_column as int,
        }
    }

    /// Creates a new Lexer instance from an input string.
    pub fn new(input: &str) -> (l: Lexer)
        requires
            input@.len() < usize::MAX,
        ensures
            l.wf(),
            l@ == LexSt::start(input@),
    {
        let n = input.unicode_len();
        let mut v: Vec<char> = Vec::new();
        let mut i: usize = 0;
        while i < n
            invariant
                i <= n,
                n == input@.len(),
                v@ == input@.subrange(0, i as int),
            decreases n - i,
        {
            v.push(input.get_char(i));
            proof {
                assert(input@.subrange(0, i + 1 as int) =~= input@.subrange(0, i as int).push(
                    input@[i as int],
                ));
            }
            i = i + 1;
        }
        proof {
            assert(v@ =~= input@);
        }
        Lexer { input: v, start: 0, current: 0, line: 1, column: 1, start_line: 1, start_column: 1 }
    }

    /// Returns true if we've reached the end of input.
    fn is_at_end(&self) -> (r: bool)
        ensures
            r == (self@.pos >= self@.chars.len()),
    {
        self.current >= self.input.len()
    }

    /// Returns the current character without consuming it, or a NUL
    /// placeholder at the end of the input.
    fn peek(&self) -> (c: char)
        ensures
            c == (if self@.pos < self@.chars.len() {
                self@.chars[self@.pos]
            } else {
                '\0'
            }),
    {
        if self.is_at_end() {
            '\0'
        } else {
            self.input[self.current]
        }
    }

    /// Returns the next character without consuming it, or a NUL
    /// placeholder when there is none.
    fn peek_next(&self) -> (c: char)
        ensures
            c == (if self@.pos + 1 < self@.chars.len() {
                self@.chars[self@.pos + 1]
            } else {
                '\0'
            }),
    {
        let n = self.input.len();
        if self.current < n && n - self.current > 1 {
            self.input[self.current + 1]
        } else {
            '\0'
        }
    }

    /// Consumes and returns the current character, which is not a
    /// newline: the column advances.
    fn advance(&mut self) -> (c: char)
        requires
            old(self).wf(),
            old(self)@.pos < old(self)@.chars.len(),
        ensures
            final(self).wf(),
            c == old(self)@.chars[old(self)@.pos],
            final(self)@ == step_col(old(self)@),
            final(self).start == old(self).start,
            final(self).start_line == old(self).start_line,
            final(self).start_column == old(self).start_column,
    {
        let c = self.input[self.current];
        self.current = self.current + 1;
        self.column = self.column + 1;
        c
    }

    /// Consumes a newline: the line advances and the column resets to 1.
    fn advance_line(&mut self)
        requires
            old(self).wf(),
            old(self)@.pos < old(self)@.chars.len(),
        ensures
            final(self).wf(),
            final(self)@ == step_line(old(self)@),
            final(self).start == old(self).start,
            final(self).start_line == old(self).start_line,
            final(self).start_column == old(self).start_column,
    {
        self.current = self.current + 1;
        self.line = self.line + 1;
        self.column = 1;
    }

    /// Conditionally consumes the next character if it matches the
    /// expected one.
    fn match_char(&mut self, expected: char) -> (r: bool)
        requires
            old(self).wf(),
        ensures
            final(self).wf(),
            r == (old(self)@.pos < old(self)@.chars.len()
                && old(self)@.chars[old(self)@.pos] == expected),
            final(self)@ == (if r {
                step_col(old(self)@)
            } else {
                old(self)@
            }),
            final(self).start == old(self).start,
            final(self).start_line == old(self).start_line,
            final(self).start_column == old(self).start_column,
    {
        if self.is_at_end() || self.input[self.current] != expected {
            false
        } else {
            self.current = self.current + 1;
            self.column = self.column + 1;
            true
        }
    }

    /// Returns true when the cursor stands on whitespace, a newline, or
    /// the start of a comment: what `skip_whitespace` consumes.
    fn at_skippable(&self) -> (r: bool)
        ensures
            r == (self@.pos < self@.chars.len() && (is_space_char(self@.chars[self@.pos])
                || self@.chars[self@.pos] == '\n' || (self@.chars[self@.pos] == '/' && self@.pos
                + 1 < self@.chars.len() && self@.chars[self@.pos + 1] == '/'))),
    {
        if self.is_at_end() {
            return false;
        }
        let c = self.peek();
        c == ' ' || c == '\r' || c == '\t' || c == '\n' || (c == '/' && self.peek_next() == '/')
    }

    /// Skips whitespace and comments, updating line and column numbers.
    fn skip_whitespace(&mut self)
        requires
            old(self).wf(),
        ensures
            final(self).wf(),
            final(self)@ == spec_skip_ws(old(self)@),
            final(self).start == final(self).current,
            final(self).start_line == old(self).start_line,
            final(self).start_column == old(self).start_column,
    {
        while self.at_skippable()
            invariant
                self.wf(),
                self@.chars == old(self)@.chars,
                self@.pos >= old(self)@.pos,
                spec_skip_ws(self@) == spec_skip_ws(old(self)@),
                self.start_line == old(self).start_line,
                self.start_column == old(self).start_column,
            decreases self@.chars.len() - self@.pos,
        {
            let ghost it0 = self@;
            let c = self.peek();
            if c == ' ' || c == '\r' || c == '\t' {
                self.advance();
            } else if c == '\n' {
                self.advance_line();
            } else {
                // the loop condition leaves only a comment start here
                self.advance();
                self.advance();
                while !self.is_at_end() && self.peek() != '\n'
                    invariant
                        self.wf(),
                        self@.chars == it0.chars,
                        self@.pos >= it0.pos + 2,
                        spec_skip_comment(self@) == spec_skip_ws(old(self)@),
                        self.start_line == old(self).start_line,
                        self.start_column == old(self).start_column,
                    decreases self@.chars.len() - self@.pos,
                {
                    self.advance();
                }
            }
        }
        self.start = self.current;
    }

    /// Creates a token of the given type at the recorded token start.
    fn make_token(&self, token_type: TokenType) -> (t: Token)
        ensures
            t@ == (TokenS {
                token_type: token_type@,
                line: self.start_line as nat,
                column: self.start_column as nat,
            }),
    {
        Token { token_type, line: self.start_line, column: self.start_column }
    }

    /// Handles string literals; the opening quote has been consumed and
    /// the recorded token start points at it.
    fn string(&mut self) -> (r: Result<Token, LexerError>)
        requires
            old(self).wf(),
            old(self).start < old(self)@.chars.len(),
            old(self)@.chars[old(self).start as int] == '"',
            old(self).current == old(self).start + 1,
            old(self).line == old(self).start_line,
            old(self).column == old(self).start_column + 1,
            old(self).start_column >= 1,
        ensures
            final(self).wf(),
            final(self)@.chars == old(self)@.chars,
            match r {
                Ok(t) => spec_scan_string(old(self).token_start()) matches Ok(p) && t@ == p.0
                    && final(self)@ == p.1,
                Err(e) => spec_scan_string(old(self).token_start()) matches Err(es) && e@ == es,
            },
    {
        let ghost st0 = self.token_start();
        let ghost st1 = step_col(st0);
        proof {
            assert(st1.wf());
            assert(self@ == st1);
            assert(advance_over(st1, st1.pos) == st1);
        }
        while !self.is_at_end() && self.peek() != '"'
            invariant
                self.wf(),
                st1.wf(),
                self@.chars == st1.chars,
                st1.pos <= self@.pos <= self@.chars.len(),
                self@ == advance_over(st1, self@.pos),
                string_body_end(self@.chars, st1.pos) == string_body_end(self@.chars, self@.pos),
                self.start == old(self).start,
                self.start_line == old(self).start_line,
                self.start_column == old(self).start_column,
            decreases self@.chars.len() - self@.pos,
        {
            let ghost p = self@.pos;
            if self.peek() == '\n' {
                self.advance_line();
            } else {
                self.advance();
            }
            proof {
                lemma_advance_over_snoc(st1, p);
            }
        }
        if self.is_at_end() {
            return Err(LexerError::UnterminatedString { line: self.line, column: self.column });
        }
        // the closing quote
        self.advance();
        let content = collect_range(&self.input, self.start + 1, self.current - 1);
        Ok(self.make_token(TokenType::StringLiteral(content)))
    }

    /// Handles number literals (both integer and float forms); the first
    /// digit has been consumed.
    fn number(&mut self) -> (r: Result<Token, LexerError>)
        requires
            old(self).wf(),
            old(self).start < old(self)@.chars.len(),
            is_digit_char(old(self)@.chars[old(self).start as int]),
            old(self).current == old(self).start + 1,
            old(self).line == old(self).start_line,
            old(self).column == old(self).start_column + 1,
            old(self).start_column >= 1,
        ensures
            final(self).wf(),
            final(self)@.chars == old(self)@.chars,
            match r {
                Ok(t) => t@ == spec_scan_number(old(self).token_start()).0 && final(self)@
                    == spec_scan_number(old(self).token_start()).1,
                Err(_) => false,
            },
    {
        let ghost st0 = self.token_start();
        while !self.is_at_end() && is_digit(self.peek())
            invariant
                self.wf(),
                self@.chars == st0.chars,
                st0.pos < self@.pos <= self@.chars.len(),
                self@.line == st0.line,
                self@.col == st0.col + (self@.pos - st0.pos),
                digit_run_end(self@.chars, st0.pos) == digit_run_end(self@.chars, self@.pos),
                self.start == old(self).start,
                self.start_line == old(self).start_line,
                self.start_column == old(self).start_column,
            decreases self@.chars.len() - self@.pos,
        {
            self.advance();
        }
        let ghost e1 = digit_run_end(st0.chars, st0.pos);
        proof {
            assert(e1 == self@.pos);
        }
        if !self.is_at_end() && self.peek() == '.' && is_digit(self.peek_next()) {
            // the dot
            self.advance();
            while !self.is_at_end() && is_digit(self.peek())
                invariant
                    self.wf(),
                    self@.chars == st0.chars,
                    e1 + 1 <= self@.pos <= self@.chars.len(),
                    self@.line == st0.line,
                    self@.col == st0.col + (self@.pos - st0.pos),
                    digit_run_end(self@.chars, e1 + 1) == digit_run_end(self@.chars, self@.pos),
                    self.start == old(self).start,
                    self.start_line == old(self).start_line,
                    self.start_column == old(self).start_column,
                decreases self@.chars.len() - self@.pos,
            {
                self.advance();
            }
        }
        let text = collect_range(&self.input, self.start, self.current);
        Ok(self.make_token(TokenType::NumberLiteral(text)))
    }

    /// Handles identifiers and keywords; the first character has been
    /// consumed.
    fn identifier(&mut self) -> (r: Result<Token, LexerError>)
        requires
            old(self).wf(),
            old(self).start < old(self)@.chars.len(),
            is_alpha_char(old(self)@.chars[old(self).start as int]),
            old(self).current == old(self).start + 1,
            old(self).line == old(self).start_line,
            old(self).column == old(self).start_column + 1,
            old(self).start_column >= 1,
        ensures
            final(self).wf(),
            final(self)@.chars == old(self)@.chars,
            match r {
                Ok(t) => t@ == spec_scan_ident(old(self).token_start()).0 && final(self)@
                    == spec_scan_ident(old(self).token_start()).1,
                Err(_) => false,
            },
    {
        let ghost st0 = self.token_start();
        while !self.is_at_end() && is_ident(self.peek())
            invariant
                self.wf(),
                self@.chars == st0.chars,
                st0.pos < self@.pos <= self@.chars.len(),
                self@.line == st0.line,
                self@.col == st0.col + (self@.pos - st0.pos),
                ident_run_end(self@.chars, st0.pos) == ident_run_end(self@.chars, self@.pos),
                self.start == old(self).start,
                self.start_line == old(self).start_line,
                self.start_column == old(self).start_column,
            decreases self@.chars.len() - self@.pos,
        {
            self.advance();
        }
        let tt = classify_chars(&self.input, self.start, self.current);
        Ok(self.make_token(tt))
    }

    /// Returns the next token in the input: exactly what `spec_next`
    /// prescribes for the current state.
    pub fn next_token(&mut self) -> (r: Result<Token, LexerError>)
        requires
            old(self).wf(),
        ensures
            final(self).wf(),
            final(self)@.chars == old(self)@.chars,
            match r {
                Ok(t) => spec_next(old(self)@) matches Ok(p) && t@ == p.0 && final(self)@ == p.1,
                Err(e) => spec_next(old(self)@) matches Err(es) && e@ == es,
            },
    {
        proof {
            lemma_skip_ws_props(old(self)@);
        }
        self.skip_whitespace();
        let ghost st1 = self@;
        if self.is_at_end() {
            self.start_line = self.line;
            self.start_column = self.column;
            return Ok(self.make_token(TokenType::EOF));
        }
        self.start = self.current;
        self.start_line = self.line;
        self.start_column = self.column;
        let c = self.advance();
        if c == '{' {
            Ok(self.make_token(TokenType::LeftBrace))
        } else if c == '}' {
            Ok(self.make_token(TokenType::RightBrace))
        } else if c == '(' {
            Ok(self.make_token(TokenType::LeftParen))
        } else if c == ')' {
            Ok(self.make_token(TokenType::RightParen))
        } else if c == ':' {
            Ok(self.make_token(TokenType::Colon))
        } else if c == '.' {
            Ok(self.make_token(TokenType::Dot))
        } else if c == ',' {
            Ok(self.make_token(TokenType::Comma))
        } else if c == '=' {
            if self.match_char('>') {
                Ok(self.make_token(TokenType::Arrow))
            } else {
                Ok(self.make_token(TokenType::Equals))
            }
        } else if c == '"' {
            self.string()
        } else if is_digit(c) {
            self.number()
        } else if is_alpha(c) {
            self.identifier()
        } else {
            Err(LexerError::UnexpectedCharacter {
                char: c,
                line: self.start_line,
                column: self.start_column,
            })
        }
    }

    /// Consumes all tokens and returns them as a vector: exactly the
    /// sequence `spec_tokenize` prescribes for the input, or its first
    /// lexical error.
    pub fn tokenize(&mut self) -> (r: Result<Vec<Token>, LexerError>)
        requires
            old(self).wf(),
        ensures
            final(self).wf(),
            match r {
                Ok(v) => spec_tokens(old(self)@) matches Ok(ts) && view_tokens(v@) == ts,
                Err(e) => spec_tokens(old(self)@) matches Err(es) && e@ == es,
            },
    {
        let mut tokens: Vec<Token> = Vec::new();
        proof {
            if let Ok(rest) = spec_tokens(self@) {
                assert(view_tokens(tokens@) + rest =~= rest);
            }
        }
        loop
            invariant
                self.wf(),
                ({
                    match spec_tokens(self@) {
                        Ok(rest) => spec_tokens(old(self)@) == Ok::<Seq<TokenS>, LexerErrorS>(
                            view_tokens(tokens@) + rest,
                        ),
                        Err(es) => spec_tokens(old(self)@) == Err::<Seq<TokenS>, LexerErrorS>(es),
                    }
                }),
            decreases self@.chars.len() - self@.pos,
        {
            let ghost st_prev = self@;
            let ghost toks_prev = tokens@;
            proof {
                lemma_next_progress(st_prev);
            }
            let token = match self.next_token() {
                Ok(t) => t,
                Err(e) => {
                    return Err(e);
                },
            };
            let is_eof = match &token.token_type {
                TokenType::EOF => true,
                _ => false,
            };
            tokens.push(token);
            proof {
                lemma_view_tokens_push(toks_prev, token);
            }
            if is_eof {
                proof {
                    assert(spec_tokens(st_prev) == Ok::<Seq<TokenS>, LexerErrorS>(seq![token@]));
                    assert(view_tokens(toks_prev) + seq![token@] =~= view_tokens(tokens@));
                }
                return Ok(tokens);
            }
            proof {
                if let Ok(rest) = spec_tokens(self@) {
                    assert(view_tokens(toks_prev) + (seq![token@] + rest) =~= view_tokens(tokens@)
                        + rest);
                }
            }
        }
    }
}

} // verus!
