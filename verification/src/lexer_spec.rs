//! Mathematical model of the scanner.
//!
//! A scanner state is a character sequence with a cursor and a 1-indexed
//! line/column position. `spec_tokens` is the meaning of a whole scan: the
//! EOF-terminated token sequence the scanner must produce, or the first
//! lexical error. The executable scanner is proved to follow this model
//! step by step.
use vstd::prelude::*;
use crate::token::{TokenS, TokenTypeS};
use crate::lexer_error::LexerErrorS;

verus! {

/// State of a scan: the full input, the cursor, and the position of the
/// cursor in lines and columns.
pub ghost struct LexSt {
    pub chars: Seq<char>,
    pub pos: int,
    pub line: int,
    pub col: int,
}

impl LexSt {
    /// A state is well formed when the cursor is inside the input and the
    /// position counters are 1-indexed.
    pub open spec fn wf(self) -> bool {
        &&& 0 <= self.pos <= self.chars.len()
        &&& 1 <= self.line
        &&& 1 <= self.col
    }

    /// The state a scan of `chars` starts from.
    pub open spec fn start(chars: Seq<char>) -> LexSt {
        LexSt { chars, pos: 0, line: 1, col: 1 }
    }
}

/// Whitespace skipped with only a column advance.
pub open spec fn is_space_char(c: char) -> bool {
    c == ' ' || c == '\r' || c == '\t'
}

/// ASCII decimal digit.
pub open spec fn is_digit_char(c: char) -> bool {
    48 <= c as u32 && c as u32 <= 57
}

/// ASCII letter or underscore: what may begin an identifier.
pub open spec fn is_alpha_char(c: char) -> bool {
    (65 <= c as u32 && c as u32 <= 90) || (97 <= c as u32 && c as u32 <= 122) || c == '_'
}

/// What may continue an identifier.
pub open spec fn is_ident_char(c: char) -> bool {
    is_alpha_char(c) || is_digit_char(c)
}

/// Consumes one character that is not a newline.
pub open spec fn step_col(st: LexSt) -> LexSt {
    LexSt { chars: st.chars, pos: st.pos + 1, line: st.line, col: st.col + 1 }
}

/// Consumes a newline: the line advances and the column resets to 1.
pub open spec fn step_line(st: LexSt) -> LexSt {
    LexSt { chars: st.chars, pos: st.pos + 1, line: st.line + 1, col: 1 }
}

/// Skips whitespace and comments before the next token.
pub open spec fn spec_skip_ws(st: LexSt) -> LexSt
    decreases st.chars.len() - st.pos, 0int,
{
    if !(0 <= st.pos < st.chars.len()) {
        st
    } else {
        let c = st.chars[st.pos];
        if is_space_char(c) {
            spec_skip_ws(step_col(st))
        } else if c == '\n' {
            spec_skip_ws(step_line(st))
        } else if c == '/' && st.pos + 1 < st.chars.len() && st.chars[st.pos + 1] == '/' {
            spec_skip_comment(step_col(step_col(st)))
        } else {
            st
        }
    }
}

/// Skips the rest of a `//` comment: everything up to, not including, the
/// next newline or the end of the input.
pub open spec fn spec_skip_comment(st: LexSt) -> LexSt
    decreases st.chars.len() - st.pos, 1int,
{
    if !(0 <= st.pos < st.chars.len()) {
        st
    } else if st.chars[st.pos] == '\n' {
        spec_skip_ws(st)
    } else {
        spec_skip_comment(step_col(st))
    }
}

/// First index at or after `i` whose character ends a digit run.
pub open spec fn digit_run_end(chars: Seq<char>, i: int) -> int
    decreases chars.len() - i,
{
    if !(0 <= i < chars.len()) {
        i
    } else if is_digit_char(chars[i]) {
        digit_run_end(chars, i + 1)
    } else {
        i
    }
}

/// First index at or after `i` whose character ends an identifier run.
pub open spec fn ident_run_end(chars: Seq<char>, i: int) -> int
    decreases chars.len() - i,
{
    if !(0 <= i < chars.len()) {
        i
    } else if is_ident_char(chars[i]) {
        ident_run_end(chars, i + 1)
    } else {
        i
    }
}

/// First index at or after `i` holding a closing quote, or the length of
/// the input if there is none.
pub open spec fn string_body_end(chars: Seq<char>, i: int) -> int
    decreases chars.len() - i,
{
    if !(0 <= i < chars.len()) {
        chars.len() as int
    } else if chars[i] == '"' {
        i
    } else {
        string_body_end(chars, i + 1)
    }
}

/// Consumes the characters up to `end`, updating line and column.
pub open spec fn advance_over(st: LexSt, end: int) -> LexSt
    decreases end - st.pos,
{
    if st.pos >= end {
        st
    } else if st.chars[st.pos] == '\n' {
        advance_over(step_line(st), end)
    } else {
        advance_over(step_col(st), end)
    }
}

/// The keyword table: a maximal identifier run is classified against it.
pub open spec fn classify_word(text: Seq<char>) -> TokenTypeS {
    if text == seq!['m', 'o', 'd', 'u', 'l', 'e'] {
        TokenTypeS::Module
    } else if text == seq!['t', 'y', 'p', 'e'] {
        TokenTypeS::Type
    } else if text == seq!['c', 'o', 'n', 's', 't'] {
        TokenTypeS::Const
    } else if text == seq!['l', 'e', 't'] {
        TokenTypeS::Let
    } else if text == seq!['N', 'u', 'm', 'b', 'e', 'r'] {
        TokenTypeS::Number
    } else if text == seq!['S', 't', 'r', 'i', 'n', 'g'] {
        TokenTypeS::String
    } else if text == seq!['B', 'o', 'o', 'l', 'e', 'a', 'n'] {
        TokenTypeS::Boolean
    } else if text == seq!['t', 'r', 'u', 'e'] {
        TokenTypeS::BooleanLiteral(true)
    } else if text == seq!['f', 'a', 'l', 's', 'e'] {
        TokenTypeS::BooleanLiteral(false)
    } else {
        TokenTypeS::Identifier(text)
    }
}

/// A token of the given category whose first character stood at the
/// position `st` records.
pub open spec fn token_at(st: LexSt, tt: TokenTypeS) -> TokenS {
    TokenS { token_type: tt, line: st.line as nat, column: st.col as nat }
}

/// Scans one token at `st.pos`; the caller has skipped whitespace and the
/// cursor stands on a character.
pub open spec fn spec_scan(st: LexSt) -> Result<(TokenS, LexSt), LexerErrorS> {
    let c = st.chars[st.pos];
    if c == '{' {
        Ok((token_at(st, TokenTypeS::LeftBrace), step_col(st)))
    } else if c == '}' {
        Ok((token_at(st, TokenTypeS::RightBrace), step_col(st)))
    } else if c == '(' {
        Ok((token_at(st, TokenTypeS::LeftParen), step_col(st)))
    } else if c == ')' {
        Ok((token_at(st, TokenTypeS::RightParen), step_col(st)))
    } else if c == ':' {
        Ok((token_at(st, TokenTypeS::Colon), step_col(st)))
    } else if c == '.' {
        Ok((token_at(st, TokenTypeS::Dot), step_col(st)))
    } else if c == ',' {
        Ok((token_at(st, TokenTypeS::Comma), step_col(st)))
    } else if c == '=' {
        if st.pos + 1 < st.chars.len() && st.chars[st.pos + 1] == '>' {
            Ok((token_at(st, TokenTypeS::Arrow), step_col(step_col(st))))
        } else {
            Ok((token_at(st, TokenTypeS::Equals), step_col(st)))
        }
    } else if c == '"' {
        spec_scan_string(st)
    } else if is_digit_char(c) {
        Ok(spec_scan_number(st))
    } else if is_alpha_char(c) {
        Ok(spec_scan_ident(st))
    } else {
        Err(LexerErrorS::UnexpectedCharacter { char: c, line: st.line as nat, column: st.col as nat })
    }
}

/// Scans a string literal: the cursor stands on the opening quote. The
/// token's text is the content with the quotes stripped; its position is
/// the opening quote's. Reaching the end of the input first is an error at
/// the position then reached.
pub open spec fn spec_scan_string(st: LexSt) -> Result<(TokenS, LexSt), LexerErrorS> {
    let open_ = st;
    let st1 = step_col(st);
    let e = string_body_end(st.chars, st1.pos);
    let st2 = advance_over(st1, e);
    if e >= st.chars.len() {
        Err(LexerErrorS::UnterminatedString { line: st2.line as nat, column: st2.col as nat })
    } else {
        Ok((token_at(open_, TokenTypeS::StringLiteral(st.chars.subrange(st1.pos, e))), step_col(st2)))
    }
}

/// Scans a number literal: a maximal digit run, optionally followed by a
/// dot and a second digit run when a digit follows the dot. The token's
/// text is the full consumed span.
pub open spec fn spec_scan_number(st: LexSt) -> (TokenS, LexSt) {
    let e1 = digit_run_end(st.chars, st.pos);
    let e2 = if e1 + 1 < st.chars.len() && st.chars[e1] == '.' && is_digit_char(st.chars[e1 + 1]) {
        digit_run_end(st.chars, e1 + 1)
    } else {
        e1
    };
    (
        token_at(st, TokenTypeS::NumberLiteral(st.chars.subrange(st.pos, e2))),
        LexSt { chars: st.chars, pos: e2, line: st.line, col: st.col + (e2 - st.pos) },
    )
}

/// Scans an identifier or keyword: a maximal run of identifier characters,
/// classified against the keyword table.
pub open spec fn spec_scan_ident(st: LexSt) -> (TokenS, LexSt) {
    let e = ident_run_end(st.chars, st.pos);
    (
        token_at(st, classify_word(st.chars.subrange(st.pos, e))),
        LexSt { chars: st.chars, pos: e, line: st.line, col: st.col + (e - st.pos) },
    )
}

/// One call of the scanner: skip whitespace and comments, then produce the
/// EOF token at the end of the input or scan one token.
pub open spec fn spec_next(st: LexSt) -> Result<(TokenS, LexSt), LexerErrorS> {
    let st1 = spec_skip_ws(st);
    if st1.pos >= st1.chars.len() {
        Ok((token_at(st1, TokenTypeS::EOF), st1))
    } else {
        spec_scan(st1)
    }
}

/// The token sequence of a whole scan: repeated `spec_next` up to and
/// including the EOF token, stopping at the first error.
pub open spec fn spec_tokens(st: LexSt) -> Result<Seq<TokenS>, LexerErrorS>
    decreases st.chars.len() - st.pos,
{
    match spec_next(st) {
        Err(e) => Err(e),
        Ok((t, st2)) => {
            if t.token_type is EOF {
                Ok(seq![t])
            } else if st.pos < st2.pos && st2.pos <= st.chars.len() && st2.chars == st.chars {
                match spec_tokens(st2) {
                    Ok(rest) => Ok(seq![t] + rest),
                    Err(e) => Err(e),
                }
            } else {
                // never taken: every token besides EOF consumes at least
                // one character (lemma_next_progress)
                Ok(seq![t])
            }
        },
    }
}

/// The meaning of scanning a source text from the start.
pub open spec fn spec_tokenize(chars: Seq<char>) -> Result<Seq<TokenS>, LexerErrorS> {
    spec_tokens(LexSt::start(chars))
}

/// Skipping whitespace keeps the input and the well-formedness of the
/// state, moves the cursor forward only, and never enlarges the
/// line-plus-remaining and column-plus-remaining budgets (so the counters
/// of the executable scanner cannot overflow).
pub proof fn lemma_skip_ws_props(st: LexSt)
    requires
        st.wf(),
    ensures
        ({
            let r = spec_skip_ws(st);
            &&& r.wf()
            &&& r.chars == st.chars
            &&& st.pos <= r.pos
            &&& r.line + (r.chars.len() - r.pos) <= st.line + (st.chars.len() - st.pos)
            &&& r.col + (r.chars.len() - r.pos) <= st.col + (st.chars.len() - st.pos)
        }),
    decreases st.chars.len() - st.pos, 0int,
{
    if 0 <= st.pos < st.chars.len() {
        let c = st.chars[st.pos];
        if is_space_char(c) {
            lemma_skip_ws_props(step_col(st));
        } else if c == '\n' {
            lemma_skip_ws_props(step_line(st));
        } else if c == '/' && st.pos + 1 < st.chars.len() && st.chars[st.pos + 1] == '/' {
            lemma_skip_comment_props(step_col(step_col(st)));
        }
    }
}

/// As `lemma_skip_ws_props`, for the comment tail.
pub proof fn lemma_skip_comment_props(st: LexSt)
    requires
        st.wf(),
    ensures
        ({
            let r = spec_skip_comment(st);
            &&& r.wf()
            &&& r.chars == st.chars
            &&& st.pos <= r.pos
            &&& r.line + (r.chars.len() - r.pos) <= st.line + (st.chars.len() - st.pos)
            &&& r.col + (r.chars.len() - r.pos) <= st.col + (st.chars.len() - st.pos)
        }),
    decreases st.chars.len() - st.pos, 1int,
{
    if 0 <= st.pos < st.chars.len() {
        if st.chars[st.pos] == '\n' {
            lemma_skip_ws_props(st);
        } else {
            lemma_skip_comment_props(step_col(st));
        }
    }
}

/// Bounds and meaning of a digit run: it spans exactly the maximal run of
/// digits starting at `i`.
pub proof fn lemma_digit_run_end(chars: Seq<char>, i: int)
    requires
        0 <= i <= chars.len(),
    ensures
        ({
            let e = digit_run_end(chars, i);
            &&& i <= e <= chars.len()
            &&& forall|j: int| i <= j < e ==> is_digit_char(#[trigger] chars[j])
            &&& e < chars.len() ==> !is_digit_char(chars[e])
        }),
    decreases chars.len() - i,
{
    if i < chars.len() && is_digit_char(chars[i]) {
        lemma_digit_run_end(chars, i + 1);
    }
}

/// Bounds and meaning of an identifier run.
pub proof fn lemma_ident_run_end(chars: Seq<char>, i: int)
    requires
        0 <= i <= chars.len(),
    ensures
        ({
            let e = ident_run_end(chars, i);
            &&& i <= e <= chars.len()
            &&& forall|j: int| i <= j < e ==> is_ident_char(#[trigger] chars[j])
            &&& e < chars.len() ==> !is_ident_char(chars[e])
        }),
    decreases chars.len() - i,
{
    if i < chars.len() && is_ident_char(chars[i]) {
        lemma_ident_run_end(chars, i + 1);
    }
}

/// Bounds and meaning of a string body: no quote before the end, a quote
/// at the end when one exists at all.
pub proof fn lemma_string_body_end(chars: Seq<char>, i: int)
    requires
        0 <= i <= chars.len(),
    ensures
        ({
            let e = string_body_end(chars, i);
            &&& i <= e <= chars.len()
            &&& forall|j: int| i <= j < e ==> #[trigger] chars[j] != '"'
            &&& e < chars.len() ==> chars[e] == '"'
        }),
    decreases chars.len() - i,
{
    if i < chars.len() && chars[i] != '"' {
        lemma_string_body_end(chars, i + 1);
    }
}

/// Consuming up to `end` lands exactly on `end`, keeps the input and the
/// budgets, and keeps the state well formed.
pub proof fn lemma_advance_over(st: LexSt, end: int)
    requires
        st.wf(),
        st.pos <= end <= st.chars.len(),
    ensures
        ({
            let r = advance_over(st, end);
            &&& r.wf()
            &&& r.chars == st.chars
            &&& r.pos == end
            &&& r.line + (r.chars.len() - r.pos) <= st.line + (st.chars.len() - st.pos)
            &&& r.col + (r.chars.len() - r.pos) <= st.col + (st.chars.len() - st.pos)
        }),
    decreases end - st.pos,
{
    if st.pos < end {
        if st.chars[st.pos] == '\n' {
            lemma_advance_over(step_line(st), end);
        } else {
            lemma_advance_over(step_col(st), end);
        }
    }
}

/// Consuming up to `p + 1` is consuming up to `p` and then one more
/// character.
pub proof fn lemma_advance_over_snoc(st: LexSt, p: int)
    requires
        st.wf(),
        st.pos <= p < st.chars.len(),
    ensures
        advance_over(st, p + 1) == (if st.chars[p] == '\n' {
            step_line(advance_over(st, p))
        } else {
            step_col(advance_over(st, p))
        }),
    decreases p - st.pos,
{
    if st.pos < p {
        if st.chars[st.pos] == '\n' {
            lemma_advance_over_snoc(step_line(st), p);
        } else {
            lemma_advance_over_snoc(step_col(st), p);
        }
    } else {
        if st.chars[p] == '\n' {
            assert(advance_over(step_line(st), p + 1) == step_line(st));
        } else {
            assert(advance_over(step_col(st), p + 1) == step_col(st));
        }
    }
}

/// Scanning one token from a well-formed state on a character consumes at
/// least one character, never yields EOF, keeps the input and the budgets,
/// and keeps the state well formed.
pub proof fn lemma_scan_progress(st: LexSt)
    requires
        st.wf(),
        st.pos < st.chars.len(),
    ensures
        ({
            match spec_scan(st) {
                Ok((t, st2)) => {
                    &&& st2.wf()
                    &&& st2.chars == st.chars
                    &&& st.pos < st2.pos
                    &&& !(t.token_type is EOF)
                    &&& st2.line + (st2.chars.len() - st2.pos) <= st.line + (st.chars.len() - st.pos)
                    &&& st2.col + (st2.chars.len() - st2.pos) <= st.col + (st.chars.len() - st.pos)
                },
                Err(_) => true,
            }
        }),
{
    let c = st.chars[st.pos];
    if c == '"' {
        let st1 = step_col(st);
        lemma_string_body_end(st.chars, st1.pos);
        let e = string_body_end(st.chars, st1.pos);
        lemma_advance_over(st1, e);
    } else if c == '{' || c == '}' || c == '(' || c == ')' || c == ':' || c == '.' || c == ','
        || c == '=' {
    } else if is_digit_char(c) {
        lemma_digit_run_end(st.chars, st.pos);
        let e1 = digit_run_end(st.chars, st.pos);
        if e1 + 1 < st.chars.len() && st.chars[e1] == '.' && is_digit_char(st.chars[e1 + 1]) {
            lemma_digit_run_end(st.chars, e1 + 1);
        }
    } else if is_alpha_char(c) {
        lemma_ident_run_end(st.chars, st.pos);
    }
}

/// One scanner call from a well-formed state: the new state is well
/// formed over the same input, the cursor moved forward, strictly so
/// unless the token is EOF, and EOF comes exactly at the end.
pub proof fn lemma_next_progress(st: LexSt)
    requires
        st.wf(),
    ensures
        ({
            match spec_next(st) {
                Ok((t, st2)) => {
                    &&& st2.wf()
                    &&& st2.chars == st.chars
                    &&& st.pos <= st2.pos
                    &&& (t.token_type is EOF ==> st2.pos == st.chars.len())
                    &&& (!(t.token_type is EOF) ==> st.pos < st2.pos)
                    &&& st2.line + (st2.chars.len() - st2.pos) <= st.line + (st.chars.len() - st.pos)
                    &&& st2.col + (st2.chars.len() - st2.pos) <= st.col + (st.chars.len() - st.pos)
                },
                Err(_) => true,
            }
        }),
{
    lemma_skip_ws_props(st);
    let st1 = spec_skip_ws(st);
    if st1.pos < st1.chars.len() {
        lemma_scan_progress(st1);
    }
}

} // verus!
