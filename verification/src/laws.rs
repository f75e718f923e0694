//! Laws of the front end, proved over the mathematical models.
//!
//! - The scanner's output is always a well-formed token stream, so every
//!   scanner success is a legal parser input: together with the exact
//!   contracts of `tokenize` and `parse`, parsing the scan of a valid
//!   source succeeds and yields exactly the program the models
//!   prescribe.
//! - Every valid program parses: a token stream spelling out a
//!   program's declared structure, ended by EOF, parses back to exactly
//!   that program (`lemma_valid_program_parses`), fields and statements
//!   in source order with no reordering or deduplication.
//! - What the scanner does from any point depends only on the characters
//!   from that point on: states with equal remaining input yield the
//!   same token categories and the same success or failure.
//! - Inserting a run of whitespace, or a comment ended by its newline,
//!   where the scanner is about to read a token changes neither success
//!   nor the token categories produced; the same holds for replacing
//!   one blank run by another, or inserting a comment line, after any
//!   clean prefix — one whose last character no token can extend over.
//! - The empty source scans to the one-token sequence holding EOF, and a
//!   stream of just EOF parses to the program with no modules.
use vstd::prelude::*;
use crate::token::{TokenS, TokenTypeS};
use crate::lexer_error::LexerErrorS;
use crate::lexer_spec::{
    LexSt, spec_skip_ws, spec_skip_comment, spec_scan, spec_scan_number, spec_scan_ident,
    spec_next, spec_tokens, spec_tokenize, step_col, step_line, is_digit_char, is_alpha_char,
    is_ident_char, is_space_char, digit_run_end, ident_run_end, string_body_end, advance_over,
    token_at, lemma_skip_ws_props, lemma_skip_comment_props, lemma_digit_run_end, lemma_ident_run_end,
    lemma_string_body_end, lemma_advance_over, lemma_advance_over_snoc, lemma_scan_progress,
    lemma_next_progress,
};
use crate::parser_spec::{
    wf_tokens, spec_parse_program, spec_parse, spec_parse_object, spec_parse_object_fields,
    spec_parse_type_fields, spec_parse_type, spec_parse_expression, spec_parse_statement,
    spec_parse_statements, spec_parse_module, tok, at_end,
};
use crate::parser_error::ParseErrorS;
use crate::ast::{ProgramS, ModuleS, StatementS, TypeDefinitionS, ExprS, TypeS, TypeFieldS};

verus! {

/// The categories of a token sequence, positions set aside.
pub open spec fn token_kinds(ts: Seq<TokenS>) -> Seq<TokenTypeS> {
    ts.map_values(|t: TokenS| t.token_type)
}

/// The characters the scanner has not consumed yet.
pub open spec fn rest(st: LexSt) -> Seq<char> {
    st.chars.subrange(st.pos, st.chars.len() as int)
}

/// A whitespace character in the widest sense: skipped outside tokens.
pub open spec fn is_blank_char(c: char) -> bool {
    is_space_char(c) || c == '\n'
}

/// Every scan of a well-formed state ends in exactly one EOF token: the
/// scanner's successes are the parser's well-formed inputs.
pub proof fn lemma_scanner_output_well_formed(st: LexSt)
    requires
        st.wf(),
    ensures
        spec_tokens(st) matches Ok(ts) ==> wf_tokens(ts),
    decreases st.chars.len() - st.pos,
{
    lemma_next_progress(st);
    if let Ok((t, st2)) = spec_next(st) {
        if !(t.token_type is EOF) {
            lemma_scanner_output_well_formed(st2);
            if let Ok(rest_toks) = spec_tokens(st2) {
                let ts = seq![t] + rest_toks;
                assert(ts.last() == rest_toks.last());
                assert(forall|k: int|
                    0 <= k < ts.len() - 1 ==> !((#[trigger] ts[k]).token_type is EOF)) by {
                    assert(forall|k: int|
                        1 <= k < ts.len() - 1 ==> #[trigger] ts[k] == rest_toks[k - 1]);
                }
            }
        }
    }
}

/// The empty source scans to the single EOF token at line 1, column 1.
pub proof fn lemma_tokenize_empty()
    ensures
        spec_tokenize(Seq::<char>::empty()) == Ok::<Seq<TokenS>, LexerErrorS>(
            seq![TokenS { token_type: TokenTypeS::EOF, line: 1, column: 1 }],
        ),
{
    let st = LexSt::start(Seq::<char>::empty());
    assert(spec_skip_ws(st) == st);
}

/// A stream holding only EOF parses to the program with no modules, not
/// to an error.
pub proof fn lemma_parse_empty(ts: Seq<TokenS>)
    requires
        ts.len() == 1,
        ts[0].token_type is EOF,
    ensures
        spec_parse(ts) == Ok::<ProgramS, crate::parser_error::ParseErrorS>(
            ProgramS { modules: Seq::empty() },
        ),
{
    assert(spec_parse_program(ts, 0) == Ok::<(Seq<crate::ast::ModuleS>, int),
        crate::parser_error::ParseErrorS>((Seq::empty(), 0int)));
}

/// Digit runs depend only on the remaining characters.
proof fn lemma_digit_run_shift(c1: Seq<char>, i1: int, c2: Seq<char>, i2: int)
    requires
        0 <= i1 <= c1.len(),
        0 <= i2 <= c2.len(),
        c1.subrange(i1, c1.len() as int) == c2.subrange(i2, c2.len() as int),
    ensures
        digit_run_end(c1, i1) - i1 == digit_run_end(c2, i2) - i2,
    decreases c1.len() - i1,
{
    assert(c1.subrange(i1, c1.len() as int).len() == c1.len() - i1);
    assert(c2.subrange(i2, c2.len() as int).len() == c2.len() - i2);
    assert(c1.len() - i1 == c2.len() - i2);
    if i1 < c1.len() {
        assert(c1[i1] == c1.subrange(i1, c1.len() as int)[0]);
        assert(c2[i2] == c2.subrange(i2, c2.len() as int)[0]);
        if is_digit_char(c1[i1]) {
            assert(c1.subrange(i1 + 1, c1.len() as int) =~= c2.subrange(i2 + 1, c2.len() as int))
                by {
                assert(forall|k: int|
                    0 <= k < c1.len() - i1 - 1 ==> #[trigger] c1.subrange(i1 + 1, c1.len() as int)[k]
                        == c1.subrange(i1, c1.len() as int)[k + 1]);
                assert(forall|k: int|
                    0 <= k < c2.len() - i2 - 1 ==> #[trigger] c2.subrange(i2 + 1, c2.len() as int)[k]
                        == c2.subrange(i2, c2.len() as int)[k + 1]);
            }
            lemma_digit_run_shift(c1, i1 + 1, c2, i2 + 1);
        }
    }
}

/// Identifier runs depend only on the remaining characters.
proof fn lemma_ident_run_shift(c1: Seq<char>, i1: int, c2: Seq<char>, i2: int)
    requires
        0 <= i1 <= c1.len(),
        0 <= i2 <= c2.len(),
        c1.subrange(i1, c1.len() as int) == c2.subrange(i2, c2.len() as int),
    ensures
        ident_run_end(c1, i1) - i1 == ident_run_end(c2, i2) - i2,
    decreases c1.len() - i1,
{
    assert(c1.subrange(i1, c1.len() as int).len() == c1.len() - i1);
    assert(c2.subrange(i2, c2.len() as int).len() == c2.len() - i2);
    assert(c1.len() - i1 == c2.len() - i2);
    if i1 < c1.len() {
        assert(c1[i1] == c1.subrange(i1, c1.len() as int)[0]);
        assert(c2[i2] == c2.subrange(i2, c2.len() as int)[0]);
        if is_ident_char(c1[i1]) {
            assert(c1.subrange(i1 + 1, c1.len() as int) =~= c2.subrange(i2 + 1, c2.len() as int))
                by {
                assert(forall|k: int|
                    0 <= k < c1.len() - i1 - 1 ==> #[trigger] c1.subrange(i1 + 1, c1.len() as int)[k]
                        == c1.subrange(i1, c1.len() as int)[k + 1]);
                assert(forall|k: int|
                    0 <= k < c2.len() - i2 - 1 ==> #[trigger] c2.subrange(i2 + 1, c2.len() as int)[k]
                        == c2.subrange(i2, c2.len() as int)[k + 1]);
            }
            lemma_ident_run_shift(c1, i1 + 1, c2, i2 + 1);
        }
    }
}

/// String bodies depend only on the remaining characters.
proof fn lemma_string_body_shift(c1: Seq<char>, i1: int, c2: Seq<char>, i2: int)
    requires
        0 <= i1 <= c1.len(),
        0 <= i2 <= c2.len(),
        c1.subrange(i1, c1.len() as int) == c2.subrange(i2, c2.len() as int),
    ensures
        string_body_end(c1, i1) - i1 == string_body_end(c2, i2) - i2,
    decreases c1.len() - i1,
{
    assert(c1.subrange(i1, c1.len() as int).len() == c1.len() - i1);
    assert(c2.subrange(i2, c2.len() as int).len() == c2.len() - i2);
    assert(c1.len() - i1 == c2.len() - i2);
    if i1 < c1.len() {
        assert(c1[i1] == c1.subrange(i1, c1.len() as int)[0]);
        assert(c2[i2] == c2.subrange(i2, c2.len() as int)[0]);
        if c1[i1] != '"' {
            assert(c1.subrange(i1 + 1, c1.len() as int) =~= c2.subrange(i2 + 1, c2.len() as int))
                by {
                assert(forall|k: int|
                    0 <= k < c1.len() - i1 - 1 ==> #[trigger] c1.subrange(i1 + 1, c1.len() as int)[k]
                        == c1.subrange(i1, c1.len() as int)[k + 1]);
                assert(forall|k: int|
                    0 <= k < c2.len() - i2 - 1 ==> #[trigger] c2.subrange(i2 + 1, c2.len() as int)[k]
                        == c2.subrange(i2, c2.len() as int)[k + 1]);
            }
            lemma_string_body_shift(c1, i1 + 1, c2, i2 + 1);
        }
    }
}

/// One consumed character keeps the remaining inputs aligned.
proof fn lemma_rest_step(st1: LexSt, st2: LexSt)
    requires
        st1.wf(),
        st2.wf(),
        st1.pos < st1.chars.len(),
        st2.pos < st2.chars.len(),
        rest(st1) == rest(st2),
    ensures
        st1.chars[st1.pos] == st2.chars[st2.pos],
        rest(step_col(st1)) == rest(step_col(st2)),
        rest(step_line(st1)) == rest(step_line(st2)),
        st1.chars.len() - st1.pos == st2.chars.len() - st2.pos,
{
    assert(rest(st1).len() == st1.chars.len() - st1.pos);
    assert(rest(st2).len() == st2.chars.len() - st2.pos);
    assert(st1.chars.len() - st1.pos == st2.chars.len() - st2.pos);
    assert(st1.chars[st1.pos] == rest(st1)[0]);
    assert(st2.chars[st2.pos] == rest(st2)[0]);
    assert(rest(step_col(st1)) =~= rest(step_col(st2))) by {
        assert(forall|k: int|
            0 <= k < st1.chars.len() - st1.pos - 1 ==> #[trigger] rest(step_col(st1))[k] == rest(
                st1,
            )[k + 1] && rest(step_col(st2))[k] == rest(st2)[k + 1]);
    }
    assert(rest(step_line(st1)) =~= rest(step_col(st1)));
    assert(rest(step_line(st2)) =~= rest(step_col(st2)));
}

/// Whitespace skipping depends only on the remaining characters: both
/// states consume the same count.
proof fn lemma_skip_ws_shift(st1: LexSt, st2: LexSt)
    requires
        st1.wf(),
        st2.wf(),
        rest(st1) == rest(st2),
    ensures
        spec_skip_ws(st1).pos - st1.pos == spec_skip_ws(st2).pos - st2.pos,
        rest(spec_skip_ws(st1)) == rest(spec_skip_ws(st2)),
    decreases st1.chars.len() - st1.pos, 0int,
{
    assert(rest(st1).len() == st1.chars.len() - st1.pos);
    assert(rest(st2).len() == st2.chars.len() - st2.pos);
    assert(st1.chars.len() - st1.pos == st2.chars.len() - st2.pos);
    if st1.pos < st1.chars.len() {
        lemma_rest_step(st1, st2);
        let c = st1.chars[st1.pos];
        if is_space_char(c) {
            lemma_skip_ws_shift(step_col(st1), step_col(st2));
        } else if c == '\n' {
            lemma_skip_ws_shift(step_line(st1), step_line(st2));
        } else if c == '/' && st1.pos + 1 < st1.chars.len() && st1.chars[st1.pos + 1] == '/' {
            assert(st1.chars[st1.pos + 1] == rest(st1)[1]);
            assert(st2.chars[st2.pos + 1] == rest(st2)[1]);
            lemma_rest_step(step_col(st1), step_col(st2));
            lemma_skip_comment_shift(step_col(step_col(st1)), step_col(step_col(st2)));
        } else {
            if st2.pos + 1 < st2.chars.len() {
                assert(st2.chars[st2.pos + 1] == rest(st2)[1]);
                assert(st1.chars[st1.pos + 1] == rest(st1)[1]);
            }
        }
    }
}

/// As `lemma_skip_ws_shift`, for the comment tail.
proof fn lemma_skip_comment_shift(st1: LexSt, st2: LexSt)
    requires
        st1.wf(),
        st2.wf(),
        rest(st1) == rest(st2),
    ensures
        spec_skip_comment(st1).pos - st1.pos == spec_skip_comment(st2).pos - st2.pos,
        rest(spec_skip_comment(st1)) == rest(spec_skip_comment(st2)),
    decreases st1.chars.len() - st1.pos, 1int,
{
    assert(rest(st1).len() == st1.chars.len() - st1.pos);
    assert(rest(st2).len() == st2.chars.len() - st2.pos);
    assert(st1.chars.len() - st1.pos == st2.chars.len() - st2.pos);
    if st1.pos < st1.chars.len() {
        lemma_rest_step(st1, st2);
        if st1.chars[st1.pos] == '\n' {
            lemma_skip_ws_shift(st1, st2);
        } else {
            lemma_skip_comment_shift(step_col(st1), step_col(st2));
        }
    }
}

/// Scanning one token depends only on the remaining characters: the
/// same category comes back, over the same count of characters, or the
/// scan fails in both states.
proof fn lemma_scan_shift(st1: LexSt, st2: LexSt)
    requires
        st1.wf(),
        st2.wf(),
        st1.pos < st1.chars.len(),
        rest(st1) == rest(st2),
    ensures
        match (spec_scan(st1), spec_scan(st2)) {
            (Ok((t1, r1)), Ok((t2, r2))) => {
                &&& t1.token_type == t2.token_type
                &&& r1.pos - st1.pos == r2.pos - st2.pos
                &&& rest(r1) == rest(r2)
            },
            (Err(_), Err(_)) => true,
            _ => false,
        },
{
    assert(rest(st1).len() == st1.chars.len() - st1.pos);
    assert(rest(st2).len() == st2.chars.len() - st2.pos);
    assert(st1.chars.len() - st1.pos == st2.chars.len() - st2.pos);
    assert(forall|k: int|
        0 <= k < st1.chars.len() - st1.pos ==> st1.chars[st1.pos + k] == #[trigger] rest(st1)[k]
            && st2.chars[st2.pos + k] == rest(st2)[k]);
    lemma_rest_step(st1, st2);
    let c = st1.chars[st1.pos];
    if c == '=' {
        if st1.pos + 1 < st1.chars.len() {
            assert(st1.chars[st1.pos + 1] == rest(st1)[1]);
            assert(st2.chars[st2.pos + 1] == rest(st2)[1]);
            if st1.chars[st1.pos + 1] == '>' {
                lemma_rest_step(step_col(st1), step_col(st2));
            }
        }
    } else if c == '"' {
        let a1 = step_col(st1);
        let a2 = step_col(st2);
        lemma_rest_step(st1, st2);
        lemma_string_body_shift(st1.chars, a1.pos, st2.chars, a2.pos);
        let e1 = string_body_end(st1.chars, a1.pos);
        let e2 = string_body_end(st2.chars, a2.pos);
        lemma_string_body_end(st1.chars, a1.pos);
        lemma_string_body_end(st2.chars, a2.pos);
        lemma_advance_over(a1, e1);
        lemma_advance_over(a2, e2);
        if e1 < st1.chars.len() {
            assert(st1.chars.subrange(a1.pos, e1) =~= st2.chars.subrange(a2.pos, e2)) by {
                assert(forall|k: int|
                    0 <= k < e1 - a1.pos ==> st1.chars[a1.pos + k] == #[trigger] rest(st1)[k + 1]
                        && st2.chars[a2.pos + k] == rest(st2)[k + 1]);
            }
            let r1 = step_col(advance_over(a1, e1));
            let r2 = step_col(advance_over(a2, e2));
            assert(rest(r1) =~= rest(r2)) by {
                assert(forall|k: int|
                    0 <= k < st1.chars.len() - r1.pos ==> #[trigger] rest(r1)[k] == rest(st1)[k + (
                    r1.pos - st1.pos)] && rest(r2)[k] == rest(st2)[k + (r2.pos - st2.pos)]);
            }
        }
    } else if is_digit_char(c) {
        lemma_digit_run_shift(st1.chars, st1.pos, st2.chars, st2.pos);
        let e1 = digit_run_end(st1.chars, st1.pos);
        let e2 = digit_run_end(st2.chars, st2.pos);
        lemma_digit_run_end(st1.chars, st1.pos);
        lemma_digit_run_end(st2.chars, st2.pos);
        if e1 + 1 < st1.chars.len() {
            assert(st1.chars[e1] == rest(st1)[e1 - st1.pos]);
            assert(st2.chars[e2] == rest(st2)[e2 - st2.pos]);
            assert(st1.chars[e1 + 1] == rest(st1)[e1 + 1 - st1.pos]);
            assert(st2.chars[e2 + 1] == rest(st2)[e2 + 1 - st2.pos]);
        } else if e1 < st1.chars.len() {
            assert(st1.chars[e1] == rest(st1)[e1 - st1.pos]);
            assert(st2.chars[e2] == rest(st2)[e2 - st2.pos]);
        }
        if e1 + 1 < st1.chars.len() && st1.chars[e1] == '.' && is_digit_char(st1.chars[e1 + 1]) {
            assert(st1.chars.subrange(e1 + 1, st1.chars.len() as int).len() == st1.chars.len()
                - e1 - 1);
            assert(st2.chars.subrange(e2 + 1, st2.chars.len() as int).len() == st2.chars.len()
                - e2 - 1);
            assert(st1.chars.subrange(e1 + 1, st1.chars.len() as int) =~= st2.chars.subrange(
                e2 + 1,
                st2.chars.len() as int,
            )) by {
                assert(forall|k: int|
                    0 <= k < st1.chars.len() - e1 - 1 ==> #[trigger] st1.chars.subrange(
                        e1 + 1,
                        st1.chars.len() as int,
                    )[k] == rest(st1)[e1 + 1 - st1.pos + k]);
                assert(forall|k: int|
                    0 <= k < st2.chars.len() - e2 - 1 ==> #[trigger] st2.chars.subrange(
                        e2 + 1,
                        st2.chars.len() as int,
                    )[k] == rest(st2)[e2 + 1 - st2.pos + k]);
            }
            lemma_digit_run_shift(st1.chars, e1 + 1, st2.chars, e2 + 1);
            lemma_digit_run_end(st1.chars, e1 + 1);
            lemma_digit_run_end(st2.chars, e2 + 1);
        }
        let (t1, r1) = spec_scan_number(st1);
        let (t2, r2) = spec_scan_number(st2);
        assert(st1.chars.subrange(st1.pos, r1.pos) =~= st2.chars.subrange(st2.pos, r2.pos)) by {
            assert(forall|k: int|
                0 <= k < r1.pos - st1.pos ==> st1.chars[st1.pos + k] == rest(st1)[k]
                    && st2.chars[st2.pos + k] == rest(st2)[k]);
        }
        assert(rest(r1) =~= rest(r2)) by {
            assert(forall|k: int|
                0 <= k < st1.chars.len() - r1.pos ==> #[trigger] rest(r1)[k] == rest(st1)[k + (
                r1.pos - st1.pos)] && rest(r2)[k] == rest(st2)[k + (r2.pos - st2.pos)]);
        }
    } else if is_alpha_char(c) {
        lemma_ident_run_shift(st1.chars, st1.pos, st2.chars, st2.pos);
        let e1 = ident_run_end(st1.chars, st1.pos);
        let e2 = ident_run_end(st2.chars, st2.pos);
        lemma_ident_run_end(st1.chars, st1.pos);
        lemma_ident_run_end(st2.chars, st2.pos);
        assert(st1.chars.subrange(st1.pos, e1) =~= st2.chars.subrange(st2.pos, e2)) by {
            assert(forall|k: int|
                0 <= k < e1 - st1.pos ==> st1.chars[st1.pos + k] == #[trigger] rest(st1)[k]
                    && st2.chars[st2.pos + k] == rest(st2)[k]);
        }
        let r1 = spec_scan_ident(st1).1;
        let r2 = spec_scan_ident(st2).1;
        assert(rest(r1) =~= rest(r2)) by {
            assert(forall|k: int|
                0 <= k < st1.chars.len() - r1.pos ==> #[trigger] rest(r1)[k] == rest(st1)[k + (
                r1.pos - st1.pos)] && rest(r2)[k] == rest(st2)[k + (r2.pos - st2.pos)]);
        }
    }
}

/// The categories of a whole scan depend only on the remaining
/// characters, and so does its success.
pub proof fn lemma_tokens_shift(st1: LexSt, st2: LexSt)
    requires
        st1.wf(),
        st2.wf(),
        rest(st1) == rest(st2),
    ensures
        match (spec_tokens(st1), spec_tokens(st2)) {
            (Ok(a), Ok(b)) => token_kinds(a) == token_kinds(b),
            (Err(_), Err(_)) => true,
            _ => false,
        },
    decreases st1.chars.len() - st1.pos,
{
    lemma_next_progress(st1);
    lemma_next_progress(st2);
    lemma_skip_ws_shift(st1, st2);
    let a1 = spec_skip_ws(st1);
    let a2 = spec_skip_ws(st2);
    lemma_skip_ws_props(st1);
    lemma_skip_ws_props(st2);
    assert(rest(st1).len() == st1.chars.len() - st1.pos);
    assert(rest(st2).len() == st2.chars.len() - st2.pos);
    assert(st1.chars.len() - st1.pos == st2.chars.len() - st2.pos);
    if a1.pos >= a1.chars.len() {
        assert(rest(a1).len() == 0);
        assert(rest(a2).len() == rest(a1).len());
        let t1 = token_at(a1, TokenTypeS::EOF);
        let t2 = token_at(a2, TokenTypeS::EOF);
        assert(token_kinds(seq![t1]) =~= token_kinds(seq![t2]));
    } else {
        assert(rest(a1).len() > 0);
        assert(rest(a2).len() == rest(a1).len());
        lemma_scan_shift(a1, a2);
        match (spec_scan(a1), spec_scan(a2)) {
            (Ok((t1, r1)), Ok((t2, r2))) => {
                lemma_scan_progress(a1);
                lemma_scan_progress(a2);
                if t1.token_type is EOF {
                    assert(token_kinds(seq![t1]) =~= token_kinds(seq![t2]));
                } else {
                    lemma_tokens_shift(r1, r2);
                    match (spec_tokens(r1), spec_tokens(r2)) {
                        (Ok(a), Ok(b)) => {
                            assert(token_kinds(seq![t1] + a) =~= token_kinds(a).insert(
                                0,
                                t1.token_type,
                            ));
                            assert(token_kinds(seq![t2] + b) =~= token_kinds(b).insert(
                                0,
                                t2.token_type,
                            ));
                        },
                        _ => {},
                    }
                }
            },
            _ => {},
        }
    }
}

/// Two states whose whitespace skipping meets keep the same token
/// sequence, positions included.
proof fn lemma_tokens_skip_agree(sta: LexSt, stb: LexSt)
    requires
        sta.wf(),
        stb.wf(),
        sta.chars == stb.chars,
        sta.pos <= stb.pos,
        spec_skip_ws(sta) == spec_skip_ws(stb),
    ensures
        spec_tokens(sta) == spec_tokens(stb),
{
    lemma_skip_ws_props(stb);
    if let Ok((t, st2)) = spec_next(sta) {
        if !(t.token_type is EOF) {
            lemma_scan_progress(spec_skip_ws(stb));
        }
    }
}

/// Whitespace before a token is invisible: skipping from `st` equals
/// skipping from the state past any run of blank characters.
proof fn lemma_skip_ws_absorb(st: LexSt, p: int)
    requires
        st.wf(),
        st.pos <= p <= st.chars.len(),
        forall|k: int| st.pos <= k < p ==> is_blank_char(#[trigger] st.chars[k]),
    ensures
        spec_skip_ws(st) == spec_skip_ws(advance_over(st, p)),
    decreases p - st.pos,
{
    if st.pos < p {
        if st.chars[st.pos] == '\n' {
            lemma_skip_ws_absorb(step_line(st), p);
        } else {
            lemma_skip_ws_absorb(step_col(st), p);
        }
    }
}

/// A comment runs to its newline: skipping the comment tail equals
/// skipping from past the newline that ends it.
proof fn lemma_skip_comment_through(st: LexSt, q: int)
    requires
        st.wf(),
        st.pos <= q < st.chars.len(),
        forall|k: int| st.pos <= k < q ==> (#[trigger] st.chars[k]) != '\n',
        st.chars[q] == '\n',
    ensures
        spec_skip_comment(st) == spec_skip_ws(advance_over(st, q + 1)),
    decreases q - st.pos,
{
    if st.pos == q {
        lemma_advance_over_snoc(st, q);
        assert(advance_over(st, q) == st);
        assert(advance_over(st, q + 1) == step_line(st));
        assert(spec_skip_comment(st) == spec_skip_ws(st));
        assert(spec_skip_ws(st) == spec_skip_ws(step_line(st)));
    } else {
        lemma_skip_comment_through(step_col(st), q);
        assert(spec_skip_comment(st) == spec_skip_comment(step_col(st)));
        assert(advance_over(st, q + 1) == advance_over(step_col(st), q + 1));
    }
}

/// Inserting a run of spaces, tabs, carriage returns or newlines where
/// the scanner is about to read a token changes neither whether the
/// scan succeeds nor the token categories it produces.
pub proof fn lemma_whitespace_insensitive(ws: Seq<char>, s: Seq<char>)
    requires
        forall|k: int| 0 <= k < ws.len() ==> is_blank_char(#[trigger] ws[k]),
    ensures
        match (spec_tokenize(ws + s), spec_tokenize(s)) {
            (Ok(a), Ok(b)) => token_kinds(a) == token_kinds(b),
            (Err(_), Err(_)) => true,
            _ => false,
        },
{
    let st1 = LexSt::start(ws + s);
    let st2 = LexSt::start(s);
    assert(st1.wf());
    assert(st2.wf());
    assert(forall|k: int| 0 <= k < ws.len() ==> #[trigger] st1.chars[k] == ws[k]);
    lemma_skip_ws_absorb(st1, ws.len() as int);
    lemma_advance_over(st1, ws.len() as int);
    let st1b = advance_over(st1, ws.len() as int);
    lemma_tokens_skip_agree(st1, st1b);
    assert(rest(st1b) =~= rest(st2)) by {
        assert(forall|k: int|
            0 <= k < s.len() ==> #[trigger] rest(st1b)[k] == (ws + s)[ws.len() + k] && rest(
                st2,
            )[k] == s[k]);
    }
    lemma_tokens_shift(st1b, st2);
}

/// Inserting a comment, ended by its newline, where the scanner is
/// about to read a token changes neither whether the scan succeeds nor
/// the token categories it produces: the comment never becomes a token.
pub proof fn lemma_comment_insensitive(text: Seq<char>, s: Seq<char>)
    requires
        forall|k: int| 0 <= k < text.len() ==> (#[trigger] text[k]) != '\n',
    ensures
        ({
            let c = seq!['/', '/'] + text + seq!['\n'];
            match (spec_tokenize(c + s), spec_tokenize(s)) {
                (Ok(a), Ok(b)) => token_kinds(a) == token_kinds(b),
                (Err(_), Err(_)) => true,
                _ => false,
            }
        }),
{
    let c = seq!['/', '/'] + text + seq!['\n'];
    let st1 = LexSt::start(c + s);
    let st2 = LexSt::start(s);
    assert(st1.wf());
    assert(st2.wf());
    assert(st1.chars[0] == '/' && st1.chars[1] == '/');
    let stc = step_col(step_col(st1));
    let q = c.len() - 1;
    assert(st1.chars[q] == '\n');
    assert(forall|k: int| stc.pos <= k < q ==> (#[trigger] st1.chars[k]) != '\n') by {
        assert(forall|k: int| 2 <= k < q ==> #[trigger] st1.chars[k] == text[k - 2]);
    }
    lemma_skip_comment_through(stc, q);
    lemma_advance_over(stc, q + 1);
    let st1b = advance_over(stc, q + 1);
    // one unfolding: skipping from the start enters the comment
    assert(spec_skip_ws(st1) == spec_skip_comment(stc));
    lemma_skip_ws_props(st1b);
    lemma_tokens_skip_agree(st1, st1b);
    assert(rest(st1b) =~= rest(st2)) by {
        assert(forall|k: int|
            0 <= k < s.len() ==> #[trigger] rest(st1b)[k] == (c + s)[c.len() + k] && rest(
                st2,
            )[k] == s[k]);
    }
    lemma_tokens_shift(st1b, st2);
}

/// Round-trip of field order in an object literal: the fields written
/// `{ n1: v1, n2: v2 }` parse to exactly that list, in that order, with
/// no reordering and no deduplication — the names may even be equal.
pub proof fn lemma_object_field_order(
    toks: Seq<TokenS>,
    i: int,
    n1: Seq<char>,
    v1: Seq<char>,
    n2: Seq<char>,
    v2: Seq<char>,
)
    requires
        wf_tokens(toks),
        0 <= i,
        i + 8 < toks.len(),
        toks[i].token_type is LeftBrace,
        toks[i + 1].token_type == TokenTypeS::Identifier(n1),
        toks[i + 2].token_type is Colon,
        toks[i + 3].token_type == TokenTypeS::NumberLiteral(v1),
        toks[i + 4].token_type is Comma,
        toks[i + 5].token_type == TokenTypeS::Identifier(n2),
        toks[i + 6].token_type is Colon,
        toks[i + 7].token_type == TokenTypeS::NumberLiteral(v2),
        toks[i + 8].token_type is RightBrace,
    ensures
        spec_parse_object(toks, i) == Ok::<(ExprS, int), ParseErrorS>(
            (
                ExprS::Object {
                    fields: seq![(n1, ExprS::NumberLiteral(v1)), (n2, ExprS::NumberLiteral(v2))],
                },
                i + 9,
            ),
        ),
{
    reveal_with_fuel(spec_parse_object_fields, 4);
    assert(spec_parse_object_fields(toks, i + 8) == Ok::<(Seq<(Seq<char>, ExprS)>, int),
        ParseErrorS>((Seq::empty(), i + 8)));
    assert(spec_parse_object_fields(toks, i + 5) == Ok::<(Seq<(Seq<char>, ExprS)>, int),
        ParseErrorS>((seq![(n2, ExprS::NumberLiteral(v2))] + Seq::empty(), i + 8)));
    assert(spec_parse_object_fields(toks, i + 1) == Ok::<(Seq<(Seq<char>, ExprS)>, int),
        ParseErrorS>(
        (seq![(n1, ExprS::NumberLiteral(v1))] + (seq![(n2, ExprS::NumberLiteral(v2))]
            + Seq::empty()), i + 8),
    ));
    assert(seq![(n1, ExprS::NumberLiteral(v1))] + (seq![(n2, ExprS::NumberLiteral(v2))]
        + Seq::empty()) =~= seq![(n1, ExprS::NumberLiteral(v1)), (n2, ExprS::NumberLiteral(v2))]);
}

/// Round-trip of field order in a type definition: the fields written
/// `f1: Number, f2: Number` parse to exactly that list, in that order,
/// with no reordering and no deduplication.
pub proof fn lemma_type_field_order(toks: Seq<TokenS>, i: int, n1: Seq<char>, n2: Seq<char>)
    requires
        wf_tokens(toks),
        0 <= i,
        i + 7 < toks.len(),
        toks[i].token_type == TokenTypeS::Identifier(n1),
        toks[i + 1].token_type is Colon,
        toks[i + 2].token_type is Number,
        toks[i + 3].token_type is Comma,
        toks[i + 4].token_type == TokenTypeS::Identifier(n2),
        toks[i + 5].token_type is Colon,
        toks[i + 6].token_type is Number,
        toks[i + 7].token_type is RightBrace,
    ensures
        spec_parse_type_fields(toks, i) == Ok::<(Seq<TypeFieldS>, int), ParseErrorS>(
            (
                seq![
                    TypeFieldS { name: n1, field_type: TypeS::Number },
                    TypeFieldS { name: n2, field_type: TypeS::Number },
                ],
                i + 7,
            ),
        ),
{
    reveal_with_fuel(spec_parse_type_fields, 4);
    assert(spec_parse_type_fields(toks, i + 7) == Ok::<(Seq<TypeFieldS>, int), ParseErrorS>(
        (Seq::empty(), i + 7),
    ));
    assert(spec_parse_type_fields(toks, i + 4) == Ok::<(Seq<TypeFieldS>, int), ParseErrorS>(
        (seq![TypeFieldS { name: n2, field_type: TypeS::Number }] + Seq::empty(), i + 7),
    ));
    assert(seq![TypeFieldS { name: n1, field_type: TypeS::Number }] + (seq![
        TypeFieldS { name: n2, field_type: TypeS::Number },
    ] + Seq::empty()) =~= seq![
        TypeFieldS { name: n1, field_type: TypeS::Number },
        TypeFieldS { name: n2, field_type: TypeS::Number },
    ]);
}


/// A prefix after which the scan can be cut and the input extended: its
/// last character can neither continue a token (no identifier, number,
/// dot, equals or slash dangling at the edge) nor leave a comment open
/// past the end — a comment is ruled out when the prefix ends with a
/// newline or holds no slash at all. Every blank, every punctuation
/// character and a closing quote qualify as the last character.
pub open spec fn clean_prefix(x: Seq<char>) -> bool {
    &&& x.len() > 0
    &&& !is_ident_char(x.last())
    &&& x.last() != '.'
    &&& x.last() != '='
    &&& x.last() != '/'
    &&& (x.last() == '\n' || forall|k: int| 0 <= k < x.len() ==> (#[trigger] x[k]) != '/')
}

/// The same scanner state over an input extended past the end.
pub open spec fn extend(st: LexSt, ext: Seq<char>) -> LexSt {
    LexSt { chars: st.chars + ext, pos: st.pos, line: st.line, col: st.col }
}

/// A digit run that stops inside the input stops at the same place when
/// the input is extended past its end.
proof fn lemma_digit_run_extend(chars: Seq<char>, ext: Seq<char>, i: int)
    requires
        0 <= i <= chars.len(),
        digit_run_end(chars, i) < chars.len(),
    ensures
        digit_run_end(chars + ext, i) == digit_run_end(chars, i),
    decreases chars.len() - i,
{
    if i < chars.len() {
        assert((chars + ext)[i] == chars[i]);
        if is_digit_char(chars[i]) {
            lemma_digit_run_extend(chars, ext, i + 1);
        }
    }
}

/// As `lemma_digit_run_extend`, for identifier runs.
proof fn lemma_ident_run_extend(chars: Seq<char>, ext: Seq<char>, i: int)
    requires
        0 <= i <= chars.len(),
        ident_run_end(chars, i) < chars.len(),
    ensures
        ident_run_end(chars + ext, i) == ident_run_end(chars, i),
    decreases chars.len() - i,
{
    if i < chars.len() {
        assert((chars + ext)[i] == chars[i]);
        if is_ident_char(chars[i]) {
            lemma_ident_run_extend(chars, ext, i + 1);
        }
    }
}

/// A string body closed inside the input is closed at the same place
/// when the input is extended past its end.
proof fn lemma_string_body_extend(chars: Seq<char>, ext: Seq<char>, i: int)
    requires
        0 <= i <= chars.len(),
        string_body_end(chars, i) < chars.len(),
    ensures
        string_body_end(chars + ext, i) == string_body_end(chars, i),
    decreases chars.len() - i,
{
    if i < chars.len() {
        assert((chars + ext)[i] == chars[i]);
        if chars[i] != '"' {
            lemma_string_body_extend(chars, ext, i + 1);
        }
    }
}

/// Consuming characters inside the input is the same in the extended
/// input.
proof fn lemma_advance_over_extend(st: LexSt, ext: Seq<char>, e: int)
    requires
        st.wf(),
        st.pos <= e <= st.chars.len(),
    ensures
        advance_over(extend(st, ext), e) == extend(advance_over(st, e), ext),
    decreases e - st.pos,
{
    if st.pos < e {
        assert((st.chars + ext)[st.pos] == st.chars[st.pos]);
        if st.chars[st.pos] == '\n' {
            assert(extend(step_line(st), ext) == step_line(extend(st, ext)));
            lemma_advance_over_extend(step_line(st), ext, e);
        } else {
            assert(extend(step_col(st), ext) == step_col(extend(st, ext)));
            lemma_advance_over_extend(step_col(st), ext, e);
        }
    }
}

/// When the prefix is clean and skipping whitespace stops on a
/// character, it stops on the same character in the extended input.
proof fn lemma_skip_ws_lockstep(st: LexSt, ext: Seq<char>)
    requires
        st.wf(),
        clean_prefix(st.chars),
        spec_skip_ws(st).pos < st.chars.len(),
    ensures
        spec_skip_ws(extend(st, ext)) == extend(spec_skip_ws(st), ext),
    decreases st.chars.len() - st.pos, 0int,
{
    lemma_skip_ws_props(st);
    if 0 <= st.pos < st.chars.len() {
        assert((st.chars + ext)[st.pos] == st.chars[st.pos]);
        let c = st.chars[st.pos];
        if is_space_char(c) {
            assert(extend(step_col(st), ext) == step_col(extend(st, ext)));
            lemma_skip_ws_lockstep(step_col(st), ext);
        } else if c == '\n' {
            assert(extend(step_line(st), ext) == step_line(extend(st, ext)));
            lemma_skip_ws_lockstep(step_line(st), ext);
        } else if c == '/' && st.pos + 1 < st.chars.len() && st.chars[st.pos + 1] == '/' {
            // a slash rules out the slash-free case, so the prefix ends
            // with a newline
            assert(st.chars.last() == '\n');
            assert((st.chars + ext)[st.pos + 1] == st.chars[st.pos + 1]);
            assert(extend(step_col(step_col(st)), ext) == step_col(step_col(extend(st, ext))));
            lemma_skip_comment_lockstep(step_col(step_col(st)), ext);
        } else {
            // the cursor stops here in both inputs: a lone slash at the
            // last position would contradict the clean prefix
            if c == '/' {
                if st.pos + 1 == st.chars.len() {
                    assert(st.chars.last() != '/');
                } else {
                    assert((st.chars + ext)[st.pos + 1] == st.chars[st.pos + 1]);
                }
            }
        }
    }
}

/// As `lemma_skip_ws_lockstep`, from inside a comment: the comment is
/// closed by a newline inside the input.
proof fn lemma_skip_comment_lockstep(st: LexSt, ext: Seq<char>)
    requires
        st.wf(),
        clean_prefix(st.chars),
        spec_skip_comment(st).pos < st.chars.len(),
    ensures
        spec_skip_comment(extend(st, ext)) == extend(spec_skip_comment(st), ext),
    decreases st.chars.len() - st.pos, 1int,
{
    lemma_skip_comment_props(st);
    if 0 <= st.pos < st.chars.len() {
        assert((st.chars + ext)[st.pos] == st.chars[st.pos]);
        if st.chars[st.pos] == '\n' {
            lemma_skip_ws_lockstep(st, ext);
        } else {
            assert(extend(step_col(st), ext) == step_col(extend(st, ext)));
            lemma_skip_comment_lockstep(step_col(st), ext);
        }
    }
}

/// When the prefix is clean and skipping whitespace runs to its end,
/// skipping in the extended input continues from there.
proof fn lemma_skip_ws_runs_out(st: LexSt, ext: Seq<char>)
    requires
        st.wf(),
        clean_prefix(st.chars),
        spec_skip_ws(st).pos == st.chars.len(),
    ensures
        spec_skip_ws(extend(st, ext)) == spec_skip_ws(extend(spec_skip_ws(st), ext)),
    decreases st.chars.len() - st.pos, 0int,
{
    lemma_skip_ws_props(st);
    if 0 <= st.pos < st.chars.len() {
        assert((st.chars + ext)[st.pos] == st.chars[st.pos]);
        let c = st.chars[st.pos];
        if is_space_char(c) {
            assert(extend(step_col(st), ext) == step_col(extend(st, ext)));
            lemma_skip_ws_runs_out(step_col(st), ext);
        } else if c == '\n' {
            assert(extend(step_line(st), ext) == step_line(extend(st, ext)));
            lemma_skip_ws_runs_out(step_line(st), ext);
        } else if c == '/' && st.pos + 1 < st.chars.len() && st.chars[st.pos + 1] == '/' {
            // a slash rules out the slash-free case, so the prefix ends
            // with a newline
            assert(st.chars.last() == '\n');
            assert((st.chars + ext)[st.pos + 1] == st.chars[st.pos + 1]);
            assert(extend(step_col(step_col(st)), ext) == step_col(step_col(extend(st, ext))));
            // the second slash is not the trailing newline, so the
            // comment starts strictly inside the input
            assert(st.pos + 1 < st.chars.len() - 1);
            lemma_skip_comment_runs_out(step_col(step_col(st)), ext);
        }
    }
}

/// As `lemma_skip_ws_runs_out`, from inside a comment; the trailing
/// newline keeps the comment from reaching the end of the input.
proof fn lemma_skip_comment_runs_out(st: LexSt, ext: Seq<char>)
    requires
        st.wf(),
        st.pos < st.chars.len(),
        st.chars.last() == '\n',
        spec_skip_comment(st).pos == st.chars.len(),
    ensures
        spec_skip_comment(extend(st, ext)) == spec_skip_ws(extend(spec_skip_comment(st), ext)),
    decreases st.chars.len() - st.pos, 1int,
{
    lemma_skip_comment_props(st);
    assert((st.chars + ext)[st.pos] == st.chars[st.pos]);
    if st.chars[st.pos] == '\n' {
        lemma_skip_ws_runs_out(st, ext);
    } else {
        // not at the last position: the input's last character is a
        // newline and this one is not
        assert(st.pos < st.chars.len() - 1);
        assert(extend(step_col(st), ext) == step_col(extend(st, ext)));
        lemma_skip_comment_runs_out(step_col(st), ext);
    }
}

/// When the prefix is clean, scanning a token inside it gives the same
/// token over the extended input: no token can reach past the last
/// character.
proof fn lemma_scan_lockstep(st: LexSt, ext: Seq<char>)
    requires
        st.wf(),
        clean_prefix(st.chars),
        st.pos < st.chars.len(),
        spec_scan(st) is Ok,
    ensures
        spec_scan(st) matches Ok(p) ==> spec_scan(extend(st, ext)) == Ok::<
            (TokenS, LexSt),
            LexerErrorS,
        >((p.0, extend(p.1, ext))),
{
    let stx = extend(st, ext);
    assert((st.chars + ext)[st.pos] == st.chars[st.pos]);
    let c = st.chars[st.pos];
    if c == '=' {
        // '=' is not the clean last character, so the peek stays inside
        assert(st.pos < st.chars.len() - 1);
        assert((st.chars + ext)[st.pos + 1] == st.chars[st.pos + 1]);
        assert(extend(step_col(st), ext) == step_col(stx));
        assert(extend(step_col(step_col(st)), ext) == step_col(step_col(stx)));
    } else if c == '"' {
        let st1 = step_col(st);
        let e = string_body_end(st.chars, st1.pos);
        lemma_string_body_end(st.chars, st1.pos);
        assert(e < st.chars.len());
        lemma_string_body_extend(st.chars, ext, st1.pos);
        assert(extend(st1, ext) == step_col(stx));
        lemma_advance_over_extend(st1, ext, e);
        let st2 = advance_over(st1, e);
        lemma_advance_over(st1, e);
        assert(extend(step_col(st2), ext) == step_col(extend(st2, ext)));
        assert((st.chars + ext).subrange(st1.pos, e) =~= st.chars.subrange(st1.pos, e)) by {
            assert(forall|k: int|
                0 <= k < e - st1.pos ==> #[trigger] (st.chars + ext)[st1.pos + k] == st.chars[
                st1.pos + k]);
        }
    } else if is_digit_char(c) {
        let e1 = digit_run_end(st.chars, st.pos);
        lemma_digit_run_end(st.chars, st.pos);
        // the run stops inside: the clean last character is no digit
        assert(!is_digit_char(st.chars[st.chars.len() - 1]));
        assert(e1 < st.chars.len());
        lemma_digit_run_extend(st.chars, ext, st.pos);
        assert((st.chars + ext)[e1] == st.chars[e1]);
        if st.chars[e1] == '.' {
            assert(e1 < st.chars.len() - 1);
            assert((st.chars + ext)[e1 + 1] == st.chars[e1 + 1]);
            if is_digit_char(st.chars[e1 + 1]) {
                let e2 = digit_run_end(st.chars, e1 + 1);
                lemma_digit_run_end(st.chars, e1 + 1);
                assert(e2 < st.chars.len());
                lemma_digit_run_extend(st.chars, ext, e1 + 1);
            }
        }
        let e = spec_scan_number(st).1.pos;
        assert(spec_scan_number(stx).1.pos == e);
        assert((st.chars + ext).subrange(st.pos, e) =~= st.chars.subrange(st.pos, e)) by {
            assert(forall|k: int|
                0 <= k < e - st.pos ==> #[trigger] (st.chars + ext)[st.pos + k] == st.chars[st.pos
                    + k]);
        }
    } else if is_alpha_char(c) {
        let e = ident_run_end(st.chars, st.pos);
        lemma_ident_run_end(st.chars, st.pos);
        assert(!is_ident_char(st.chars[st.chars.len() - 1]));
        assert(e < st.chars.len());
        lemma_ident_run_extend(st.chars, ext, st.pos);
        assert((st.chars + ext).subrange(st.pos, e) =~= st.chars.subrange(st.pos, e)) by {
            assert(forall|k: int|
                0 <= k < e - st.pos ==> #[trigger] (st.chars + ext)[st.pos + k] == st.chars[st.pos
                    + k]);
        }
    }
}

/// When a clean prefix scans cleanly, scanning the extended input
/// yields the same token categories with the EOF replaced by the scan
/// of the extension, and fails exactly when the scan of the extension
/// fails.
pub proof fn lemma_tokens_extend(st: LexSt, ext: Seq<char>)
    requires
        st.wf(),
        clean_prefix(st.chars),
        spec_tokens(st) is Ok,
    ensures
        match (spec_tokens(extend(st, ext)), spec_tokenize(ext)) {
            (Ok(b), Ok(e)) => spec_tokens(st) matches Ok(ats) && token_kinds(b) == token_kinds(
                ats,
            ).drop_last() + token_kinds(e),
            (Err(_), Err(_)) => true,
            _ => false,
        },
    decreases st.chars.len() - st.pos,
{
    let stx = extend(st, ext);
    lemma_next_progress(st);
    let st1 = spec_skip_ws(st);
    lemma_skip_ws_props(st);
    if st1.pos >= st1.chars.len() {
        // the remaining input is blank: the extended scan continues
        // where this one ends
        lemma_skip_ws_runs_out(st, ext);
        lemma_tokens_skip_agree(stx, extend(st1, ext));
        let st1x = extend(st1, ext);
        assert(rest(st1x) =~= ext) by {
            assert(forall|k: int|
                0 <= k < ext.len() ==> #[trigger] rest(st1x)[k] == (st.chars + ext)[st.chars.len()
                    + k]);
        }
        assert(rest(LexSt::start(ext)) =~= ext);
        lemma_tokens_shift(st1x, LexSt::start(ext));
        if let Ok(ats) = spec_tokens(st) {
            assert(ats == seq![token_at(st1, TokenTypeS::EOF)]);
            assert(token_kinds(ats).drop_last() =~= Seq::<TokenTypeS>::empty());
            if let Ok(b) = spec_tokens(stx) {
                if let Ok(e) = spec_tokenize(ext) {
                    assert(token_kinds(b) =~= token_kinds(ats).drop_last() + token_kinds(e));
                }
            }
        }
    } else {
        lemma_skip_ws_lockstep(st, ext);
        lemma_scan_progress(st1);
        let (t, st2) = spec_next(st)->Ok_0;
        lemma_scan_lockstep(st1, ext);
        assert(spec_next(stx) == Ok::<(TokenS, LexSt), LexerErrorS>((t, extend(st2, ext))));
        if t.token_type is EOF {
            // a scanned token is never EOF when the cursor stands on a
            // character
            assert(false);
        }
        lemma_scanner_output_well_formed(st2);
        lemma_tokens_extend(st2, ext);
        let st2x = extend(st2, ext);
        if let Ok(arest) = spec_tokens(st2) {
            assert(spec_tokens(st) == Ok::<Seq<TokenS>, LexerErrorS>(seq![t] + arest));
            assert(arest.len() >= 1);
            match (spec_tokens(st2x), spec_tokenize(ext)) {
                (Ok(brest), Ok(e)) => {
                    assert(spec_tokens(stx) == Ok::<Seq<TokenS>, LexerErrorS>(seq![t] + brest));
                    assert(token_kinds(seq![t] + arest) =~= seq![t.token_type] + token_kinds(
                        arest,
                    ));
                    assert(token_kinds(seq![t] + brest) =~= seq![t.token_type] + token_kinds(
                        brest,
                    ));
                    assert(token_kinds(seq![t] + arest).drop_last() =~= seq![t.token_type]
                        + token_kinds(arest).drop_last());
                    assert(token_kinds(brest) == token_kinds(arest).drop_last() + token_kinds(e));
                    assert(seq![t.token_type] + (token_kinds(arest).drop_last() + token_kinds(e))
                        =~= (seq![t.token_type] + token_kinds(arest).drop_last()) + token_kinds(
                        e,
                    ));
                },
                (Err(_), Err(_)) => {
                    assert(spec_tokens(stx) is Err);
                },
                _ => {},
            }
        }
    }
}

/// Replacing one blank run by another after any cleanly scanning clean
/// prefix changes neither whether the whole scan succeeds nor the token
/// categories it produces: formatting between tokens is invisible to
/// the scanner.
pub proof fn lemma_whitespace_at_boundaries(
    x: Seq<char>,
    w1: Seq<char>,
    w2: Seq<char>,
    y: Seq<char>,
)
    requires
        clean_prefix(x),
        spec_tokenize(x) is Ok,
        forall|k: int| 0 <= k < w1.len() ==> is_blank_char(#[trigger] w1[k]),
        forall|k: int| 0 <= k < w2.len() ==> is_blank_char(#[trigger] w2[k]),
    ensures
        match (spec_tokenize(x + w1 + y), spec_tokenize(x + w2 + y)) {
            (Ok(a), Ok(b)) => token_kinds(a) == token_kinds(b),
            (Err(_), Err(_)) => true,
            _ => false,
        },
{
    let s0 = LexSt::start(x);
    lemma_tokens_extend(s0, w1 + y);
    lemma_tokens_extend(s0, w2 + y);
    assert(extend(s0, w1 + y) == LexSt::start(x + w1 + y)) by {
        assert(x + (w1 + y) =~= x + w1 + y);
    }
    assert(extend(s0, w2 + y) == LexSt::start(x + w2 + y)) by {
        assert(x + (w2 + y) =~= x + w2 + y);
    }
    lemma_whitespace_insensitive(w1, y);
    lemma_whitespace_insensitive(w2, y);
}

/// Inserting a comment, ended by its newline, after any cleanly
/// scanning clean prefix changes neither whether the whole scan
/// succeeds nor the token categories it produces.
pub proof fn lemma_comment_at_boundaries(x: Seq<char>, text: Seq<char>, y: Seq<char>)
    requires
        clean_prefix(x),
        spec_tokenize(x) is Ok,
        forall|k: int| 0 <= k < text.len() ==> (#[trigger] text[k]) != '\n',
    ensures
        ({
            let c = seq!['/', '/'] + text + seq!['\n'];
            match (spec_tokenize(x + c + y), spec_tokenize(x + y)) {
                (Ok(a), Ok(b)) => token_kinds(a) == token_kinds(b),
                (Err(_), Err(_)) => true,
                _ => false,
            }
        }),
{
    let c = seq!['/', '/'] + text + seq!['\n'];
    let s0 = LexSt::start(x);
    lemma_tokens_extend(s0, c + y);
    lemma_tokens_extend(s0, y);
    assert(extend(s0, c + y) == LexSt::start(x + c + y)) by {
        assert(x + (c + y) =~= x + c + y);
    }
    assert(extend(s0, y) == LexSt::start(x + y));
    lemma_comment_insensitive(text, y);
}


/// The canonical token sequence of a type name.
pub open spec fn type_toks(t: TypeS) -> Seq<TokenTypeS> {
    match t {
        TypeS::Number => seq![TokenTypeS::Number],
        TypeS::String => seq![TokenTypeS::String],
        TypeS::Boolean => seq![TokenTypeS::Boolean],
        TypeS::Custom(n) => seq![TokenTypeS::Identifier(n)],
    }
}

/// The canonical token sequence of an expression: literals and
/// identifiers as one token, an object literal braced, its fields
/// separated by commas, without a trailing comma.
pub open spec fn expr_toks(e: ExprS) -> Seq<TokenTypeS>
    decreases e,
{
    match e {
        ExprS::NumberLiteral(s) => seq![TokenTypeS::NumberLiteral(s)],
        ExprS::StringLiteral(s) => seq![TokenTypeS::StringLiteral(s)],
        ExprS::BooleanLiteral(b) => seq![TokenTypeS::BooleanLiteral(b)],
        ExprS::Identifier(n) => seq![TokenTypeS::Identifier(n)],
        ExprS::Object { fields } => seq![TokenTypeS::LeftBrace] + object_fields_toks(fields, 0)
            + seq![TokenTypeS::RightBrace],
    }
}

/// The canonical token sequence of an object literal's fields from the
/// `j`-th on.
pub open spec fn object_fields_toks(fs: Seq<(Seq<char>, ExprS)>, j: int) -> Seq<TokenTypeS>
    decreases fs, fs.len() - j,
{
    if 0 <= j < fs.len() {
        seq![TokenTypeS::Identifier(fs[j].0), TokenTypeS::Colon] + expr_toks(fs[j].1) + (if j
            + 1 < fs.len() {
            seq![TokenTypeS::Comma] + object_fields_toks(fs, j + 1)
        } else {
            Seq::empty()
        })
    } else {
        Seq::empty()
    }
}

/// The tokens under the cursor spell out `nt`.
pub open spec fn toks_match(toks: Seq<TokenS>, i: int, nt: Seq<TokenTypeS>) -> bool {
    &&& 0 <= i
    &&& i + nt.len() <= toks.len()
    &&& forall|k: int| 0 <= k < nt.len() ==> (#[trigger] toks[i + k]).token_type == nt[k]
}

/// Parsing a rendered type name gives back exactly that type.
proof fn lemma_type_complete(toks: Seq<TokenS>, i: int, t: TypeS)
    requires
        toks_match(toks, i, type_toks(t)),
    ensures
        spec_parse_type(toks, i) == Ok::<(TypeS, int), ParseErrorS>((t, i + 1)),
{
    assert(toks[i + 0].token_type == type_toks(t)[0]);
}

/// Parsing a rendered expression gives back exactly that expression:
/// in particular object fields come back in source order, kept one by
/// one, duplicates included.
pub proof fn lemma_expr_complete(toks: Seq<TokenS>, i: int, e: ExprS)
    requires
        toks_match(toks, i, expr_toks(e)),
    ensures
        spec_parse_expression(toks, i) == Ok::<(ExprS, int), ParseErrorS>(
            (e, i + expr_toks(e).len()),
        ),
    decreases e, 0int,
{
    assert(toks[i + 0].token_type == expr_toks(e)[0]);
    match e {
        ExprS::Object { fields } => {
            let ft = object_fields_toks(fields, 0);
            assert(expr_toks(e)[0] == TokenTypeS::LeftBrace);
            assert(toks[i + (1 + ft.len())].token_type == expr_toks(e)[1 + ft.len() as int]);
            assert(expr_toks(e)[1 + ft.len() as int] == TokenTypeS::RightBrace);
            assert(toks_match(toks, i + 1, ft)) by {
                assert forall|k: int| 0 <= k < ft.len() implies (#[trigger] toks[i + 1
                    + k]).token_type == ft[k] by {
                    assert(toks[i + (1 + k)].token_type == expr_toks(e)[1 + k]);
                    assert(expr_toks(e)[1 + k] == ft[k]);
                }
            }
            lemma_object_fields_complete(toks, i + 1, fields, 0);
            assert(fields.skip(0) =~= fields);
        },
        _ => {},
    }
}

/// Parsing the rendered fields of an object literal, followed by the
/// closing brace, gives back exactly the fields from the `j`-th on, in
/// order.
proof fn lemma_object_fields_complete(
    toks: Seq<TokenS>,
    i: int,
    fs: Seq<(Seq<char>, ExprS)>,
    j: int,
)
    requires
        0 <= j <= fs.len(),
        toks_match(toks, i, object_fields_toks(fs, j)),
        i + object_fields_toks(fs, j).len() < toks.len(),
        toks[i + object_fields_toks(fs, j).len()].token_type is RightBrace,
    ensures
        spec_parse_object_fields(toks, i) == Ok::<(Seq<(Seq<char>, ExprS)>, int), ParseErrorS>(
            (fs.skip(j), i + object_fields_toks(fs, j).len()),
        ),
    decreases fs, fs.len() - j, 1int,
{
    let ft = object_fields_toks(fs, j);
    if j == fs.len() {
        assert(ft.len() == 0);
        assert(tok(toks, i).token_type is RightBrace);
        assert(fs.skip(j) =~= Seq::<(Seq<char>, ExprS)>::empty());
    } else {
        let et = expr_toks(fs[j].1);
        assert(toks[i + 0].token_type == ft[0]);
        assert(ft[0] == TokenTypeS::Identifier(fs[j].0));
        assert(toks[i + 1].token_type == ft[1]);
        assert(ft[1] == TokenTypeS::Colon);
        assert(toks_match(toks, i + 2, et)) by {
            assert forall|k: int| 0 <= k < et.len() implies (#[trigger] toks[i + 2
                + k]).token_type == et[k] by {
                assert(toks[i + (2 + k)].token_type == ft[2 + k]);
                assert(ft[2 + k] == et[k]);
            }
        }
        lemma_expr_complete(toks, i + 2, fs[j].1);
        let q = i + 2 + et.len();
        if j + 1 < fs.len() {
            assert(toks[i + (2 + et.len())].token_type == ft[2 + et.len() as int]);
            assert(ft[2 + et.len() as int] == TokenTypeS::Comma);
            let rt = object_fields_toks(fs, j + 1);
            assert(toks_match(toks, q + 1, rt)) by {
                assert forall|k: int| 0 <= k < rt.len() implies (#[trigger] toks[q + 1
                    + k]).token_type == rt[k] by {
                    assert(toks[i + (3 + et.len() + k)].token_type == ft[3 + et.len() + k]);
                    assert(ft[3 + et.len() + k] == (seq![TokenTypeS::Comma] + rt)[1 + k]);
                    assert((seq![TokenTypeS::Comma] + rt)[1 + k] == rt[k]);
                }
            }
            assert(i + ft.len() == q + 1 + rt.len());
            lemma_object_fields_complete(toks, q + 1, fs, j + 1);
            assert(seq![(fs[j].0, fs[j].1)] + fs.skip(j + 1) =~= fs.skip(j));
        } else {
            // the next token is the closing brace, not a comma
            assert(toks[i + ft.len()].token_type is RightBrace);
            assert(q == i + ft.len());
            lemma_object_fields_complete(toks, q, fs, j + 1);
            assert(seq![(fs[j].0, fs[j].1)] + fs.skip(j + 1) =~= fs.skip(j));
        }
    }
}


/// The canonical token sequence of a type definition's fields from the
/// `j`-th on, separated by commas, without a trailing comma.
pub open spec fn type_fields_toks(fs: Seq<TypeFieldS>, j: int) -> Seq<TokenTypeS>
    decreases fs.len() - j,
{
    if 0 <= j < fs.len() {
        seq![TokenTypeS::Identifier(fs[j].name), TokenTypeS::Colon] + type_toks(fs[j].field_type)
            + (if j + 1 < fs.len() {
            seq![TokenTypeS::Comma] + type_fields_toks(fs, j + 1)
        } else {
            Seq::empty()
        })
    } else {
        Seq::empty()
    }
}

/// The canonical token sequence of a statement.
pub open spec fn stmt_toks(st: StatementS) -> Seq<TokenTypeS> {
    match st {
        StatementS::Let { name, value } => seq![
            TokenTypeS::Let,
            TokenTypeS::Identifier(name),
            TokenTypeS::Equals,
        ] + expr_toks(value),
        StatementS::Const { name, value } => seq![
            TokenTypeS::Const,
            TokenTypeS::Identifier(name),
            TokenTypeS::Equals,
        ] + expr_toks(value),
        StatementS::TypeDef(d) => seq![
            TokenTypeS::Type,
            TokenTypeS::Identifier(d.name),
            TokenTypeS::Arrow,
            TokenTypeS::LeftBrace,
        ] + type_fields_toks(d.fields, 0) + seq![TokenTypeS::RightBrace],
    }
}

/// The canonical token sequence of a statement list from the `j`-th
/// statement on.
pub open spec fn stmts_toks(ss: Seq<StatementS>, j: int) -> Seq<TokenTypeS>
    decreases ss.len() - j,
{
    if 0 <= j < ss.len() {
        stmt_toks(ss[j]) + stmts_toks(ss, j + 1)
    } else {
        Seq::empty()
    }
}

/// The canonical token sequence of a module.
pub open spec fn module_toks(m: ModuleS) -> Seq<TokenTypeS> {
    seq![TokenTypeS::Module, TokenTypeS::Identifier(m.name), TokenTypeS::LeftBrace] + stmts_toks(
        m.statements,
        0,
    ) + seq![TokenTypeS::RightBrace]
}

/// The canonical token sequence of a module list from the `j`-th
/// module on.
pub open spec fn program_toks(ms: Seq<ModuleS>, j: int) -> Seq<TokenTypeS>
    decreases ms.len() - j,
{
    if 0 <= j < ms.len() {
        module_toks(ms[j]) + program_toks(ms, j + 1)
    } else {
        Seq::empty()
    }
}

/// Parsing the rendered fields of a type definition, followed by the
/// closing brace, gives back exactly the fields from the `j`-th on, in
/// order.
proof fn lemma_type_fields_complete(toks: Seq<TokenS>, i: int, fs: Seq<TypeFieldS>, j: int)
    requires
        0 <= j <= fs.len(),
        toks_match(toks, i, type_fields_toks(fs, j)),
        i + type_fields_toks(fs, j).len() < toks.len(),
        toks[i + type_fields_toks(fs, j).len()].token_type is RightBrace,
    ensures
        spec_parse_type_fields(toks, i) == Ok::<(Seq<TypeFieldS>, int), ParseErrorS>(
            (fs.skip(j), i + type_fields_toks(fs, j).len()),
        ),
    decreases fs.len() - j,
{
    let ft = type_fields_toks(fs, j);
    if j == fs.len() {
        assert(ft.len() == 0);
        assert(tok(toks, i).token_type is RightBrace);
        assert(fs.skip(j) =~= Seq::<TypeFieldS>::empty());
    } else {
        let tt = type_toks(fs[j].field_type);
        assert(tt.len() == 1);
        assert(toks[i + 0].token_type == ft[0]);
        assert(ft[0] == TokenTypeS::Identifier(fs[j].name));
        assert(toks[i + 1].token_type == ft[1]);
        assert(ft[1] == TokenTypeS::Colon);
        assert(toks_match(toks, i + 2, tt)) by {
            assert(toks[i + (2 + 0)].token_type == ft[2int]);
            assert(ft[2] == tt[0]);
        }
        lemma_type_complete(toks, i + 2, fs[j].field_type);
        let q = i + 3;
        assert(fs[j] == (TypeFieldS { name: fs[j].name, field_type: fs[j].field_type }));
        if j + 1 < fs.len() {
            assert(toks[i + 3].token_type == ft[3]);
            assert(ft[3] == TokenTypeS::Comma);
            let rt = type_fields_toks(fs, j + 1);
            assert(toks_match(toks, q + 1, rt)) by {
                assert forall|k: int| 0 <= k < rt.len() implies (#[trigger] toks[q + 1
                    + k]).token_type == rt[k] by {
                    assert(toks[i + (4 + k)].token_type == ft[4 + k]);
                    assert(ft[4 + k] == (seq![TokenTypeS::Comma] + rt)[1 + k]);
                    assert((seq![TokenTypeS::Comma] + rt)[1 + k] == rt[k]);
                }
            }
            assert(i + ft.len() == q + 1 + rt.len());
            lemma_type_fields_complete(toks, q + 1, fs, j + 1);
            assert(seq![fs[j]] + fs.skip(j + 1) =~= fs.skip(j));
        } else {
            assert(toks[i + ft.len()].token_type is RightBrace);
            assert(q == i + ft.len());
            lemma_type_fields_complete(toks, q, fs, j + 1);
            assert(seq![fs[j]] + fs.skip(j + 1) =~= fs.skip(j));
        }
    }
}

/// Parsing a rendered statement gives back exactly that statement.
proof fn lemma_stmt_complete(toks: Seq<TokenS>, i: int, st: StatementS)
    requires
        toks_match(toks, i, stmt_toks(st)),
    ensures
        spec_parse_statement(toks, i) == Ok::<(StatementS, int), ParseErrorS>(
            (st, i + stmt_toks(st).len()),
        ),
{
    let nt = stmt_toks(st);
    assert(toks[i + 0].token_type == nt[0]);
    match st {
        StatementS::Let { name, value } => {
            let et = expr_toks(value);
            assert(toks[i + 1].token_type == nt[1] && nt[1] == TokenTypeS::Identifier(name));
            assert(toks[i + 2].token_type == nt[2] && nt[2] == TokenTypeS::Equals);
            assert(toks_match(toks, i + 3, et)) by {
                assert forall|k: int| 0 <= k < et.len() implies (#[trigger] toks[i + 3
                    + k]).token_type == et[k] by {
                    assert(toks[i + (3 + k)].token_type == nt[3 + k]);
                    assert(nt[3 + k] == et[k]);
                }
            }
            lemma_expr_complete(toks, i + 3, value);
        },
        StatementS::Const { name, value } => {
            let et = expr_toks(value);
            assert(toks[i + 1].token_type == nt[1] && nt[1] == TokenTypeS::Identifier(name));
            assert(toks[i + 2].token_type == nt[2] && nt[2] == TokenTypeS::Equals);
            assert(toks_match(toks, i + 3, et)) by {
                assert forall|k: int| 0 <= k < et.len() implies (#[trigger] toks[i + 3
                    + k]).token_type == et[k] by {
                    assert(toks[i + (3 + k)].token_type == nt[3 + k]);
                    assert(nt[3 + k] == et[k]);
                }
            }
            lemma_expr_complete(toks, i + 3, value);
        },
        StatementS::TypeDef(d) => {
            let ft = type_fields_toks(d.fields, 0);
            assert(toks[i + 1].token_type == nt[1] && nt[1] == TokenTypeS::Identifier(d.name));
            assert(toks[i + 2].token_type == nt[2] && nt[2] == TokenTypeS::Arrow);
            assert(toks[i + 3].token_type == nt[3] && nt[3] == TokenTypeS::LeftBrace);
            assert(toks_match(toks, i + 4, ft)) by {
                assert forall|k: int| 0 <= k < ft.len() implies (#[trigger] toks[i + 4
                    + k]).token_type == ft[k] by {
                    assert(toks[i + (4 + k)].token_type == nt[4 + k]);
                    assert(nt[4 + k] == ft[k]);
                }
            }
            assert(toks[i + (4 + ft.len())].token_type == nt[4 + ft.len() as int]);
            assert(nt[4 + ft.len() as int] == TokenTypeS::RightBrace);
            lemma_type_fields_complete(toks, i + 4, d.fields, 0);
            assert(d.fields.skip(0) =~= d.fields);
            assert(d == (TypeDefinitionS { name: d.name, fields: d.fields }));
        },
    }
}

/// Parsing a rendered statement list, followed by the closing brace,
/// gives back exactly the statements from the `j`-th on, in order.
proof fn lemma_stmts_complete(toks: Seq<TokenS>, i: int, ss: Seq<StatementS>, j: int)
    requires
        0 <= j <= ss.len(),
        toks_match(toks, i, stmts_toks(ss, j)),
        i + stmts_toks(ss, j).len() < toks.len(),
        toks[i + stmts_toks(ss, j).len()].token_type is RightBrace,
    ensures
        spec_parse_statements(toks, i) == Ok::<(Seq<StatementS>, int), ParseErrorS>(
            (ss.skip(j), i + stmts_toks(ss, j).len()),
        ),
    decreases ss.len() - j,
{
    let lt = stmts_toks(ss, j);
    if j == ss.len() {
        assert(lt.len() == 0);
        assert(tok(toks, i).token_type is RightBrace);
        assert(ss.skip(j) =~= Seq::<StatementS>::empty());
    } else {
        let ht = stmt_toks(ss[j]);
        assert(toks_match(toks, i, ht)) by {
            assert forall|k: int| 0 <= k < ht.len() implies (#[trigger] toks[i + k]).token_type
                == ht[k] by {
                assert(toks[i + k].token_type == lt[k]);
                assert(lt[k] == ht[k]);
            }
        }
        lemma_stmt_complete(toks, i, ss[j]);
        let q = i + ht.len();
        let rt = stmts_toks(ss, j + 1);
        assert(toks_match(toks, q, rt)) by {
            assert forall|k: int| 0 <= k < rt.len() implies (#[trigger] toks[q + k]).token_type
                == rt[k] by {
                assert(toks[i + (ht.len() + k)].token_type == lt[ht.len() + k]);
                assert(lt[ht.len() + k] == rt[k]);
            }
        }
        lemma_stmts_complete(toks, q, ss, j + 1);
        // the statement keyword keeps the list's base case from firing
        assert(!(tok(toks, i).token_type is RightBrace));
        assert(seq![ss[j]] + ss.skip(j + 1) =~= ss.skip(j));
    }
}

/// Parsing a rendered module after its 'module' keyword gives back
/// exactly that module.
proof fn lemma_module_complete(toks: Seq<TokenS>, i: int, m: ModuleS)
    requires
        toks_match(toks, i, module_toks(m)),
    ensures
        spec_parse_module(toks, i + 1) == Ok::<(ModuleS, int), ParseErrorS>(
            (m, i + module_toks(m).len()),
        ),
{
    let nt = module_toks(m);
    let st = stmts_toks(m.statements, 0);
    assert(toks[i + 1].token_type == nt[1] && nt[1] == TokenTypeS::Identifier(m.name));
    assert(toks[i + 2].token_type == nt[2] && nt[2] == TokenTypeS::LeftBrace);
    assert(toks_match(toks, i + 3, st)) by {
        assert forall|k: int| 0 <= k < st.len() implies (#[trigger] toks[i + 3 + k]).token_type
            == st[k] by {
            assert(toks[i + (3 + k)].token_type == nt[3 + k]);
            assert(nt[3 + k] == st[k]);
        }
    }
    assert(toks[i + (3 + st.len())].token_type == nt[3 + st.len() as int]);
    assert(nt[3 + st.len() as int] == TokenTypeS::RightBrace);
    lemma_stmts_complete(toks, i + 3, m.statements, 0);
    assert(m.statements.skip(0) =~= m.statements);
    assert(m == (ModuleS { name: m.name, statements: m.statements }));
}

/// Parsing a rendered module list ended by EOF gives back exactly the
/// modules from the `j`-th on, in order.
proof fn lemma_modules_complete(toks: Seq<TokenS>, i: int, ms: Seq<ModuleS>, j: int)
    requires
        0 <= j <= ms.len(),
        toks_match(toks, i, program_toks(ms, j)),
        i + program_toks(ms, j).len() < toks.len(),
        toks[i + program_toks(ms, j).len()].token_type is EOF,
    ensures
        spec_parse_program(toks, i) == Ok::<(Seq<ModuleS>, int), ParseErrorS>(
            (ms.skip(j), i + program_toks(ms, j).len()),
        ),
    decreases ms.len() - j,
{
    let lt = program_toks(ms, j);
    if j == ms.len() {
        assert(lt.len() == 0);
        assert(at_end(toks, i));
        assert(ms.skip(j) =~= Seq::<ModuleS>::empty());
    } else {
        let ht = module_toks(ms[j]);
        assert(toks_match(toks, i, ht)) by {
            assert forall|k: int| 0 <= k < ht.len() implies (#[trigger] toks[i + k]).token_type
                == ht[k] by {
                assert(toks[i + k].token_type == lt[k]);
                assert(lt[k] == ht[k]);
            }
        }
        assert(toks[i + 0].token_type == ht[0] && ht[0] == TokenTypeS::Module);
        lemma_module_complete(toks, i, ms[j]);
        let q = i + ht.len();
        let rt = program_toks(ms, j + 1);
        assert(toks_match(toks, q, rt)) by {
            assert forall|k: int| 0 <= k < rt.len() implies (#[trigger] toks[q + k]).token_type
                == rt[k] by {
                assert(toks[i + (ht.len() + k)].token_type == lt[ht.len() + k]);
                assert(lt[ht.len() + k] == rt[k]);
            }
        }
        lemma_modules_complete(toks, q, ms, j + 1);
        assert(seq![ms[j]] + ms.skip(j + 1) =~= ms.skip(j));
    }
}

/// Every valid program parses: a token stream spelling out a program's
/// declared structure — its modules, their statements, every field
/// list, in order — and ended by EOF parses to exactly that program,
/// so every count in the result matches the structure declared.
pub proof fn lemma_valid_program_parses(toks: Seq<TokenS>, p: ProgramS)
    requires
        toks_match(toks, 0, program_toks(p.modules, 0)),
        toks.len() == program_toks(p.modules, 0).len() + 1,
        toks.last().token_type is EOF,
    ensures
        spec_parse(toks) == Ok::<ProgramS, ParseErrorS>(p),
{
    lemma_modules_complete(toks, 0, p.modules, 0);
    assert(p.modules.skip(0) =~= p.modules);
    assert(p == (ProgramS { modules: p.modules }));
}


/// The 1-indexed line of position `p` in a text: one more than the
/// count of newlines before it.
pub open spec fn line_of(s: Seq<char>, p: int) -> int
    decreases p,
{
    if p <= 0 {
        1
    } else {
        line_of(s, p - 1) + (if s[p - 1] == '\n' {
            1int
        } else {
            0int
        })
    }
}

/// The 1-indexed column of position `p` in a text: its distance from
/// the newline before it.
pub open spec fn col_of(s: Seq<char>, p: int) -> int
    decreases p,
{
    if p <= 0 {
        1
    } else if s[p - 1] == '\n' {
        1
    } else {
        col_of(s, p - 1) + 1
    }
}

/// A scanner state whose counters agree with the true coordinates of
/// its cursor.
pub open spec fn coords_ok(st: LexSt) -> bool {
    st.line == line_of(st.chars, st.pos) && st.col == col_of(st.chars, st.pos)
}

/// A lexical error that points at its own cause: an unexpected
/// character's position is the coordinate of an occurrence of that
/// character, and an unterminated string is reported at the end of the
/// input. The other two kinds are never produced.
pub open spec fn lex_error_located(s: Seq<char>, e: LexerErrorS) -> bool {
    match e {
        LexerErrorS::UnexpectedCharacter { char, line, column } => exists|p: int|
            0 <= p < s.len() && s[p] == char && line == line_of(s, p) && column == col_of(s, p),
        LexerErrorS::UnterminatedString { line, column } => line == line_of(s, s.len() as int)
            && column == col_of(s, s.len() as int),
        LexerErrorS::InvalidNumber { .. } => false,
        LexerErrorS::UnexpectedEOF { .. } => false,
    }
}

/// Over a stretch without newlines the column advances by one per
/// character and the line stands still.
proof fn lemma_run_coords(s: Seq<char>, i: int, e: int)
    requires
        0 <= i <= e,
        forall|k: int| i <= k < e ==> (#[trigger] s[k]) != '\n',
    ensures
        col_of(s, e) == col_of(s, i) + (e - i),
        line_of(s, e) == line_of(s, i),
    decreases e - i,
{
    if i < e {
        lemma_run_coords(s, i, e - 1);
    }
}

/// Consuming characters keeps the coordinates true.
proof fn lemma_advance_over_coords(st: LexSt, e: int)
    requires
        st.wf(),
        coords_ok(st),
        st.pos <= e <= st.chars.len(),
    ensures
        coords_ok(advance_over(st, e)),
    decreases e - st.pos,
{
    if st.pos < e {
        if st.chars[st.pos] == '\n' {
            lemma_advance_over_coords(step_line(st), e);
        } else {
            lemma_advance_over_coords(step_col(st), e);
        }
    }
}

/// Skipping whitespace keeps the coordinates true.
proof fn lemma_skip_ws_coords(st: LexSt)
    requires
        st.wf(),
        coords_ok(st),
    ensures
        coords_ok(spec_skip_ws(st)),
    decreases st.chars.len() - st.pos, 0int,
{
    if 0 <= st.pos < st.chars.len() {
        let c = st.chars[st.pos];
        if is_space_char(c) {
            lemma_skip_ws_coords(step_col(st));
        } else if c == '\n' {
            lemma_skip_ws_coords(step_line(st));
        } else if c == '/' && st.pos + 1 < st.chars.len() && st.chars[st.pos + 1] == '/' {
            assert(coords_ok(step_col(st)));
            assert(coords_ok(step_col(step_col(st))));
            lemma_skip_comment_coords(step_col(step_col(st)));
        }
    }
}

/// As `lemma_skip_ws_coords`, for the comment tail.
proof fn lemma_skip_comment_coords(st: LexSt)
    requires
        st.wf(),
        coords_ok(st),
    ensures
        coords_ok(spec_skip_comment(st)),
    decreases st.chars.len() - st.pos, 1int,
{
    if 0 <= st.pos < st.chars.len() {
        if st.chars[st.pos] == '\n' {
            lemma_skip_ws_coords(st);
        } else {
            lemma_skip_comment_coords(step_col(st));
        }
    }
}

/// Scanning one token keeps the coordinates true, and any error it
/// reports points at its own cause.
proof fn lemma_scan_located(st: LexSt)
    requires
        st.wf(),
        st.pos < st.chars.len(),
        coords_ok(st),
    ensures
        match spec_scan(st) {
            Ok((_t, st2)) => coords_ok(st2),
            Err(e) => lex_error_located(st.chars, e),
        },
{
    let c = st.chars[st.pos];
    if c == '=' {
        assert(coords_ok(step_col(st)));
        if st.pos + 1 < st.chars.len() && st.chars[st.pos + 1] == '>' {
            assert(coords_ok(step_col(step_col(st))));
        }
    } else if c == '"' {
        let st1 = step_col(st);
        let e = string_body_end(st.chars, st1.pos);
        lemma_string_body_end(st.chars, st1.pos);
        lemma_advance_over_coords(st1, e);
        lemma_advance_over(st1, e);
    } else if is_digit_char(c) {
        let e1 = digit_run_end(st.chars, st.pos);
        lemma_digit_run_end(st.chars, st.pos);
        let e2 = spec_scan_number(st).1.pos;
        if e1 + 1 < st.chars.len() && st.chars[e1] == '.' && is_digit_char(st.chars[e1 + 1]) {
            lemma_digit_run_end(st.chars, e1 + 1);
        }
        assert(forall|k: int| st.pos <= k < e2 ==> (#[trigger] st.chars[k]) != '\n');
        lemma_run_coords(st.chars, st.pos, e2);
    } else if is_alpha_char(c) {
        let e = ident_run_end(st.chars, st.pos);
        lemma_ident_run_end(st.chars, st.pos);
        assert(forall|k: int| st.pos <= k < e ==> (#[trigger] st.chars[k]) != '\n');
        lemma_run_coords(st.chars, st.pos, e);
    } else if !(c == '{' || c == '}' || c == '(' || c == ')' || c == ':' || c == '.' || c == ','
        || c == '=') {
        let err = LexerErrorS::UnexpectedCharacter {
            char: c,
            line: st.line as nat,
            column: st.col as nat,
        };
        assert(0 <= st.pos < st.chars.len() && st.chars[st.pos] == c && st.line == line_of(
            st.chars,
            st.pos,
        ) && st.col == col_of(st.chars, st.pos));
        assert(lex_error_located(st.chars, err));
    }
}

/// Every error of a whole scan from a coordinate-true state points at
/// its own cause; only the two reachable error kinds ever come out.
proof fn lemma_tokens_located(st: LexSt)
    requires
        st.wf(),
        coords_ok(st),
    ensures
        spec_tokens(st) matches Err(e) ==> lex_error_located(st.chars, e),
    decreases st.chars.len() - st.pos,
{
    lemma_next_progress(st);
    lemma_skip_ws_props(st);
    lemma_skip_ws_coords(st);
    let st1 = spec_skip_ws(st);
    if st1.pos < st1.chars.len() {
        lemma_scan_located(st1);
        if let Ok((t, st2)) = spec_scan(st1) {
            if !(t.token_type is EOF) {
                lemma_tokens_located(st2);
            }
        }
    }
}

/// Error locality of the scanner: when scanning a source fails, the
/// reported position is exactly the 1-indexed line and column of the
/// failure point — the offending character's own coordinates, or the
/// end of the input for a string left open — and the error is one of
/// the two kinds those failures produce.
pub proof fn lemma_lexical_error_locality(s: Seq<char>)
    ensures
        spec_tokenize(s) matches Err(e) ==> lex_error_located(s, e),
{
    let st = LexSt::start(s);
    assert(coords_ok(st));
    lemma_tokens_located(st);
}

} // verus!
