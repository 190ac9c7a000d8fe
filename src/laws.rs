use vstd::prelude::*;

use crate::lexical::{
    digit_class, eof_token, is_alpha_char, is_blank_char, is_digit_char, lemma_span_end,
    lemma_step_advances, newlines, not_newline, number_end, option_seq, not_quote, operator_kinds, scan_from, scan_source,
    single_char_kind, span_end, step, token_stream, word_class,
};
use crate::token::{LiteralModel, TokenModel, TokenType};

verus! {

/// `s` from position `i` on holds nothing but blanks, line terminators and
/// line comments.
pub open spec fn blank_from(s: Seq<char>, i: int) -> bool
    decreases s.len() - i,
    via blank_from_decreases
{
    if i < 0 || i >= s.len() {
        true
    } else if is_blank_char(s[i]) || s[i] == '\n' {
        blank_from(s, i + 1)
    } else if s[i] == '/' && i + 1 < s.len() && s[i + 1] == '/' {
        blank_from(s, span_end(s, i + 2, not_newline()))
    } else {
        false
    }
}

#[via_fn]
proof fn blank_from_decreases(s: Seq<char>, i: int) {
    if 0 <= i < s.len() && s[i] == '/' && i + 1 < s.len() && s[i + 1] == '/' {
        lemma_span_end(s, i + 2, not_newline());
    }
}

/// The source consists solely of whitespace and line comments.
pub open spec fn only_blanks_and_comments(s: Seq<char>) -> bool {
    blank_from(s, 0)
}

proof fn lemma_blank_scan(s: Seq<char>, i: int, line: int)
    requires
        0 <= i <= s.len(),
        blank_from(s, i),
    ensures
        scan_from(s, i, line).tokens.len() == 0,
        scan_from(s, i, line).errors.len() == 0,
    decreases s.len() - i,
{
    if i < s.len() {
        let st = step(s, i, line);
        if s[i] == '/' {
            lemma_span_end(s, i + 2, not_newline());
        }
        lemma_blank_scan(s, st.next, st.line);
    }
}

/// A source of nothing but whitespace and comments scans to the end-of-file
/// marker alone, without errors.
pub proof fn lemma_blank_source_yields_only_eof(s: Seq<char>)
    requires
        only_blanks_and_comments(s),
    ensures
        token_stream(s) == seq![eof_token(scan_source(s).line)],
        scan_source(s).errors.len() == 0,
{
    lemma_blank_scan(s, 0, 1);
    assert(token_stream(s) =~= seq![eof_token(scan_source(s).line)]);
}

/// The kind of a one-character punctuation or operator token.
pub open spec fn punctuation_kind(c: char) -> Option<TokenType> {
    if let Some(k) = single_char_kind(c) {
        Some(k)
    } else if let Some((one, _two)) = operator_kinds(c) {
        Some(one)
    } else if c == '/' {
        Some(TokenType::Slash)
    } else {
        None
    }
}

/// A source of a single punctuation character scans to one token of the
/// matching kind, then the end-of-file marker, without errors.
pub proof fn lemma_single_punctuation(c: char)
    requires
        punctuation_kind(c) is Some,
    ensures
        token_stream(seq![c]) == seq![
            TokenModel {
                kind: punctuation_kind(c)->0,
                lexeme: seq![c],
                literal: None,
                line: 1,
            },
            eof_token(1),
        ],
        scan_source(seq![c]).errors.len() == 0,
{
    let s = seq![c];
    assert(s.subrange(0, 1) =~= s);
    let st = step(s, 0, 1);
    assert(scan_from(s, st.next, st.line).tokens.len() == 0);
    assert(token_stream(s) =~= seq![
        TokenModel { kind: punctuation_kind(c)->0, lexeme: seq![c], literal: None, line: 1 },
        eof_token(1),
    ]);
}

/// `!`, `=`, `<` or `>` followed by `=` scans to the one two-character
/// operator token, not to two tokens.
pub proof fn lemma_two_char_operator(c: char)
    requires
        operator_kinds(c) is Some,
    ensures
        token_stream(seq![c, '=']) == seq![
            TokenModel {
                kind: (operator_kinds(c)->0).1,
                lexeme: seq![c, '='],
                literal: None,
                line: 1,
            },
            eof_token(1),
        ],
        scan_source(seq![c, '=']).errors.len() == 0,
{
    let s = seq![c, '='];
    assert(s.subrange(0, 2) =~= s);
    let st = step(s, 0, 1);
    assert(scan_from(s, st.next, st.line).tokens.len() == 0);
    assert(token_stream(s) =~= seq![
        TokenModel {
            kind: (operator_kinds(c)->0).1,
            lexeme: seq![c, '='],
            literal: None,
            line: 1,
        },
        eof_token(1),
    ]);
}

/// Scanning depends on the source alone: two scans of equal sources give
/// equal token streams and equal errors.
pub proof fn lemma_scan_deterministic(s: Seq<char>, t: Seq<char>)
    requires
        s == t,
    ensures
        token_stream(s) == token_stream(t),
        scan_source(s).errors == scan_source(t).errors,
{
}

proof fn lemma_no_eof_before_end(s: Seq<char>, i: int, line: int)
    requires
        0 <= i <= s.len(),
    ensures
        forall|k: int|
            0 <= k < scan_from(s, i, line).tokens.len() ==> #[trigger] scan_from(
                s,
                i,
                line,
            ).tokens[k].kind != TokenType::EOF,
    decreases s.len() - i,
{
    if i < s.len() {
        let st = step(s, i, line);
        lemma_step_advances(s, i, line);
        lemma_no_eof_before_end(s, st.next, st.line);
    }
}

/// Every token stream, whatever errors were found, ends with exactly one
/// end-of-file marker, and no other token is one.
pub proof fn lemma_stream_ends_with_one_eof(s: Seq<char>)
    ensures
        token_stream(s).len() >= 1,
        token_stream(s).last().kind == TokenType::EOF,
        token_stream(s).last().lexeme.len() == 0,
        token_stream(s).last().literal is None,
        forall|k: int|
            0 <= k < token_stream(s).len() - 1 ==> #[trigger] token_stream(s)[k].kind
                != TokenType::EOF,
{
    lemma_no_eof_before_end(s, 0, 1);
    let ts = scan_source(s).tokens;
    assert forall|k: int| 0 <= k < token_stream(s).len() - 1 implies #[trigger] token_stream(
        s,
    )[k].kind != TokenType::EOF by {
        assert(token_stream(s)[k] == ts[k]);
    }
}

proof fn lemma_newlines_split(s: Seq<char>, i: int, j: int, k: int)
    requires
        i <= j <= k,
    ensures
        newlines(s, i, k) == newlines(s, i, j) + newlines(s, j, k),
    decreases k - j,
{
    if k > j {
        lemma_newlines_split(s, i, j, k - 1);
    }
}

proof fn lemma_newlines_none(s: Seq<char>, i: int, j: int)
    requires
        i <= j,
        forall|k: int| i <= k < j ==> #[trigger] s[k] != '\n',
    ensures
        newlines(s, i, j) == 0,
    decreases j - i,
{
    if j > i {
        lemma_newlines_none(s, i, j - 1);
    }
}

/// One scan attempt raises the line counter by the number of line
/// terminators it consumed.
proof fn lemma_step_line(s: Seq<char>, pos: int, line: int)
    requires
        0 <= pos < s.len(),
    ensures
        step(s, pos, line).line == line + newlines(s, pos, step(s, pos, line).next),
{
    let c = s[pos];
    let st = step(s, pos, line);
    lemma_step_advances(s, pos, line);
    assert(newlines(s, pos, pos) == 0);
    if c == '"' {
        let e = span_end(s, pos + 1, not_quote());
        lemma_span_end(s, pos + 1, not_quote());
        lemma_newlines_split(s, pos, pos + 1, e);
        if e < s.len() {
            assert(newlines(s, pos, e + 1) == newlines(s, pos, e));
        }
    } else if c == '\n' {
        assert(newlines(s, pos, pos + 1) == 1);
    } else if c == '/' && pos + 1 < s.len() && s[pos + 1] == '/' {
        lemma_span_end(s, pos + 2, not_newline());
        lemma_newlines_none(s, pos, st.next);
    } else if is_digit_char(c) {
        let e1 = span_end(s, pos + 1, digit_class());
        lemma_span_end(s, pos + 1, digit_class());
        if e1 + 1 < s.len() && s[e1] == '.' && is_digit_char(s[e1 + 1]) {
            lemma_span_end(s, e1 + 1, digit_class());
        }
        lemma_newlines_none(s, pos, st.next);
    } else if is_alpha_char(c) {
        lemma_span_end(s, pos + 1, word_class());
        lemma_newlines_none(s, pos, st.next);
    } else {
        lemma_newlines_none(s, pos, st.next);
    }
}

proof fn lemma_scan_line(s: Seq<char>, i: int, line: int)
    requires
        0 <= i <= s.len(),
    ensures
        scan_from(s, i, line).line == line + newlines(s, i, s.len() as int),
    decreases s.len() - i,
{
    if i < s.len() {
        let st = step(s, i, line);
        lemma_step_advances(s, i, line);
        lemma_step_line(s, i, line);
        lemma_scan_line(s, st.next, st.line);
        lemma_newlines_split(s, i, st.next, s.len() as int);
    }
}

/// The end-of-file marker stands on line one plus the number of line
/// terminators in the source, wherever they are (between tokens, in
/// comments or inside string literals).
pub proof fn lemma_eof_line_counts_newlines(s: Seq<char>)
    ensures
        token_stream(s).last().line == 1 + newlines(s, 0, s.len() as int),
{
    lemma_scan_line(s, 0, 1);
}

/// `t` is a decimal numeral: one or more digits, optionally followed by `.`
/// and one or more digits.
pub open spec fn is_numeral(t: Seq<char>) -> bool {
    ||| (t.len() > 0 && forall|k: int| 0 <= k < t.len() ==> is_digit_char(#[trigger] t[k]))
    ||| exists|d: int|
        0 < d < t.len() - 1 && #[trigger] t[d] == '.' && forall|k: int|
            0 <= k < t.len() && k != d ==> is_digit_char(#[trigger] t[k])
}

/// What a token of each kind carries: a number its own lexeme, which is a
/// numeral; a string the text between the quotes that delimit its lexeme;
/// any other token nothing.
pub open spec fn literal_fits(t: TokenModel) -> bool {
    if t.kind == TokenType::Number {
        t.literal == Some(LiteralModel::Number(t.lexeme)) && is_numeral(t.lexeme)
    } else if t.kind == TokenType::String {
        &&& t.lexeme.len() >= 2
        &&& t.lexeme[0] == '"'
        &&& t.lexeme.last() == '"'
        &&& t.literal == Some(LiteralModel::Text(t.lexeme.subrange(1, t.lexeme.len() - 1)))
    } else {
        t.literal is None
    }
}

proof fn lemma_step_literal_fits(s: Seq<char>, pos: int, line: int)
    requires
        0 <= pos < s.len(),
    ensures
        step(s, pos, line).token matches Some(t) ==> literal_fits(t),
{
    let c = s[pos];
    if c == '"' {
        let e = span_end(s, pos + 1, not_quote());
        lemma_span_end(s, pos + 1, not_quote());
        if e < s.len() {
            let lx = s.subrange(pos, e + 1);
            assert(lx.subrange(1, lx.len() - 1) =~= s.subrange(pos + 1, e));
        }
    } else if is_digit_char(c) && single_char_kind(c) is None && operator_kinds(c) is None {
        let e1 = span_end(s, pos + 1, digit_class());
        lemma_span_end(s, pos + 1, digit_class());
        let e = number_end(s, pos + 1);
        let t = s.subrange(pos, e);
        if e1 + 1 < s.len() && s[e1] == '.' && is_digit_char(s[e1 + 1]) {
            lemma_span_end(s, e1 + 1, digit_class());
            let d = e1 - pos;
            assert(t[d] == '.');
            assert forall|k: int| 0 <= k < t.len() && k != d implies is_digit_char(
                #[trigger] t[k],
            ) by {
                assert(t[k] == s[pos + k]);
            }
        } else {
            assert forall|k: int| 0 <= k < t.len() implies is_digit_char(#[trigger] t[k]) by {
                assert(t[k] == s[pos + k]);
            }
        }
    }
}

proof fn lemma_scan_literals_fit(s: Seq<char>, i: int, line: int)
    requires
        0 <= i <= s.len(),
    ensures
        forall|k: int|
            0 <= k < scan_from(s, i, line).tokens.len() ==> literal_fits(
                #[trigger] scan_from(s, i, line).tokens[k],
            ),
    decreases s.len() - i,
{
    if i < s.len() {
        let st = step(s, i, line);
        lemma_step_advances(s, i, line);
        lemma_step_literal_fits(s, i, line);
        lemma_scan_literals_fit(s, st.next, st.line);
        let head = option_seq(st.token);
        let rest = scan_from(s, st.next, st.line).tokens;
        assert forall|k: int| 0 <= k < scan_from(s, i, line).tokens.len() implies literal_fits(
            #[trigger] scan_from(s, i, line).tokens[k],
        ) by {
            if k < head.len() {
                assert(scan_from(s, i, line).tokens[k] == head[k]);
            } else {
                assert(scan_from(s, i, line).tokens[k] == rest[k - head.len()]);
            }
        }
    }
}

/// Every token of a stream carries the literal its kind calls for: a
/// number its lexeme, always a well-formed numeral; a string its lexeme
/// without the enclosing quotes; every other token none.
pub proof fn lemma_literals_fit_kinds(s: Seq<char>)
    ensures
        forall|k: int|
            0 <= k < token_stream(s).len() ==> literal_fits(#[trigger] token_stream(s)[k]),
{
    lemma_scan_literals_fit(s, 0, 1);
    let ts = scan_source(s).tokens;
    assert forall|k: int| 0 <= k < token_stream(s).len() implies literal_fits(
        #[trigger] token_stream(s)[k],
    ) by {
        if k < ts.len() {
            assert(token_stream(s)[k] == ts[k]);
        }
    }
}

} // verus!
