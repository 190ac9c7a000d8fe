use vstd::prelude::*;

use crate::token::{LiteralModel, TokenModel, TokenType};

verus! {

pub open spec fn is_digit_char(c: char) -> bool {
    '0' <= c && c <= '9'
}

pub open spec fn is_alpha_char(c: char) -> bool {
    ('a' <= c && c <= 'z') || ('A' <= c && c <= 'Z') || c == '_'
}

pub open spec fn is_alphanumeric_char(c: char) -> bool {
    is_alpha_char(c) || is_digit_char(c)
}

/// Space, carriage return and horizontal tab: skipped without effect.
pub open spec fn is_blank_char(c: char) -> bool {
    c == ' ' || c == '\r' || c == '\t'
}

/// The kind of a token that is always exactly one character long.
pub open spec fn single_char_kind(c: char) -> Option<TokenType> {
    if c == '(' {
        Some(TokenType::LeftParen)
    } else if c == ')' {
        Some(TokenType::RightParen)
    } else if c == '{' {
        Some(TokenType::LeftBrace)
    } else if c == '}' {
        Some(TokenType::RightBrace)
    } else if c == ',' {
        Some(TokenType::Comma)
    } else if c == '.' {
        Some(TokenType::Dot)
    } else if c == '-' {
        Some(TokenType::Minus)
    } else if c == '+' {
        Some(TokenType::Plus)
    } else if c == ';' {
        Some(TokenType::Semicolon)
    } else if c == '*' {
        Some(TokenType::Star)
    } else {
        None
    }
}

/// For a character that may be followed by `=`: the kind on its own and the
/// kind of the two-character operator.
pub open spec fn operator_kinds(c: char) -> Option<(TokenType, TokenType)> {
    if c == '!' {
        Some((TokenType::Bang, TokenType::BangEqual))
    } else if c == '=' {
        Some((TokenType::Equal, TokenType::EqualEqual))
    } else if c == '<' {
        Some((TokenType::Less, TokenType::LessEqual))
    } else if c == '>' {
        Some((TokenType::Greater, TokenType::GreaterEqual))
    } else {
        None
    }
}

/// The reserved words and their kinds.
pub open spec fn keyword_kind(w: Seq<char>) -> Option<TokenType> {
    if w == seq!['a', 'n', 'd'] {
        Some(TokenType::And)
    } else if w == seq!['c', 'l', 'a', 's', 's'] {
        Some(TokenType::Class)
    } else if w == seq!['e', 'l', 's', 'e'] {
        Some(TokenType::Else)
    } else if w == seq!['f', 'a', 'l', 's', 'e'] {
        Some(TokenType::False)
    } else if w == seq!['f', 'o', 'r'] {
        Some(TokenType::For)
    } else if w == seq!['f', 'u', 'n'] {
        Some(TokenType::Fun)
    } else if w == seq!['i', 'f'] {
        Some(TokenType::If)
    } else if w == seq!['n', 'i', 'l'] {
        Some(TokenType::Nil)
    } else if w == seq!['o', 'r'] {
        Some(TokenType::Or)
    } else if w == seq!['p', 'r', 'i', 'n', 't'] {
        Some(TokenType::Print)
    } else if w == seq!['r', 'e', 't', 'u', 'r', 'n'] {
        Some(TokenType::Return)
    } else if w == seq!['s', 'u', 'p', 'e', 'r'] {
        Some(TokenType::Super)
    } else if w == seq!['t', 'h', 'i', 's'] {
        Some(TokenType::This)
    } else if w == seq!['t', 'r', 'u', 'e'] {
        Some(TokenType::True)
    } else if w == seq!['v', 'a', 'r'] {
        Some(TokenType::Var)
    } else if w == seq!['w', 'h', 'i', 'l', 'e'] {
        Some(TokenType::While)
    } else {
        None
    }
}

/// The kind of a scanned word: its keyword kind, or `Identifier`.
pub open spec fn word_kind(w: Seq<char>) -> TokenType {
    match keyword_kind(w) {
        Some(k) => k,
        None => TokenType::Identifier,
    }
}

/// The first position at or after `i` whose character does not satisfy `p`,
/// or the length of `s` if there is none.
pub open spec fn span_end(s: Seq<char>, i: int, p: spec_fn(char) -> bool) -> int
    decreases s.len() - i,
{
    if 0 <= i < s.len() && p(s[i]) {
        span_end(s, i + 1, p)
    } else {
        i
    }
}

pub open spec fn digit_class() -> spec_fn(char) -> bool {
    |c: char| is_digit_char(c)
}

pub open spec fn word_class() -> spec_fn(char) -> bool {
    |c: char| is_alphanumeric_char(c)
}

pub open spec fn not_newline() -> spec_fn(char) -> bool {
    |c: char| c != '\n'
}

pub open spec fn not_quote() -> spec_fn(char) -> bool {
    |c: char| c != '"'
}

/// Where a numeral ends whose leading digit stands just before `i`: the run
/// of digits, then a fraction only if `.` is followed by a digit.
pub open spec fn number_end(s: Seq<char>, i: int) -> int {
    let e = span_end(s, i, digit_class());
    if e + 1 < s.len() && s[e] == '.' && is_digit_char(s[e + 1]) {
        span_end(s, e + 1, digit_class())
    } else {
        e
    }
}

/// The number of line terminators in `s[i..j]`.
pub open spec fn newlines(s: Seq<char>, i: int, j: int) -> int
    decreases j - i,
{
    if j <= i {
        0
    } else {
        newlines(s, i, j - 1) + if s[j - 1] == '\n' {
            1int
        } else {
            0int
        }
    }
}

/// A lexical error and the line on which it was found.
#[derive(Clone, Copy, Debug, PartialEq, Eq, Structural)]
pub enum ScanErrorKind {
    UnexpectedCharacter(char),
    UnterminatedString,
}

pub struct ErrorModel {
    pub kind: ScanErrorKind,
    pub line: int,
}

/// What one scan attempt from a position does: where the next attempt
/// starts, the line counter after it, and the token or error it yields.
pub struct Step {
    pub next: int,
    pub line: int,
    pub token: Option<TokenModel>,
    pub error: Option<ErrorModel>,
}

pub open spec fn emit(s: Seq<char>, pos: int, end: int, kind: TokenType, line: int) -> Step {
    Step {
        next: end,
        line,
        token: Some(
            TokenModel { kind, lexeme: s.subrange(pos, end), literal: None, line },
        ),
        error: None,
    }
}

pub open spec fn skip(next: int, line: int) -> Step {
    Step { next, line, token: None, error: None }
}

/// One scan attempt on the character at `pos` (which must exist), with
/// `line` the current line.
pub open spec fn step(s: Seq<char>, pos: int, line: int) -> Step {
    let c = s[pos];
    if let Some(k) = single_char_kind(c) {
        emit(s, pos, pos + 1, k, line)
    } else if let Some((one, two)) = operator_kinds(c) {
        if pos + 1 < s.len() && s[pos + 1] == '=' {
            emit(s, pos, pos + 2, two, line)
        } else {
            emit(s, pos, pos + 1, one, line)
        }
    } else if c == '/' {
        if pos + 1 < s.len() && s[pos + 1] == '/' {
            skip(span_end(s, pos + 2, not_newline()), line)
        } else {
            emit(s, pos, pos + 1, TokenType::Slash, line)
        }
    } else if c == '"' {
        let e = span_end(s, pos + 1, not_quote());
        let l = line + newlines(s, pos + 1, e);
        if e >= s.len() {
            Step {
                next: e,
                line: l,
                token: None,
                error: Some(ErrorModel { kind: ScanErrorKind::UnterminatedString, line: l }),
            }
        } else {
            Step {
                next: e + 1,
                line: l,
                token: Some(
                    TokenModel {
                        kind: TokenType::String,
                        lexeme: s.subrange(pos, e + 1),
                        literal: Some(LiteralModel::Text(s.subrange(pos + 1, e))),
                        line: l,
                    },
                ),
                error: None,
            }
        }
    } else if is_blank_char(c) {
        skip(pos + 1, line)
    } else if c == '\n' {
        skip(pos + 1, line + 1)
    } else if is_digit_char(c) {
        let e = number_end(s, pos + 1);
        Step {
            next: e,
            line,
            token: Some(
                TokenModel {
                    kind: TokenType::Number,
                    lexeme: s.subrange(pos, e),
                    literal: Some(LiteralModel::Number(s.subrange(pos, e))),
                    line,
                },
            ),
            error: None,
        }
    } else if is_alpha_char(c) {
        let e = span_end(s, pos + 1, word_class());
        emit(s, pos, e, word_kind(s.subrange(pos, e)), line)
    } else {
        Step {
            next: pos + 1,
            line,
            token: None,
            error: Some(ErrorModel { kind: ScanErrorKind::UnexpectedCharacter(c), line }),
        }
    }
}

pub open spec fn option_seq<A>(o: Option<A>) -> Seq<A> {
    match o {
        Some(a) => seq![a],
        None => Seq::empty(),
    }
}

/// The outcome of scanning: the tokens and errors in order, and the line
/// counter at the end.
pub struct Scan {
    pub tokens: Seq<TokenModel>,
    pub errors: Seq<ErrorModel>,
    pub line: int,
}

/// Scanning from `pos` to the end of `s`, starting on line `line`.
pub open spec fn scan_from(s: Seq<char>, pos: int, line: int) -> Scan
    decreases s.len() - pos,
    via scan_from_decreases
{
    if 0 <= pos < s.len() {
        let st = step(s, pos, line);
        let rest = scan_from(s, st.next, st.line);
        Scan {
            tokens: option_seq(st.token) + rest.tokens,
            errors: option_seq(st.error) + rest.errors,
            line: rest.line,
        }
    } else {
        Scan { tokens: Seq::empty(), errors: Seq::empty(), line }
    }
}

#[via_fn]
proof fn scan_from_decreases(s: Seq<char>, pos: int, line: int) {
    if 0 <= pos < s.len() {
        lemma_step_advances(s, pos, line);
    }
}

/// The end-of-file marker on line `line`.
pub open spec fn eof_token(line: int) -> TokenModel {
    TokenModel { kind: TokenType::EOF, lexeme: Seq::empty(), literal: None, line }
}

/// Scanning a whole source from line 1.
pub open spec fn scan_source(s: Seq<char>) -> Scan {
    scan_from(s, 0, 1)
}

/// The token stream of a whole source: its tokens, then the end-of-file marker.
pub open spec fn token_stream(s: Seq<char>) -> Seq<TokenModel> {
    let sc = scan_source(s);
    sc.tokens.push(eof_token(sc.line))
}

pub proof fn lemma_span_end(s: Seq<char>, i: int, p: spec_fn(char) -> bool)
    requires
        0 <= i <= s.len(),
    ensures
        i <= span_end(s, i, p) <= s.len(),
        forall|k: int| i <= k < span_end(s, i, p) ==> p(#[trigger] s[k]),
        span_end(s, i, p) < s.len() ==> !p(s[span_end(s, i, p)]),
    decreases s.len() - i,
{
    if i < s.len() && p(s[i]) {
        lemma_span_end(s, i + 1, p);
    }
}

/// One step of a span: past a character that satisfies `p` the span goes on,
/// and it ends at a character that does not, or at the end.
pub proof fn lemma_span_end_next(s: Seq<char>, i: int, p: spec_fn(char) -> bool)
    requires
        0 <= i <= s.len(),
    ensures
        i < s.len() && p(s[i]) ==> span_end(s, i, p) == span_end(s, i + 1, p) && i + 1
            <= span_end(s, i, p),
        !(i < s.len() && p(s[i])) ==> span_end(s, i, p) == i,
{
    if i < s.len() && p(s[i]) {
        lemma_span_end(s, i + 1, p);
    }
}

pub proof fn lemma_newlines_bound(s: Seq<char>, i: int, j: int)
    requires
        i <= j,
    ensures
        0 <= newlines(s, i, j) <= j - i,
    decreases j - i,
{
    if j > i {
        lemma_newlines_bound(s, i, j - 1);
    }
}

/// Each scan attempt consumes at least one character, stays within the
/// source, and raises the line counter by at most the characters consumed.
pub proof fn lemma_step_advances(s: Seq<char>, pos: int, line: int)
    requires
        0 <= pos < s.len(),
    ensures
        pos < step(s, pos, line).next <= s.len(),
        line <= step(s, pos, line).line <= line + (step(s, pos, line).next - pos),
{
    let c = s[pos];
    if c == '/' && pos + 1 < s.len() && s[pos + 1] == '/' {
        lemma_span_end(s, pos + 2, not_newline());
    } else if c == '"' {
        lemma_span_end(s, pos + 1, not_quote());
        lemma_newlines_bound(s, pos + 1, span_end(s, pos + 1, not_quote()));
    } else if is_digit_char(c) {
        let e = span_end(s, pos + 1, digit_class());
        lemma_span_end(s, pos + 1, digit_class());
        if e + 1 < s.len() && s[e] == '.' && is_digit_char(s[e + 1]) {
            lemma_span_end(s, e + 1, digit_class());
        }
    } else if is_alpha_char(c) {
        lemma_span_end(s, pos + 1, word_class());
    }
}

} // verus!
