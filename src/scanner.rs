use vstd::prelude::*;

use crate::lexical::{
    digit_class, eof_token, is_alpha_char, is_alphanumeric_char, is_digit_char, keyword_kind,
    lemma_newlines_bound, lemma_span_end, lemma_span_end_next, lemma_step_advances, newlines,
    not_newline, not_quote, option_seq, scan_from, span_end, step, word_class, ErrorModel,
    ScanErrorKind,
};
use crate::token::{literal_model, token_models, Literal, Token, TokenModel, TokenType};

verus! {

/// A lexical error found while scanning, and the line it was found on.
#[derive(Clone, Copy, Debug, PartialEq, Eq, Structural)]
pub struct ScanError {
    pub kind: ScanErrorKind,
    pub line: u64,
}

impl View for ScanError {
    type V = ErrorModel;

    open spec fn view(&self) -> ErrorModel {
        ErrorModel { kind: self.kind, line: self.line as int }
    }
}

pub open spec fn error_models(es: Seq<ScanError>) -> Seq<ErrorModel> {
    es.map_values(|e: ScanError| e@)
}

/// The abstract state of a scanner: the source, the cursor, the line counter,
/// and what has been produced so far.
pub struct ScannerModel {
    pub source: Seq<char>,
    pub current: int,
    pub line: int,
    pub tokens: Seq<TokenModel>,
    pub errors: Seq<ErrorModel>,
    pub has_error: bool,
}

/// Turns source text into tokens in one forward pass, recording errors and
/// going on past them.
pub struct Scanner<'a> {
    source: &'a str,
    chars: Vec<char>,
    start: usize,
    current: usize,
    line: u64,
    tokens: Vec<Token<'a>>,
    errors: Vec<ScanError>,
    pub has_error: bool,
}

impl<'a> View for Scanner<'a> {
    type V = ScannerModel;

    closed spec fn view(&self) -> ScannerModel {
        ScannerModel {
            source: self.source@,
            current: self.current as int,
            line: self.line as int,
            tokens: token_models(self.tokens@),
            errors: error_models(self.errors@),
            has_error: self.has_error,
        }
    }
}

impl<'a> Scanner<'a> {
    /// The scanner's invariant.
    pub closed spec fn wf(&self) -> bool {
        &&& self.chars@ == self.source@
        &&& self.chars@.len() < u64::MAX
        &&& self.start <= self.current <= self.chars@.len()
        &&& 1 <= self.line <= self.current + 1
        &&& self.has_error == (self.errors@.len() > 0)
    }

    /// Everything but the cursor and the line counter is as in `other`.
    spec fn same_output(&self, other: &Self) -> bool {
        &&& self.source == other.source
        &&& self.chars == other.chars
        &&& self.start == other.start
        &&& self.tokens == other.tokens
        &&& self.errors == other.errors
        &&& self.has_error == other.has_error
    }

    /// `self` is `old` after one scan attempt from `pos` on line `line`.
    spec fn follows_step(&self, old: &Self, pos: int, line: int) -> bool {
        let st = step(old@.source, pos, line);
        &&& self.wf()
        &&& self@.source == old@.source
        &&& self@.current == st.next
        &&& self@.line == st.line
        &&& self@.tokens == old@.tokens + option_seq(st.token)
        &&& self@.errors == old@.errors + option_seq(st.error)
    }

    /// A scanner at the start of `file_content`, on line 1, with nothing
    /// produced yet. The character count must leave room for the line counter.
    pub fn new(file_content: &'a String) -> (r: Self)
        requires
            file_content@.len() < u64::MAX,
        ensures
            r.wf(),
            r@ == (ScannerModel {
                source: file_content@,
                current: 0,
                line: 1,
                tokens: Seq::empty(),
                errors: Seq::empty(),
                has_error: false,
            }),
    {
        let source = file_content.as_str();
        let mut chars: Vec<char> = Vec::new();
        for c in it: source.chars()
            invariant
                chars@ == it.seq().take(it.index() as int),
                it.seq() == source@,
        {
            chars.push(c);
        }
        proof {
            assert(chars@ =~= source@);
            assert(token_models(Seq::<Token<'a>>::empty()) =~= Seq::empty());
            assert(error_models(Seq::<ScanError>::empty()) =~= Seq::empty());
        }
        Scanner {
            source,
            chars,
            start: 0,
            current: 0,
            line: 1,
            tokens: Vec::new(),
            errors: Vec::new(),
            has_error: false,
        }
    }

    fn is_at_end(&self) -> (r: bool)
        ensures
            r == (self.current >= self.chars@.len()),
    {
        self.current >= self.chars.len()
    }

    /// The character under the cursor, if any.
    fn peek(&self) -> (r: Option<char>)
        ensures
            r == if self.current < self.chars@.len() {
                Some(self.chars@[self.current as int])
            } else {
                None::<char>
            },
    {
        if self.current < self.chars.len() {
            Some(self.chars[self.current])
        } else {
            None
        }
    }

    /// The character after the one under the cursor, if any.
    fn peek_next(&self) -> (r: Option<char>)
        requires
            self.current <= self.chars@.len(),
        ensures
            r == if self.current + 1 < self.chars@.len() {
                Some(self.chars@[self.current + 1])
            } else {
                None::<char>
            },
    {
        if self.current < self.chars.len() && self.current + 1 < self.chars.len() {
            Some(self.chars[self.current + 1])
        } else {
            None
        }
    }

    /// Consumes the character under the cursor, if any, and returns it.
    fn advance(&mut self) -> (r: Option<char>)
        requires
            old(self).current <= old(self).chars@.len(),
        ensures
            final(self).same_output(old(self)),
            final(self).line == old(self).line,
            old(self).current < old(self).chars@.len() ==> final(self).current == old(self).current
                + 1 && r == Some(old(self).chars@[old(self).current as int]),
            old(self).current >= old(self).chars@.len() ==> final(self).current
                == old(self).current && r is None,
    {
        if self.current < self.chars.len() {
            let c = self.chars[self.current];
            self.current = self.current + 1;
            Some(c)
        } else {
            None
        }
    }

    /// Consumes the character under the cursor if it is `expected`.
    fn match_next(&mut self, expected: char) -> (r: bool)
        requires
            old(self).current <= old(self).chars@.len(),
        ensures
            final(self).same_output(old(self)),
            final(self).line == old(self).line,
            r == (old(self).current < old(self).chars@.len() && old(self).chars@[old(
                self,
            ).current as int] == expected),
            final(self).current == old(self).current + if r {
                1int
            } else {
                0int
            },
    {
        if self.current >= self.chars.len() {
            return false;
        }
        if self.chars[self.current] == expected {
            self.current = self.current + 1;
            true
        } else {
            false
        }
    }

    fn is_digit(&self, c: char) -> (r: bool)
        ensures
            r == is_digit_char(c),
    {
        c >= '0' && c <= '9'
    }

    fn is_alpha(&self, c: char) -> (r: bool)
        ensures
            r == is_alpha_char(c),
    {
        (c >= 'a' && c <= 'z') || (c >= 'A' && c <= 'Z') || c == '_'
    }

    fn is_alphanumeric(&self, c: char) -> (r: bool)
        ensures
            r == is_alphanumeric_char(c),
    {
        self.is_alpha(c) || self.is_digit(c)
    }

    /// Appends a token whose lexeme runs from `start` to the cursor.
    fn add_token(&mut self, token_type: TokenType, literal: Option<Literal>)
        requires
            old(self).wf(),
        ensures
            final(self).wf(),
            final(self).source == old(self).source,
            final(self).chars == old(self).chars,
            final(self).start == old(self).start,
            final(self).current == old(self).current,
            final(self).line == old(self).line,
            final(self).errors == old(self).errors,
            final(self).has_error == old(self).has_error,
            token_models(final(self).tokens@) == token_models(old(self).tokens@).push(
                TokenModel {
                    kind: token_type,
                    lexeme: old(self).chars@.subrange(
                        old(self).start as int,
                        old(self).current as int,
                    ),
                    literal: literal_model(literal),
                    line: old(self).line as int,
                },
            ),
    {
        let text = self.source.substring_char(self.start, self.current);
        let t = Token::new(token_type, text, literal, self.line);
        self.tokens.push(t);
        proof {
            assert(token_models(self.tokens@) =~= token_models(old(self).tokens@).push(t@));
        }
    }

    /// Records a lexical error found on `line`.
    pub fn error(&mut self, line: u64, kind: ScanErrorKind)
        requires
            old(self).wf(),
        ensures
            final(self).wf(),
            final(self)@ == (ScannerModel {
                errors: old(self)@.errors.push(ErrorModel { kind, line: line as int }),
                has_error: true,
                ..old(self)@
            }),
    {
        let e = ScanError { kind, line };
        self.errors.push(e);
        self.has_error = true;
        proof {
            assert(error_models(self.errors@) =~= error_models(old(self).errors@).push(e@));
        }
    }

    /// Scans a string literal whose opening quote was just consumed.
    fn string(&mut self)
        requires
            old(self).wf(),
            old(self).current == old(self).start + 1,
            old(self).chars@[old(self).start as int] == '"',
        ensures
            final(self).follows_step(old(self), old(self).start as int, old(self).line as int),
    {
        let ghost s = self.chars@;
        let ghost pos = self.start as int;
        let ghost line0 = self.line as int;
        let ghost e = span_end(s, pos + 1, not_quote());
        proof {
            lemma_span_end(s, pos + 1, not_quote());
        }
        loop
            invariant
                self.wf(),
                self.same_output(old(self)),
                self.chars@ == s,
                self.start == pos,
                pos + 1 <= self.current <= e,
                span_end(s, self.current as int, not_quote()) == e,
                self.line == line0 + newlines(s, pos + 1, self.current as int),
            ensures
                self.current == e,
            decreases s.len() - self.current,
        {
            proof {
                lemma_span_end_next(s, self.current as int, not_quote());
            }
            match self.peek() {
                None => break,
                Some(c) => {
                    if c == '"' {
                        break;
                    }
                    proof {
                        lemma_newlines_bound(s, pos + 1, self.current as int);
                    }
                    if c == '\n' {
                        self.line = self.line + 1;
                    }
                    self.advance();
                },
            }
        }
        if self.is_at_end() {
            self.error(self.line, ScanErrorKind::UnterminatedString);
            proof {
                let st = step(s, pos, old(self).line as int);
                assert(token_models(self.tokens@) =~= token_models(old(self).tokens@) + option_seq(
                    st.token,
                ));
                assert(error_models(self.errors@) =~= error_models(old(self).errors@) + option_seq(
                    st.error,
                ));
            }
            return;
        }
        // the closing quote
        self.advance();
        let value = self.source.substring_char(self.start + 1, self.current - 1);
        self.add_token(TokenType::String, Some(Literal::String(value.to_owned())));
        proof {
            let st = step(s, pos, old(self).line as int);
            assert(token_models(self.tokens@) =~= token_models(old(self).tokens@) + option_seq(
                st.token,
            ));
            assert(error_models(self.errors@) =~= error_models(old(self).errors@) + option_seq(
                st.error,
            ));
        }
    }

    /// Scans a number literal whose first digit was just consumed.
    fn number(&mut self)
        requires
            old(self).wf(),
            old(self).current == old(self).start + 1,
            is_digit_char(old(self).chars@[old(self).start as int]),
        ensures
            final(self).follows_step(old(self), old(self).start as int, old(self).line as int),
    {
        let ghost s = self.chars@;
        let ghost pos = self.start as int;
        let ghost e1 = span_end(s, pos + 1, digit_class());
        proof {
            lemma_span_end(s, pos + 1, digit_class());
        }
        loop
            invariant
                self.wf(),
                self.same_output(old(self)),
                self.chars@ == s,
                self.start == pos,
                self.line == old(self).line,
                pos + 1 <= self.current <= e1,
                span_end(s, self.current as int, digit_class()) == e1,
            ensures
                self.current == e1,
            decreases s.len() - self.current,
        {
            proof {
                lemma_span_end_next(s, self.current as int, digit_class());
            }
            match self.peek() {
                Some(c) => {
                    if self.is_digit(c) {
                        self.advance();
                    } else {
                        break;
                    }
                },
                None => break,
            }
        }
        let fraction = match (self.peek(), self.peek_next()) {
            (Some(dot), Some(next)) => dot == '.' && self.is_digit(next),
            _ => false,
        };
        if fraction {
            self.advance();
            let ghost e2 = span_end(s, e1 + 1, digit_class());
            proof {
                lemma_span_end(s, e1 + 1, digit_class());
            }
            loop
                invariant
                    self.wf(),
                    self.same_output(old(self)),
                    self.chars@ == s,
                    self.start == pos,
                self.chars@ == s,
                self.start == pos,
                    self.line == old(self).line,
                    e1 + 1 <= self.current <= e2,
                    span_end(s, self.current as int, digit_class()) == e2,
                ensures
                    self.current == e2,
                decreases s.len() - self.current,
            {
                proof {
                    lemma_span_end_next(s, self.current as int, digit_class());
                }
                match self.peek() {
                    Some(c) => {
                        if self.is_digit(c) {
                            self.advance();
                        } else {
                            break;
                        }
                    },
                    None => break,
                }
            }
        }
        let value = self.source.substring_char(self.start, self.current);
        self.add_token(TokenType::Number, Some(Literal::Number(value.to_owned())));
        proof {
            let st = step(s, pos, old(self).line as int);
            assert(token_models(self.tokens@) =~= token_models(old(self).tokens@) + option_seq(
                st.token,
            ));
            assert(error_models(self.errors@) =~= error_models(old(self).errors@) + option_seq(
                st.error,
            ));
        }
    }

    /// Whether the current lexeme is exactly `w`.
    fn lexeme_is(&self, w: &[char]) -> (r: bool)
        requires
            self.start <= self.current <= self.chars@.len(),
        ensures
            r == (self.chars@.subrange(self.start as int, self.current as int) == w@),
    {
        if self.current - self.start != w.len() {
            return false;
        }
        let mut i: usize = 0;
        while i < w.len()
            invariant
                self.current - self.start == w@.len(),
                self.start <= self.current <= self.chars@.len(),
                i <= w@.len(),
                forall|k: int| 0 <= k < i ==> self.chars@[self.start + k] == w@[k],
            decreases w@.len() - i,
        {
            if self.chars[self.start + i] != w[i] {
                assert(self.chars@.subrange(self.start as int, self.current as int)[i as int]
                    != w@[i as int]);
                return false;
            }
            i = i + 1;
        }
        assert(self.chars@.subrange(self.start as int, self.current as int) =~= w@);
        true
    }

    /// The keyword that the current lexeme spells, if any.
    fn keyword(&self) -> (r: Option<TokenType>)
        requires
            self.start <= self.current <= self.chars@.len(),
        ensures
            r == keyword_kind(self.chars@.subrange(self.start as int, self.current as int)),
    {
        if self.lexeme_is(&['a', 'n', 'd']) {
            Some(TokenType::And)
        } else if self.lexeme_is(&['c', 'l', 'a', 's', 's']) {
            Some(TokenType::Class)
        } else if self.lexeme_is(&['e', 'l', 's', 'e']) {
            Some(TokenType::Else)
        } else if self.lexeme_is(&['f', 'a', 'l', 's', 'e']) {
            Some(TokenType::False)
        } else if self.lexeme_is(&['f', 'o', 'r']) {
            Some(TokenType::For)
        } else if self.lexeme_is(&['f', 'u', 'n']) {
            Some(TokenType::Fun)
        } else if self.lexeme_is(&['i', 'f']) {
            Some(TokenType::If)
        } else if self.lexeme_is(&['n', 'i', 'l']) {
            Some(TokenType::Nil)
        } else if self.lexeme_is(&['o', 'r']) {
            Some(TokenType::Or)
        } else if self.lexeme_is(&['p', 'r', 'i', 'n', 't']) {
            Some(TokenType::Print)
        } else if self.lexeme_is(&['r', 'e', 't', 'u', 'r', 'n']) {
            Some(TokenType::Return)
        } else if self.lexeme_is(&['s', 'u', 'p', 'e', 'r']) {
            Some(TokenType::Super)
        } else if self.lexeme_is(&['t', 'h', 'i', 's']) {
            Some(TokenType::This)
        } else if self.lexeme_is(&['t', 'r', 'u', 'e']) {
            Some(TokenType::True)
        } else if self.lexeme_is(&['v', 'a', 'r']) {
            Some(TokenType::Var)
        } else if self.lexeme_is(&['w', 'h', 'i', 'l', 'e']) {
            Some(TokenType::While)
        } else {
            None
        }
    }

    /// Scans an identifier or keyword whose first character was just consumed.
    fn identifier(&mut self)
        requires
            old(self).wf(),
            old(self).current == old(self).start + 1,
            is_alpha_char(old(self).chars@[old(self).start as int]),
        ensures
            final(self).follows_step(old(self), old(self).start as int, old(self).line as int),
    {
        let ghost s = self.chars@;
        let ghost pos = self.start as int;
        let ghost e = span_end(s, pos + 1, word_class());
        proof {
            lemma_span_end(s, pos + 1, word_class());
        }
        loop
            invariant
                self.wf(),
                self.same_output(old(self)),
                self.chars@ == s,
                self.start == pos,
                self.line == old(self).line,
                pos + 1 <= self.current <= e,
                span_end(s, self.current as int, word_class()) == e,
            ensures
                self.current == e,
            decreases s.len() - self.current,
        {
            proof {
                lemma_span_end_next(s, self.current as int, word_class());
            }
            match self.peek() {
                Some(c) => {
                    if self.is_alphanumeric(c) {
                        self.advance();
                    } else {
                        break;
                    }
                },
                None => break,
            }
        }
        let token_type = match self.keyword() {
            Some(k) => k,
            None => TokenType::Identifier,
        };
        self.add_token(token_type, None);
        proof {
            let st = step(s, pos, old(self).line as int);
            assert(token_models(self.tokens@) =~= token_models(old(self).tokens@) + option_seq(
                st.token,
            ));
            assert(error_models(self.errors@) =~= error_models(old(self).errors@) + option_seq(
                st.error,
            ));
        }
    }

    /// The errors recorded so far, in the order they were found.
    pub fn errors(&self) -> (r: &Vec<ScanError>)
        ensures
            error_models(r@) == self@.errors,
    {
        &self.errors
    }

    /// Scans the remaining source, appends the end-of-file marker, and
    /// returns every token produced so far.
    pub fn scan_tokens(&mut self) -> (r: &Vec<Token<'a>>)
        requires
            old(self).wf(),
        ensures
            final(self).wf(),
            ({
                let sc = scan_from(old(self)@.source, old(self)@.current, old(self)@.line);
                final(self)@ == ScannerModel {
                    source: old(self)@.source,
                    current: old(self)@.source.len() as int,
                    line: sc.line,
                    tokens: (old(self)@.tokens + sc.tokens).push(eof_token(sc.line)),
                    errors: old(self)@.errors + sc.errors,
                    has_error: old(self)@.errors.len() + sc.errors.len() > 0,
                }
            }),
            token_models(r@) == final(self)@.tokens,
    {
        let ghost s = self.chars@;
        let ghost sc0 = scan_from(s, self.current as int, self.line as int);
        while !self.is_at_end()
            invariant
                self.wf(),
                self.chars@ == s,
                self@.source == old(self)@.source,
                old(self)@.tokens + sc0.tokens == self@.tokens + scan_from(
                    s,
                    self.current as int,
                    self.line as int,
                ).tokens,
                old(self)@.errors + sc0.errors == self@.errors + scan_from(
                    s,
                    self.current as int,
                    self.line as int,
                ).errors,
                sc0.line == scan_from(s, self.current as int, self.line as int).line,
            decreases s.len() - self.current,
        {
            self.start = self.current;
            let ghost before = *self;
            proof {
                lemma_step_advances(s, before.current as int, before.line as int);
            }
            self.scan_token();
            proof {
                let st = step(s, before.current as int, before.line as int);
                let rest = scan_from(s, st.next, st.line);
                assert(before@.tokens + scan_from(s, before.current as int, before.line as int).tokens
                    =~= self@.tokens + rest.tokens);
                assert(before@.errors + scan_from(s, before.current as int, before.line as int).errors
                    =~= self@.errors + rest.errors);
            }
        }
        proof {
            reveal_strlit("");
            let rest = scan_from(s, self.current as int, self.line as int);
            assert(self@.tokens + rest.tokens =~= self@.tokens);
            assert(self@.errors + rest.errors =~= self@.errors);
        }
        let ghost toks = self@.tokens;
        let eof = Token::new(TokenType::EOF, "", None, self.line);
        self.tokens.push(eof);
        proof {
            assert(token_models(self.tokens@) =~= toks.push(eof@));
            let sc = scan_from(s, old(self)@.current, old(self)@.line);
            assert(eof@.lexeme =~= Seq::<char>::empty());
            assert(eof@ == eof_token(sc.line));
        }
        &self.tokens
    }

    /// One scan attempt from the cursor, which must not be at the end.
    fn scan_token(&mut self)
        requires
            old(self).wf(),
            old(self).start == old(self).current,
            old(self).current < old(self).chars@.len(),
        ensures
            final(self).follows_step(old(self), old(self).current as int, old(self).line as int),
    {
        let ghost s = self.chars@;
        let ghost pos = self.current as int;
        let ghost line = self.line as int;
        proof {
            lemma_step_advances(s, pos, line);
        }
        if let Some(c) = self.advance() {
            match c {
                '(' => self.add_token(TokenType::LeftParen, None),
                ')' => self.add_token(TokenType::RightParen, None),
                '{' => self.add_token(TokenType::LeftBrace, None),
                '}' => self.add_token(TokenType::RightBrace, None),
                ',' => self.add_token(TokenType::Comma, None),
                '.' => self.add_token(TokenType::Dot, None),
                '-' => self.add_token(TokenType::Minus, None),
                '+' => self.add_token(TokenType::Plus, None),
                ';' => self.add_token(TokenType::Semicolon, None),
                '*' => self.add_token(TokenType::Star, None),
                '!' => {
                    let token_type = if self.match_next('=') {
                        TokenType::BangEqual
                    } else {
                        TokenType::Bang
                    };
                    self.add_token(token_type, None);
                },
                '=' => {
                    let token_type = if self.match_next('=') {
                        TokenType::EqualEqual
                    } else {
                        TokenType::Equal
                    };
                    self.add_token(token_type, None);
                },
                '<' => {
                    let token_type = if self.match_next('=') {
                        TokenType::LessEqual
                    } else {
                        TokenType::Less
                    };
                    self.add_token(token_type, None);
                },
                '>' => {
                    let token_type = if self.match_next('=') {
                        TokenType::GreaterEqual
                    } else {
                        TokenType::Greater
                    };
                    self.add_token(token_type, None);
                },
                '/' => {
                    if self.match_next('/') {
                        self.skip_comment();
                    } else {
                        self.add_token(TokenType::Slash, None);
                    }
                },
                '"' => self.string(),
                ' ' | '\r' | '\t' => {},
                '\n' => self.line = self.line + 1,
                _ => {
                    if self.is_digit(c) {
                        self.number();
                    } else if self.is_alpha(c) {
                        self.identifier();
                    } else {
                        self.error(self.line, ScanErrorKind::UnexpectedCharacter(c));
                    }
                },
            }
        }
        proof {
            let st = step(s, pos, line);
            assert(self@.tokens =~= old(self)@.tokens + option_seq(st.token));
            assert(self@.errors =~= old(self)@.errors + option_seq(st.error));
        }
    }

    /// Consumes a line comment whose `//` was just consumed, up to (not
    /// including) the next line terminator.
    fn skip_comment(&mut self)
        requires
            old(self).wf(),
            old(self).start + 2 == old(self).current,
        ensures
            final(self).wf(),
            final(self).same_output(old(self)),
            final(self).line == old(self).line,
            final(self).current == span_end(old(self).chars@, old(self).current as int, not_newline()),
    {
        let ghost s = self.chars@;
        let ghost e = span_end(s, self.current as int, not_newline());
        proof {
            lemma_span_end(s, self.current as int, not_newline());
        }
        loop
            invariant
                self.wf(),
                self.same_output(old(self)),
                self.chars@ == s,
                self.line == old(self).line,
                old(self).current <= self.current <= e,
                span_end(s, self.current as int, not_newline()) == e,
            ensures
                self.current == e,
            decreases s.len() - self.current,
        {
            proof {
                lemma_span_end_next(s, self.current as int, not_newline());
            }
            match self.peek() {
                Some(c) => {
                    if c != '\n' {
                        self.advance();
                    } else {
                        break;
                    }
                },
                None => break,
            }
        }
    }
}

} // verus!
