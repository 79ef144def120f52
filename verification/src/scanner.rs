use vstd::prelude::*;

use crate::text::{chars_of, push_char, string_of};
use crate::token::{keyword_of, keywords, Literal, LiteralModel, Token, TokenModel, TokenType};

verus! {

// ---------------------------------------------------------------------------
// The lexical grammar, stated over the source characters.
// ---------------------------------------------------------------------------

pub open spec fn is_digit_spec(c: char) -> bool {
    '0' <= c && c <= '9'
}

pub open spec fn is_alpha_spec(c: char) -> bool {
    ('A' <= c && c <= 'Z') || ('a' <= c && c <= 'z') || c == '_'
}

pub open spec fn is_alphanumeric_spec(c: char) -> bool {
    is_alpha_spec(c) || is_digit_spec(c)
}

/// The character at `p`, or `'\0'` past the end of the source.
pub open spec fn char_at(src: Seq<char>, p: int) -> char {
    if 0 <= p < src.len() {
        src[p]
    } else {
        '\0'
    }
}

/// The end of the run of digits that starts at `p`.
pub open spec fn digits_end(src: Seq<char>, p: int) -> int
    decreases src.len() - p,
{
    if 0 <= p < src.len() && is_digit_spec(src[p]) {
        digits_end(src, p + 1)
    } else {
        p
    }
}

/// The end of the run of letters, digits and underscores that starts at `p`.
pub open spec fn word_end(src: Seq<char>, p: int) -> int
    decreases src.len() - p,
{
    if 0 <= p < src.len() && is_alphanumeric_spec(src[p]) {
        word_end(src, p + 1)
    } else {
        p
    }
}

/// The position of the first line break at or after `p` (or the end).
pub open spec fn line_end(src: Seq<char>, p: int) -> int
    decreases src.len() - p,
{
    if 0 <= p < src.len() && src[p] != '\n' {
        line_end(src, p + 1)
    } else {
        p
    }
}

/// The position of the first double quote at or after `p` (or the end).
pub open spec fn quote_end(src: Seq<char>, p: int) -> int
    decreases src.len() - p,
{
    if 0 <= p < src.len() && src[p] != '"' {
        quote_end(src, p + 1)
    } else {
        p
    }
}

/// The number of line breaks among `src[lo..hi]`.
pub open spec fn newlines(src: Seq<char>, lo: int, hi: int) -> int
    decreases hi - lo,
{
    if hi <= lo {
        0
    } else {
        newlines(src, lo, hi - 1) + if src[hi - 1] == '\n' {
            1int
        } else {
            0int
        }
    }
}

/// The end of the number literal that starts at `s`: digits, then a fraction
/// only where a dot is followed by at least one digit.
pub open spec fn number_end(src: Seq<char>, s: int) -> int {
    let d = digits_end(src, s + 1);
    if char_at(src, d) == '.' && is_digit_spec(char_at(src, d + 1)) {
        digits_end(src, d + 1)
    } else {
        d
    }
}

/// What can go wrong while scanning.
#[derive(Clone, Copy, Debug, PartialEq, Eq, Structural)]
pub enum ScanErrorKind {
    UnterminatedString,
    UnexpectedCharacter(char),
}

/// A lexical error and the line it was found on.
#[derive(Clone, Copy, Debug)]
pub struct ScanError {
    pub line: usize,
    pub kind: ScanErrorKind,
}

pub struct ScanErrorModel {
    pub line: nat,
    pub kind: ScanErrorKind,
}

impl View for ScanError {
    type V = ScanErrorModel;

    open spec fn view(&self) -> ScanErrorModel {
        ScanErrorModel { line: self.line as nat, kind: self.kind }
    }
}

/// The message that describes a lexical error.
pub open spec fn scan_error_message(kind: ScanErrorKind) -> Seq<char> {
    match kind {
        ScanErrorKind::UnterminatedString => "Unterminated string"@,
        ScanErrorKind::UnexpectedCharacter(c) => "Unexpected character "@.push(c) + " "@,
    }
}

impl ScanError {
    /// The message that describes the error.
    pub fn message(&self) -> (r: String)
        ensures
            r@ == scan_error_message(self.kind),
    {
        match self.kind {
            ScanErrorKind::UnterminatedString => String::from_str("Unterminated string"),
            ScanErrorKind::UnexpectedCharacter(c) => {
                let mut s = String::from_str("Unexpected character ");
                push_char(&mut s, c);
                s.append(" ");
                s
            },
        }
    }
}

/// One step of the scanner: where it stops, the line it is then on, and the
/// token or error it produces, if any.
pub struct ScanStep {
    pub end: int,
    pub line: int,
    pub token: Option<TokenModel>,
    pub error: Option<ScanErrorModel>,
}

pub open spec fn plain(src: Seq<char>, s: int, e: int, line: int, t: TokenType) -> ScanStep {
    ScanStep {
        end: e,
        line,
        token: Some(
            TokenModel {
                token_type: t,
                lexeme: src.subrange(s, e),
                literal: None,
                line: line as nat,
            },
        ),
        error: None,
    }
}

pub open spec fn skip(e: int, line: int) -> ScanStep {
    ScanStep { end: e, line, token: None, error: None }
}

/// A token of one or two characters: `two` when the next character is `=`.
pub open spec fn with_equal(
    src: Seq<char>,
    s: int,
    line: int,
    one: TokenType,
    two: TokenType,
) -> ScanStep {
    if char_at(src, s + 1) == '=' {
        plain(src, s, s + 2, line, two)
    } else {
        plain(src, s, s + 1, line, one)
    }
}

pub open spec fn string_step(src: Seq<char>, s: int, line: int) -> ScanStep {
    let q = quote_end(src, s + 1);
    let l = line + newlines(src, s + 1, q);
    if q >= src.len() {
        ScanStep {
            end: q,
            line: l,
            token: None,
            error: Some(ScanErrorModel { line: l as nat, kind: ScanErrorKind::UnterminatedString }),
        }
    } else {
        ScanStep {
            end: q + 1,
            line: l,
            token: Some(
                TokenModel {
                    token_type: TokenType::String,
                    lexeme: src.subrange(s, q + 1),
                    literal: Some(LiteralModel::Str(src.subrange(s + 1, q))),
                    line: l as nat,
                },
            ),
            error: None,
        }
    }
}

pub open spec fn number_step(src: Seq<char>, s: int, line: int) -> ScanStep {
    let e = number_end(src, s);
    ScanStep {
        end: e,
        line,
        token: Some(
            TokenModel {
                token_type: TokenType::Number,
                lexeme: src.subrange(s, e),
                literal: Some(LiteralModel::Number(src.subrange(s, e))),
                line: line as nat,
            },
        ),
        error: None,
    }
}

pub open spec fn word_step(src: Seq<char>, s: int, line: int) -> ScanStep {
    let e = word_end(src, s + 1);
    let t = match keyword_of(src.subrange(s, e)) {
        Some(k) => k,
        None => TokenType::Identifier,
    };
    plain(src, s, e, line, t)
}

/// The scanner's step at position `s` (which must hold a character).
pub open spec fn scan_step(src: Seq<char>, s: int, line: int) -> ScanStep {
    let c = src[s];
    if c == '(' {
        plain(src, s, s + 1, line, TokenType::LeftParen)
    } else if c == ')' {
        plain(src, s, s + 1, line, TokenType::RightParen)
    } else if c == '{' {
        plain(src, s, s + 1, line, TokenType::LeftBrace)
    } else if c == '}' {
        plain(src, s, s + 1, line, TokenType::RightBrace)
    } else if c == ',' {
        plain(src, s, s + 1, line, TokenType::Comma)
    } else if c == '.' {
        plain(src, s, s + 1, line, TokenType::Dot)
    } else if c == '-' {
        plain(src, s, s + 1, line, TokenType::Minus)
    } else if c == '+' {
        plain(src, s, s + 1, line, TokenType::Plus)
    } else if c == ';' {
        plain(src, s, s + 1, line, TokenType::Semicolon)
    } else if c == '*' {
        plain(src, s, s + 1, line, TokenType::Star)
    } else if c == '!' {
        with_equal(src, s, line, TokenType::Bang, TokenType::BangEqual)
    } else if c == '=' {
        with_equal(src, s, line, TokenType::Equal, TokenType::EqualEqual)
    } else if c == '>' {
        with_equal(src, s, line, TokenType::Greater, TokenType::GreaterEqual)
    } else if c == '<' {
        with_equal(src, s, line, TokenType::Less, TokenType::LessEqual)
    } else if c == '/' {
        if char_at(src, s + 1) == '/' {
            skip(line_end(src, s + 2), line)
        } else {
            plain(src, s, s + 1, line, TokenType::Slash)
        }
    } else if c == ' ' || c == '\r' || c == '\t' {
        skip(s + 1, line)
    } else if c == '\n' {
        skip(s + 1, line + 1)
    } else if c == '"' {
        string_step(src, s, line)
    } else if is_digit_spec(c) {
        number_step(src, s, line)
    } else if is_alpha_spec(c) {
        word_step(src, s, line)
    } else {
        ScanStep {
            end: s + 1,
            line,
            token: None,
            error: Some(
                ScanErrorModel { line: line as nat, kind: ScanErrorKind::UnexpectedCharacter(c) },
            ),
        }
    }
}

pub proof fn lemma_runs(src: Seq<char>, p: int)
    requires
        0 <= p <= src.len(),
    ensures
        p <= digits_end(src, p) <= src.len(),
        p <= word_end(src, p) <= src.len(),
        p <= line_end(src, p) <= src.len(),
        p <= quote_end(src, p) <= src.len(),
    decreases src.len() - p,
{
    if p < src.len() {
        lemma_runs(src, p + 1);
    }
}

pub proof fn lemma_newlines_bound(src: Seq<char>, lo: int, hi: int)
    requires
        lo <= hi,
    ensures
        0 <= newlines(src, lo, hi) <= hi - lo,
    decreases hi - lo,
{
    if hi > lo {
        lemma_newlines_bound(src, lo, hi - 1);
    }
}

/// A step consumes at least one character, stays within the source, and
/// advances the line by at most the number of characters it consumes.
pub proof fn lemma_step_advances(src: Seq<char>, s: int, line: int)
    requires
        0 <= s < src.len(),
    ensures
        s < scan_step(src, s, line).end <= src.len(),
        line <= scan_step(src, s, line).line,
        scan_step(src, s, line).line - line <= scan_step(src, s, line).end - s,
{
    lemma_runs(src, s + 1);
    if s + 2 <= src.len() {
        lemma_runs(src, s + 2);
    }
    let d = digits_end(src, s + 1);
    if d + 1 <= src.len() {
        lemma_runs(src, d + 1);
    }
    lemma_newlines_bound(src, s + 1, quote_end(src, s + 1));
}

/// What scanning the rest of the source yields.
pub struct ScanOutcome {
    pub tokens: Seq<TokenModel>,
    pub errors: Seq<ScanErrorModel>,
    pub line: int,
}

pub open spec fn opt_seq<A>(o: Option<A>) -> Seq<A> {
    match o {
        Some(a) => seq![a],
        None => seq![],
    }
}

/// The tokens and errors produced by scanning `src` from position `p` on
/// line `line`, and the line the scan ends on.
pub open spec fn scan_from(src: Seq<char>, p: int, line: int) -> ScanOutcome
    decreases src.len() - p,
{
    if p < 0 || p >= src.len() {
        ScanOutcome { tokens: seq![], errors: seq![], line }
    } else {
        let st = scan_step(src, p, line);
        proof {
            lemma_step_advances(src, p, line);
        }
        let rest = scan_from(src, st.end, st.line);
        ScanOutcome {
            tokens: opt_seq(st.token) + rest.tokens,
            errors: opt_seq(st.error) + rest.errors,
            line: rest.line,
        }
    }
}

/// The models of a sequence of tokens.
pub open spec fn token_views(ts: Seq<Token>) -> Seq<TokenModel> {
    ts.map_values(|t: Token| t@)
}

pub open spec fn error_views(es: Seq<ScanError>) -> Seq<ScanErrorModel> {
    es.map_values(|e: ScanError| e@)
}

/// The end-of-input token on line `line`.
pub open spec fn eof_token(line: int) -> TokenModel {
    TokenModel { token_type: TokenType::EOF, lexeme: seq![], literal: None, line: line as nat }
}

/// The tokens of a whole source text, ending with the end-of-input token.
pub open spec fn tokens_of(src: Seq<char>) -> Seq<TokenModel> {
    let out = scan_from(src, 0, 1);
    out.tokens.push(eof_token(out.line))
}

// ---------------------------------------------------------------------------
// The scanner.
// ---------------------------------------------------------------------------

pub fn is_digit(c: char) -> (r: bool)
    ensures
        r == is_digit_spec(c),
{
    c >= '0' && c <= '9'
}

pub fn is_alpha(c: char) -> (r: bool)
    ensures
        r == is_alpha_spec(c),
{
    (c >= 'A' && c <= 'Z') || (c >= 'a' && c <= 'z') || c == '_'
}

pub fn is_alphanumeric(c: char) -> (r: bool)
    ensures
        r == is_alphanumeric_spec(c),
{
    is_alpha(c) || is_digit(c)
}

/// Turns source text into tokens.
pub struct Scanner {
    source: Vec<char>,
    tokens: Vec<Token>,
    start: usize,
    current: usize,
    line: usize,
    errors: Vec<ScanError>,
}

impl Scanner {
    pub closed spec fn source_chars(&self) -> Seq<char> {
        self.source@
    }

    pub closed spec fn scanned(&self) -> Seq<TokenModel> {
        token_views(self.tokens@)
    }

    pub closed spec fn found_errors(&self) -> Seq<ScanErrorModel> {
        error_views(self.errors@)
    }

    pub closed spec fn position(&self) -> int {
        self.current as int
    }

    pub closed spec fn current_line(&self) -> int {
        self.line as int
    }

    /// The scanner's position lies within the source, and the line counter
    /// cannot overflow while the rest of the source is scanned.
    pub closed spec fn wf(&self) -> bool {
        &&& self.start <= self.current <= self.source@.len() <= usize::MAX
        &&& self.line + (self.source@.len() - self.current) <= usize::MAX
    }

    pub fn new(input: String) -> (r: Scanner)
        requires
            input@.len() < usize::MAX,
        ensures
            r.wf(),
            r.source_chars() == input@,
            r.scanned() == Seq::<TokenModel>::empty(),
            r.found_errors() == Seq::<ScanErrorModel>::empty(),
            r.position() == 0,
            r.current_line() == 1,
    {
        let source = chars_of(&input);
        let r = Scanner { source, tokens: vec![], start: 0, current: 0, line: 1, errors: vec![] };
        assert(r.source@.len() <= usize::MAX);
        assert(r.scanned() =~= Seq::<TokenModel>::empty());
        assert(r.found_errors() =~= Seq::<ScanErrorModel>::empty());
        r
    }

    /// The lexical errors found so far, in order.
    pub fn errors(&self) -> (r: &Vec<ScanError>)
        ensures
            error_views(r@) == self.found_errors(),
    {
        &self.errors
    }

    fn is_at_end(&self) -> (r: bool)
        ensures
            r == (self.current >= self.source@.len()),
    {
        self.current >= self.source.len()
    }

    /// Scans the rest of the source and returns every token scanned so far,
    /// followed by the end-of-input token.
    pub fn scan_tokens(&mut self) -> (r: Vec<Token>)
        requires
            old(self).wf(),
        ensures
            ({
                let out = scan_from(old(self).source_chars(), old(self).position(), old(self).current_line());
                &&& final(self).scanned() == old(self).scanned() + out.tokens.push(eof_token(out.line))
                &&& final(self).found_errors() == old(self).found_errors() + out.errors
                &&& token_views(r@) == final(self).scanned()
            }),
            final(self).source_chars() == old(self).source_chars(),
            final(self).position() == old(self).source_chars().len(),
            final(self).wf(),
    {
        let ghost src = self.source@;
        let ghost out = scan_from(src, self.current as int, self.line as int);
        let ghost toks0 = token_views(self.tokens@);
        let ghost errs0 = error_views(self.errors@);
        while !self.is_at_end()
            invariant
                self.wf(),
                self.source@ == src,
                ({
                    let rest = scan_from(src, self.current as int, self.line as int);
                    &&& token_views(self.tokens@) + rest.tokens == toks0 + out.tokens
                    &&& error_views(self.errors@) + rest.errors == errs0 + out.errors
                    &&& rest.line == out.line
                }),
            decreases src.len() - self.current,
        {
            let ghost cur = self.current as int;
            let ghost ln = self.line as int;
            let ghost t0 = token_views(self.tokens@);
            let ghost e0 = error_views(self.errors@);
            proof {
                lemma_step_advances(src, cur, ln);
            }
            self.start = self.current;
            self.scan_token();
            proof {
                let st = scan_step(src, cur, ln);
                let rest = scan_from(src, st.end, st.line);
                assert(t0 + (opt_seq(st.token) + rest.tokens) =~= (t0 + opt_seq(st.token)) + rest.tokens);
                assert(e0 + (opt_seq(st.error) + rest.errors) =~= (e0 + opt_seq(st.error)) + rest.errors);
            }
        }
        let ghost before = self.tokens@;
        let eof = Token::new(TokenType::EOF, String::new(), None, self.line);
        self.tokens.push(eof);
        proof {
            assert(scan_from(src, self.current as int, self.line as int).tokens =~= seq![]);
            assert(token_views(self.tokens@) =~= token_views(before).push(eof_token(self.line as int)));
            assert(token_views(before) =~= toks0 + out.tokens);
            assert(error_views(self.errors@) =~= errs0 + out.errors);
        }
        let r = self.tokens.clone();
        assert(r@ =~= self.tokens@);
        r
    }

    fn if_next_char_then_advance(&mut self, expected: char) -> (r: bool)
        requires
            old(self).wf(),
            expected != '\0',
        ensures
            r == (char_at(old(self).source@, old(self).current as int) == expected),
            final(self).current == if r {
                old(self).current + 1
            } else {
                old(self).current as int
            },
            final(self).source == old(self).source,
            final(self).tokens == old(self).tokens,
            final(self).errors == old(self).errors,
            final(self).start == old(self).start,
            final(self).line == old(self).line,
    {
        if self.peek() != expected {
            return false;
        }
        self.advance();
        true
    }

    fn peek(&self) -> (c: char)
        ensures
            c == char_at(self.source@, self.current as int),
    {
        if self.is_at_end() {
            return '\0';
        }
        self.source[self.current]
    }

    fn peek_next(&self) -> (c: char)
        requires
            self.current < self.source@.len() <= usize::MAX,
        ensures
            c == char_at(self.source@, self.current + 1),
    {
        if self.current + 1 >= self.source.len() {
            return '\0';
        }
        self.source[self.current + 1]
    }

    fn advance(&mut self) -> (c: char)
        requires
            old(self).current < old(self).source@.len() <= usize::MAX,
        ensures
            c == old(self).source@[old(self).current as int],
            final(self).current == old(self).current + 1,
            final(self).source == old(self).source,
            final(self).tokens == old(self).tokens,
            final(self).errors == old(self).errors,
            final(self).start == old(self).start,
            final(self).line == old(self).line,
    {
        let c = self.source[self.current];
        self.current += 1;
        c
    }

    fn add_token(&mut self, token_type: TokenType, literal: Option<Literal>)
        requires
            old(self).start <= old(self).current <= old(self).source@.len(),
        ensures
            final(self).tokens@ == old(self).tokens@.push(
                Token {
                    token_type,
                    lexeme: final(self).tokens@.last().lexeme,
                    literal,
                    line: old(self).line,
                },
            ),
            final(self).tokens@.last().lexeme@ == old(self).source@.subrange(
                old(self).start as int,
                old(self).current as int,
            ),
            final(self).source == old(self).source,
            final(self).errors == old(self).errors,
            final(self).start == old(self).start,
            final(self).current == old(self).current,
            final(self).line == old(self).line,
    {
        let lexeme = string_of(&self.source, self.start, self.current);
        self.tokens.push(Token::new(token_type, lexeme, literal, self.line));
    }

    fn report(&mut self, kind: ScanErrorKind)
        ensures
            final(self).errors@ == old(self).errors@.push(ScanError { line: old(self).line, kind }),
            final(self).source == old(self).source,
            final(self).tokens == old(self).tokens,
            final(self).start == old(self).start,
            final(self).current == old(self).current,
            final(self).line == old(self).line,
    {
        self.errors.push(ScanError { line: self.line, kind });
    }

    fn scan_token(&mut self)
        requires
            old(self).wf(),
            old(self).start == old(self).current,
            old(self).current < old(self).source@.len(),
        ensures
            ({
                let st = scan_step(old(self).source@, old(self).current as int, old(self).line as int);
                &&& final(self).current == st.end
                &&& final(self).line == st.line
                &&& token_views(final(self).tokens@) == token_views(old(self).tokens@) + opt_seq(st.token)
                &&& error_views(final(self).errors@) == error_views(old(self).errors@) + opt_seq(st.error)
            }),
            final(self).source@ == old(self).source@,
            final(self).start == old(self).start,
            final(self).wf(),
    {
        let ghost src = self.source@;
        let ghost s = self.current as int;
        let ghost ln = self.line as int;
        let ghost t0 = self.tokens@;
        let ghost e0 = self.errors@;
        let ch: char = self.advance();
        if ch == '(' {
            self.add_token(TokenType::LeftParen, None);
        } else if ch == ')' {
            self.add_token(TokenType::RightParen, None);
        } else if ch == '{' {
            self.add_token(TokenType::LeftBrace, None);
        } else if ch == '}' {
            self.add_token(TokenType::RightBrace, None);
        } else if ch == ',' {
            self.add_token(TokenType::Comma, None);
        } else if ch == '.' {
            self.add_token(TokenType::Dot, None);
        } else if ch == '-' {
            self.add_token(TokenType::Minus, None);
        } else if ch == '+' {
            self.add_token(TokenType::Plus, None);
        } else if ch == ';' {
            self.add_token(TokenType::Semicolon, None);
        } else if ch == '*' {
            self.add_token(TokenType::Star, None);
        } else if ch == '!' {
            if self.if_next_char_then_advance('=') {
                self.add_token(TokenType::BangEqual, None);
            } else {
                self.add_token(TokenType::Bang, None);
            }
        } else if ch == '=' {
            if self.if_next_char_then_advance('=') {
                self.add_token(TokenType::EqualEqual, None);
            } else {
                self.add_token(TokenType::Equal, None);
            }
        } else if ch == '>' {
            if self.if_next_char_then_advance('=') {
                self.add_token(TokenType::GreaterEqual, None);
            } else {
                self.add_token(TokenType::Greater, None);
            }
        } else if ch == '<' {
            if self.if_next_char_then_advance('=') {
                self.add_token(TokenType::LessEqual, None);
            } else {
                self.add_token(TokenType::Less, None);
            }
        } else if ch == '/' {
            if self.if_next_char_then_advance('/') {
                // A comment runs to the end of the line.
                while self.peek() != '\n' && !self.is_at_end()
                    invariant
                        self.wf(),
                        self.start == s,
                        self.source@ == src,
                        self.tokens@ == t0,
                        self.errors@ == e0,
                        self.line == ln,
                        s + 2 <= self.current <= src.len(),
                        line_end(src, self.current as int) == line_end(src, s + 2),
                    decreases src.len() - self.current,
                {
                    self.advance();
                }
            } else {
                self.add_token(TokenType::Slash, None);
            }
        } else if ch == ' ' || ch == '\r' || ch == '\t' {
        } else if ch == '\n' {
            self.line += 1;
        } else if ch == '"' {
            while self.peek() != '"' && !self.is_at_end()
                invariant
                    self.wf(),
                    self.start == s,
                    self.source@ == src,
                    self.tokens@ == t0,
                    self.errors@ == e0,
                    s + 1 <= self.current <= src.len(),
                    self.line == ln + newlines(src, s + 1, self.current as int),
                    quote_end(src, self.current as int) == quote_end(src, s + 1),
                decreases src.len() - self.current,
            {
                if self.peek() == '\n' {
                    self.line += 1;
                }
                self.advance();
            }
            if self.is_at_end() {
                self.report(ScanErrorKind::UnterminatedString);
            } else {
                self.advance();
                let val = string_of(&self.source, self.start + 1, self.current - 1);
                self.add_token(TokenType::String, Some(Literal::String(val)));
            }
        } else if is_digit(ch) {
            while is_digit(self.peek())
                invariant
                    self.wf(),
                    self.start == s,
                    self.source@ == src,
                    self.tokens@ == t0,
                    self.errors@ == e0,
                    self.line == ln,
                    s + 1 <= self.current <= src.len(),
                    digits_end(src, self.current as int) == digits_end(src, s + 1),
                decreases src.len() - self.current,
            {
                self.advance();
            }
            if self.peek() == '.' && is_digit(self.peek_next()) {
                self.advance();
                while is_digit(self.peek())
                    invariant
                        self.wf(),
                        self.start == s,
                        self.source@ == src,
                        self.tokens@ == t0,
                        self.errors@ == e0,
                        self.line == ln,
                        s + 1 <= self.current <= src.len(),
                        digits_end(src, self.current as int) == number_end(src, s),
                    decreases src.len() - self.current,
                {
                    self.advance();
                }
            }
            let val = string_of(&self.source, self.start, self.current);
            self.add_token(TokenType::Number, Some(Literal::Number(val)));
        } else if is_alpha(ch) {
            while is_alphanumeric(self.peek())
                invariant
                    self.wf(),
                    self.start == s,
                    self.source@ == src,
                    self.tokens@ == t0,
                    self.errors@ == e0,
                    self.line == ln,
                    s + 1 <= self.current <= src.len(),
                    word_end(src, self.current as int) == word_end(src, s + 1),
                decreases src.len() - self.current,
            {
                self.advance();
            }
            if let Some(token_type) = keywords(&self.source, self.start, self.current) {
                self.add_token(token_type, None);
            } else {
                self.add_token(TokenType::Identifier, None);
            }
        } else {
            self.report(ScanErrorKind::UnexpectedCharacter(ch));
        }
        proof {
            let st = scan_step(src, s, ln);
            lemma_step_advances(src, s, ln);
            assert(token_views(self.tokens@) =~= token_views(t0) + opt_seq(st.token));
            assert(error_views(self.errors@) =~= error_views(e0) + opt_seq(st.error));
        }
    }
}

// ---------------------------------------------------------------------------
// Laws of the lexical grammar.
// ---------------------------------------------------------------------------

/// The token types of the reserved words.
pub open spec fn is_keyword_type(t: TokenType) -> bool {
    match t {
        TokenType::And | TokenType::Class | TokenType::Else | TokenType::False | TokenType::Fun
        | TokenType::For | TokenType::If | TokenType::Nil | TokenType::Or | TokenType::Print
        | TokenType::Return | TokenType::Super | TokenType::This | TokenType::True | TokenType::Var
        | TokenType::While => true,
        _ => false,
    }
}

/// An identifier never spells a reserved word, and a reserved-word token
/// always spells its own word.
pub open spec fn word_kind_ok(t: TokenModel) -> bool {
    &&& t.token_type == TokenType::Identifier ==> keyword_of(t.lexeme) is None
    &&& is_keyword_type(t.token_type) ==> keyword_of(t.lexeme) == Some(t.token_type)
}

/// What holds of every token a scan from `line` on yields.
pub open spec fn tokens_ok(ts: Seq<TokenModel>, line: int, last: int) -> bool {
    &&& forall|i: int| 0 <= i < ts.len() ==> #[trigger] ts[i].token_type != TokenType::EOF
    &&& forall|i: int| 0 <= i < ts.len() ==> word_kind_ok(#[trigger] ts[i])
    &&& forall|i: int| 0 <= i < ts.len() ==> line <= #[trigger] ts[i].line <= last
    &&& forall|i: int, j: int| 0 <= i <= j < ts.len() ==> #[trigger] ts[i].line <= #[trigger] ts[j].line
}

proof fn lemma_keyword_kinds(w: Seq<char>)
    ensures
        keyword_of(w) matches Some(k) ==> is_keyword_type(k),
{
}

proof fn lemma_step_token(src: Seq<char>, s: int, line: int)
    requires
        0 <= s < src.len(),
        0 <= line,
    ensures
        scan_step(src, s, line).token matches Some(t) ==> {
            &&& t.token_type != TokenType::EOF
            &&& word_kind_ok(t)
            &&& t.line == scan_step(src, s, line).line
        },
{
    lemma_step_advances(src, s, line);
    lemma_runs(src, s + 1);
    lemma_keyword_kinds(src.subrange(s, word_end(src, s + 1)));
    lemma_newlines_bound(src, s + 1, quote_end(src, s + 1));
}

proof fn lemma_scan_from_ok(src: Seq<char>, p: int, line: int)
    requires
        0 <= p,
        0 <= line,
    ensures
        line <= scan_from(src, p, line).line,
        tokens_ok(scan_from(src, p, line).tokens, line, scan_from(src, p, line).line),
    decreases src.len() - p,
{
    if p < src.len() {
        let st = scan_step(src, p, line);
        lemma_step_advances(src, p, line);
        lemma_step_token(src, p, line);
        lemma_scan_from_ok(src, st.end, st.line);
        let rest = scan_from(src, st.end, st.line);
        let ts = opt_seq(st.token) + rest.tokens;
        assert(scan_from(src, p, line).tokens == ts);
        match st.token {
            Some(t) => {
                assert forall|i: int| 0 <= i < ts.len() implies #[trigger] ts[i] == if i == 0 {
                    t
                } else {
                    rest.tokens[i - 1]
                } by {}
                assert forall|i: int, j: int| 0 <= i <= j < ts.len() implies #[trigger] ts[i].line
                    <= #[trigger] ts[j].line by {
                    if i > 0 {
                        assert(ts[i] == rest.tokens[i - 1]);
                        assert(ts[j] == rest.tokens[j - 1]);
                    } else {
                        assert(ts[j] == if j == 0 { t } else { rest.tokens[j - 1] });
                    }
                }
            },
            None => {
                assert(ts =~= rest.tokens);
            },
        }
    }
}

/// One step of the scanner consumes at least one character and stays within
/// the source; the token it yields, if any, is spelled by exactly the
/// characters consumed and carries the line the step ends on; the line
/// counter never goes back.
pub proof fn lemma_step_consumes_its_lexeme(src: Seq<char>, s: int, line: int)
    requires
        0 <= s < src.len(),
        0 <= line,
    ensures
        s < scan_step(src, s, line).end <= src.len(),
        line <= scan_step(src, s, line).line,
        scan_step(src, s, line).token matches Some(t) ==> {
            &&& t.lexeme == src.subrange(s, scan_step(src, s, line).end)
            &&& t.line == scan_step(src, s, line).line
            &&& t.token_type != TokenType::EOF
        },
{
    lemma_step_advances(src, s, line);
    lemma_step_token(src, s, line);
}

/// Whitespace between tokens yields no token and no error: scanning from a
/// space, tab or carriage return gives exactly what scanning from the next
/// character gives, and a line break only moves on to the next line.
pub proof fn lemma_whitespace_is_skipped(src: Seq<char>, s: int, line: int)
    requires
        0 <= s < src.len(),
    ensures
        (src[s] == ' ' || src[s] == '\t' || src[s] == '\r') ==> scan_from(src, s, line) == scan_from(
            src,
            s + 1,
            line,
        ),
        src[s] == '\n' ==> scan_from(src, s, line) == scan_from(src, s + 1, line + 1),
{
    let st = scan_step(src, s, line);
    let rest = scan_from(src, st.end, st.line);
    if src[s] == ' ' || src[s] == '\t' || src[s] == '\r' || src[s] == '\n' {
        assert(opt_seq(st.token) + rest.tokens =~= rest.tokens);
        assert(opt_seq(st.error) + rest.errors =~= rest.errors);
    }
}

/// The scanner's output ends with the end-of-input token, and only there.
pub proof fn lemma_eof_only_at_end(src: Seq<char>)
    ensures
        tokens_of(src).len() >= 1,
        tokens_of(src).last().token_type == TokenType::EOF,
        forall|i: int|
            0 <= i < tokens_of(src).len() - 1 ==> #[trigger] tokens_of(src)[i].token_type
                != TokenType::EOF,
{
    lemma_scan_from_ok(src, 0, 1);
    let out = scan_from(src, 0, 1);
    assert forall|i: int| 0 <= i < tokens_of(src).len() - 1 implies #[trigger] tokens_of(src)[i].token_type
        != TokenType::EOF by {
        assert(tokens_of(src)[i] == out.tokens[i]);
    }
}

/// A reserved word is never scanned as an identifier, and a reserved-word
/// token always spells its word.
pub proof fn lemma_keywords_are_reserved(src: Seq<char>)
    ensures
        forall|i: int| 0 <= i < tokens_of(src).len() ==> word_kind_ok(#[trigger] tokens_of(src)[i]),
{
    lemma_scan_from_ok(src, 0, 1);
    let out = scan_from(src, 0, 1);
    assert forall|i: int| 0 <= i < tokens_of(src).len() implies word_kind_ok(#[trigger] tokens_of(src)[i]) by {
        if i < out.tokens.len() {
            assert(tokens_of(src)[i] == out.tokens[i]);
        }
    }
}

/// Tokens come out in the order of their lines: line numbers never go back,
/// and they start at line 1.
pub proof fn lemma_lines_never_go_back(src: Seq<char>)
    ensures
        forall|i: int, j: int|
            0 <= i <= j < tokens_of(src).len() ==> 1 <= #[trigger] tokens_of(src)[i].line
                <= #[trigger] tokens_of(src)[j].line,
{
    lemma_scan_from_ok(src, 0, 1);
    let out = scan_from(src, 0, 1);
    let ts = tokens_of(src);
    assert forall|i: int, j: int| 0 <= i <= j < ts.len() implies 1 <= #[trigger] ts[i].line
        <= #[trigger] ts[j].line by {
        if j < out.tokens.len() {
            assert(ts[i] == out.tokens[i]);
            assert(ts[j] == out.tokens[j]);
        } else if i < out.tokens.len() {
            assert(ts[i] == out.tokens[i]);
        }
    }
}

} // verus!
