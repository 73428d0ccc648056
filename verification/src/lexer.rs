//! The lexer: turns source text into a flat token sequence ended by an
//! end-of-input marker. Whitespace is skipped, line comments are dropped,
//! newlines come through as tokens. Its behaviour is pinned by a recursive
//! specification over the character sequence, one step per scanned token.
use vstd::prelude::*;
use crate::helpers::{is_alpha, is_digit, spec_is_alpha, spec_is_digit};
use crate::token::Token;
use crate::float::{from_decimal, spec_from_decimal, from_decimal_big, spec_from_decimal_big};

verus! {

/// A lexical failure: the offending construct and the line it starts on.
#[derive(Debug, Clone, Copy, PartialEq, Eq, Structural)]
pub enum LexError {
    /// A string literal with no closing quote before end of input.
    UnterminatedString { line: u32 },
    /// A numeral run directly against a letter.
    MalformedNumber { line: u32 },
    /// An integer literal beyond 2^31 - 1, the largest value its token can
    /// carry.
    NumberOutOfRange { line: u32 },
}

/// The mathematical shape of a token: payload text as a character sequence.
pub enum TokenModel {
    Eof,
    LParen,
    RParen,
    Colon,
    Comma,
    Semicolon,
    Let,
    If,
    Else,
    Fun,
    For,
    Return,
    End,
    True,
    False,
    Nil,
    Print,
    In,
    Ident(Seq<char>),
    Int(i32),
    Float(u64),
    String(Seq<char>),
    Eq,
    EqEq,
    Plus,
    Minus,
    Slash,
    Star,
    Bang,
    BangEq,
    Lt,
    LtEq,
    Gt,
    GtEq,
    And,
    Or,
    NewLine,
}

impl Token {
    /// The model of a token: its text payloads viewed as character sequences.
    pub open spec fn model(&self) -> TokenModel {
        match self {
            Token::Eof => TokenModel::Eof,
            Token::LParen => TokenModel::LParen,
            Token::RParen => TokenModel::RParen,
            Token::Colon => TokenModel::Colon,
            Token::Comma => TokenModel::Comma,
            Token::Semicolon => TokenModel::Semicolon,
            Token::Let => TokenModel::Let,
            Token::If => TokenModel::If,
            Token::Else => TokenModel::Else,
            Token::Fun => TokenModel::Fun,
            Token::For => TokenModel::For,
            Token::Return => TokenModel::Return,
            Token::End => TokenModel::End,
            Token::True => TokenModel::True,
            Token::False => TokenModel::False,
            Token::Nil => TokenModel::Nil,
            Token::Print => TokenModel::Print,
            Token::In => TokenModel::In,
            Token::Ident(s) => TokenModel::Ident(s@),
            Token::Int(i) => TokenModel::Int(*i),
            Token::Float(b) => TokenModel::Float(*b),
            Token::String(s) => TokenModel::String(s@),
            Token::Eq => TokenModel::Eq,
            Token::EqEq => TokenModel::EqEq,
            Token::Plus => TokenModel::Plus,
            Token::Minus => TokenModel::Minus,
            Token::Slash => TokenModel::Slash,
            Token::Star => TokenModel::Star,
            Token::Bang => TokenModel::Bang,
            Token::BangEq => TokenModel::BangEq,
            Token::Lt => TokenModel::Lt,
            Token::LtEq => TokenModel::LtEq,
            Token::Gt => TokenModel::Gt,
            Token::GtEq => TokenModel::GtEq,
            Token::And => TokenModel::And,
            Token::Or => TokenModel::Or,
            Token::NewLine => TokenModel::NewLine,
        }
    }
}

/// The models of a token sequence.
pub open spec fn models_of(ts: Seq<Token>) -> Seq<TokenModel> {
    ts.map(|i: int, t: Token| t.model())
}

/// The character at an index, or the NUL sentinel past the end.
pub open spec fn cat(s: Seq<char>, i: int) -> char {
    if 0 <= i < s.len() {
        s[i]
    } else {
        '\u{0}'
    }
}

/// A line counter bump that stops at the counter's ceiling.
pub open spec fn spec_bump_line(line: u32) -> u32 {
    if line < 0xffff_ffff {
        (line + 1) as u32
    } else {
        line
    }
}

/// The end of a run of identifier characters starting at `i`.
pub open spec fn ident_end(s: Seq<char>, i: int) -> int
    decreases s.len() - i,
        when 0 <= i <= s.len()
{
    if i < s.len() && (spec_is_alpha(s[i]) || spec_is_digit(s[i])) {
        ident_end(s, i + 1)
    } else {
        i
    }
}

/// The end of a run of decimal digits starting at `i`.
pub open spec fn digits_end(s: Seq<char>, i: int) -> int
    decreases s.len() - i,
        when 0 <= i <= s.len()
{
    if i < s.len() && spec_is_digit(s[i]) {
        digits_end(s, i + 1)
    } else {
        i
    }
}

/// The index at which a line comment starting at `i` ends: the next newline
/// or the end of input.
pub open spec fn comment_end(s: Seq<char>, i: int) -> int
    decreases s.len() - i,
        when 0 <= i <= s.len()
{
    if i < s.len() && s[i] != '\n' {
        comment_end(s, i + 1)
    } else {
        i
    }
}

/// The index of the closing quote of a string whose contents start at `i`,
/// or the end of input if there is none.
pub open spec fn string_close(s: Seq<char>, i: int) -> int
    decreases s.len() - i,
        when 0 <= i <= s.len()
{
    if i < s.len() && s[i] != '"' {
        string_close(s, i + 1)
    } else {
        i
    }
}

/// The line counter after the newlines of `s[i..end)` are counted.
pub open spec fn lines_in(s: Seq<char>, i: int, end: int, line: u32) -> u32
    decreases end - i,
{
    if i < end {
        lines_in(s, i + 1, end, if cat(s, i) == '\n' {
            spec_bump_line(line)
        } else {
            line
        })
    } else {
        line
    }
}

/// The position after all blanks and line comments from `i` on: the next
/// significant character (a newline counts as significant; it becomes a
/// token).
pub open spec fn skip_ws(s: Seq<char>, i: int) -> int
    decreases s.len() - i,
        when 0 <= i <= s.len()
    via skip_ws_decreases
{
    let c = cat(s, i);
    if c == ' ' || c == '\t' || c == '\r' {
        skip_ws(s, i + 1)
    } else if c == '/' && cat(s, i + 1) == '/' {
        skip_ws(s, comment_end(s, i))
    } else {
        i
    }
}

#[via_fn]
proof fn skip_ws_decreases(s: Seq<char>, i: int) {
    if 0 <= i <= s.len() && cat(s, i) == '/' && cat(s, i + 1) == '/' {
        lemma_run_end_bounds(s, i);
        assert(i < s.len());
        assert(comment_end(s, i) == comment_end(s, i + 1));
        if i + 1 <= s.len() {
            lemma_run_end_bounds(s, i + 1);
        }
    }
}

/// The keyword for an identifier's text, or the identifier token itself.
pub open spec fn spec_keyword(w: Seq<char>) -> TokenModel {
    if w =~= seq!['l', 'e', 't'] {
        TokenModel::Let
    } else if w =~= seq!['r', 'e', 't', 'u', 'r', 'n'] {
        TokenModel::Return
    } else if w =~= seq!['i', 'f'] {
        TokenModel::If
    } else if w =~= seq!['i', 'n'] {
        TokenModel::In
    } else if w =~= seq!['n', 'i', 'l'] {
        TokenModel::Nil
    } else if w =~= seq!['t', 'r', 'u', 'e'] {
        TokenModel::True
    } else if w =~= seq!['p', 'r', 'i', 'n', 't'] {
        TokenModel::Print
    } else if w =~= seq!['e', 'n', 'd'] {
        TokenModel::End
    } else if w =~= seq!['e', 'l', 's', 'e'] {
        TokenModel::Else
    } else if w =~= seq!['f', 'u', 'n'] {
        TokenModel::Fun
    } else if w =~= seq!['f', 'a', 'l', 's', 'e'] {
        TokenModel::False
    } else if w =~= seq!['f', 'o', 'r'] {
        TokenModel::For
    } else {
        TokenModel::Ident(w)
    }
}

/// The value of the digit run `s[i..end)` accumulated onto `m`, or nothing
/// once it passes `limit`.
pub open spec fn spec_accum(s: Seq<char>, i: int, end: int, m: int, limit: int) -> Option<int>
    decreases end - i,
{
    if i < end {
        let d = cat(s, i) as int - 48;
        if m > (limit - d) / 10 {
            None
        } else {
            spec_accum(s, i + 1, end, 10 * m + d, limit)
        }
    } else {
        Some(m)
    }
}

/// The largest value an integer literal can carry.
pub open spec fn int_limit() -> int {
    0x7fff_ffff
}


/// The token scanned for a numeral starting at `start`, with the position
/// after it: an integer, or a float when a decimal point follows the digits.
/// The cap below which another significant digit is still consumed: 10^36,
/// so that a consuming step keeps the window under 10^37.
pub open spec fn sig_limit() -> int {
    1_000_000_000_000_000_000_000_000_000_000_000_000
}

/// Walks the integer digits `s[i..e)`: digits are consumed into the
/// significant window `m` while it is small; the rest only count, `q` many
/// (capped), with dropped nonzero digits marked in `st`.
pub open spec fn spec_walk_int(s: Seq<char>, i: int, e: int, m: int, q: int, st: bool) -> (
    int,
    int,
    bool,
)
    decreases e - i,
{
    if i < e {
        let d = cat(s, i) as int - 48;
        if m < sig_limit() {
            spec_walk_int(s, i + 1, e, 10 * m + d, q, st)
        } else {
            spec_walk_int(s, i + 1, e, m, if q < 400 {
                q + 1
            } else {
                q
            }, st || d != 0)
        }
    } else {
        (m, q, st)
    }
}

/// Walks the fractional digits `s[i..e)`: digits are consumed into the
/// window and counted in `k` (capped) while the integer part left room; the
/// rest are dust below the last consumed place, marked in `st`.
pub open spec fn spec_walk_frac(
    s: Seq<char>,
    i: int,
    e: int,
    m: int,
    q: int,
    k: int,
    st: bool,
) -> (int, int, bool)
    decreases e - i,
{
    if i < e {
        let d = cat(s, i) as int - 48;
        if q == 0 && m < sig_limit() && k < 400 {
            spec_walk_frac(s, i + 1, e, 10 * m + d, q, k + 1, st)
        } else {
            spec_walk_frac(s, i + 1, e, m, q, k, st || d != 0)
        }
    } else {
        (m, k, st)
    }
}

/// The bit pattern of a float literal whose integer digits stand in
/// `s[i0..i1)` and fractional digits in `s[f0..f1)`: exactly rounded when at
/// most 37 significant digits and 37 fractional places are consumed, and
/// rounded from the leading significant digits with a sticky marker beyond
/// that.
pub open spec fn spec_float_lit(s: Seq<char>, i0: int, i1: int, f0: int, f1: int) -> u64 {
    let wi = spec_walk_int(s, i0, i1, 0, 0, false);
    let wf = spec_walk_frac(s, f0, f1, wi.0, wi.1, 0, wi.2);
    if wi.1 == 0 && !wf.2 && wf.1 <= 37 {
        spec_from_decimal(wf.0, wf.1 as nat)
    } else {
        spec_from_decimal_big(wf.0, wi.1 as nat, wf.1 as nat, wf.2)
    }
}

pub open spec fn spec_num(s: Seq<char>, start: int, line: u32) -> Result<(TokenModel, int), LexError> {
    let e1 = digits_end(s, start + 1);
    if cat(s, e1) == '.' {
        let e2 = digits_end(s, e1 + 1);
        if spec_is_alpha(cat(s, e2)) {
            Err(LexError::MalformedNumber { line })
        } else {
            Ok((TokenModel::Float(spec_float_lit(s, start, e1, e1 + 1, e2)), e2))
        }
    } else {
        if spec_is_alpha(cat(s, e1)) {
            Err(LexError::MalformedNumber { line })
        } else {
            match spec_accum(s, start, e1, 0, int_limit()) {
                None => Err(LexError::NumberOutOfRange { line }),
                Some(v) => Ok((TokenModel::Int(v as i32), e1)),
            }
        }
    }
}

/// The token sequence scanned from position `pos` on, given the tokens'
/// shared source and the current line count.
pub open spec fn spec_scan_from(s: Seq<char>, pos: int, line: u32) -> Result<
    Seq<TokenModel>,
    LexError,
>
    decreases s.len() - pos, 0int,
        when 0 <= pos <= s.len()
    via spec_scan_from_decreases
{
    if pos >= s.len() {
        Ok(seq![TokenModel::Eof])
    } else {
        let p = skip_ws(s, pos);
        let c = cat(s, p);
        let q = p + 1;
        if spec_is_alpha(c) {
            let e = ident_end(s, q);
            let t = spec_keyword(s.subrange(p, e));
            scan_push(s, e, line, t)
        } else if spec_is_digit(c) {
            match spec_num(s, p, line) {
                Err(err) => Err(err),
                Ok((t, e)) => scan_push(s, e, line, t),
            }
        } else if c == '(' {
            scan_push(s, q, line, TokenModel::LParen)
        } else if c == ')' {
            scan_push(s, q, line, TokenModel::RParen)
        } else if c == ';' {
            scan_push(s, q, line, TokenModel::Semicolon)
        } else if c == ',' {
            scan_push(s, q, line, TokenModel::Comma)
        } else if c == '+' {
            scan_push(s, q, line, TokenModel::Plus)
        } else if c == '-' {
            scan_push(s, q, line, TokenModel::Minus)
        } else if c == '*' {
            scan_push(s, q, line, TokenModel::Star)
        } else if c == '/' {
            scan_push(s, q, line, TokenModel::Slash)
        } else if c == ':' {
            scan_push(s, q, line, TokenModel::Colon)
        } else if c == '=' {
            if cat(s, q) == '=' {
                scan_push(s, q + 1, line, TokenModel::EqEq)
            } else {
                scan_push(s, q, line, TokenModel::Eq)
            }
        } else if c == '!' {
            if cat(s, q) == '=' {
                scan_push(s, q + 1, line, TokenModel::BangEq)
            } else {
                scan_push(s, q, line, TokenModel::Bang)
            }
        } else if c == '<' {
            if cat(s, q) == '=' {
                scan_push(s, q + 1, line, TokenModel::LtEq)
            } else {
                scan_push(s, q, line, TokenModel::Lt)
            }
        } else if c == '>' {
            if cat(s, q) == '=' {
                scan_push(s, q + 1, line, TokenModel::GtEq)
            } else {
                scan_push(s, q, line, TokenModel::Gt)
            }
        } else if c == '"' {
            let close = string_close(s, q);
            if close >= s.len() {
                Err(LexError::UnterminatedString { line })
            } else {
                let t = TokenModel::String(s.subrange(q, close));
                match spec_scan_from(s, close + 1, lines_in(s, q, close, line)) {
                    Err(err) => Err(err),
                    Ok(rest) => Ok(seq![t] + rest),
                }
            }
        } else if c == '\n' {
            match spec_scan_from(s, q, spec_bump_line(line)) {
                Err(err) => Err(err),
                Ok(rest) => Ok(seq![TokenModel::NewLine] + rest),
            }
        } else {
            spec_scan_from_quiet(s, q, line)
        }
    }
}

/// A scan step that produced no token: the rest of the scan, from `pos`.
pub open spec fn spec_scan_from_quiet(s: Seq<char>, pos: int, line: u32) -> Result<
    Seq<TokenModel>,
    LexError,
>
    decreases (if pos <= s.len() { s.len() - pos } else { 0int }), 1int,
        when 0 <= pos <= s.len() + 1
{
    if pos > s.len() {
        Ok(seq![TokenModel::Eof])
    } else {
        spec_scan_from(s, pos, line)
    }
}

/// A scan step that produced one token: the token, then the rest of the
/// scan from `pos`.
pub open spec fn scan_push(s: Seq<char>, pos: int, line: u32, t: TokenModel) -> Result<
    Seq<TokenModel>,
    LexError,
>
    decreases (if pos <= s.len() { s.len() - pos } else { 0int }), 1int,
        when 0 <= pos <= s.len() + 1
{
    if pos > s.len() {
        Ok(seq![t, TokenModel::Eof])
    } else {
        match spec_scan_from(s, pos, line) {
            Err(err) => Err(err),
            Ok(rest) => Ok(seq![t] + rest),
        }
    }
}

#[via_fn]
proof fn spec_scan_from_decreases(s: Seq<char>, pos: int, line: u32) {
    lemma_skip_ws_bounds(s, pos);
    let p = skip_ws(s, pos);
    if p < s.len() {
        lemma_run_end_bounds(s, p + 1);
        let e1 = digits_end(s, p + 1);
        if 0 <= e1 + 1 <= s.len() {
            lemma_run_end_bounds(s, e1 + 1);
        }
        lemma_string_close_bounds(s, p + 1);
    }
}

/// The runs measured by `ident_end`, `digits_end`, `comment_end` and
/// `string_close` end between their start and the end of input.
pub proof fn lemma_run_end_bounds(s: Seq<char>, i: int)
    requires
        0 <= i <= s.len(),
    ensures
        i <= ident_end(s, i) <= s.len(),
        i <= digits_end(s, i) <= s.len(),
        i <= comment_end(s, i) <= s.len(),
    decreases s.len() - i,
{
    if i < s.len() {
        lemma_run_end_bounds(s, i + 1);
    }
}

pub proof fn lemma_string_close_bounds(s: Seq<char>, i: int)
    requires
        0 <= i <= s.len(),
    ensures
        i <= string_close(s, i) <= s.len(),
    decreases s.len() - i,
{
    if i < s.len() && s[i] != '"' {
        lemma_string_close_bounds(s, i + 1);
    }
}

/// Skipping whitespace never moves backwards and stays within the input.
pub proof fn lemma_skip_ws_bounds(s: Seq<char>, i: int)
    requires
        0 <= i <= s.len(),
    ensures
        i <= skip_ws(s, i) <= s.len(),
    decreases s.len() - i,
{
    lemma_run_end_bounds(s, i);
    let c = cat(s, i);
    if c == ' ' || c == '\t' || c == '\r' {
        lemma_skip_ws_bounds(s, i + 1);
    } else if c == '/' && cat(s, i + 1) == '/' {
        assert(i < s.len());
        assert(comment_end(s, i) == comment_end(s, i + 1));
        lemma_run_end_bounds(s, i + 1);
        lemma_skip_ws_bounds(s, comment_end(s, i));
    }
}

/// The whole token sequence of a source text, or its first lexical error.
pub open spec fn spec_scan(s: Seq<char>) -> Result<Seq<TokenModel>, LexError> {
    spec_scan_from(s, 0, 1)
}


/// Relies on str::chars: the characters of the text, in order.
#[verifier::external_body]
pub(crate) fn str_chars(s: &str) -> (r: Vec<char>)
    ensures
        r@ == s@,
{
    s.chars().collect()
}

/// Relies on String's FromIterator of char: the text made of the given
/// characters, in order.
#[verifier::external_body]
fn chars_to_string(v: &Vec<char>) -> (r: String)
    ensures
        r@ == v@,
{
    v.iter().collect()
}

pub struct Lexer {
    pub source: Vec<char>,
    pub current: usize,
    pub start: usize,
    pub line: u32,
}

/// Scans a whole source text. The result models the token sequence that
/// `spec_scan` gives for the text, or its first lexical error.
pub fn scan(source: &str) -> (r: Result<Vec<Token>, LexError>)
    requires
        source@.len() < usize::MAX,
    ensures
        (match r {
            Ok(ts) => Ok(models_of(ts@)),
            Err(e) => Err(e),
        }) == spec_scan(source@),
{
    let mut lexer = Lexer::new(source);
    lexer.scan()
}

impl Lexer {
    /// The lexer's state stays inside its input.
    pub open spec fn wf(&self) -> bool {
        &&& self.source@.len() < usize::MAX
        &&& self.current <= self.source@.len()
    }

    pub fn new(source: &str) -> (r: Lexer)
        requires
            source@.len() < usize::MAX,
        ensures
            r.source@ == source@,
            r.current == 0,
            r.start == 0,
            r.line == 1,
            r.wf(),
    {
        Lexer { source: str_chars(source), current: 0, start: 0, line: 1 }
    }

    pub fn is_at_end(&self) -> (r: bool)
        ensures
            r == (self.current >= self.source@.len()),
    {
        self.current >= self.source.len()
    }

    pub fn char_at(&self, i: usize) -> (r: char)
        ensures
            r == cat(self.source@, i as int),
    {
        if i >= self.source.len() {
            return '\u{0}';
        }
        self.source[i]
    }

    pub fn peek(&self) -> (r: char)
        ensures
            r == cat(self.source@, self.current as int),
    {
        self.char_at(self.current)
    }

    pub fn peek_next(&self) -> (r: char)
        requires
            self.wf(),
        ensures
            r == cat(self.source@, self.current + 1),
    {
        self.char_at(self.current + 1)
    }

    /// Consumes one character: the character at the cursor, with the cursor
    /// moved one place on.
    pub fn advance(&mut self) -> (r: char)
        requires
            old(self).wf(),
        ensures
            r == cat(old(self).source@, old(self).current as int),
            final(self).current == old(self).current + 1,
            final(self).source@ == old(self).source@,
            final(self).start == old(self).start,
            final(self).line == old(self).line,
    {
        let c = self.char_at(self.current);
        self.current = self.current + 1;
        c
    }

    /// Skips blanks and line comments until a significant character, as
    /// `skip_ws` says; newlines stay, since they become tokens.
    pub fn skip_whitespace(&mut self)
        requires
            old(self).wf(),
        ensures
            final(self).current == skip_ws(old(self).source@, old(self).current as int),
            final(self).source@ == old(self).source@,
            final(self).start == old(self).start,
            final(self).line == old(self).line,
            final(self).wf(),
        decreases old(self).source@.len() - old(self).current,
    {
        let ghost s = self.source@;
        let c = self.peek();
        if c == ' ' || c == '\t' || c == '\r' {
            self.advance();
            self.skip_whitespace();
        } else if c == '/' {
            if self.peek_next() == '/' {
                let ghost c0 = self.current as int;
                while self.peek() != '\n' && !self.is_at_end()
                    invariant
                        self.wf(),
                        self.source@ == s,
                        self.start == old(self).start,
                        self.line == old(self).line,
                        c0 <= self.current <= s.len(),
                        comment_end(s, c0) == comment_end(s, self.current as int),
                    decreases s.len() - self.current,
                {
                    self.advance();
                }
                proof {
                    assert(self.current as int == comment_end(s, c0));
                    assert(self.current > c0);
                }
                self.skip_whitespace();
            }
        }
    }

    /// The text between two cursor positions.
    pub fn get_string(&self, start: usize, end: usize) -> (r: String)
        requires
            start <= end <= self.source@.len(),
        ensures
            r@ == self.source@.subrange(start as int, end as int),
    {
        let mut v: Vec<char> = Vec::new();
        let mut i = start;
        while i < end
            invariant
                start <= i <= end <= self.source@.len(),
                v@ == self.source@.subrange(start as int, i as int),
            decreases end - i,
        {
            v.push(self.source[i]);
            proof {
                assert(v@ =~= self.source@.subrange(start as int, i + 1));
            }
            i = i + 1;
        }
        chars_to_string(&v)
    }

    /// The text between the token start and the cursor.
    pub fn current_string(&self) -> (r: String)
        requires
            self.start <= self.current <= self.source@.len(),
        ensures
            r@ == self.source@.subrange(self.start as int, self.current as int),
    {
        self.get_string(self.start, self.current)
    }
}


/// Raises the line counter by one, stopping at the counter's ceiling.
pub fn bump_line(line: u32) -> (r: u32)
    ensures
        r == spec_bump_line(line),
{
    if line < 0xffff_ffff {
        line + 1
    } else {
        line
    }
}

/// Every character of the run that `digits_end` measures is a digit.
pub proof fn lemma_digits_end_digits(s: Seq<char>, i: int)
    requires
        0 <= i <= s.len(),
    ensures
        forall|k: int| i <= k < digits_end(s, i) ==> spec_is_digit(#[trigger] s[k]),
    decreases s.len() - i,
{
    if i < s.len() && spec_is_digit(s[i]) {
        lemma_digits_end_digits(s, i + 1);
    }
}

/// How `spec_keyword` decides, sorted by the word's first letter: only the
/// keywords that share it can match, every other word is an identifier.
pub proof fn lemma_spec_keyword_cases(w: Seq<char>)
    requires
        w.len() >= 1,
    ensures
        w[0] == 'l' ==> spec_keyword(w) == (if w =~= seq!['l', 'e', 't'] {
            TokenModel::Let
        } else {
            TokenModel::Ident(w)
        }),
        w[0] == 'r' ==> spec_keyword(w) == (if w =~= seq!['r', 'e', 't', 'u', 'r', 'n'] {
            TokenModel::Return
        } else {
            TokenModel::Ident(w)
        }),
        w[0] == 'i' ==> spec_keyword(w) == (if w =~= seq!['i', 'f'] {
            TokenModel::If
        } else if w =~= seq!['i', 'n'] {
            TokenModel::In
        } else {
            TokenModel::Ident(w)
        }),
        w[0] == 'n' ==> spec_keyword(w) == (if w =~= seq!['n', 'i', 'l'] {
            TokenModel::Nil
        } else {
            TokenModel::Ident(w)
        }),
        w[0] == 't' ==> spec_keyword(w) == (if w =~= seq!['t', 'r', 'u', 'e'] {
            TokenModel::True
        } else {
            TokenModel::Ident(w)
        }),
        w[0] == 'p' ==> spec_keyword(w) == (if w =~= seq!['p', 'r', 'i', 'n', 't'] {
            TokenModel::Print
        } else {
            TokenModel::Ident(w)
        }),
        w[0] == 'e' ==> spec_keyword(w) == (if w =~= seq!['e', 'n', 'd'] {
            TokenModel::End
        } else if w =~= seq!['e', 'l', 's', 'e'] {
            TokenModel::Else
        } else {
            TokenModel::Ident(w)
        }),
        w[0] == 'f' ==> spec_keyword(w) == (if w =~= seq!['f', 'u', 'n'] {
            TokenModel::Fun
        } else if w =~= seq!['f', 'a', 'l', 's', 'e'] {
            TokenModel::False
        } else if w =~= seq!['f', 'o', 'r'] {
            TokenModel::For
        } else {
            TokenModel::Ident(w)
        }),
        !(w[0] == 'l' || w[0] == 'r' || w[0] == 'i' || w[0] == 'n' || w[0] == 't' || w[0] == 'p'
            || w[0] == 'e' || w[0] == 'f') ==> spec_keyword(w) == TokenModel::Ident(w),
{
}


impl Lexer {
    /// The word between `start` and the cursor, as a sequence.
    pub open spec fn word(&self) -> Seq<char> {
        self.source@.subrange(self.start as int, self.current as int)
    }

    /// The keyword table lookup for the word between `start` and the cursor.
    fn lookup_keyword(&self) -> (t: Token)
        requires
            self.wf(),
            self.start < self.current <= self.source@.len(),
        ensures
            t.model() == spec_keyword(self.word()),
    {
        lookup_keyword_in(&self.source, self.start, self.current)
    }
}

/// The text of a cursor range, as a string.
pub(crate) fn string_range(v: &Vec<char>, start: usize, end: usize) -> (r: String)
    requires
        start <= end <= v@.len(),
    ensures
        r@ == v@.subrange(start as int, end as int),
{
    let mut out: Vec<char> = Vec::new();
    let mut i = start;
    while i < end
        invariant
            start <= i <= end <= v@.len(),
            out@ == v@.subrange(start as int, i as int),
        decreases end - i,
    {
        out.push(v[i]);
        proof {
            assert(out@ =~= v@.subrange(start as int, i + 1));
        }
        i = i + 1;
    }
    chars_to_string(&out)
}

/// Compares a word's tail against a keyword's tail: the keyword token when
/// word and keyword agree, the identifier token otherwise. The word is the
/// range `[start, end)` of the text.
pub(crate) fn check_keyword_in(
    v: &Vec<char>,
    start: usize,
    end: usize,
    rest: &str,
    begin: usize,
    len: usize,
    token: Token,
) -> (t: Token)
    requires
        start <= end <= v@.len(),
        begin + len < usize::MAX,
        ensures
            t.model() == (if end - start == begin + len && v@.subrange(
                start + begin,
                start + begin + len,
            ) =~= rest@ {
                token.model()
            } else {
                TokenModel::Ident(v@.subrange(start as int, end as int))
            }),
    {
        if end - start == begin + len {
            let rv = str_chars(rest);
            if rv.len() == len {
                let mut i: usize = 0;
                let mut same = true;
                while i < len
                    invariant
                        0 <= i <= len,
                        rv@ == rest@,
                        rv@.len() == len,
                        start + begin + len == end <= v@.len(),
                        same == (forall|k: int|
                            0 <= k < i ==> v@[start + begin + k] == rest@[k]),
                    decreases len - i,
                {
                    if v[start + begin + i] != rv[i] {
                        same = false;
                    }
                    i = i + 1;
                }
                if same {
                    proof {
                        assert(v@.subrange(
                            start + begin,
                            start + begin + len,
                        ) =~= rest@);
                    }
                    return token;
                }
                proof {
                    assert(!(v@.subrange(start + begin, start + begin + len) =~= rest@));
                }
            } else {
                proof {
                    assert(v@.subrange(start + begin, start + begin + len).len() == len);
                    assert(!(v@.subrange(start + begin, start + begin + len) =~= rest@));
                }
            }
        }
        Token::Ident(string_range(v, start, end))
    }

    /// The keyword table: a first-letter dispatch, then a suffix comparison.
    pub(crate) fn lookup_keyword_in(v: &Vec<char>, start: usize, end: usize) -> (t: Token)
        requires
            start < end <= v@.len(),
        ensures
            t.model() == spec_keyword(v@.subrange(start as int, end as int)),
    {
        let ghost w = v@.subrange(start as int, end as int);
        proof {
            assert(w.len() >= 1);
            assert(w[0] == v@[start as int]);
            lemma_spec_keyword_cases(w);
            reveal_strlit("et");
            reveal_strlit("eturn");
            reveal_strlit("il");
            reveal_strlit("rue");
            reveal_strlit("rint");
            reveal_strlit("d");
            reveal_strlit("se");
            reveal_strlit("n");
            reveal_strlit("lse");
            reveal_strlit("r");
        }
        let c = v[start];
        proof {
            if w.len() >= 2 {
                assert(w[1] == v@[start + 1]);
            }
            assert forall|kw: Seq<char>, b: int|
                1 <= b && w.len() == kw.len() && #[trigger] w.subrange(b, w.len() as int)
                    =~= #[trigger] kw.subrange(b, kw.len() as int) && (forall|k: int|
                    0 <= k < b ==> w[k] == kw[k]) implies w =~= kw by {
                assert forall|k: int| 0 <= k < w.len() implies w[k] == kw[k] by {
                    if k >= b {
                        assert(w.subrange(b, w.len() as int)[k - b] == w[k]);
                        assert(kw.subrange(b, kw.len() as int)[k - b] == kw[k]);
                    }
                }
            }
        }
        match c {
            'l' => {
                let t = check_keyword_in(
                    v,
                    start,
                    end,"et", 1, 2, Token::Let);
                proof {
                    lemma_tail_eq_w(w, seq!['l', 'e', 't'], 1, v@, start as int);
                }
                return t;
            },
            'r' => {
                let t = check_keyword_in(
                    v,
                    start,
                    end,"eturn", 1, 5, Token::Return);
                proof {
                    lemma_tail_eq_w(
                        w,
                        seq!['r', 'e', 't', 'u', 'r', 'n'],
                        1,
                        v@,
                        start as int,
                    );
                }
                return t;
            },
            'i' => {
                if end - start == 2 {
                    match v[start + 1] {
                        'f' => {
                            proof {
                                assert(w =~= seq!['i', 'f']);
                            }
                            return Token::If;
                        },
                        'n' => {
                            proof {
                                assert(w =~= seq!['i', 'n']);
                            }
                            return Token::In;
                        },
                        _ => {
                            proof {
                                assert(!(w =~= seq!['i', 'f']) && !(w =~= seq!['i', 'n']));
                            }
                        },
                    }
                } else {
                    proof {
                        assert(!(w =~= seq!['i', 'f']) && !(w =~= seq!['i', 'n']));
                    }
                }
            },
            'n' => {
                let t = check_keyword_in(
                    v,
                    start,
                    end,"il", 1, 2, Token::Nil);
                proof {
                    lemma_tail_eq_w(w, seq!['n', 'i', 'l'], 1, v@, start as int);
                }
                return t;
            },
            't' => {
                let t = check_keyword_in(
                    v,
                    start,
                    end,"rue", 1, 3, Token::True);
                proof {
                    lemma_tail_eq_w(w, seq!['t', 'r', 'u', 'e'], 1, v@, start as int);
                }
                return t;
            },
            'p' => {
                let t = check_keyword_in(
                    v,
                    start,
                    end,"rint", 1, 4, Token::Print);
                proof {
                    lemma_tail_eq_w(
                        w,
                        seq!['p', 'r', 'i', 'n', 't'],
                        1,
                        v@,
                        start as int,
                    );
                }
                return t;
            },
            'e' => {
                if end - start > 1 {
                    match v[start + 1] {
                        'n' => {
                            let t = check_keyword_in(
                    v,
                    start,
                    end,"d", 2, 1, Token::End);
                            proof {
                                lemma_tail_eq_w(
                                    w,
                                    seq!['e', 'n', 'd'],
                                    2,
                                    v@,
                                    start as int,
                                );
                                assert(!(w =~= seq!['e', 'l', 's', 'e']));
                            }
                            return t;
                        },
                        'l' => {
                            let t = check_keyword_in(
                    v,
                    start,
                    end,"se", 2, 2, Token::Else);
                            proof {
                                lemma_tail_eq_w(
                                    w,
                                    seq!['e', 'l', 's', 'e'],
                                    2,
                                    v@,
                                    start as int,
                                );
                                assert(!(w =~= seq!['e', 'n', 'd']));
                            }
                            return t;
                        },
                        _ => {
                            proof {
                                assert(!(w =~= seq!['e', 'n', 'd']) && !(w =~= seq![
                                    'e',
                                    'l',
                                    's',
                                    'e',
                                ]));
                            }
                        },
                    }
                } else {
                    proof {
                        assert(!(w =~= seq!['e', 'n', 'd']) && !(w =~= seq!['e', 'l', 's', 'e']));
                    }
                }
            },
            'f' => {
                if end - start > 1 {
                    match v[start + 1] {
                        'u' => {
                            let t = check_keyword_in(
                    v,
                    start,
                    end,"n", 2, 1, Token::Fun);
                            proof {
                                lemma_tail_eq_w(
                                    w,
                                    seq!['f', 'u', 'n'],
                                    2,
                                    v@,
                                    start as int,
                                );
                                assert(!(w =~= seq!['f', 'a', 'l', 's', 'e']) && !(w =~= seq![
                                    'f',
                                    'o',
                                    'r',
                                ]));
                            }
                            return t;
                        },
                        'a' => {
                            let t = check_keyword_in(
                    v,
                    start,
                    end,"lse", 2, 3, Token::False);
                            proof {
                                lemma_tail_eq_w(
                                    w,
                                    seq!['f', 'a', 'l', 's', 'e'],
                                    2,
                                    v@,
                                    start as int,
                                );
                                assert(!(w =~= seq!['f', 'u', 'n']) && !(w =~= seq![
                                    'f',
                                    'o',
                                    'r',
                                ]));
                            }
                            return t;
                        },
                        'o' => {
                            let t = check_keyword_in(
                    v,
                    start,
                    end,"r", 2, 1, Token::For);
                            proof {
                                lemma_tail_eq_w(
                                    w,
                                    seq!['f', 'o', 'r'],
                                    2,
                                    v@,
                                    start as int,
                                );
                                assert(!(w =~= seq!['f', 'u', 'n']) && !(w =~= seq![
                                    'f',
                                    'a',
                                    'l',
                                    's',
                                    'e',
                                ]));
                            }
                            return t;
                        },
                        _ => {
                            proof {
                                assert(!(w =~= seq!['f', 'u', 'n']) && !(w =~= seq![
                                    'f',
                                    'a',
                                    'l',
                                    's',
                                    'e',
                                ]) && !(w =~= seq!['f', 'o', 'r']));
                            }
                        },
                    }
                } else {
                    proof {
                        assert(!(w =~= seq!['f', 'u', 'n']) && !(w =~= seq!['f', 'a', 'l', 's', 'e'])
                            && !(w =~= seq!['f', 'o', 'r']));
                    }
                }
            },
            _ => {},
        }
        Token::Ident(string_range(v, start, end))
    }

/// A word equals a keyword exactly when they share the length, the first
/// `b` characters, and the tail from `b` on.
pub(crate) proof fn lemma_tail_eq_w(w: Seq<char>, kw: Seq<char>, b: int, s: Seq<char>, start: int)
    requires
        0 <= start,
        start + w.len() <= s.len(),
        w == s.subrange(start, start + w.len()),
        1 <= b <= kw.len(),
        forall|k: int| 0 <= k < b && k < w.len() ==> w[k] == kw[k],
    ensures
        (w.len() == kw.len() && s.subrange(start + b, start + kw.len()) =~= kw.subrange(
            b,
            kw.len() as int,
        )) == (w =~= kw),
{
    if w.len() == kw.len() {
        if s.subrange(start + b, start + kw.len()) =~= kw.subrange(b, kw.len() as int) {
            assert forall|k: int| 0 <= k < w.len() implies w[k] == kw[k] by {
                if k >= b {
                    assert(s.subrange(start + b, start + kw.len())[k - b] == s[start + k]);
                    assert(kw.subrange(b, kw.len() as int)[k - b] == kw[k]);
                    assert(w[k] == s[start + k]);
                }
            }
            assert(w =~= kw);
        } else {
            if w =~= kw {
                assert forall|k: int|
                    0 <= k < kw.len() - b implies s.subrange(start + b, start + kw.len())[k]
                    == kw.subrange(b, kw.len() as int)[k] by {
                    assert(s.subrange(start + b, start + kw.len())[k] == s[start + b + k]);
                    assert(w[b + k] == s[start + b + k]);
                }
                assert(s.subrange(start + b, start + kw.len()) =~= kw.subrange(
                    b,
                    kw.len() as int,
                ));
            }
        }
    }
}


impl Lexer {
    /// Scans the rest of an identifier and looks its text up in the keyword
    /// table.
    fn ident(&mut self) -> (t: Token)
        requires
            old(self).wf(),
            old(self).start + 1 == old(self).current,
            old(self).current <= old(self).source@.len(),
        ensures
            final(self).source@ == old(self).source@,
            final(self).start == old(self).start,
            final(self).line == old(self).line,
            final(self).current == ident_end(old(self).source@, old(self).current as int),
            final(self).wf(),
            t.model() == spec_keyword(
                old(self).source@.subrange(
                    old(self).start as int,
                    ident_end(old(self).source@, old(self).current as int),
                ),
            ),
    {
        let ghost s = self.source@;
        let ghost q0 = self.current as int;
        while is_alpha(self.peek()) || is_digit(self.peek())
            invariant
                self.wf(),
                self.source@ == s,
                self.start == old(self).start,
                self.line == old(self).line,
                q0 <= self.current <= s.len(),
                ident_end(s, q0) == ident_end(s, self.current as int),
            decreases s.len() - self.current,
        {
            self.advance();
        }
        self.lookup_keyword()
    }

    /// Accumulates the digit run `[from, to)` onto `m0`, or reports that the
    /// value passes `limit`.
    /// Accumulates the digit run `[from, to)` onto `m0`, or reports that
    /// the value passes `limit`.
    fn accum_digits(&self, from: usize, to: usize, m0: u128, limit: u128) -> (r: Option<u128>)
        requires
            self.wf(),
            from <= to <= self.source@.len(),
            m0 <= limit,
            9 <= limit < 0xffff_ffff_ffff_ffff_ffff_ffff_ffff_ffff,
            forall|k: int| from <= k < to ==> spec_is_digit(#[trigger] self.source@[k]),
        ensures
            match r {
                Some(m) => spec_accum(self.source@, from as int, to as int, m0 as int, limit as int)
                    == Some(m as int) && m <= limit,
                None => spec_accum(self.source@, from as int, to as int, m0 as int, limit as int)
                    is None,
            },
    {
        accum_digits_in(&self.source, from, to, m0, limit)
    }
}

/// Accumulates the digit run `[from, to)` of a text onto `m0`, or reports
/// that the value passes `limit`.
pub(crate) fn accum_digits_in(v: &Vec<char>, from: usize, to: usize, m0: u128, limit: u128) -> (r:
    Option<u128>)
    requires
        from <= to <= v@.len(),
        m0 <= limit,
        9 <= limit < 0xffff_ffff_ffff_ffff_ffff_ffff_ffff_ffff,
        forall|k: int| from <= k < to ==> spec_is_digit(#[trigger] v@[k]),
    ensures
        match r {
            Some(m) => spec_accum(v@, from as int, to as int, m0 as int, limit as int) == Some(
                m as int,
            ) && m <= limit,
            None => spec_accum(v@, from as int, to as int, m0 as int, limit as int) is None,
        },
{
    let ghost s = v@;
    let mut m: u128 = m0;
    let mut i: usize = from;
    while i < to
        invariant
            from <= i <= to <= s.len(),
            s == v@,
            m <= limit,
            9 <= limit < 0xffff_ffff_ffff_ffff_ffff_ffff_ffff_ffff,
            forall|k: int| from <= k < to ==> spec_is_digit(#[trigger] s[k]),
            spec_accum(s, from as int, to as int, m0 as int, limit as int) == spec_accum(
                s,
                i as int,
                to as int,
                m as int,
                limit as int,
            ),
        decreases to - i,
    {
        let c = v[i];
        proof {
            assert(spec_is_digit(s[i as int]));
            assert(cat(s, i as int) == c);
        }
        let d: u128 = ((c as u32) - 48) as u128;
        proof {
            assert(d == c as int - 48);
            assert(d <= 9);
        }
        if m > (limit - d) / 10 {
            return None;
        }
        m = m * 10 + d;
        i = i + 1;
    }
    Some(m)
}

/// Walks the integer digits `[from, to)` of a text, as `spec_walk_int` says.
pub(crate) fn walk_int_digits(
    v: &Vec<char>,
    from: usize,
    to: usize,
    m0: u128,
    q0: u32,
    st0: bool,
) -> (r: (u128, u32, bool))
    requires
        from <= to <= v@.len(),
        m0 < 10 * (1_000_000_000_000_000_000_000_000_000_000_000_000 as u128),
        q0 <= 400,
        forall|x: int| from <= x < to ==> spec_is_digit(#[trigger] v@[x]),
    ensures
        (r.0 as int, r.1 as int, r.2) == spec_walk_int(
            v@,
            from as int,
            to as int,
            m0 as int,
            q0 as int,
            st0,
        ),
        r.0 < 10 * (1_000_000_000_000_000_000_000_000_000_000_000_000 as u128),
        r.1 <= 400,
{
    let ghost s = v@;
    let mut m = m0;
    let mut q = q0;
    let mut st = st0;
    let mut i = from;
    while i < to
        invariant
            from <= i <= to <= s.len(),
            s == v@,
            m < 10 * (1_000_000_000_000_000_000_000_000_000_000_000_000 as u128),
            q <= 400,
            forall|x: int| from <= x < to ==> spec_is_digit(#[trigger] s[x]),
            spec_walk_int(s, i as int, to as int, m as int, q as int, st) == spec_walk_int(
                s,
                from as int,
                to as int,
                m0 as int,
                q0 as int,
                st0,
            ),
        decreases to - i,
    {
        let c = v[i];
        proof {
            assert(spec_is_digit(s[i as int]));
            assert(cat(s, i as int) == c);
        }
        let d: u128 = ((c as u32) - 48) as u128;
        proof {
            assert(d == c as int - 48);
            assert(d <= 9);
        }
        if m < 1_000_000_000_000_000_000_000_000_000_000_000_000 {
            m = m * 10 + d;
        } else {
            if q < 400 {
                q = q + 1;
            }
            st = st || d != 0;
        }
        i = i + 1;
    }
    (m, q, st)
}

/// Walks the fractional digits `[from, to)` of a text, as `spec_walk_frac`
/// says.
pub(crate) fn walk_frac_digits(
    v: &Vec<char>,
    from: usize,
    to: usize,
    m0: u128,
    q: u32,
    st0: bool,
) -> (r: (u128, u32, bool))
    requires
        from <= to <= v@.len(),
        m0 < 10 * (1_000_000_000_000_000_000_000_000_000_000_000_000 as u128),
        forall|x: int| from <= x < to ==> spec_is_digit(#[trigger] v@[x]),
    ensures
        (r.0 as int, r.1 as int, r.2) == spec_walk_frac(
            v@,
            from as int,
            to as int,
            m0 as int,
            q as int,
            0,
            st0,
        ),
        r.0 < 10 * (1_000_000_000_000_000_000_000_000_000_000_000_000 as u128),
        r.1 <= 400,
{
    let ghost s = v@;
    let mut m = m0;
    let mut k: u32 = 0;
    let mut st = st0;
    let mut i = from;
    while i < to
        invariant
            from <= i <= to <= s.len(),
            s == v@,
            m < 10 * (1_000_000_000_000_000_000_000_000_000_000_000_000 as u128),
            k <= 400,
            forall|x: int| from <= x < to ==> spec_is_digit(#[trigger] s[x]),
            spec_walk_frac(s, i as int, to as int, m as int, q as int, k as int, st)
                == spec_walk_frac(s, from as int, to as int, m0 as int, q as int, 0, st0),
        decreases to - i,
    {
        let c = v[i];
        proof {
            assert(spec_is_digit(s[i as int]));
            assert(cat(s, i as int) == c);
        }
        let d: u128 = ((c as u32) - 48) as u128;
        proof {
            assert(d == c as int - 48);
            assert(d <= 9);
        }
        if q == 0 && m < 1_000_000_000_000_000_000_000_000_000_000_000_000 && k < 400 {
            m = m * 10 + d;
            k = k + 1;
        } else {
            st = st || d != 0;
        }
        i = i + 1;
    }
    (m, k, st)
}

/// The bit pattern of a float literal with integer digits `[i0, i1)` and
/// fractional digits `[f0, f1)` of a text, as `spec_float_lit` says.
pub(crate) fn float_lit_bits(v: &Vec<char>, i0: usize, i1: usize, f0: usize, f1: usize) -> (r: u64)
    requires
        i0 <= i1 <= v@.len(),
        f0 <= f1 <= v@.len(),
        forall|x: int| i0 <= x < i1 ==> spec_is_digit(#[trigger] v@[x]),
        forall|x: int| f0 <= x < f1 ==> spec_is_digit(#[trigger] v@[x]),
    ensures
        r == spec_float_lit(v@, i0 as int, i1 as int, f0 as int, f1 as int),
{
    let wi = walk_int_digits(v, i0, i1, 0, 0, false);
    let wf = walk_frac_digits(v, f0, f1, wi.0, wi.1, wi.2);
    if wi.1 == 0 && !wf.2 && wf.1 <= 37 {
        from_decimal(wf.0, wf.1)
    } else {
        from_decimal_big(wf.0, wi.1, wf.1, wf.2)
    }
}

impl Lexer {
    /// Scans the rest of a numeral: an integer literal, or a float literal
    /// when a decimal point follows the digits.
    fn num(&mut self) -> (r: Result<Token, LexError>)
        requires
            old(self).wf(),
            old(self).start + 1 == old(self).current,
            old(self).current <= old(self).source@.len(),
            spec_is_digit(cat(old(self).source@, old(self).start as int)),
        ensures
            final(self).source@ == old(self).source@,
            final(self).start == old(self).start,
            final(self).line == old(self).line,
            final(self).wf(),
            match r {
                Ok(t) => spec_num(old(self).source@, old(self).start as int, old(self).line)
                    == Ok::<(TokenModel, int), LexError>((t.model(), final(self).current as int)),
                Err(e) => spec_num(old(self).source@, old(self).start as int, old(self).line)
                    == Err::<(TokenModel, int), LexError>(e),
            },
    {
        let ghost s = self.source@;
        let ghost st = self.start as int;
        let ghost q0 = self.current as int;
        while is_digit(self.peek())
            invariant
                self.wf(),
                self.source@ == s,
                self.start == old(self).start,
                self.line == old(self).line,
                q0 <= self.current <= s.len(),
                digits_end(s, q0) == digits_end(s, self.current as int),
            decreases s.len() - self.current,
        {
            self.advance();
        }
        let e1 = self.current;
        proof {
            lemma_digits_end_digits(s, q0);
            lemma_run_end_bounds(s, q0);
        }
        if self.peek() == '.' {
            self.advance();
            let ghost q1 = self.current as int;
            while is_digit(self.peek())
                invariant
                    self.wf(),
                    self.source@ == s,
                    self.start == old(self).start,
                    self.line == old(self).line,
                    q1 <= self.current <= s.len(),
                    digits_end(s, q1) == digits_end(s, self.current as int),
                decreases s.len() - self.current,
            {
                self.advance();
            }
            let e2 = self.current;
            proof {
                lemma_digits_end_digits(s, q1);
                lemma_run_end_bounds(s, q1);
            }
            if is_alpha(self.peek()) {
                return Err(LexError::MalformedNumber { line: self.line });
            }
            let bits = float_lit_bits(&self.source, self.start, e1, e1 + 1, e2);
            Ok(Token::Float(bits))
        } else {
            if is_alpha(self.peek()) {
                return Err(LexError::MalformedNumber { line: self.line });
            }
            match self.accum_digits(self.start, e1, 0, 0x7fff_ffff) {
                None => Err(LexError::NumberOutOfRange { line: self.line }),
                Some(v) => Ok(Token::Int(v as i32)),
            }
        }
    }

    /// Scans the rest of a string literal, counting the newlines it holds;
    /// a missing closing quote is a lexical error on the literal's line.
    fn string(&mut self) -> (r: Result<Token, LexError>)
        requires
            old(self).wf(),
            old(self).start + 1 == old(self).current,
            old(self).current <= old(self).source@.len(),
        ensures
            final(self).source@ == old(self).source@,
            final(self).start == old(self).start,
            final(self).wf(),
            match r {
                Ok(t) => {
                    let close = string_close(old(self).source@, old(self).current as int);
                    &&& close < old(self).source@.len()
                    &&& t.model() == TokenModel::String(
                        old(self).source@.subrange(old(self).current as int, close),
                    )
                    &&& final(self).current == close + 1
                    &&& final(self).line == lines_in(
                        old(self).source@,
                        old(self).current as int,
                        close,
                        old(self).line,
                    )
                },
                Err(e) => {
                    &&& string_close(old(self).source@, old(self).current as int)
                        >= old(self).source@.len()
                    &&& e == (LexError::UnterminatedString { line: old(self).line })
                },
            },
    {
        let ghost s = self.source@;
        let ghost q = self.current as int;
        let ghost cl = string_close(s, q);
        let line0 = self.line;
        proof {
            lemma_string_close_bounds(s, q);
        }
        while self.peek() != '"' && !self.is_at_end()
            invariant
                self.wf(),
                self.source@ == s,
                self.start == old(self).start,
                q <= self.current <= s.len(),
                self.current <= cl,
                cl == string_close(s, self.current as int),
                lines_in(s, q, cl, line0) == lines_in(s, self.current as int, cl, self.line),
            decreases s.len() - self.current,
        {
            proof {
                lemma_string_close_bounds(s, self.current + 1);
            }
            let ch = self.advance();
            if ch == '\n' {
                self.line = bump_line(self.line);
            }
        }
        if self.is_at_end() {
            return Err(LexError::UnterminatedString { line: line0 });
        }
        let t = Token::String(self.get_string(self.start + 1, self.current));
        self.advance();
        Ok(t)
    }

    /// Scans the whole input into tokens ended by the end-of-input marker,
    /// or stops at the first lexical error.
    #[verifier::rlimit(80)]
    pub fn scan(&mut self) -> (r: Result<Vec<Token>, LexError>)
        requires
            old(self).wf(),
            old(self).current == 0,
            old(self).line == 1,
        ensures
            (match r {
                Ok(ts) => Ok(models_of(ts@)),
                Err(e) => Err(e),
            }) == spec_scan(old(self).source@),
    {
        let ghost s = self.source@;
        let mut tokens: Vec<Token> = Vec::new();
        proof {
            assert(models_of(tokens@) =~= Seq::<TokenModel>::empty());
            assert(models_of(tokens@) + spec_scan_rest(s, 0, 1) =~= spec_scan_rest(s, 0, 1));
        }
        while !self.is_at_end()
            invariant
                old(self).source@ == s,
                self.source@ == s,
                s.len() < usize::MAX,
                self.current <= s.len() + 1,
                spec_scan(s) == (match spec_scan_from_quiet(s, self.current as int, self.line) {
                    Ok(rest) => Ok(models_of(tokens@) + rest),
                    Err(e) => Err::<Seq<TokenModel>, LexError>(e),
                }),
            decreases s.len() + 1 - self.current,
        {
            let ghost pos0 = self.current as int;
            let ghost line0 = self.line;
            let ghost toks0 = tokens@;
            proof {
                lemma_skip_ws_bounds(s, pos0);
            }
            self.skip_whitespace();
            let ghost p = self.current as int;
            self.start = self.current;
            let c = self.advance();
            let ghost q = p + 1;
            proof {
                if q <= s.len() {
                    lemma_run_end_bounds(s, q);
                    lemma_string_close_bounds(s, q);
                }
            }
            if is_alpha(c) {
                let t = self.ident();
                tokens.push(t);
                proof {
                    lemma_scan_step(s, toks0, tokens@, t, pos0, line0, self.current as int, line0);
                }
            } else if is_digit(c) {
                proof {
                    if q <= s.len() {
                        lemma_run_end_bounds(s, q);
                        if digits_end(s, q) + 1 <= s.len() {
                            lemma_run_end_bounds(s, digits_end(s, q) + 1);
                        }
                    }
                }
                match self.num() {
                    Ok(t) => {
                        tokens.push(t);
                        proof {
                            lemma_scan_step(
                                s,
                                toks0,
                                tokens@,
                                t,
                                pos0,
                                line0,
                                self.current as int,
                                line0,
                            );
                        }
                    },
                    Err(e) => {
                        proof {
                            assert(spec_scan_from_quiet(s, pos0, line0) == spec_scan_from(
                                s,
                                pos0,
                                line0,
                            ));
                            assert(spec_scan_from(s, pos0, line0) == Err::<
                                Seq<TokenModel>,
                                LexError,
                            >(e));
                        }
                        return Err(e);
                    },
                }
            } else if c == '(' {
                let t = Token::LParen;
                tokens.push(t);
                proof {
                    lemma_scan_step(s, toks0, tokens@, t, pos0, line0, q, line0);
                }
            } else if c == ')' {
                let t = Token::RParen;
                tokens.push(t);
                proof {
                    lemma_scan_step(s, toks0, tokens@, t, pos0, line0, q, line0);
                }
            } else if c == ';' {
                let t = Token::Semicolon;
                tokens.push(t);
                proof {
                    lemma_scan_step(s, toks0, tokens@, t, pos0, line0, q, line0);
                }
            } else if c == ',' {
                let t = Token::Comma;
                tokens.push(t);
                proof {
                    lemma_scan_step(s, toks0, tokens@, t, pos0, line0, q, line0);
                }
            } else if c == '+' {
                let t = Token::Plus;
                tokens.push(t);
                proof {
                    lemma_scan_step(s, toks0, tokens@, t, pos0, line0, q, line0);
                }
            } else if c == '-' {
                let t = Token::Minus;
                tokens.push(t);
                proof {
                    lemma_scan_step(s, toks0, tokens@, t, pos0, line0, q, line0);
                }
            } else if c == '*' {
                let t = Token::Star;
                tokens.push(t);
                proof {
                    lemma_scan_step(s, toks0, tokens@, t, pos0, line0, q, line0);
                }
            } else if c == '/' {
                let t = Token::Slash;
                tokens.push(t);
                proof {
                    lemma_scan_step(s, toks0, tokens@, t, pos0, line0, q, line0);
                }
            } else if c == ':' {
                let t = Token::Colon;
                tokens.push(t);
                proof {
                    lemma_scan_step(s, toks0, tokens@, t, pos0, line0, q, line0);
                }
            } else if c == '=' {
                if self.peek() == '=' {
                    self.advance();
                    let t = Token::EqEq;
                    tokens.push(t);
                    proof {
                        lemma_scan_step(s, toks0, tokens@, t, pos0, line0, q + 1, line0);
                    }
                } else {
                    let t = Token::Eq;
                    tokens.push(t);
                    proof {
                        lemma_scan_step(s, toks0, tokens@, t, pos0, line0, q, line0);
                    }
                }
            } else if c == '!' {
                if self.peek() == '=' {
                    self.advance();
                    let t = Token::BangEq;
                    tokens.push(t);
                    proof {
                        lemma_scan_step(s, toks0, tokens@, t, pos0, line0, q + 1, line0);
                    }
                } else {
                    let t = Token::Bang;
                    tokens.push(t);
                    proof {
                        lemma_scan_step(s, toks0, tokens@, t, pos0, line0, q, line0);
                    }
                }
            } else if c == '<' {
                if self.peek() == '=' {
                    self.advance();
                    let t = Token::LtEq;
                    tokens.push(t);
                    proof {
                        lemma_scan_step(s, toks0, tokens@, t, pos0, line0, q + 1, line0);
                    }
                } else {
                    let t = Token::Lt;
                    tokens.push(t);
                    proof {
                        lemma_scan_step(s, toks0, tokens@, t, pos0, line0, q, line0);
                    }
                }
            } else if c == '>' {
                if self.peek() == '=' {
                    self.advance();
                    let t = Token::GtEq;
                    tokens.push(t);
                    proof {
                        lemma_scan_step(s, toks0, tokens@, t, pos0, line0, q + 1, line0);
                    }
                } else {
                    let t = Token::Gt;
                    tokens.push(t);
                    proof {
                        lemma_scan_step(s, toks0, tokens@, t, pos0, line0, q, line0);
                    }
                }
            } else if c == '"' {
                match self.string() {
                    Ok(t) => {
                        tokens.push(t);
                        proof {
                            lemma_scan_step(
                                s,
                                toks0,
                                tokens@,
                                t,
                                pos0,
                                line0,
                                self.current as int,
                                self.line,
                            );
                        }
                    },
                    Err(e) => {
                        proof {
                            assert(spec_scan_from_quiet(s, pos0, line0) == spec_scan_from(
                                s,
                                pos0,
                                line0,
                            ));
                            assert(spec_scan_from(s, pos0, line0) == Err::<
                                Seq<TokenModel>,
                                LexError,
                            >(e));
                        }
                        return Err(e);
                    },
                }
            } else if c == '\n' {
                self.line = bump_line(self.line);
                let t = Token::NewLine;
                tokens.push(t);
                proof {
                    lemma_scan_step(s, toks0, tokens@, t, pos0, line0, q, self.line);
                }
            } else {
                // No token for this character; the scan moves on.
            }
        }
        let ghost toksb = tokens@;
        tokens.push(Token::Eof);
        proof {
            assert(models_of(tokens@) =~= models_of(toksb) + seq![TokenModel::Eof]);
        }
        Ok(tokens)
    }
}

/// What a scan step leaves to do, as a sequence: empty on error.
pub open spec fn spec_scan_rest(s: Seq<char>, pos: int, line: u32) -> Seq<TokenModel> {
    match spec_scan_from_quiet(s, pos, line) {
        Ok(rest) => rest,
        Err(_) => Seq::empty(),
    }
}

/// One scan step that pushed token `t` and moved the cursor to `e`: the
/// accumulated models still prefix the total scan.
proof fn lemma_scan_step(
    s: Seq<char>,
    toks0: Seq<Token>,
    toks1: Seq<Token>,
    t: Token,
    pos0: int,
    line0: u32,
    e: int,
    line1: u32,
)
    requires
        toks1 == toks0.push(t),
        0 <= pos0 <= s.len(),
        0 <= e <= s.len() + 1,
        spec_scan_from(s, pos0, line0) == scan_push(s, e, line1, t.model()),
    ensures
        (match spec_scan_from_quiet(s, pos0, line0) {
            Ok(rest) => Ok(models_of(toks0) + rest),
            Err(err) => Err::<Seq<TokenModel>, LexError>(err),
        }) == (match spec_scan_from_quiet(s, e, line1) {
            Ok(rest) => Ok(models_of(toks1) + rest),
            Err(err) => Err::<Seq<TokenModel>, LexError>(err),
        }),
{
    assert(models_of(toks1) =~= models_of(toks0).push(t.model()));
    if e > s.len() {
        assert(spec_scan_from_quiet(s, e, line1) == Ok::<Seq<TokenModel>, LexError>(seq![
            TokenModel::Eof,
        ]));
        assert(models_of(toks0) + seq![t.model(), TokenModel::Eof] =~= models_of(toks1) + seq![
            TokenModel::Eof,
        ]);
    } else {
        match spec_scan_from(s, e, line1) {
            Ok(rest) => {
                assert(models_of(toks0) + (seq![t.model()] + rest) =~= models_of(toks1) + rest);
            },
            Err(_) => {},
        }
    }
}

} // verus!
