//! A scanner in free-function form: the same token language as `lexer`,
//! read by structural recursion with the text and cursor as plain arguments
//! instead of a cursor-owning struct. It differs from `lexer` in reporting
//! errors without positions and in falling back to a float token for a
//! digit run too wide for an integer. The character probes at the end look
//! at a text by index without a cursor of their own.
use vstd::prelude::*;
use crate::lexer::{cat, str_chars, TokenModel, models_of, spec_keyword, spec_accum, ident_end,
    digits_end, comment_end, string_close, int_limit, lemma_run_end_bounds,
    lemma_string_close_bounds, lemma_digits_end_digits, lookup_keyword_in, string_range,
    accum_digits_in, spec_float_lit, float_lit_bits};
use crate::helpers::{is_alpha, is_digit, spec_is_alpha, spec_is_digit};
use crate::token::Token;

verus! {

/// A lexical failure of this scanner, which reports no positions.
#[derive(Debug, Clone, Copy, PartialEq, Eq, Structural)]
pub enum ScanError {
    /// A string literal with no closing quote before end of input.
    UnterminatedString,
    /// A numeral run against a letter.
    MalformedNumber,
}

/// The token denoted by an all-digit numeral slice `[start, end)`: an
/// integer when in range, with a fall back to a float for a wider digit
/// run.
pub open spec fn sc_parse_num(s: Seq<char>, start: int, end: int) -> TokenModel
    recommends
        0 <= start < end <= s.len(),
{
    match spec_accum(s, start, end, 0, int_limit()) {
        Some(v) => TokenModel::Int(v as i32),
        None => TokenModel::Float(spec_float_lit(s, start, end, end, end)),
    }
}

/// The token sequence this scanner reads from `pos` on: as the lexer,
/// except that a digit run too wide for an integer falls back to a float
/// token, and no lines are counted.
pub open spec fn sc_scan(s: Seq<char>, pos: int) -> Result<Seq<TokenModel>, ScanError>
    decreases s.len() - pos, 0int,
        when 0 <= pos <= s.len()
    via sc_scan_decreases
{
    if pos >= s.len() {
        Ok(seq![TokenModel::Eof])
    } else {
        let c = s[pos];
        let pk = cat(s, pos + 1);
        if spec_is_alpha(c) {
            let e = ident_end(s, pos);
            sc_push(s, e, spec_keyword(s.subrange(pos, e)))
        } else if spec_is_digit(c) {
            let e1 = digits_end(s, pos);
            if cat(s, e1) == '.' {
                let e2 = digits_end(s, e1 + 1);
                if spec_is_alpha(cat(s, e2)) {
                    Err(ScanError::MalformedNumber)
                } else {
                    sc_push(s, e2, TokenModel::Float(spec_float_lit(s, pos, e1, e1 + 1, e2)))
                }
            } else if spec_is_alpha(cat(s, e1)) {
                Err(ScanError::MalformedNumber)
            } else {
                sc_push(s, e1, sc_parse_num(s, pos, e1))
            }
        } else if c == '(' {
            sc_push(s, pos + 1, TokenModel::LParen)
        } else if c == ')' {
            sc_push(s, pos + 1, TokenModel::RParen)
        } else if c == ';' {
            sc_push(s, pos + 1, TokenModel::Semicolon)
        } else if c == ',' {
            sc_push(s, pos + 1, TokenModel::Comma)
        } else if c == '+' {
            sc_push(s, pos + 1, TokenModel::Plus)
        } else if c == '-' {
            sc_push(s, pos + 1, TokenModel::Minus)
        } else if c == '*' {
            sc_push(s, pos + 1, TokenModel::Star)
        } else if c == ':' {
            sc_push(s, pos + 1, TokenModel::Colon)
        } else if c == '/' {
            if pk == '/' {
                sc_scan_quiet(s, comment_end(s, pos))
            } else {
                sc_push(s, pos + 1, TokenModel::Slash)
            }
        } else if c == '=' {
            if pk == '=' {
                sc_push(s, pos + 2, TokenModel::EqEq)
            } else {
                sc_push(s, pos + 1, TokenModel::Eq)
            }
        } else if c == '!' {
            if pk == '=' {
                sc_push(s, pos + 2, TokenModel::BangEq)
            } else {
                sc_push(s, pos + 1, TokenModel::Bang)
            }
        } else if c == '<' {
            if pk == '=' {
                sc_push(s, pos + 2, TokenModel::LtEq)
            } else {
                sc_push(s, pos + 1, TokenModel::Lt)
            }
        } else if c == '>' {
            if pk == '=' {
                sc_push(s, pos + 2, TokenModel::GtEq)
            } else {
                sc_push(s, pos + 1, TokenModel::Gt)
            }
        } else if c == '"' {
            let close = string_close(s, pos + 1);
            if close >= s.len() {
                Err(ScanError::UnterminatedString)
            } else {
                sc_push(s, close + 1, TokenModel::String(s.subrange(pos + 1, close)))
            }
        } else if c == '\n' {
            sc_push(s, pos + 1, TokenModel::NewLine)
        } else if c == ' ' || c == '\t' || c == '\r' {
            sc_scan_quiet(s, pos + 1)
        } else {
            sc_scan_quiet(s, pos + 1)
        }
    }
}

/// A scan step that produced no token: the rest of the scan, from `pos`.
pub open spec fn sc_scan_quiet(s: Seq<char>, pos: int) -> Result<Seq<TokenModel>, ScanError>
    decreases (if pos <= s.len() { s.len() - pos } else { 0int }), 1int,
        when 0 <= pos <= s.len() + 1
{
    if pos > s.len() {
        Ok(seq![TokenModel::Eof])
    } else {
        sc_scan(s, pos)
    }
}

/// A scan step that produced one token: the token, then the rest of the
/// scan from `pos`.
pub open spec fn sc_push(s: Seq<char>, pos: int, t: TokenModel) -> Result<Seq<TokenModel>, ScanError>
    decreases (if pos <= s.len() { s.len() - pos } else { 0int }), 1int,
        when 0 <= pos <= s.len() + 1
{
    if pos > s.len() {
        Ok(seq![t, TokenModel::Eof])
    } else {
        match sc_scan(s, pos) {
            Err(err) => Err(err),
            Ok(rest) => Ok(seq![t] + rest),
        }
    }
}

#[via_fn]
proof fn sc_scan_decreases(s: Seq<char>, pos: int) {
    if 0 <= pos < s.len() {
        lemma_run_end_bounds(s, pos);
        if spec_is_alpha(s[pos]) {
            lemma_run_end_bounds(s, pos + 1);
            assert(ident_end(s, pos) == ident_end(s, pos + 1));
        }
        if spec_is_digit(s[pos]) {
            lemma_run_end_bounds(s, pos + 1);
            assert(digits_end(s, pos) == digits_end(s, pos + 1));
            let e1 = digits_end(s, pos);
            if e1 + 1 <= s.len() {
                lemma_run_end_bounds(s, e1 + 1);
            }
        }
        if pos + 1 <= s.len() {
            lemma_string_close_bounds(s, pos + 1);
        }
        if s[pos] == '/' && cat(s, pos + 1) == '/' {
            assert(comment_end(s, pos) == comment_end(s, pos + 1));
            lemma_run_end_bounds(s, pos + 1);
        }
    }
}

/// The character under the cursor, or the NUL sentinel past the end.
pub fn current_char(source: &str, current: usize) -> (r: char)
    ensures
        r == cat(source@, current as int),
{
    let v = str_chars(source);
    if current >= v.len() {
        '\u{0}'
    } else {
        v[current]
    }
}

/// The character one past the cursor, or the NUL sentinel past the end.
pub fn peek(source: &str, current: usize) -> (r: char)
    requires
        current < usize::MAX,
    ensures
        r == cat(source@, current + 1),
{
    let v = str_chars(source);
    if current + 1 >= v.len() {
        '\u{0}'
    } else {
        v[current + 1]
    }
}

/// The character two past the cursor, or the NUL sentinel past the end.
pub fn peek_next(source: &str, current: usize) -> (r: char)
    requires
        current < usize::MAX - 1,
    ensures
        r == cat(source@, current + 2),
{
    let v = str_chars(source);
    if current + 2 >= v.len() {
        '\u{0}'
    } else {
        v[current + 2]
    }
}

/// The character at an index of the text.
pub fn char_at(source: &str, i: usize) -> (r: char)
    requires
        i < source@.len(),
    ensures
        r == source@[i as int],
{
    let v = str_chars(source);
    v[i]
}


/// A pushed token's model stands at the end of the models.
proof fn lemma_sc_models_push(ts: Seq<Token>, t: Token)
    ensures
        models_of(ts.push(t)) =~= models_of(ts).push(t.model()),
{
    assert(models_of(ts.push(t)) =~= models_of(ts).push(t.model()));
}

/// Appends one token to an owned token list.
pub fn push(tokens: Vec<Token>, token: Token) -> (r: Vec<Token>)
    ensures
        r@ == tokens@.push(token),
{
    let mut t = tokens;
    t.push(token);
    t
}

/// Scans a whole source text by structural recursion, one call per token.
pub fn scan(source: &str) -> (r: Result<Vec<Token>, ScanError>)
    requires
        source@.len() < usize::MAX,
    ensures
        (match r {
            Ok(ts) => Ok(models_of(ts@)),
            Err(e) => Err(e),
        }) == sc_scan(source@, 0),
{
    let v = str_chars(source);
    let tokens: Vec<Token> = Vec::new();
    proof {
        if sc_scan(source@, 0) is Ok {
            let rest = sc_scan(source@, 0)->Ok_0;
            assert(models_of(tokens@) + rest =~= rest);
        }
    }
    scan_tokens(&v, 0, 0, tokens)
}

/// One scan step: dispatches on the character under the cursor and recurses
/// past the token it begins.
#[verifier::rlimit(60)]
pub fn scan_tokens(source: &Vec<char>, start: usize, current: usize, tokens: Vec<Token>) -> (r:
    Result<Vec<Token>, ScanError>)
    requires
        start == current,
        current <= source@.len(),
        source@.len() < usize::MAX,
    ensures
        (match r {
            Ok(ts) => Ok(models_of(ts@)),
            Err(e) => Err(e),
        }) == (match sc_scan(source@, current as int) {
            Ok(rest) => Ok::<Seq<TokenModel>, ScanError>(models_of(tokens@) + rest),
            Err(e) => Err(e),
        }),
    decreases source@.len() - current, 1int,
{
    let ghost s = source@;
    if current >= source.len() {
        let ghost ts0 = tokens@;
        let r = push(tokens, Token::Eof);
        proof {
            lemma_sc_models_push(ts0, Token::Eof);
            assert(models_of(ts0).push(TokenModel::Eof) =~= models_of(ts0) + seq![
                TokenModel::Eof,
            ]);
        }
        return Ok(r);
    }
    let c = source[current];
    let pk = if current + 1 < source.len() {
        source[current + 1]
    } else {
        '\u{0}'
    };
    proof {
        assert(pk == cat(s, current + 1));
        lemma_run_end_bounds(s, current as int);
        lemma_run_end_bounds(s, current + 1);
        lemma_string_close_bounds(s, current + 1);
        if digits_end(s, current as int) + 1 <= s.len() {
            lemma_run_end_bounds(s, digits_end(s, current as int) + 1);
        }
    }
    if is_alpha(c) {
        ident(source, start, current, tokens)
    } else if is_digit(c) {
        num(source, start, current, tokens)
    } else if c == '(' {
        advance(source, current, tokens, Token::LParen)
    } else if c == ')' {
        advance(source, current, tokens, Token::RParen)
    } else if c == ';' {
        advance(source, current, tokens, Token::Semicolon)
    } else if c == ',' {
        advance(source, current, tokens, Token::Comma)
    } else if c == '+' {
        advance(source, current, tokens, Token::Plus)
    } else if c == '-' {
        advance(source, current, tokens, Token::Minus)
    } else if c == '*' {
        advance(source, current, tokens, Token::Star)
    } else if c == ':' {
        advance(source, current, tokens, Token::Colon)
    } else if c == '/' {
        if pk == '/' {
            comment(source, current, tokens)
        } else {
            advance(source, current, tokens, Token::Slash)
        }
    } else if c == '=' {
        if pk == '=' {
            advance(source, current + 1, tokens, Token::EqEq)
        } else {
            advance(source, current, tokens, Token::Eq)
        }
    } else if c == '!' {
        if pk == '=' {
            advance(source, current + 1, tokens, Token::BangEq)
        } else {
            advance(source, current, tokens, Token::Bang)
        }
    } else if c == '<' {
        if pk == '=' {
            advance(source, current + 1, tokens, Token::LtEq)
        } else {
            advance(source, current, tokens, Token::Lt)
        }
    } else if c == '>' {
        if pk == '=' {
            advance(source, current + 1, tokens, Token::GtEq)
        } else {
            advance(source, current, tokens, Token::Gt)
        }
    } else if c == '"' {
        string(source, start, current, tokens)
    } else if c == '\n' {
        advance(source, current, tokens, Token::NewLine)
    } else if c == ' ' || c == '\t' || c == '\r' {
        scan_tokens(source, current + 1, current + 1, tokens)
    } else {
        // A character with no token of its own is skipped.
        scan_tokens(source, current + 1, current + 1, tokens)
    }
}

/// Pushes the given token and scans on from the next position.
fn advance(source: &Vec<char>, current: usize, tokens: Vec<Token>, token: Token) -> (r: Result<
    Vec<Token>,
    ScanError,
>)
    requires
        current < source@.len(),
        source@.len() < usize::MAX,
    ensures
        (match r {
            Ok(ts) => Ok(models_of(ts@)),
            Err(e) => Err(e),
        }) == (match sc_push(source@, current + 1, token.model()) {
            Ok(all) => Ok::<Seq<TokenModel>, ScanError>(models_of(tokens@) + all),
            Err(e) => Err(e),
        }),
    decreases source@.len() - current, 0int,
{
    let ghost s = source@;
    let ghost ts0 = tokens@;
    let ghost tm = token.model();
    let new_tokens = push(tokens, token);
    let r = scan_tokens(source, current + 1, current + 1, new_tokens);
    proof {
        lemma_sc_models_push(ts0, token);
        match sc_scan(s, current + 1) {
            Ok(rest) => {
                assert(models_of(ts0).push(tm) + rest =~= models_of(ts0) + (seq![tm] + rest));
            },
            Err(_) => {},
        }
    }
    r
}

/// Scans the rest of an identifier, looks it up in the keyword table, and
/// scans on after it.
fn ident(source: &Vec<char>, start: usize, current: usize, tokens: Vec<Token>) -> (r: Result<
    Vec<Token>,
    ScanError,
>)
    requires
        start == current < source@.len(),
        source@.len() < usize::MAX,
        spec_is_alpha(source@[current as int]),
    ensures
        (match r {
            Ok(ts) => Ok(models_of(ts@)),
            Err(e) => Err(e),
        }) == (match sc_push(
            source@,
            ident_end(source@, current as int),
            spec_keyword(source@.subrange(current as int, ident_end(source@, current as int))),
        ) {
            Ok(all) => Ok::<Seq<TokenModel>, ScanError>(models_of(tokens@) + all),
            Err(e) => Err(e),
        }),
    decreases source@.len() - current, 0int,
{
    let ghost s = source@;
    let ghost ts0 = tokens@;
    let mut e = current;
    while e < source.len() && (is_alpha(source[e]) || is_digit(source[e]))
        invariant
            current <= e <= s.len(),
            s == source@,
            ident_end(s, current as int) == ident_end(s, e as int),
        decreases s.len() - e,
    {
        e = e + 1;
    }
    proof {
        assert(e as int == ident_end(s, current as int));
        assert(e > current);
    }
    let token = lookup_keyword_in(source, start, e);
    let ghost tm = token.model();
    let new_tokens = push(tokens, token);
    let r = scan_tokens(source, e, e, new_tokens);
    proof {
        lemma_sc_models_push(ts0, token);
        match sc_scan(s, e as int) {
            Ok(rest) => {
                assert(models_of(ts0).push(tm) + rest =~= models_of(ts0) + (seq![tm] + rest));
            },
            Err(_) => {},
        }
    }
    r
}

/// Skips a line comment and scans on at the newline or the end of input.
fn comment(source: &Vec<char>, current: usize, tokens: Vec<Token>) -> (r: Result<
    Vec<Token>,
    ScanError,
>)
    requires
        current < source@.len(),
        source@.len() < usize::MAX,
        source@[current as int] != '\n',
    ensures
        (match r {
            Ok(ts) => Ok(models_of(ts@)),
            Err(e) => Err(e),
        }) == (match sc_scan(source@, comment_end(source@, current as int)) {
            Ok(rest) => Ok::<Seq<TokenModel>, ScanError>(models_of(tokens@) + rest),
            Err(e) => Err(e),
        }),
    decreases source@.len() - current, 0int,
{
    let ghost s = source@;
    let mut i = current;
    while i < source.len() && source[i] != '\n'
        invariant
            current <= i <= s.len(),
            s == source@,
            comment_end(s, current as int) == comment_end(s, i as int),
        decreases s.len() - i,
    {
        i = i + 1;
    }
    proof {
        assert(i as int == comment_end(s, current as int));
        assert(i > current);
    }
    scan_tokens(source, i, i, tokens)
}

/// Scans a string literal to its closing quote and scans on after it.
fn string(source: &Vec<char>, start: usize, current: usize, tokens: Vec<Token>) -> (r: Result<
    Vec<Token>,
    ScanError,
>)
    requires
        start == current < source@.len(),
        source@.len() < usize::MAX,
        source@[current as int] == '"',
    ensures
        (match r {
            Ok(ts) => Ok(models_of(ts@)),
            Err(e) => Err(e),
        }) == ({
            let close = string_close(source@, current + 1);
            if close >= source@.len() {
                Err(ScanError::UnterminatedString)
            } else {
                match sc_push(
                    source@,
                    close + 1,
                    TokenModel::String(source@.subrange(current + 1, close)),
                ) {
                    Ok(all) => Ok::<Seq<TokenModel>, ScanError>(models_of(tokens@) + all),
                    Err(e) => Err(e),
                }
            }
        }),
    decreases source@.len() - current, 0int,
{
    let ghost s = source@;
    let ghost ts0 = tokens@;
    let mut i = current + 1;
    proof {
        lemma_string_close_bounds(s, current + 1);
    }
    while i < source.len() && source[i] != '"'
        invariant
            current + 1 <= i <= s.len(),
            s == source@,
            string_close(s, current + 1) == string_close(s, i as int),
        decreases s.len() - i,
    {
        i = i + 1;
    }
    proof {
        assert(i as int == string_close(s, current + 1));
    }
    if i >= source.len() {
        return Err(ScanError::UnterminatedString);
    }
    let token = Token::String(string_range(source, current + 1, i));
    let ghost tm = token.model();
    let new_tokens = push(tokens, token);
    let r = scan_tokens(source, i + 1, i + 1, new_tokens);
    proof {
        lemma_sc_models_push(ts0, token);
        match sc_scan(s, i + 1) {
            Ok(rest) => {
                assert(models_of(ts0).push(tm) + rest =~= models_of(ts0) + (seq![tm] + rest));
            },
            Err(_) => {},
        }
    }
    r
}


/// Scans the rest of a numeral and scans on after it: the digit run, then a
/// fractional digit run after a decimal point.
fn num(source: &Vec<char>, start: usize, current: usize, tokens: Vec<Token>) -> (r: Result<
    Vec<Token>,
    ScanError,
>)
    requires
        start == current < source@.len(),
        source@.len() < usize::MAX,
        spec_is_digit(source@[current as int]),
    ensures
        (match r {
            Ok(ts) => Ok(models_of(ts@)),
            Err(e) => Err(e),
        }) == ({
            let s = source@;
            let e1 = digits_end(s, current as int);
            if cat(s, e1) == '.' {
                let e2 = digits_end(s, e1 + 1);
                if spec_is_alpha(cat(s, e2)) {
                    Err(ScanError::MalformedNumber)
                } else {
                    match sc_push(
                        s,
                        e2,
                        TokenModel::Float(spec_float_lit(s, current as int, e1, e1 + 1, e2)),
                    ) {
                        Ok(all) => Ok::<Seq<TokenModel>, ScanError>(models_of(tokens@) + all),
                        Err(e) => Err(e),
                    }
                }
            } else if spec_is_alpha(cat(s, e1)) {
                Err(ScanError::MalformedNumber)
            } else {
                match sc_push(s, e1, sc_parse_num(s, current as int, e1)) {
                    Ok(all) => Ok::<Seq<TokenModel>, ScanError>(models_of(tokens@) + all),
                    Err(e) => Err(e),
                }
            }
        }),
    decreases source@.len() - current, 0int,
{
    let ghost s = source@;
    let ghost ts0 = tokens@;
    let mut e1 = current;
    while e1 < source.len() && is_digit(source[e1])
        invariant
            current <= e1 <= s.len(),
            s == source@,
            digits_end(s, current as int) == digits_end(s, e1 as int),
        decreases s.len() - e1,
    {
        e1 = e1 + 1;
    }
    proof {
        assert(e1 as int == digits_end(s, current as int));
        assert(e1 > current);
        lemma_digits_end_digits(s, current as int);
    }
    if e1 < source.len() && source[e1] == '.' {
        let mut e2 = e1 + 1;
        while e2 < source.len() && is_digit(source[e2])
            invariant
                e1 + 1 <= e2 <= s.len(),
                s == source@,
                digits_end(s, e1 + 1) == digits_end(s, e2 as int),
            decreases s.len() - e2,
        {
            e2 = e2 + 1;
        }
        proof {
            assert(e2 as int == digits_end(s, e1 + 1));
            lemma_digits_end_digits(s, e1 + 1);
        }
        if e2 < source.len() && is_alpha(source[e2]) {
            return Err(ScanError::MalformedNumber);
        }
        let token = Token::Float(float_lit_bits(source, start, e1, e1 + 1, e2));
        let ghost tm = token.model();
        let new_tokens = push(tokens, token);
        let r = scan_tokens(source, e2, e2, new_tokens);
        proof {
            lemma_sc_models_push(ts0, token);
            match sc_scan(s, e2 as int) {
                Ok(rest) => {
                    assert(models_of(ts0).push(tm) + rest =~= models_of(ts0) + (seq![tm] + rest));
                },
                Err(_) => {},
            }
        }
        r
    } else {
        if e1 < source.len() && is_alpha(source[e1]) {
            return Err(ScanError::MalformedNumber);
        }
        let token = parse_num(source, start, e1);
        let ghost tm = token.model();
        let new_tokens = push(tokens, token);
        let r = scan_tokens(source, e1, e1, new_tokens);
        proof {
            lemma_sc_models_push(ts0, token);
            match sc_scan(s, e1 as int) {
                Ok(rest) => {
                    assert(models_of(ts0).push(tm) + rest =~= models_of(ts0) + (seq![tm] + rest));
                },
                Err(_) => {},
            }
        }
        r
    }
}

/// Parses the all-digit numeral slice `[start, end)` into its token, as
/// `sc_parse_num` says: an integer in range, or the float the wider run
/// denotes.
fn parse_num(source: &Vec<char>, start: usize, end: usize) -> (t: Token)
    requires
        start < end <= source@.len(),
        forall|x: int| start <= x < end ==> spec_is_digit(#[trigger] source@[x]),
    ensures
        t.model() == sc_parse_num(source@, start as int, end as int),
{
    match accum_digits_in(source, start, end, 0, 0x7fff_ffff) {
        Some(v) => Token::Int(v as i32),
        None => Token::Float(float_lit_bits(source, start, end, end, end)),
    }
}


} // verus!
