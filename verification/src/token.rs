//! The tokens the lexers produce. Literal variants carry their parsed
//! payload: a 32-bit signed integer, a 64-bit float as its IEEE 754 bit
//! pattern, or text.
use vstd::prelude::*;

verus! {

#[derive(Debug, Clone)]
pub enum Token {
    Eof,
    LParen,
    RParen,
    Colon,
    Comma,
    Semicolon,
    Let,
    If,
    Else,
    Fun,
    For,
    Return,
    End,
    True,
    False,
    Nil,
    Print,
    In,
    Ident(String),
    Int(i32),
    /// The IEEE 754 binary64 bit pattern of the float literal.
    Float(u64),
    String(String),
    Eq,
    EqEq,
    Plus,
    Minus,
    Slash,
    Star,
    Bang,
    BangEq,
    Lt,
    LtEq,
    Gt,
    GtEq,
    And,
    Or,
    NewLine,
}

/// Token equality: same variant and, for the literal variants, the same
/// payload; text payloads compare by their character sequences.
pub open spec fn spec_token_eq(a: &Token, b: &Token) -> bool {
    match (a, b) {
        (Token::Ident(x), Token::Ident(y)) => x@ == y@,
        (Token::Int(x), Token::Int(y)) => x == y,
        (Token::Float(x), Token::Float(y)) => x == y,
        (Token::String(x), Token::String(y)) => x@ == y@,
        (Token::Eof, Token::Eof) => true,
        (Token::LParen, Token::LParen) => true,
        (Token::RParen, Token::RParen) => true,
        (Token::Colon, Token::Colon) => true,
        (Token::Comma, Token::Comma) => true,
        (Token::Semicolon, Token::Semicolon) => true,
        (Token::Let, Token::Let) => true,
        (Token::If, Token::If) => true,
        (Token::Else, Token::Else) => true,
        (Token::Fun, Token::Fun) => true,
        (Token::For, Token::For) => true,
        (Token::Return, Token::Return) => true,
        (Token::End, Token::End) => true,
        (Token::True, Token::True) => true,
        (Token::False, Token::False) => true,
        (Token::Nil, Token::Nil) => true,
        (Token::Print, Token::Print) => true,
        (Token::In, Token::In) => true,
        (Token::Eq, Token::Eq) => true,
        (Token::EqEq, Token::EqEq) => true,
        (Token::Plus, Token::Plus) => true,
        (Token::Minus, Token::Minus) => true,
        (Token::Slash, Token::Slash) => true,
        (Token::Star, Token::Star) => true,
        (Token::Bang, Token::Bang) => true,
        (Token::BangEq, Token::BangEq) => true,
        (Token::Lt, Token::Lt) => true,
        (Token::LtEq, Token::LtEq) => true,
        (Token::Gt, Token::Gt) => true,
        (Token::GtEq, Token::GtEq) => true,
        (Token::And, Token::And) => true,
        (Token::Or, Token::Or) => true,
        (Token::NewLine, Token::NewLine) => true,
        _ => false,
    }
}

impl PartialEq for Token {
    fn eq(&self, other: &Token) -> (r: bool) {
        match (self, other) {
            (Token::Ident(x), Token::Ident(y)) => x.eq(y),
            (Token::Int(x), Token::Int(y)) => *x == *y,
            (Token::Float(x), Token::Float(y)) => *x == *y,
            (Token::String(x), Token::String(y)) => x.eq(y),
            (Token::Eof, Token::Eof) => true,
            (Token::LParen, Token::LParen) => true,
            (Token::RParen, Token::RParen) => true,
            (Token::Colon, Token::Colon) => true,
            (Token::Comma, Token::Comma) => true,
            (Token::Semicolon, Token::Semicolon) => true,
            (Token::Let, Token::Let) => true,
            (Token::If, Token::If) => true,
            (Token::Else, Token::Else) => true,
            (Token::Fun, Token::Fun) => true,
            (Token::For, Token::For) => true,
            (Token::Return, Token::Return) => true,
            (Token::End, Token::End) => true,
            (Token::True, Token::True) => true,
            (Token::False, Token::False) => true,
            (Token::Nil, Token::Nil) => true,
            (Token::Print, Token::Print) => true,
            (Token::In, Token::In) => true,
            (Token::Eq, Token::Eq) => true,
            (Token::EqEq, Token::EqEq) => true,
            (Token::Plus, Token::Plus) => true,
            (Token::Minus, Token::Minus) => true,
            (Token::Slash, Token::Slash) => true,
            (Token::Star, Token::Star) => true,
            (Token::Bang, Token::Bang) => true,
            (Token::BangEq, Token::BangEq) => true,
            (Token::Lt, Token::Lt) => true,
            (Token::LtEq, Token::LtEq) => true,
            (Token::Gt, Token::Gt) => true,
            (Token::GtEq, Token::GtEq) => true,
            (Token::And, Token::And) => true,
            (Token::Or, Token::Or) => true,
            (Token::NewLine, Token::NewLine) => true,
            _ => false,
        }
    }
}

impl vstd::std_specs::cmp::PartialEqSpecImpl for Token {
    open spec fn obeys_eq_spec() -> bool {
        true
    }

    open spec fn eq_spec(&self, other: &Token) -> bool {
        spec_token_eq(self, other)
    }
}


/// An owned copy of a token, equal to the original; the text payloads are
/// cloned character for character.
pub fn token_copy(t: &Token) -> (r: Token)
    ensures
        r == *t,
{
    match t {
        Token::Ident(x) => Token::Ident(x.clone()),
        Token::Int(x) => Token::Int(*x),
        Token::Float(x) => Token::Float(*x),
        Token::String(x) => Token::String(x.clone()),
        Token::Eof => Token::Eof,
        Token::LParen => Token::LParen,
        Token::RParen => Token::RParen,
        Token::Colon => Token::Colon,
        Token::Comma => Token::Comma,
        Token::Semicolon => Token::Semicolon,
        Token::Let => Token::Let,
        Token::If => Token::If,
        Token::Else => Token::Else,
        Token::Fun => Token::Fun,
        Token::For => Token::For,
        Token::Return => Token::Return,
        Token::End => Token::End,
        Token::True => Token::True,
        Token::False => Token::False,
        Token::Nil => Token::Nil,
        Token::Print => Token::Print,
        Token::In => Token::In,
        Token::Eq => Token::Eq,
        Token::EqEq => Token::EqEq,
        Token::Plus => Token::Plus,
        Token::Minus => Token::Minus,
        Token::Slash => Token::Slash,
        Token::Star => Token::Star,
        Token::Bang => Token::Bang,
        Token::BangEq => Token::BangEq,
        Token::Lt => Token::Lt,
        Token::LtEq => Token::LtEq,
        Token::Gt => Token::Gt,
        Token::GtEq => Token::GtEq,
        Token::And => Token::And,
        Token::Or => Token::Or,
        Token::NewLine => Token::NewLine,
    }
}

} // verus!
