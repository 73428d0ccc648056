//! The parser: an operator-precedence (Pratt) expression core under a
//! recursive-descent statement layer. Each token kind carries its own prefix
//! and infix behaviour; an infix operator re-enters the expression parser at
//! its own precedence, so every binary operator associates to the left.
use vstd::prelude::*;
use crate::token::{Token, token_copy};
use crate::ast::{Expr, Stmt, StmtModel, stmts_models, lemma_stmts_models_push, lemma_stmts_models_len};

verus! {

/// A syntactic failure: what was expected against what stood there.
#[derive(Debug)]
pub enum ParseError {
    /// A token with no prefix role stood where an expression must begin.
    ExpectedExpression { found: Token },
    /// A required token was not the next token.
    ExpectedToken { expected: Token, found: Token },
    /// A declaration needed a name and found something else.
    ExpectedIdent { found: Token },
}

/// The parsed statements of a program.
pub type Program = Vec<Stmt>;

/// Precedence levels, low to high: none, assignment, comparison, sum,
/// factor, prefix, call. Grouping re-enters at the lowest useful level.
pub const PREC_NONE: u8 = 0;

pub const PREC_ASSIGNMENT: u8 = 1;

pub const PREC_COMPARISON: u8 = 2;

pub const PREC_SUM: u8 = 3;

pub const PREC_FACTOR: u8 = 4;

pub const PREC_PREFIX: u8 = 5;

pub const PREC_CALL: u8 = 6;

/// The binding power of a token in infix position; zero for tokens with no
/// infix role.
pub open spec fn spec_infix_prec(t: &Token) -> u8 {
    match t {
        Token::Gt => PREC_COMPARISON,
        Token::GtEq => PREC_COMPARISON,
        Token::Lt => PREC_COMPARISON,
        Token::LtEq => PREC_COMPARISON,
        Token::Plus => PREC_SUM,
        Token::Minus => PREC_SUM,
        Token::Star => PREC_FACTOR,
        Token::Slash => PREC_FACTOR,
        _ => PREC_NONE,
    }
}

#[verifier::when_used_as_spec(spec_infix_prec)]
pub fn infix_prec(t: &Token) -> (r: u8)
    ensures
        r == spec_infix_prec(t),
{
    match t {
        Token::Gt => PREC_COMPARISON,
        Token::GtEq => PREC_COMPARISON,
        Token::Lt => PREC_COMPARISON,
        Token::LtEq => PREC_COMPARISON,
        Token::Plus => PREC_SUM,
        Token::Minus => PREC_SUM,
        Token::Star => PREC_FACTOR,
        Token::Slash => PREC_FACTOR,
        _ => PREC_NONE,
    }
}

/// The token at a position, or the end-of-input marker past the end.
pub open spec fn token_at(toks: Seq<Token>, i: int) -> Token {
    if 0 <= i < toks.len() {
        toks[i]
    } else {
        Token::Eof
    }
}

/// A position clamped forward to at least `m` and into the token range:
/// parsing always moves forward and never beyond one past the end.
pub open spec fn fwd(toks: Seq<Token>, p: int, m: int) -> int {
    let q = if p >= m {
        p
    } else {
        m
    };
    if q > toks.len() + 1 {
        toks.len() as int + 1
    } else {
        q
    }
}

/// A prefix step: the expression begun by the token at `pos` — a literal or
/// name, a unary operator applied to a prefix-precedence operand, or a
/// parenthesized grouping — with the position after it.
pub open spec fn spec_prefix(toks: Seq<Token>, pos: int) -> Result<(Expr, int), ParseError>
    decreases toks.len() + 2 - pos, 1int,
        when 0 <= pos <= toks.len() + 1
{
    let t = token_at(toks, pos);
    match t {
        Token::Int(v) => Ok((Expr::Int { val: v }, pos + 1)),
        Token::Float(b) => Ok((Expr::Float { bits: b }, pos + 1)),
        Token::String(sv) => Ok((Expr::String { val: sv }, pos + 1)),
        Token::Ident(sv) => Ok((Expr::Name { val: sv }, pos + 1)),
        Token::Minus => match spec_parse_prec(toks, pos + 1, PREC_PREFIX) {
            Ok((r, p)) => Ok(
                (Expr::Unary { op: Token::Minus, right: Box::new(r) }, fwd(toks, p, pos + 2)),
            ),
            Err(e) => Err(e),
        },
        Token::Bang => match spec_parse_prec(toks, pos + 1, PREC_PREFIX) {
            Ok((r, p)) => Ok((Expr::Unary { op: Token::Bang, right: Box::new(r) }, fwd(toks, p, pos + 2))),
            Err(e) => Err(e),
        },
        Token::LParen => match spec_parse_prec(toks, pos + 1, PREC_ASSIGNMENT) {
            Ok((inner, p)) => {
                let p2 = fwd(toks, p, pos + 2);
                if token_at(toks, p2) is RParen {
                    Ok((Expr::Grouping { expr: Box::new(inner) }, p2 + 1))
                } else {
                    Err(
                        ParseError::ExpectedToken {
                            expected: Token::RParen,
                            found: token_at(toks, p2),
                        },
                    )
                }
            },
            Err(e) => Err(e),
        },
        _ => Err(ParseError::ExpectedExpression { found: t }),
    }
}

/// The infix loop: while the next token binds tighter than `min_prec`, the
/// accumulated left-hand side becomes the left operand of a new binary node
/// whose right operand is parsed at the operator's own precedence.
pub open spec fn spec_infix_loop(toks: Seq<Token>, left: Expr, pos: int, min_prec: u8) -> Result<
    (Expr, int),
    ParseError,
>
    decreases toks.len() + 2 - pos, 2int,
        when 0 <= pos <= toks.len() + 1
{
    let t = token_at(toks, pos);
    let p = spec_infix_prec(&t);
    if p > min_prec {
        match spec_parse_prec(toks, pos + 1, p) {
            Ok((right, rp)) => spec_infix_loop(
                toks,
                Expr::Binary { op: t, left: Box::new(left), right: Box::new(right) },
                fwd(toks, rp, pos + 2),
                min_prec,
            ),
            Err(e) => Err(e),
        }
    } else {
        Ok((left, pos))
    }
}

/// One expression parsed from `pos` at threshold `min_prec`: a prefix step,
/// then the infix loop.
pub open spec fn spec_parse_prec(toks: Seq<Token>, pos: int, min_prec: u8) -> Result<
    (Expr, int),
    ParseError,
>
    decreases toks.len() + 2 - pos, 3int,
        when 0 <= pos <= toks.len() + 1
{
    match spec_prefix(toks, pos) {
        Ok((left, p1)) => spec_infix_loop(toks, left, fwd(toks, p1, pos + 1), min_prec),
        Err(e) => Err(e),
    }
}

/// One whole expression parsed from `pos`, at the lowest threshold.
pub open spec fn spec_expr(toks: Seq<Token>, pos: int) -> Result<(Expr, int), ParseError> {
    spec_parse_prec(toks, pos, PREC_ASSIGNMENT)
}


/// The position after a conditional step forward: the cursor moves only
/// while tokens remain.
pub open spec fn spec_adv(toks: Seq<Token>, p: int) -> int {
    if p < toks.len() {
        p + 1
    } else {
        p
    }
}

pub struct Parser {
    pub tokens: Vec<Token>,
    pub current: usize,
    /// The end-of-input marker handed out when the cursor has passed the
    /// last token.
    pub eof: Token,
}

impl Parser {
    /// The parser's cursor stays inside its input.
    pub open spec fn wf(&self) -> bool {
        &&& self.current <= self.tokens@.len()
        &&& self.eof == Token::Eof
    }

    pub fn new(tokens: Vec<Token>) -> (r: Parser)
        ensures
            r.tokens@ == tokens@,
            r.current == 0,
            r.wf(),
    {
        Parser { tokens, current: 0, eof: Token::Eof }
    }

    pub fn is_at_end(&self) -> (r: bool)
        ensures
            r == (self.current >= self.tokens@.len()),
    {
        self.current >= self.tokens.len()
    }

    /// The next token, or the end-of-input marker past the end.
    pub fn peek(&self) -> (t: &Token)
        requires
            self.wf(),
        ensures
            *t == token_at(self.tokens@, self.current as int),
    {
        if self.current < self.tokens.len() {
            &self.tokens[self.current]
        } else {
            &self.eof
        }
    }

    /// The token before the cursor.
    pub fn previous(&self) -> (t: &Token)
        requires
            self.wf(),
            1 <= self.current,
        ensures
            *t == token_at(self.tokens@, self.current - 1),
    {
        &self.tokens[self.current - 1]
    }

    /// Consumes the next token and hands back a copy of it; past the end the
    /// cursor stays and the copy is of the last token.
    pub fn advance(&mut self) -> (t: Token)
        requires
            old(self).wf(),
        ensures
            final(self).tokens@ == old(self).tokens@,
            final(self).wf(),
            final(self).current == spec_adv(old(self).tokens@, old(self).current as int),
            old(self).current < old(self).tokens@.len() ==> t == token_at(
                old(self).tokens@,
                old(self).current as int,
            ),
    {
        if self.current < self.tokens.len() {
            self.current = self.current + 1;
            token_copy(&self.tokens[self.current - 1])
        } else if self.tokens.len() > 0 {
            token_copy(&self.tokens[self.tokens.len() - 1])
        } else {
            Token::Eof
        }
    }

    /// Consumes the next token when it is the expected one, and otherwise
    /// reports what stood there.
    pub fn consume(&mut self, token: Token) -> (r: Result<(), ParseError>)
        requires
            old(self).wf(),
        ensures
            final(self).tokens@ == old(self).tokens@,
            final(self).wf(),
            match r {
                Ok(()) => crate::token::spec_token_eq(
                    &token,
                    &token_at(old(self).tokens@, old(self).current as int),
                ) && final(self).current == spec_adv(old(self).tokens@, old(self).current as int),
                Err(e) => {
                    &&& !crate::token::spec_token_eq(
                        &token,
                        &token_at(old(self).tokens@, old(self).current as int),
                    )
                    &&& e == (ParseError::ExpectedToken {
                        expected: token,
                        found: token_at(old(self).tokens@, old(self).current as int),
                    })
                    &&& final(self).current == old(self).current
                },
            },
    {
        if token.eq(self.peek()) {
            self.advance();
            Ok(())
        } else {
            let found = token_copy(self.peek());
            Err(ParseError::ExpectedToken { expected: token, found })
        }
    }

    /// Consumes the next token when it equals one of those given.
    pub fn check(&mut self, tokens: Vec<Token>) -> (r: bool)
        requires
            old(self).wf(),
        ensures
            final(self).tokens@ == old(self).tokens@,
            final(self).wf(),
            r == (exists|i: int|
                0 <= i < tokens@.len() && crate::token::spec_token_eq(
                    &tokens@[i],
                    &token_at(old(self).tokens@, old(self).current as int),
                )),
            r ==> final(self).current == spec_adv(old(self).tokens@, old(self).current as int),
            !r ==> final(self).current == old(self).current,
    {
        let mut i: usize = 0;
        while i < tokens.len()
            invariant
                self == old(self),
                self.wf(),
                0 <= i <= tokens@.len(),
                forall|k: int|
                    0 <= k < i ==> !crate::token::spec_token_eq(
                        &tokens@[k],
                        &token_at(old(self).tokens@, old(self).current as int),
                    ),
            decreases tokens@.len() - i,
        {
            if (&tokens[i]).eq(self.peek()) {
                self.advance();
                return true;
            }
            i = i + 1;
        }
        false
    }

    /// One whole expression, at the lowest threshold.
    pub fn expr(&mut self) -> (r: Result<Expr, ParseError>)
        requires
            old(self).wf(),
        ensures
            final(self).tokens@ == old(self).tokens@,
            final(self).wf(),
            match r {
                Ok(e) => spec_expr(old(self).tokens@, old(self).current as int) == Ok::<
                    (Expr, int),
                    ParseError,
                >((e, final(self).current as int)) && old(self).current < final(self).current,
                Err(er) => spec_expr(old(self).tokens@, old(self).current as int) == Err::<
                    (Expr, int),
                    ParseError,
                >(er),
            },
        decreases old(self).tokens@.len() - old(self).current, 2int,
    {
        self.parse_precedence(PREC_ASSIGNMENT)
    }

    /// The Pratt core: a prefix step for the token in expression position,
    /// then the infix loop while the next token binds tighter than
    /// `min_prec`.
    pub fn parse_precedence(&mut self, min_prec: u8) -> (r: Result<Expr, ParseError>)
        requires
            old(self).wf(),
            1 <= min_prec,
        ensures
            final(self).tokens@ == old(self).tokens@,
            final(self).wf(),
            match r {
                Ok(e) => spec_parse_prec(old(self).tokens@, old(self).current as int, min_prec)
                    == Ok::<(Expr, int), ParseError>((e, final(self).current as int)) && old(
                    self,
                ).current < final(self).current,
                Err(er) => spec_parse_prec(old(self).tokens@, old(self).current as int, min_prec)
                    == Err::<(Expr, int), ParseError>(er),
            },
        decreases old(self).tokens@.len() - old(self).current, 1int,
    {
        let ghost toks = self.tokens@;
        let ghost pos0 = self.current as int;
        let mut left = match self.primary() {
            Ok(e) => e,
            Err(er) => {
                return Err(er);
            },
        };
        proof {
            assert(fwd(toks, self.current as int, pos0 + 1) == self.current as int);
        }
        while infix_prec(self.peek()) > min_prec
            invariant
                self.wf(),
                self.tokens@ == toks,
                old(self).tokens@ == toks,
                pos0 == old(self).current as int,
                pos0 < self.current <= toks.len(),
                1 <= min_prec,
                spec_parse_prec(toks, pos0, min_prec) == spec_infix_loop(
                    toks,
                    left,
                    self.current as int,
                    min_prec,
                ),
            decreases toks.len() - self.current,
        {
            let ghost ipos = self.current as int;
            let op = self.advance();
            let p = infix_prec(&op);
            let right = match self.parse_precedence(p) {
                Ok(e) => e,
                Err(er) => {
                    return Err(er);
                },
            };
            left = Expr::Binary { op, left: Box::new(left), right: Box::new(right) };
            proof {
                assert(fwd(toks, self.current as int, ipos + 2) == self.current as int);
            }
        }
        Ok(left)
    }

    /// The prefix step: literals and names consume their one token; a unary
    /// operator parses its operand at prefix precedence; a parenthesis
    /// parses the grouped expression and requires its closing mate.
    pub fn primary(&mut self) -> (r: Result<Expr, ParseError>)
        requires
            old(self).wf(),
        ensures
            final(self).tokens@ == old(self).tokens@,
            final(self).wf(),
            match r {
                Ok(e) => spec_prefix(old(self).tokens@, old(self).current as int) == Ok::<
                    (Expr, int),
                    ParseError,
                >((e, final(self).current as int)) && old(self).current < final(self).current,
                Err(er) => spec_prefix(old(self).tokens@, old(self).current as int) == Err::<
                    (Expr, int),
                    ParseError,
                >(er),
            },
        decreases old(self).tokens@.len() - old(self).current, 0int,
    {
        let ghost toks = self.tokens@;
        let ghost pos0 = self.current as int;
        if self.is_at_end() {
            return Err(ParseError::ExpectedExpression { found: Token::Eof });
        }
        let t = self.advance();
        match t {
            Token::Int(v) => Ok(Expr::Int { val: v }),
            Token::Float(b) => Ok(Expr::Float { bits: b }),
            Token::String(sv) => Ok(Expr::String { val: sv }),
            Token::Ident(sv) => Ok(Expr::Name { val: sv }),
            Token::Minus => {
                let right = match self.parse_precedence(PREC_PREFIX) {
                    Ok(e) => e,
                    Err(er) => {
                        return Err(er);
                    },
                };
                proof {
                    assert(fwd(toks, self.current as int, pos0 + 2) == self.current as int);
                }
                Ok(Expr::Unary { op: Token::Minus, right: Box::new(right) })
            },
            Token::Bang => {
                let right = match self.parse_precedence(PREC_PREFIX) {
                    Ok(e) => e,
                    Err(er) => {
                        return Err(er);
                    },
                };
                proof {
                    assert(fwd(toks, self.current as int, pos0 + 2) == self.current as int);
                }
                Ok(Expr::Unary { op: Token::Bang, right: Box::new(right) })
            },
            Token::LParen => {
                let inner = match self.parse_precedence(PREC_ASSIGNMENT) {
                    Ok(e) => e,
                    Err(er) => {
                        return Err(er);
                    },
                };
                proof {
                    assert(fwd(toks, self.current as int, pos0 + 2) == self.current as int);
                }
                match self.consume(Token::RParen) {
                    Ok(()) => Ok(Expr::Grouping { expr: Box::new(inner) }),
                    Err(er) => Err(er),
                }
            },
            _ => Err(ParseError::ExpectedExpression { found: t }),
        }
    }
}


/// The parameter list after a declaration's opening parenthesis: names and
/// commas up to the closing parenthesis.
pub open spec fn spec_params_loop(toks: Seq<Token>, pos: int, acc: Seq<Token>) -> Result<
    (Seq<Token>, int),
    ParseError,
>
    decreases toks.len() + 2 - pos,
        when 0 <= pos <= toks.len() + 1
{
    let t = token_at(toks, pos);
    match t {
        Token::RParen => Ok((acc, pos + 1)),
        Token::Ident(_) => spec_params_loop(toks, pos + 1, acc.push(t)),
        Token::Comma => spec_params_loop(toks, pos + 1, acc),
        _ => Err(ParseError::ExpectedIdent { found: t }),
    }
}

/// A parenthesized parameter list, from its opening parenthesis on.
pub open spec fn spec_params(toks: Seq<Token>, pos: int) -> Result<(Seq<Token>, int), ParseError> {
    if token_at(toks, pos) is LParen {
        spec_params_loop(toks, pos + 1, Seq::empty())
    } else {
        Err(
            ParseError::ExpectedToken { expected: Token::LParen, found: token_at(toks, pos) },
        )
    }
}

/// A return statement after its keyword: an optional expression, the line
/// break consumed, and a following blank line consumed too.
pub open spec fn spec_return(toks: Seq<Token>, pos: int) -> Result<(StmtModel, int), ParseError> {
    if !(token_at(toks, pos) is NewLine) && pos < toks.len() {
        match spec_expr(toks, pos) {
            Ok((e, p)) => {
                let p1 = spec_adv(toks, fwd(toks, p, pos + 1));
                let p2 = if token_at(toks, p1) is NewLine {
                    spec_adv(toks, p1)
                } else {
                    p1
                };
                Ok((StmtModel::Return { expr: Some(e) }, p2))
            },
            Err(e) => Err(e),
        }
    } else {
        let p1 = spec_adv(toks, pos);
        let p2 = if token_at(toks, p1) is NewLine {
            spec_adv(toks, p1)
        } else {
            p1
        };
        Ok((StmtModel::Return { expr: None }, p2))
    }
}

/// A print statement after its keyword: an expression ended by a line break.
pub open spec fn spec_print(toks: Seq<Token>, pos: int) -> Result<(StmtModel, int), ParseError> {
    match spec_expr(toks, pos) {
        Ok((e, p)) => {
            let p1 = fwd(toks, p, pos + 1);
            if token_at(toks, p1) is NewLine {
                Ok((StmtModel::Print { expr: e }, p1 + 1))
            } else {
                Err(
                    ParseError::ExpectedToken {
                        expected: Token::NewLine,
                        found: token_at(toks, p1),
                    },
                )
            }
        },
        Err(e) => Err(e),
    }
}

/// A binding after its keyword: a name, an equals sign, and the bound
/// expression.
pub open spec fn spec_let(toks: Seq<Token>, pos: int) -> Result<(StmtModel, int), ParseError> {
    let name = token_at(toks, pos);
    if name is Ident {
        if token_at(toks, pos + 1) is Eq {
            match spec_expr(toks, pos + 2) {
                Ok((e, p)) => Ok((StmtModel::Let { name, expr: e }, fwd(toks, p, pos + 3))),
                Err(e) => Err(e),
            }
        } else {
            Err(
                ParseError::ExpectedToken { expected: Token::Eq, found: token_at(toks, pos + 1) },
            )
        }
    } else {
        Err(ParseError::ExpectedIdent { found: name })
    }
}

/// An expression standing as a statement.
pub open spec fn spec_expr_statement(toks: Seq<Token>, pos: int) -> Result<(StmtModel, int), ParseError> {
    match spec_expr(toks, pos) {
        Ok((e, p)) => Ok((StmtModel::Expression { expr: e }, p)),
        Err(e) => Err(e),
    }
}

/// A function declaration after its keyword: a name, a parameter list, a
/// body up to its end marker.
pub open spec fn spec_fun(toks: Seq<Token>, pos: int) -> Result<(StmtModel, int), ParseError>
    decreases toks.len() + 2 - pos, 0int,
        when 0 <= pos <= toks.len() + 1
{
    let name = token_at(toks, pos);
    if name is Ident {
        match spec_params(toks, pos + 1) {
            Ok((ps, pp)) => match spec_block(toks, fwd(toks, pp, pos + 2)) {
                Ok((body, pb)) => {
                    if token_at(toks, pb) is End {
                        Ok((StmtModel::FunDeclaration { name, params: ps, body }, pb + 1))
                    } else {
                        Err(
                            ParseError::ExpectedToken {
                                expected: Token::End,
                                found: token_at(toks, pb),
                            },
                        )
                    }
                },
                Err(e) => Err(e),
            },
            Err(e) => Err(e),
        }
    } else {
        Err(ParseError::ExpectedIdent { found: name })
    }
}

/// A conditional after its keyword: the condition, a line break, the
/// consequence block, an optional alternative block, and the end marker.
pub open spec fn spec_if(toks: Seq<Token>, pos: int) -> Result<(StmtModel, int), ParseError>
    decreases toks.len() + 2 - pos, 0int,
        when 0 <= pos <= toks.len() + 1
{
    match spec_expr(toks, pos) {
        Ok((cond, p)) => {
            let p1 = fwd(toks, p, pos + 1);
            if token_at(toks, p1) is NewLine {
                match spec_block(toks, p1 + 1) {
                    Ok((cons, p2)) => {
                        let p2b = fwd(toks, p2, p1 + 1);
                        if token_at(toks, p2b) is Else {
                            match spec_block(toks, p2b + 1) {
                                Ok((alt, p3)) => {
                                    let p3b = fwd(toks, p3, p2b + 1);
                                    if token_at(toks, p3b) is End {
                                        Ok(
                                            (
                                                StmtModel::If {
                                                    condition: cond,
                                                    consequence: cons,
                                                    alternative: Some(alt),
                                                },
                                                p3b + 1,
                                            ),
                                        )
                                    } else {
                                        Err(
                                            ParseError::ExpectedToken {
                                                expected: Token::End,
                                                found: token_at(toks, p3b),
                                            },
                                        )
                                    }
                                },
                                Err(e) => Err(e),
                            }
                        } else {
                            if token_at(toks, p2b) is End {
                                Ok(
                                    (
                                        StmtModel::If {
                                            condition: cond,
                                            consequence: cons,
                                            alternative: None,
                                        },
                                        p2b + 1,
                                    ),
                                )
                            } else {
                                Err(
                                    ParseError::ExpectedToken {
                                        expected: Token::End,
                                        found: token_at(toks, p2b),
                                    },
                                )
                            }
                        }
                    },
                    Err(e) => Err(e),
                }
            } else {
                Err(
                    ParseError::ExpectedToken {
                        expected: Token::NewLine,
                        found: token_at(toks, p1),
                    },
                )
            }
        },
        Err(e) => Err(e),
    }
}

/// One statement: a return, a print, a conditional, or an expression.
pub open spec fn spec_statement(toks: Seq<Token>, pos: int) -> Result<(StmtModel, int), ParseError>
    decreases toks.len() + 2 - pos, 1int,
        when 0 <= pos <= toks.len() + 1
{
    let t = token_at(toks, pos);
    match t {
        Token::Return => spec_return(toks, pos + 1),
        Token::Print => spec_print(toks, pos + 1),
        Token::If => spec_if(toks, pos + 1),
        _ => spec_expr_statement(toks, pos),
    }
}

/// One declaration: nothing for a blank line or the end of input, a function
/// declaration, a binding, or a statement.
pub open spec fn spec_declaration(toks: Seq<Token>, pos: int) -> Result<
    (Option<StmtModel>, int),
    ParseError,
>
    decreases toks.len() + 2 - pos, 2int,
        when 0 <= pos <= toks.len() + 1
{
    let t = token_at(toks, pos);
    if t is NewLine || t is Eof {
        Ok((None, spec_adv(toks, pos)))
    } else if t is Fun {
        match spec_fun(toks, pos + 1) {
            Ok((st, p)) => Ok((Some(st), p)),
            Err(e) => Err(e),
        }
    } else if t is Let {
        match spec_let(toks, pos + 1) {
            Ok((st, p)) => Ok((Some(st), p)),
            Err(e) => Err(e),
        }
    } else {
        match spec_statement(toks, pos) {
            Ok((st, p)) => Ok((Some(st), p)),
            Err(e) => Err(e),
        }
    }
}

/// The statements of a block, up to an end or else marker or the end of
/// input.
pub open spec fn spec_block(toks: Seq<Token>, pos: int) -> Result<(Seq<StmtModel>, int), ParseError>
    decreases toks.len() + 2 - pos, 3int,
        when 0 <= pos <= toks.len() + 1
{
    let t = token_at(toks, pos);
    if pos >= toks.len() || t is End || t is Else {
        Ok((Seq::<StmtModel>::empty(), pos))
    } else {
        match spec_declaration(toks, pos) {
            Ok((opt, p)) => match spec_block(toks, fwd(toks, p, pos + 1)) {
                Ok((rest, p2)) => Ok(
                    (
                        match opt {
                            Some(st) => seq![st] + rest,
                            None => rest,
                        },
                        p2,
                    ),
                ),
                Err(e) => Err(e),
            },
            Err(e) => Err(e),
        }
    }
}

/// The declarations of a whole program, one after the other until the input
/// is used up.
pub open spec fn spec_program(toks: Seq<Token>, pos: int) -> Result<Seq<StmtModel>, ParseError>
    decreases toks.len() + 2 - pos,
        when 0 <= pos <= toks.len() + 1
{
    if pos >= toks.len() {
        Ok(Seq::<StmtModel>::empty())
    } else {
        match spec_declaration(toks, pos) {
            Ok((opt, p)) => match spec_program(toks, fwd(toks, p, pos + 1)) {
                Ok(rest) => Ok(
                    match opt {
                        Some(st) => seq![st] + rest,
                        None => rest,
                    },
                ),
                Err(e) => Err(e),
            },
            Err(e) => Err(e),
        }
    }
}

/// The parse of a whole token sequence.
pub open spec fn spec_parse(toks: Seq<Token>) -> Result<Seq<StmtModel>, ParseError> {
    spec_program(toks, 0)
}


/// Parses a whole token sequence into a program, as `spec_parse` says.
pub fn parse(tokens: Vec<Token>) -> (r: Result<Program, ParseError>)
    ensures
        (match r {
            Ok(p) => Ok(stmts_models(p@)),
            Err(e) => Err(e),
        }) == spec_parse(tokens@),
{
    let ghost toks = tokens@;
    let mut parser = Parser::new(tokens);
    parser.parse()
}

impl Parser {
    /// Parses declarations until the input is used up.
    pub fn parse(&mut self) -> (r: Result<Program, ParseError>)
        requires
            old(self).wf(),
        ensures
            final(self).tokens@ == old(self).tokens@,
            final(self).wf(),
            (match r {
                Ok(p) => Ok(stmts_models(p@)),
                Err(e) => Err(e),
            }) == spec_program(old(self).tokens@, old(self).current as int),
        decreases old(self).tokens@.len() - old(self).current, 9int,
    {
        let ghost toks = self.tokens@;
        let mut program: Vec<Stmt> = Vec::new();
        proof {
            assert(stmts_models(program@) =~= Seq::<StmtModel>::empty());
            if spec_program(toks, self.current as int) is Ok {
                assert(stmts_models(program@) + spec_program_rest(toks, self.current as int)
                    =~= spec_program_rest(toks, self.current as int));
            }
        }
        while !self.is_at_end()
            invariant
                self.wf(),
                self.tokens@ == toks,
                old(self).tokens@ == toks,
                old(self).current <= self.current <= toks.len(),
                spec_program(toks, old(self).current as int) == (match spec_program(
                    toks,
                    self.current as int,
                ) {
                    Ok(rest) => Ok::<Seq<StmtModel>, ParseError>(stmts_models(program@) + rest),
                    Err(e) => Err(e),
                }),
            decreases toks.len() - self.current, 10int,
        {
            let ghost pos0 = self.current as int;
            let ghost prog0 = program@;
            match self.declaration() {
                Ok(opt) => {
                    proof {
                        assert(fwd(toks, self.current as int, pos0 + 1) == self.current as int);
                    }
                    match opt {
                        Some(st) => {
                            let ghost stm = st.model();
                            program.push(st);
                            proof {
                                lemma_stmts_models_push(prog0, st);
                                match spec_program(toks, self.current as int) {
                                    Ok(rest) => {
                                        assert(stmts_models(prog0) + (seq![stm] + rest)
                                            =~= stmts_models(program@) + rest);
                                    },
                                    Err(_) => {},
                                }
                            }
                        },
                        None => {},
                    }
                },
                Err(e) => {
                    return Err(e);
                },
            }
        }
        Ok(program)
    }

    /// One declaration: nothing for a blank line or the end of input, a
    /// function declaration, a binding, or a statement.
    pub fn declaration(&mut self) -> (r: Result<Option<Stmt>, ParseError>)
        requires
            old(self).wf(),
        ensures
            final(self).tokens@ == old(self).tokens@,
            final(self).wf(),
            match r {
                Ok(opt) => spec_declaration(old(self).tokens@, old(self).current as int) == Ok::<
                    (Option<StmtModel>, int),
                    ParseError,
                >(
                    (
                        match opt {
                            Some(st) => Some(st.model()),
                            None => None,
                        },
                        final(self).current as int,
                    ),
                ) && old(self).current <= final(self).current && (old(self).current < old(
                    self,
                ).tokens@.len() ==> old(self).current < final(self).current),
                Err(e) => spec_declaration(old(self).tokens@, old(self).current as int) == Err::<
                    (Option<StmtModel>, int),
                    ParseError,
                >(e),
            },
        decreases old(self).tokens@.len() - old(self).current, 8int,
    {
        let ghost toks = self.tokens@;
        let ghost pos0 = self.current as int;
        if self.check(vec![Token::NewLine, Token::Eof]) {
            proof {
                let vs = seq![Token::NewLine, Token::Eof];
                assert(crate::token::spec_token_eq(&vs[0], &token_at(toks, pos0))
                    || crate::token::spec_token_eq(&vs[1], &token_at(toks, pos0)));
            }
            return Ok(None);
        }
        proof {
            let vs = seq![Token::NewLine, Token::Eof];
            assert(!crate::token::spec_token_eq(&vs[0], &token_at(toks, pos0)));
            assert(!crate::token::spec_token_eq(&vs[1], &token_at(toks, pos0)));
        }
        if self.check(vec![Token::Fun]) {
            proof {
                let vs = seq![Token::Fun];
                assert(crate::token::spec_token_eq(&vs[0], &token_at(toks, pos0)));
            }
            return match self.fun() {
                Ok(st) => Ok(Some(st)),
                Err(e) => Err(e),
            };
        }
        proof {
            let vs = seq![Token::Fun];
            assert(!crate::token::spec_token_eq(&vs[0], &token_at(toks, pos0)));
        }
        if self.check(vec![Token::Let]) {
            proof {
                let vs = seq![Token::Let];
                assert(crate::token::spec_token_eq(&vs[0], &token_at(toks, pos0)));
            }
            return match self.let_declaration() {
                Ok(st) => Ok(Some(st)),
                Err(e) => Err(e),
            };
        }
        proof {
            let vs = seq![Token::Let];
            assert(!crate::token::spec_token_eq(&vs[0], &token_at(toks, pos0)));
        }
        match self.statement() {
            Ok(st) => Ok(Some(st)),
            Err(e) => Err(e),
        }
    }

    /// One statement: a return, a print, a conditional, or an expression.
    pub fn statement(&mut self) -> (r: Result<Stmt, ParseError>)
        requires
            old(self).wf(),
        ensures
            final(self).tokens@ == old(self).tokens@,
            final(self).wf(),
            match r {
                Ok(st) => spec_statement(old(self).tokens@, old(self).current as int) == Ok::<
                    (StmtModel, int),
                    ParseError,
                >((st.model(), final(self).current as int)) && old(self).current <= final(self).current
                    && (old(self).current < old(self).tokens@.len() ==> old(self).current < final(self).current),
                Err(e) => spec_statement(old(self).tokens@, old(self).current as int) == Err::<
                    (StmtModel, int),
                    ParseError,
                >(e),
            },
        decreases old(self).tokens@.len() - old(self).current, 7int,
    {
        let ghost toks = self.tokens@;
        let ghost pos0 = self.current as int;
        if self.check(vec![Token::Return]) {
            proof {
                let vs = seq![Token::Return];
                assert(crate::token::spec_token_eq(&vs[0], &token_at(toks, pos0)));
            }
            return self.return_stmt();
        }
        proof {
            let vs = seq![Token::Return];
            assert(!crate::token::spec_token_eq(&vs[0], &token_at(toks, pos0)));
        }
        if self.check(vec![Token::Print]) {
            proof {
                let vs = seq![Token::Print];
                assert(crate::token::spec_token_eq(&vs[0], &token_at(toks, pos0)));
            }
            return self.print_stmt();
        }
        proof {
            let vs = seq![Token::Print];
            assert(!crate::token::spec_token_eq(&vs[0], &token_at(toks, pos0)));
        }
        if self.check(vec![Token::If]) {
            proof {
                let vs = seq![Token::If];
                assert(crate::token::spec_token_eq(&vs[0], &token_at(toks, pos0)));
            }
            return self.if_stmt();
        }
        proof {
            let vs = seq![Token::If];
            assert(!crate::token::spec_token_eq(&vs[0], &token_at(toks, pos0)));
        }
        self.expr_statement()
    }

    /// An expression standing as a statement.
    pub fn expr_statement(&mut self) -> (r: Result<Stmt, ParseError>)
        requires
            old(self).wf(),
        ensures
            final(self).tokens@ == old(self).tokens@,
            final(self).wf(),
            match r {
                Ok(st) => spec_expr_statement(old(self).tokens@, old(self).current as int) == Ok::<
                    (StmtModel, int),
                    ParseError,
                >((st.model(), final(self).current as int)) && old(self).current < final(self).current,
                Err(e) => spec_expr_statement(old(self).tokens@, old(self).current as int)
                    == Err::<(StmtModel, int), ParseError>(e),
            },
        decreases old(self).tokens@.len() - old(self).current, 3int,
    {
        match self.expr() {
            Ok(e) => Ok(Stmt::Expression { expr: e }),
            Err(e) => Err(e),
        }
    }
}

/// What remains of a program parse from a position, when it parses.
pub open spec fn spec_program_rest(toks: Seq<Token>, pos: int) -> Seq<StmtModel> {
    match spec_program(toks, pos) {
        Ok(rest) => rest,
        Err(_) => Seq::empty(),
    }
}


impl Parser {
    /// A return statement after its keyword.
    pub fn return_stmt(&mut self) -> (r: Result<Stmt, ParseError>)
        requires
            old(self).wf(),
        ensures
            final(self).tokens@ == old(self).tokens@,
            final(self).wf(),
            match r {
                Ok(st) => spec_return(old(self).tokens@, old(self).current as int) == Ok::<
                    (StmtModel, int),
                    ParseError,
                >((st.model(), final(self).current as int)) && old(self).current <= final(self).current,
                Err(e) => spec_return(old(self).tokens@, old(self).current as int) == Err::<
                    (StmtModel, int),
                    ParseError,
                >(e),
            },
        decreases old(self).tokens@.len() - old(self).current, 3int,
    {
        let ghost toks = self.tokens@;
        let ghost pos0 = self.current as int;
        let has_expr = !matches!(self.peek(), Token::NewLine) && !self.is_at_end();
        let expr: Option<Expr> = if has_expr {
            match self.expr() {
                Ok(e) => Some(e),
                Err(e) => {
                    return Err(e);
                },
            }
        } else {
            None
        };
        proof {
            if has_expr {
                assert(fwd(toks, self.current as int, pos0 + 1) == self.current as int);
            }
        }
        self.advance();
        if matches!(self.peek(), Token::NewLine) {
            self.advance();
        }
        Ok(Stmt::Return { expr })
    }

    /// A print statement after its keyword.
    pub fn print_stmt(&mut self) -> (r: Result<Stmt, ParseError>)
        requires
            old(self).wf(),
        ensures
            final(self).tokens@ == old(self).tokens@,
            final(self).wf(),
            match r {
                Ok(st) => spec_print(old(self).tokens@, old(self).current as int) == Ok::<
                    (StmtModel, int),
                    ParseError,
                >((st.model(), final(self).current as int)) && old(self).current <= final(self).current,
                Err(e) => spec_print(old(self).tokens@, old(self).current as int) == Err::<
                    (StmtModel, int),
                    ParseError,
                >(e),
            },
        decreases old(self).tokens@.len() - old(self).current, 3int,
    {
        let ghost toks = self.tokens@;
        let ghost pos0 = self.current as int;
        let e = match self.expr() {
            Ok(e) => e,
            Err(e) => {
                return Err(e);
            },
        };
        proof {
            assert(fwd(toks, self.current as int, pos0 + 1) == self.current as int);
        }
        match self.consume(Token::NewLine) {
            Ok(()) => Ok(Stmt::Print { expr: e }),
            Err(er) => Err(er),
        }
    }

    /// A binding after its keyword: a name, an equals sign, the expression.
    pub fn let_declaration(&mut self) -> (r: Result<Stmt, ParseError>)
        requires
            old(self).wf(),
        ensures
            final(self).tokens@ == old(self).tokens@,
            final(self).wf(),
            match r {
                Ok(st) => spec_let(old(self).tokens@, old(self).current as int) == Ok::<
                    (StmtModel, int),
                    ParseError,
                >((st.model(), final(self).current as int)) && old(self).current <= final(self).current,
                Err(e) => spec_let(old(self).tokens@, old(self).current as int) == Err::<
                    (StmtModel, int),
                    ParseError,
                >(e),
            },
        decreases old(self).tokens@.len() - old(self).current, 3int,
    {
        let ghost toks = self.tokens@;
        let ghost pos0 = self.current as int;
        if !matches!(self.peek(), Token::Ident(_)) {
            let found = token_copy(self.peek());
            return Err(ParseError::ExpectedIdent { found });
        }
        let name = self.advance();
        match self.consume(Token::Eq) {
            Ok(()) => {},
            Err(er) => {
                return Err(er);
            },
        }
        let e = match self.expr() {
            Ok(e) => e,
            Err(er) => {
                return Err(er);
            },
        };
        proof {
            assert(fwd(toks, self.current as int, pos0 + 3) == self.current as int);
        }
        Ok(Stmt::Let { name, expr: e })
    }

    /// A parenthesized parameter list.
    pub fn params(&mut self) -> (r: Result<Vec<Token>, ParseError>)
        requires
            old(self).wf(),
        ensures
            final(self).tokens@ == old(self).tokens@,
            final(self).wf(),
            match r {
                Ok(ps) => spec_params(old(self).tokens@, old(self).current as int) == Ok::<
                    (Seq<Token>, int),
                    ParseError,
                >((ps@, final(self).current as int)) && old(self).current < final(self).current,
                Err(e) => spec_params(old(self).tokens@, old(self).current as int) == Err::<
                    (Seq<Token>, int),
                    ParseError,
                >(e),
            },
        decreases old(self).tokens@.len() - old(self).current, 3int,
    {
        let ghost toks = self.tokens@;
        let ghost pos0 = self.current as int;
        match self.consume(Token::LParen) {
            Ok(()) => {},
            Err(er) => {
                return Err(er);
            },
        }
        let mut ps: Vec<Token> = Vec::new();
        proof {
            assert(ps@ =~= Seq::<Token>::empty());
            assert(token_at(toks, pos0) is LParen);
            assert(spec_params(toks, pos0) == spec_params_loop(toks, pos0 + 1, Seq::empty()));
            assert(pos0 < toks.len());
        }
        loop
            invariant
                self.wf(),
                self.tokens@ == toks,
                old(self).tokens@ == toks,
                pos0 < self.current <= toks.len() + 1,
                pos0 == old(self).current as int,
                spec_params(toks, pos0) == spec_params_loop(toks, self.current as int, ps@),
            decreases toks.len() + 2 - self.current,
        {
            let ghost psv = ps@;
            let t = self.peek();
            match t {
                Token::RParen => {
                    proof {
                        assert(self.current < toks.len());
                        assert(spec_params_loop(toks, self.current as int, ps@) == Ok::<
                            (Seq<Token>, int),
                            ParseError,
                        >((ps@, self.current + 1)));
                    }
                    self.advance();
                    return Ok(ps);
                },
                Token::Ident(_) => {
                    let tc = token_copy(t);
                    proof {
                        assert(psv.push(tc) == psv.push(token_at(toks, self.current as int)));
                    }
                    ps.push(tc);
                    self.advance();
                },
                Token::Comma => {
                    self.advance();
                },
                _ => {
                    let found = token_copy(t);
                    return Err(ParseError::ExpectedIdent { found });
                },
            }
        }
    }

    /// The statements of a block, up to an end or else marker or the end of
    /// input.
    pub fn block(&mut self) -> (r: Result<Vec<Stmt>, ParseError>)
        requires
            old(self).wf(),
        ensures
            final(self).tokens@ == old(self).tokens@,
            final(self).wf(),
            match r {
                Ok(body) => spec_block(old(self).tokens@, old(self).current as int) == Ok::<
                    (Seq<StmtModel>, int),
                    ParseError,
                >((stmts_models(body@), final(self).current as int)) && old(self).current <= final(self).current,
                Err(e) => spec_block(old(self).tokens@, old(self).current as int) == Err::<
                    (Seq<StmtModel>, int),
                    ParseError,
                >(e),
            },
        decreases old(self).tokens@.len() - old(self).current, 9int,
    {
        let ghost toks = self.tokens@;
        let mut body: Vec<Stmt> = Vec::new();
        proof {
            assert(stmts_models(body@) =~= Seq::<StmtModel>::empty());
            if spec_block(toks, self.current as int) is Ok {
                let rest = spec_block(toks, self.current as int)->Ok_0.0;
                assert(stmts_models(body@) + rest =~= rest);
            }
        }
        while !self.is_at_end() && !matches!(self.peek(), Token::End) && !matches!(
            self.peek(),
            Token::Else,
        )
            invariant
                self.wf(),
                self.tokens@ == toks,
                old(self).tokens@ == toks,
                old(self).current <= self.current <= toks.len(),
                spec_block(toks, old(self).current as int) == (match spec_block(
                    toks,
                    self.current as int,
                ) {
                    Ok((rest, p2)) => Ok::<(Seq<StmtModel>, int), ParseError>(
                        (stmts_models(body@) + rest, p2),
                    ),
                    Err(e) => Err(e),
                }),
            decreases toks.len() - self.current, 10int,
        {
            let ghost pos0 = self.current as int;
            let ghost body0 = body@;
            match self.declaration() {
                Ok(opt) => {
                    proof {
                        assert(fwd(toks, self.current as int, pos0 + 1) == self.current as int);
                    }
                    match opt {
                        Some(st) => {
                            let ghost stm = st.model();
                            body.push(st);
                            proof {
                                lemma_stmts_models_push(body0, st);
                                match spec_block(toks, self.current as int) {
                                    Ok((rest, _)) => {
                                        assert(stmts_models(body0) + (seq![stm] + rest)
                                            =~= stmts_models(body@) + rest);
                                    },
                                    Err(_) => {},
                                }
                            }
                        },
                        None => {},
                    }
                },
                Err(e) => {
                    return Err(e);
                },
            }
        }
        Ok(body)
    }

    /// A function declaration after its keyword.
    pub fn fun(&mut self) -> (r: Result<Stmt, ParseError>)
        requires
            old(self).wf(),
        ensures
            final(self).tokens@ == old(self).tokens@,
            final(self).wf(),
            match r {
                Ok(st) => spec_fun(old(self).tokens@, old(self).current as int) == Ok::<
                    (StmtModel, int),
                    ParseError,
                >((st.model(), final(self).current as int)) && old(self).current <= final(self).current,
                Err(e) => spec_fun(old(self).tokens@, old(self).current as int) == Err::<
                    (StmtModel, int),
                    ParseError,
                >(e),
            },
        decreases old(self).tokens@.len() - old(self).current, 7int,
    {
        let ghost toks = self.tokens@;
        let ghost pos0 = self.current as int;
        if !matches!(self.peek(), Token::Ident(_)) {
            let found = token_copy(self.peek());
            return Err(ParseError::ExpectedIdent { found });
        }
        let name = self.advance();
        let ps = match self.params() {
            Ok(ps) => ps,
            Err(er) => {
                return Err(er);
            },
        };
        proof {
            assert(fwd(toks, self.current as int, pos0 + 2) == self.current as int);
        }
        let body = match self.block() {
            Ok(b) => b,
            Err(er) => {
                return Err(er);
            },
        };
        match self.consume(Token::End) {
            Ok(()) => Ok(Stmt::FunDeclaration { name, params: ps, body }),
            Err(er) => Err(er),
        }
    }

    /// A conditional after its keyword.
    pub fn if_stmt(&mut self) -> (r: Result<Stmt, ParseError>)
        requires
            old(self).wf(),
        ensures
            final(self).tokens@ == old(self).tokens@,
            final(self).wf(),
            match r {
                Ok(st) => spec_if(old(self).tokens@, old(self).current as int) == Ok::<
                    (StmtModel, int),
                    ParseError,
                >((st.model(), final(self).current as int)) && old(self).current <= final(self).current,
                Err(e) => spec_if(old(self).tokens@, old(self).current as int) == Err::<
                    (StmtModel, int),
                    ParseError,
                >(e),
            },
        decreases old(self).tokens@.len() - old(self).current, 7int,
    {
        let ghost toks = self.tokens@;
        let ghost pos0 = self.current as int;
        let condition = match self.expr() {
            Ok(e) => e,
            Err(er) => {
                return Err(er);
            },
        };
        proof {
            assert(fwd(toks, self.current as int, pos0 + 1) == self.current as int);
        }
        match self.consume(Token::NewLine) {
            Ok(()) => {},
            Err(er) => {
                return Err(er);
            },
        }
        let ghost p1 = self.current - 1;
        let consequence = match self.block() {
            Ok(b) => b,
            Err(er) => {
                return Err(er);
            },
        };
        proof {
            assert(fwd(toks, self.current as int, p1 + 1) == self.current as int);
        }
        let alternative: Option<Vec<Stmt>> = if self.check(vec![Token::Else]) {
            proof {
                let vs = seq![Token::Else];
                assert(crate::token::spec_token_eq(&vs[0], &token_at(toks, self.current - 1)));
            }
            let ghost p2b = self.current - 1;
            match self.block() {
                Ok(b) => {
                    proof {
                        assert(fwd(toks, self.current as int, p2b + 1) == self.current as int);
                    }
                    Some(b)
                },
                Err(er) => {
                    return Err(er);
                },
            }
        } else {
            proof {
                let vs = seq![Token::Else];
                assert(!crate::token::spec_token_eq(
                    &vs[0],
                    &token_at(toks, self.current as int),
                ));
            }
            None
        };
        match self.consume(Token::End) {
            Ok(()) => Ok(
                Stmt::If {
                    condition,
                    consequence,
                    alternative,
                },
            ),
            Err(er) => Err(er),
        }
    }
}

} // verus!
