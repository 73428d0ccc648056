//! The compiler: walks an expression tree once, post-order, and appends
//! bytecode to a single growable buffer. For a binary node the left operand's
//! code comes first, then the right operand's, then the operator's opcode;
//! a literal is its opcode followed by the fixed-width big-endian operand;
//! grouping nodes are transparent and emit nothing of their own.
use vstd::prelude::*;
use crate::ast::{Expr, Stmt};
use crate::token::Token;
use crate::opcodes::{OpCode, opcode_to_u8, spec_opcode_to_u8};
use crate::encoding::{push_u32_be, push_u64_be, spec_u32_to_be_bytes, spec_u64_to_be_bytes};
use crate::parser::Program;

verus! {

/// What the compiler cannot lower: the core compiles expression statements
/// over numeric operators and literals.
#[derive(Debug)]
pub enum CompileError {
    /// A statement form outside the expression core.
    UnsupportedStatement,
    /// An expression form with no bytecode lowering: text or a name.
    UnsupportedExpression,
    /// An operator with no opcode in the fixed table.
    UnsupportedOperator { op: Token },
}

/// The opcode byte of a binary operator token, per the fixed table.
pub open spec fn spec_op_byte(op: &Token) -> Option<u8> {
    match op {
        Token::Plus => Some(spec_opcode_to_u8(OpCode::Add)),
        Token::Minus => Some(spec_opcode_to_u8(OpCode::Subtract)),
        Token::Star => Some(spec_opcode_to_u8(OpCode::Multiply)),
        Token::Slash => Some(spec_opcode_to_u8(OpCode::Divide)),
        _ => None,
    }
}

/// The bytecode of one expression: post-order, operands before operator,
/// literals as opcode plus big-endian bytes, groupings transparent.
pub open spec fn spec_compile_expr(e: &Expr) -> Result<Seq<u8>, CompileError>
    decreases e,
{
    match e {
        Expr::Binary { op, left, right } => match spec_op_byte(op) {
            Some(b) => match spec_compile_expr(&**left) {
                Ok(cl) => match spec_compile_expr(&**right) {
                    Ok(cr) => Ok(cl + cr + seq![b]),
                    Err(er) => Err(er),
                },
                Err(er) => Err(er),
            },
            None => Err(CompileError::UnsupportedOperator { op: *op }),
        },
        Expr::Unary { op, right } => match op {
            Token::Minus => match spec_compile_expr(&**right) {
                Ok(cr) => Ok(cr + seq![spec_opcode_to_u8(OpCode::Negate)]),
                Err(er) => Err(er),
            },
            _ => Err(CompileError::UnsupportedOperator { op: *op }),
        },
        Expr::Int { val } => Ok(
            seq![spec_opcode_to_u8(OpCode::Int)] + spec_u32_to_be_bytes(*val as u32),
        ),
        Expr::Float { bits } => Ok(
            seq![spec_opcode_to_u8(OpCode::Float)] + spec_u64_to_be_bytes(*bits),
        ),
        Expr::Grouping { expr } => spec_compile_expr(&**expr),
        Expr::String { .. } => Err(CompileError::UnsupportedExpression),
        Expr::Name { .. } => Err(CompileError::UnsupportedExpression),
    }
}

/// The bytecode of one statement: only an expression statement lowers.
pub open spec fn spec_compile_stmt(st: &Stmt) -> Result<Seq<u8>, CompileError> {
    match st {
        Stmt::Expression { expr } => spec_compile_expr(expr),
        _ => Err(CompileError::UnsupportedStatement),
    }
}

/// The bytecode of a program: each statement's code, in order.
pub open spec fn spec_compile_program(ss: Seq<Stmt>) -> Result<Seq<u8>, CompileError>
    decreases ss.len(),
{
    if ss.len() == 0 {
        Ok(Seq::empty())
    } else {
        match spec_compile_stmt(&ss[0]) {
            Ok(c0) => match spec_compile_program(ss.drop_first()) {
                Ok(rest) => Ok(c0 + rest),
                Err(er) => Err(er),
            },
            Err(er) => Err(er),
        }
    }
}

/// Compiles a program to one bytecode buffer.
pub fn compile(program: Program) -> (r: Result<Vec<u8>, CompileError>)
    ensures
        (match r {
            Ok(code) => Ok(code@),
            Err(e) => Err(e),
        }) == spec_compile_program(program@),
{
    let mut compiler = Compiler::new();
    match compiler.compile(program) {
        Ok(()) => Ok(compiler.code),
        Err(e) => Err(e),
    }
}

pub struct Compiler {
    pub code: Vec<u8>,
}

impl Compiler {
    pub fn new() -> (r: Compiler)
        ensures
            r.code@ == Seq::<u8>::empty(),
    {
        Compiler { code: Vec::new() }
    }

    /// Compiles each statement of the program in order, appending to the
    /// buffer; a statement outside the core stops the compilation.
    pub fn compile(&mut self, program: Program) -> (r: Result<(), CompileError>)
        ensures
            match r {
                Ok(()) => spec_compile_program(program@) == Ok::<Seq<u8>, CompileError>(
                    final(self).code@.skip(old(self).code@.len() as int),
                ) && final(self).code@ == old(self).code@ + final(self).code@.skip(
                    old(self).code@.len() as int,
                ),
                Err(e) => spec_compile_program(program@) == Err::<Seq<u8>, CompileError>(e),
            },
    {
        let ghost ss = program@;
        let n = program.len();
        let mut i: usize = 0;
        proof {
            assert(self.code@.skip(old(self).code@.len() as int) =~= Seq::<u8>::empty());
            assert(ss.skip(0) =~= ss);
        }
        while i < n
            invariant
                0 <= i <= n == program@.len(),
                program@ == ss,
                old(self).code@.len() <= self.code@.len(),
                self.code@ == old(self).code@ + self.code@.skip(old(self).code@.len() as int),
                spec_compile_program(ss) == (match spec_compile_program(ss.skip(i as int)) {
                    Ok(rest) => Ok::<Seq<u8>, CompileError>(
                        self.code@.skip(old(self).code@.len() as int) + rest,
                    ),
                    Err(e) => Err(e),
                }),
            decreases n - i,
        {
            let ghost emitted0 = self.code@.skip(old(self).code@.len() as int);
            let ghost code0 = self.code@;
            match self.visit_expr_stmt(&program[i]) {
                Ok(()) => {},
                Err(e) => {
                    proof {
                        assert(ss.skip(i as int)[0] == ss[i as int]);
                    }
                    return Err(e);
                },
            }
            proof {
                assert(ss.skip(i as int)[0] == ss[i as int]);
                assert(ss.skip(i as int).drop_first() =~= ss.skip(i + 1));
                let piece = self.code@.skip(code0.len() as int);
                assert(self.code@ == code0 + piece);
                assert(self.code@.skip(old(self).code@.len() as int) =~= emitted0 + piece);
                assert(self.code@ == old(self).code@ + self.code@.skip(
                    old(self).code@.len() as int,
                ));
                match spec_compile_program(ss.skip(i + 1)) {
                    Ok(rest) => {
                        assert(emitted0 + (piece + rest) =~= (emitted0 + piece) + rest);
                    },
                    Err(_) => {},
                }
            }
            i = i + 1;
        }
        proof {
            assert(ss.skip(n as int) =~= Seq::<Stmt>::empty());
        }
        Ok(())
    }

    /// Lowers one statement: an expression statement compiles to its
    /// expression's code.
    pub fn visit_expr_stmt(&mut self, stmt: &Stmt) -> (r: Result<(), CompileError>)
        ensures
            match r {
                Ok(()) => spec_compile_stmt(stmt) == Ok::<Seq<u8>, CompileError>(
                    final(self).code@.skip(old(self).code@.len() as int),
                ) && final(self).code@ == old(self).code@ + final(self).code@.skip(
                    old(self).code@.len() as int,
                ),
                Err(e) => spec_compile_stmt(stmt) == Err::<Seq<u8>, CompileError>(e),
            },
    {
        match stmt {
            Stmt::Expression { expr } => self.compile_expr(expr),
            _ => Err(CompileError::UnsupportedStatement),
        }
    }

    /// Lowers one expression, post-order.
    pub fn compile_expr(&mut self, expr: &Expr) -> (r: Result<(), CompileError>)
        ensures
            match r {
                Ok(()) => spec_compile_expr(expr) == Ok::<Seq<u8>, CompileError>(
                    final(self).code@.skip(old(self).code@.len() as int),
                ) && final(self).code@ == old(self).code@ + final(self).code@.skip(
                    old(self).code@.len() as int,
                ),
                Err(e) => spec_compile_expr(expr) == Err::<Seq<u8>, CompileError>(e),
            },
        decreases expr, 1int,
    {
        match expr {
            Expr::Binary { .. } => self.visit_binary(expr),
            Expr::Int { .. } => self.visit_int(expr),
            Expr::Float { .. } => self.visit_float(expr),
            Expr::Unary { op, right } => match op {
                Token::Minus => {
                    let ghost code0 = self.code@;
                    match self.compile_expr(&**right) {
                        Ok(()) => {},
                        Err(e) => {
                            return Err(e);
                        },
                    }
                    let ghost piece = self.code@.skip(code0.len() as int);
                    self.code.push(opcode_to_u8(OpCode::Negate));
                    proof {
                        assert(self.code@.skip(code0.len() as int) =~= piece + seq![
                            spec_opcode_to_u8(OpCode::Negate),
                        ]);
                        assert(self.code@ == code0 + self.code@.skip(code0.len() as int));
                    }
                    Ok(())
                },
                _ => Err(CompileError::UnsupportedOperator { op: crate::token::token_copy(op) }),
            },
            Expr::Grouping { expr: inner } => self.compile_expr(&**inner),
            Expr::String { .. } => Err(CompileError::UnsupportedExpression),
            Expr::Name { .. } => Err(CompileError::UnsupportedExpression),
        }
    }

    /// Appends a binary operator's opcode, per the fixed table.
    pub fn add_op(&mut self, op: &Token) -> (r: Result<(), CompileError>)
        ensures
            match r {
                Ok(()) => spec_op_byte(op) matches Some(b) && final(self).code@ == old(
                    self,
                ).code@.push(b),
                Err(e) => spec_op_byte(op) is None && e == (CompileError::UnsupportedOperator {
                    op: *op,
                }) && final(self).code@ == old(self).code@,
            },
    {
        match op {
            Token::Plus => {
                self.code.push(opcode_to_u8(OpCode::Add));
                Ok(())
            },
            Token::Minus => {
                self.code.push(opcode_to_u8(OpCode::Subtract));
                Ok(())
            },
            Token::Star => {
                self.code.push(opcode_to_u8(OpCode::Multiply));
                Ok(())
            },
            Token::Slash => {
                self.code.push(opcode_to_u8(OpCode::Divide));
                Ok(())
            },
            _ => Err(CompileError::UnsupportedOperator { op: crate::token::token_copy(op) }),
        }
    }

    /// Lowers a binary node: left code, right code, operator opcode.
    pub fn visit_binary(&mut self, expr: &Expr) -> (r: Result<(), CompileError>)
        requires
            expr is Binary,
        ensures
            match r {
                Ok(()) => spec_compile_expr(expr) == Ok::<Seq<u8>, CompileError>(
                    final(self).code@.skip(old(self).code@.len() as int),
                ) && final(self).code@ == old(self).code@ + final(self).code@.skip(
                    old(self).code@.len() as int,
                ),
                Err(e) => spec_compile_expr(expr) == Err::<Seq<u8>, CompileError>(e),
            },
        decreases expr, 0int,
    {
        match expr {
            Expr::Binary { op, left, right } => {
                let b = match self.add_op_probe(op) {
                    Some(b) => b,
                    None => {
                        return Err(
                            CompileError::UnsupportedOperator { op: crate::token::token_copy(op) },
                        );
                    },
                };
                let ghost code0 = self.code@;
                match self.compile_expr(&**left) {
                    Ok(()) => {},
                    Err(e) => {
                        return Err(e);
                    },
                }
                let ghost cl = self.code@.skip(code0.len() as int);
                let ghost code1 = self.code@;
                match self.compile_expr(&**right) {
                    Ok(()) => {},
                    Err(e) => {
                        return Err(e);
                    },
                }
                let ghost cr = self.code@.skip(code1.len() as int);
                self.code.push(b);
                proof {
                    assert(self.code@.skip(code0.len() as int) =~= cl + cr + seq![b]);
                    assert(self.code@ == code0 + self.code@.skip(code0.len() as int));
                }
                Ok(())
            },
            _ => {
                proof {
                    assert(false);
                }
                Err(CompileError::UnsupportedStatement)
            },
        }
    }

    /// The opcode byte of a binary operator token, when the table has one.
    fn add_op_probe(&self, op: &Token) -> (r: Option<u8>)
        ensures
            r == spec_op_byte(op),
    {
        match op {
            Token::Plus => Some(opcode_to_u8(OpCode::Add)),
            Token::Minus => Some(opcode_to_u8(OpCode::Subtract)),
            Token::Star => Some(opcode_to_u8(OpCode::Multiply)),
            Token::Slash => Some(opcode_to_u8(OpCode::Divide)),
            _ => None,
        }
    }

    /// Lowers an integer literal: its opcode, then four big-endian bytes.
    pub fn visit_int(&mut self, expr: &Expr) -> (r: Result<(), CompileError>)
        requires
            expr is Int,
        ensures
            match r {
                Ok(()) => spec_compile_expr(expr) == Ok::<Seq<u8>, CompileError>(
                    final(self).code@.skip(old(self).code@.len() as int),
                ) && final(self).code@ == old(self).code@ + final(self).code@.skip(
                    old(self).code@.len() as int,
                ),
                Err(e) => spec_compile_expr(expr) == Err::<Seq<u8>, CompileError>(e),
            },
    {
        match expr {
            Expr::Int { val } => {
                let ghost code0 = self.code@;
                self.code.push(opcode_to_u8(OpCode::Int));
                push_u32_be(&mut self.code, *val as u32);
                proof {
                    assert(self.code@.skip(code0.len() as int) =~= seq![
                        spec_opcode_to_u8(OpCode::Int),
                    ] + spec_u32_to_be_bytes(*val as u32));
                    assert(self.code@ == code0 + self.code@.skip(code0.len() as int));
                }
                Ok(())
            },
            _ => {
                proof {
                    assert(false);
                }
                Err(CompileError::UnsupportedStatement)
            },
        }
    }

    /// Lowers a float literal: its opcode, then eight big-endian bytes of
    /// the IEEE 754 pattern.
    pub fn visit_float(&mut self, expr: &Expr) -> (r: Result<(), CompileError>)
        requires
            expr is Float,
        ensures
            match r {
                Ok(()) => spec_compile_expr(expr) == Ok::<Seq<u8>, CompileError>(
                    final(self).code@.skip(old(self).code@.len() as int),
                ) && final(self).code@ == old(self).code@ + final(self).code@.skip(
                    old(self).code@.len() as int,
                ),
                Err(e) => spec_compile_expr(expr) == Err::<Seq<u8>, CompileError>(e),
            },
    {
        match expr {
            Expr::Float { bits } => {
                let ghost code0 = self.code@;
                self.code.push(opcode_to_u8(OpCode::Float));
                push_u64_be(&mut self.code, *bits);
                proof {
                    assert(self.code@.skip(code0.len() as int) =~= seq![
                        spec_opcode_to_u8(OpCode::Float),
                    ] + spec_u64_to_be_bytes(*bits));
                    assert(self.code@ == code0 + self.code@.skip(code0.len() as int));
                }
                Ok(())
            },
            _ => {
                proof {
                    assert(false);
                }
                Err(CompileError::UnsupportedStatement)
            },
        }
    }
}

} // verus!
