//! The laws of the pipeline, proved once and for all inputs: precedence,
//! associativity and grouping of the parser, carried through compilation to
//! the machine's arithmetic; the round trip of literal encodings; and the
//! boundary failures of the machine.
use vstd::prelude::*;
use crate::token::Token;
use crate::ast::{Expr, StmtModel};
use crate::parser::{spec_parse, spec_expr, spec_parse_prec, spec_prefix, spec_infix_loop,
    PREC_ASSIGNMENT};
use crate::ast::{Stmt, stmts_models, lemma_stmts_models_len};
use crate::compiler::{spec_compile_expr, spec_compile_stmt, spec_compile_program};
use crate::encoding::{spec_u32_to_be_bytes, spec_u32_from_be_bytes, lemma_u32_be_round_trip,
    lemma_i32_bits_round_trip};
use crate::opcodes::OpCode;
use crate::value::Value;
use crate::vm::{spec_run, spec_interpret, spec_binop, VmError};

verus! {

/// The expression statement parsed from `a + b * c`: multiplication binds
/// tighter, so the right operand of the sum is the whole product.
pub proof fn lemma_precedence_parse(a: i32, b: i32, c: i32)
    ensures
        spec_parse(
            seq![
                Token::Int(a),
                Token::Plus,
                Token::Int(b),
                Token::Star,
                Token::Int(c),
                Token::Eof,
            ],
        ) == Ok::<Seq<StmtModel>, crate::parser::ParseError>(
            seq![
                StmtModel::Expression {
                    expr: Expr::Binary {
                        op: Token::Plus,
                        left: Box::new(Expr::Int { val: a }),
                        right: Box::new(
                            Expr::Binary {
                                op: Token::Star,
                                left: Box::new(Expr::Int { val: b }),
                                right: Box::new(Expr::Int { val: c }),
                            },
                        ),
                    },
                },
            ],
        ),
{
    let toks = seq![
        Token::Int(a),
        Token::Plus,
        Token::Int(b),
        Token::Star,
        Token::Int(c),
        Token::Eof,
    ];
    assert(toks.len() == 6);
    let prod = Expr::Binary {
        op: Token::Star,
        left: Box::new(Expr::Int { val: b }),
        right: Box::new(Expr::Int { val: c }),
    };
    let whole = Expr::Binary {
        op: Token::Plus,
        left: Box::new(Expr::Int { val: a }),
        right: Box::new(prod),
    };
    assert(spec_prefix(toks, 0) == Ok::<(Expr, int), crate::parser::ParseError>(
        (Expr::Int { val: a }, 1),
    ));
    assert(spec_prefix(toks, 2) == Ok::<(Expr, int), crate::parser::ParseError>(
        (Expr::Int { val: b }, 3),
    ));
    assert(spec_prefix(toks, 4) == Ok::<(Expr, int), crate::parser::ParseError>(
        (Expr::Int { val: c }, 5),
    ));
    // The product: parsing at the factor level from the `b`.
    assert(spec_infix_loop(toks, Expr::Int { val: c }, 5, 4) == Ok::<
        (Expr, int),
        crate::parser::ParseError,
    >((Expr::Int { val: c }, 5)));
    assert(spec_parse_prec(toks, 4, 4) == Ok::<(Expr, int), crate::parser::ParseError>(
        (Expr::Int { val: c }, 5),
    ));
    assert(spec_infix_loop(toks, prod, 5, 3) == Ok::<(Expr, int), crate::parser::ParseError>(
        (prod, 5),
    ));
    assert(spec_infix_loop(toks, Expr::Int { val: b }, 3, 3) == Ok::<
        (Expr, int),
        crate::parser::ParseError,
    >((prod, 5)));
    assert(spec_parse_prec(toks, 2, 3) == Ok::<(Expr, int), crate::parser::ParseError>((prod, 5)));
    // The sum: the infix loop at the lowest threshold takes the plus, then
    // stops at the end of input.
    assert(spec_infix_loop(toks, whole, 5, PREC_ASSIGNMENT) == Ok::<
        (Expr, int),
        crate::parser::ParseError,
    >((whole, 5)));
    assert(spec_infix_loop(toks, Expr::Int { val: a }, 1, PREC_ASSIGNMENT) == Ok::<
        (Expr, int),
        crate::parser::ParseError,
    >((whole, 5)));
    assert(spec_expr(toks, 0) == Ok::<(Expr, int), crate::parser::ParseError>((whole, 5)));
    // The statement layer wraps the expression and stops at the end marker.
    assert(crate::parser::spec_expr_statement(toks, 0) == Ok::<
        (StmtModel, int),
        crate::parser::ParseError,
    >((StmtModel::Expression { expr: whole }, 5)));
    assert(crate::parser::spec_statement(toks, 0) == Ok::<
        (StmtModel, int),
        crate::parser::ParseError,
    >((StmtModel::Expression { expr: whole }, 5)));
    assert(crate::parser::spec_declaration(toks, 0) == Ok::<
        (Option<StmtModel>, int),
        crate::parser::ParseError,
    >((Some(StmtModel::Expression { expr: whole }), 5)));
    assert(crate::parser::spec_declaration(toks, 5) == Ok::<
        (Option<StmtModel>, int),
        crate::parser::ParseError,
    >((None, 6)));
    assert(crate::parser::spec_program(toks, 6) == Ok::<
        Seq<StmtModel>,
        crate::parser::ParseError,
    >(Seq::empty()));
    assert(crate::parser::spec_program(toks, 5) == Ok::<
        Seq<StmtModel>,
        crate::parser::ParseError,
    >(Seq::empty()));
    assert(spec_parse(toks) == Ok::<Seq<StmtModel>, crate::parser::ParseError>(
        seq![StmtModel::Expression { expr: whole }] + Seq::empty(),
    ));
    assert(seq![StmtModel::Expression { expr: whole }] + Seq::<StmtModel>::empty() =~= seq![
        StmtModel::Expression { expr: whole },
    ]);
}


/// The five bytecode bytes of an integer constant.
pub open spec fn int_const_code(x: i32) -> Seq<u8> {
    seq![1u8] + spec_u32_to_be_bytes(x as u32)
}

/// One constant-push step of the machine: five bytes in, the integer on the
/// stack.
pub proof fn lemma_run_int_const(code: Seq<u8>, ip: int, stack: Seq<Value>, x: i32)
    requires
        0 <= ip,
        ip + 5 <= code.len(),
        code.subrange(ip, ip + 5) == int_const_code(x),
        stack.len() < 255,
    ensures
        spec_run(code, ip, stack) == spec_run(code, ip + 5, stack.push(Value::Int(x))),
{
    let sub = code.subrange(ip, ip + 5);
    assert(code[ip] == sub[0]);
    assert(sub[0] == 1u8);
    assert(code[ip + 1] == sub[1] && code[ip + 2] == sub[2] && code[ip + 3] == sub[3] && code[ip
        + 4] == sub[4]);
    lemma_u32_be_round_trip(x as u32);
    lemma_i32_bits_round_trip(x);
    assert(sub[1] == spec_u32_to_be_bytes(x as u32)[0]);
    assert(spec_u32_from_be_bytes(sub[1], sub[2], sub[3], sub[4]) == x as u32);
}

/// One arithmetic step of the machine over two integers on the stack.
pub proof fn lemma_run_int_binop(code: Seq<u8>, ip: int, stack: Seq<Value>, x: i32, y: i32, op: OpCode)
    requires
        0 <= ip < code.len(),
        code[ip] == crate::opcodes::spec_opcode_to_u8(op),
        op is Add || op is Subtract || op is Multiply,
        stack.len() <= 253,
    ensures
        spec_run(code, ip, stack.push(Value::Int(x)).push(Value::Int(y))) == spec_run(
            code,
            ip + 1,
            stack.push(
                Value::Int(
                    match op {
                        OpCode::Add => vstd::wrapping::i32_specs::wrapping_add(x, y),
                        OpCode::Subtract => vstd::wrapping::i32_specs::wrapping_sub(x, y),
                        _ => vstd::wrapping::i32_specs::wrapping_mul(x, y),
                    },
                ),
            ),
        ),
{
    let s2 = stack.push(Value::Int(x)).push(Value::Int(y));
    assert(s2.len() == stack.len() + 2);
    assert(s2.last() == Value::Int(y));
    assert(s2[s2.len() - 2] == Value::Int(x));
    assert(s2.drop_last().drop_last() =~= stack);
}

/// The stopped machine: a return instruction yields the top of the stack.
pub proof fn lemma_run_return(code: Seq<u8>, ip: int, stack: Seq<Value>)
    requires
        0 <= ip < code.len(),
        code[ip] == 0u8,
        stack.len() >= 1,
    ensures
        spec_run(code, ip, stack) == Ok::<Value, VmError>(stack.last()),
{
}


/// Precedence, end to end: a program parsed from `a + b * c`, once compiled
/// and run with a return instruction appended, yields the wrapped value of
/// `a + (b * c)`, never that of `(a + b) * c`.
pub proof fn lemma_precedence_pipeline(a: i32, b: i32, c: i32, p: Seq<Stmt>, code: Seq<u8>)
    requires
        Ok::<Seq<StmtModel>, crate::parser::ParseError>(stmts_models(p)) == spec_parse(
            seq![
                Token::Int(a),
                Token::Plus,
                Token::Int(b),
                Token::Star,
                Token::Int(c),
                Token::Eof,
            ],
        ),
        Ok::<Seq<u8>, crate::compiler::CompileError>(code) == spec_compile_program(p),
    ensures
        spec_interpret(code.push(0u8)) == Ok::<Value, VmError>(
            Value::Int(
                vstd::wrapping::i32_specs::wrapping_add(
                    a,
                    vstd::wrapping::i32_specs::wrapping_mul(b, c),
                ),
            ),
        ),
{
    let prod = Expr::Binary {
        op: Token::Star,
        left: Box::new(Expr::Int { val: b }),
        right: Box::new(Expr::Int { val: c }),
    };
    let whole = Expr::Binary {
        op: Token::Plus,
        left: Box::new(Expr::Int { val: a }),
        right: Box::new(prod),
    };
    lemma_precedence_parse(a, b, c);
    lemma_program_shape(p, whole);
    lemma_compile_single(p, whole, code);
    lemma_opcode_seqs();
    assert(spec_compile_expr(&Expr::Int { val: a }) == Ok::<
        Seq<u8>,
        crate::compiler::CompileError,
    >(int_const_code(a)));
    assert(spec_compile_expr(&Expr::Int { val: b }) == Ok::<
        Seq<u8>,
        crate::compiler::CompileError,
    >(int_const_code(b)));
    assert(spec_compile_expr(&Expr::Int { val: c }) == Ok::<
        Seq<u8>,
        crate::compiler::CompileError,
    >(int_const_code(c)));
    assert(spec_compile_expr(&prod) == Ok::<Seq<u8>, crate::compiler::CompileError>(
        int_const_code(b) + int_const_code(c) + seq![5u8],
    ));
    assert(code == int_const_code(a) + (int_const_code(b) + int_const_code(c) + seq![5u8]) + seq![
        3u8,
    ]);
    let full = code.push(0u8);
    assert(full.len() == 18);
    assert(full.subrange(0, 5) =~= int_const_code(a));
    assert(full.subrange(5, 10) =~= int_const_code(b));
    assert(full.subrange(10, 15) =~= int_const_code(c));
    assert(full[15] == 5u8 && full[16] == 3u8 && full[17] == 0u8);
    let e = Seq::<Value>::empty();
    lemma_run_int_const(full, 0, e, a);
    lemma_run_int_const(full, 5, e.push(Value::Int(a)), b);
    lemma_run_int_const(full, 10, e.push(Value::Int(a)).push(Value::Int(b)), c);
    assert(e.push(Value::Int(a)).push(Value::Int(b)).push(Value::Int(c)) =~= e.push(
        Value::Int(a),
    ).push(Value::Int(b)).push(Value::Int(c)));
    lemma_run_int_binop(full, 15, e.push(Value::Int(a)), b, c, OpCode::Multiply);
    let bc = vstd::wrapping::i32_specs::wrapping_mul(b, c);
    lemma_run_int_binop(full, 16, e, a, bc, OpCode::Add);
    let res = vstd::wrapping::i32_specs::wrapping_add(a, bc);
    lemma_run_return(full, 17, e.push(Value::Int(res)));
}

/// A parsed program whose single statement models an expression statement is
/// that statement, over the given expression.
proof fn lemma_program_shape(p: Seq<Stmt>, e: Expr)
    requires
        stmts_models(p) == seq![StmtModel::Expression { expr: e }],
    ensures
        p.len() == 1,
        p[0] == (Stmt::Expression { expr: e }),
{
    lemma_stmts_models_len(p);
    assert(stmts_models(p).len() == 1);
    assert(stmts_models(p)[0] == p[0].model());
    assert(p[0].model() == StmtModel::Expression { expr: e });
    match p[0] {
        Stmt::Expression { expr } => {
            assert(expr == e);
        },
        _ => {
            assert(false);
        },
    }
}

/// Compiling a one-statement program gives the statement's expression code.
proof fn lemma_compile_single(p: Seq<Stmt>, e: Expr, code: Seq<u8>)
    requires
        p.len() == 1,
        p[0] == (Stmt::Expression { expr: e }),
        Ok::<Seq<u8>, crate::compiler::CompileError>(code) == spec_compile_program(p),
    ensures
        Ok::<Seq<u8>, crate::compiler::CompileError>(code) == spec_compile_expr(&e),
{
    assert(p.drop_first() =~= Seq::<Stmt>::empty());
    assert(spec_compile_stmt(&p[0]) == spec_compile_expr(&e));
    assert(spec_compile_program(p.drop_first()) == Ok::<Seq<u8>, crate::compiler::CompileError>(
        Seq::empty(),
    ));
    match spec_compile_expr(&e) {
        Ok(ce) => {
            assert(code == ce + Seq::<u8>::empty());
            assert(ce + Seq::<u8>::empty() =~= ce);
        },
        Err(_) => {},
    }
}

/// The expression statement parsed from `a op1 b op2 c`, the operators both
/// of the sum level: the parse associates to the left.
pub proof fn lemma_associativity_parse(a: i32, b: i32, c: i32, op1: Token, op2: Token)
    requires
        op1 is Plus || op1 is Minus,
        op2 is Plus || op2 is Minus,
    ensures
        spec_parse(
            seq![Token::Int(a), op1, Token::Int(b), op2, Token::Int(c), Token::Eof],
        ) == Ok::<Seq<StmtModel>, crate::parser::ParseError>(
            seq![
                StmtModel::Expression {
                    expr: Expr::Binary {
                        op: op2,
                        left: Box::new(
                            Expr::Binary {
                                op: op1,
                                left: Box::new(Expr::Int { val: a }),
                                right: Box::new(Expr::Int { val: b }),
                            },
                        ),
                        right: Box::new(Expr::Int { val: c }),
                    },
                },
            ],
        ),
{
    let toks = seq![Token::Int(a), op1, Token::Int(b), op2, Token::Int(c), Token::Eof];
    assert(toks.len() == 6);
    let left2 = Expr::Binary {
        op: op1,
        left: Box::new(Expr::Int { val: a }),
        right: Box::new(Expr::Int { val: b }),
    };
    let whole = Expr::Binary { op: op2, left: Box::new(left2), right: Box::new(Expr::Int { val: c }) };
    assert(spec_prefix(toks, 0) == Ok::<(Expr, int), crate::parser::ParseError>(
        (Expr::Int { val: a }, 1),
    ));
    assert(spec_prefix(toks, 2) == Ok::<(Expr, int), crate::parser::ParseError>(
        (Expr::Int { val: b }, 3),
    ));
    assert(spec_prefix(toks, 4) == Ok::<(Expr, int), crate::parser::ParseError>(
        (Expr::Int { val: c }, 5),
    ));
    // The first operand of op1 parses at the sum level and stops before op2,
    // which does not bind tighter.
    assert(spec_infix_loop(toks, Expr::Int { val: b }, 3, 3) == Ok::<
        (Expr, int),
        crate::parser::ParseError,
    >((Expr::Int { val: b }, 3)));
    assert(spec_parse_prec(toks, 2, 3) == Ok::<(Expr, int), crate::parser::ParseError>(
        (Expr::Int { val: b }, 3),
    ));
    assert(spec_infix_loop(toks, Expr::Int { val: c }, 5, 3) == Ok::<
        (Expr, int),
        crate::parser::ParseError,
    >((Expr::Int { val: c }, 5)));
    assert(spec_parse_prec(toks, 4, 3) == Ok::<(Expr, int), crate::parser::ParseError>(
        (Expr::Int { val: c }, 5),
    ));
    assert(spec_infix_loop(toks, whole, 5, PREC_ASSIGNMENT) == Ok::<
        (Expr, int),
        crate::parser::ParseError,
    >((whole, 5)));
    assert(spec_infix_loop(toks, left2, 3, PREC_ASSIGNMENT) == Ok::<
        (Expr, int),
        crate::parser::ParseError,
    >((whole, 5)));
    assert(spec_infix_loop(toks, Expr::Int { val: a }, 1, PREC_ASSIGNMENT) == Ok::<
        (Expr, int),
        crate::parser::ParseError,
    >((whole, 5)));
    assert(spec_expr(toks, 0) == Ok::<(Expr, int), crate::parser::ParseError>((whole, 5)));
    assert(crate::parser::spec_expr_statement(toks, 0) == Ok::<
        (StmtModel, int),
        crate::parser::ParseError,
    >((StmtModel::Expression { expr: whole }, 5)));
    assert(crate::parser::spec_statement(toks, 0) == Ok::<
        (StmtModel, int),
        crate::parser::ParseError,
    >((StmtModel::Expression { expr: whole }, 5)));
    assert(crate::parser::spec_declaration(toks, 0) == Ok::<
        (Option<StmtModel>, int),
        crate::parser::ParseError,
    >((Some(StmtModel::Expression { expr: whole }), 5)));
    assert(crate::parser::spec_declaration(toks, 5) == Ok::<
        (Option<StmtModel>, int),
        crate::parser::ParseError,
    >((None, 6)));
    assert(crate::parser::spec_program(toks, 6) == Ok::<
        Seq<StmtModel>,
        crate::parser::ParseError,
    >(Seq::empty()));
    assert(crate::parser::spec_program(toks, 5) == Ok::<
        Seq<StmtModel>,
        crate::parser::ParseError,
    >(Seq::empty()));
    assert(spec_parse(toks) == Ok::<Seq<StmtModel>, crate::parser::ParseError>(
        seq![StmtModel::Expression { expr: whole }] + Seq::empty(),
    ));
    assert(seq![StmtModel::Expression { expr: whole }] + Seq::<StmtModel>::empty() =~= seq![
        StmtModel::Expression { expr: whole },
    ]);
}

/// Associativity, end to end: a program parsed from `a op1 b op2 c` over sum
/// operators, compiled and run with a return appended, evaluates left to
/// right.
pub proof fn lemma_associativity_pipeline(
    a: i32,
    b: i32,
    c: i32,
    op1: Token,
    op2: Token,
    p: Seq<Stmt>,
    code: Seq<u8>,
)
    requires
        op1 is Plus || op1 is Minus,
        op2 is Plus || op2 is Minus,
        Ok::<Seq<StmtModel>, crate::parser::ParseError>(stmts_models(p)) == spec_parse(
            seq![Token::Int(a), op1, Token::Int(b), op2, Token::Int(c), Token::Eof],
        ),
        Ok::<Seq<u8>, crate::compiler::CompileError>(code) == spec_compile_program(p),
    ensures
        spec_interpret(code.push(0u8)) == Ok::<Value, VmError>(
            Value::Int(sum_op(op2, sum_op(op1, a, b), c)),
        ),
{
    let left2 = Expr::Binary {
        op: op1,
        left: Box::new(Expr::Int { val: a }),
        right: Box::new(Expr::Int { val: b }),
    };
    let whole = Expr::Binary { op: op2, left: Box::new(left2), right: Box::new(Expr::Int { val: c }) };
    lemma_associativity_parse(a, b, c, op1, op2);
    lemma_program_shape(p, whole);
    lemma_compile_single(p, whole, code);
    lemma_opcode_seqs();
    assert(spec_compile_expr(&Expr::Int { val: a }) == Ok::<
        Seq<u8>,
        crate::compiler::CompileError,
    >(int_const_code(a)));
    assert(spec_compile_expr(&Expr::Int { val: b }) == Ok::<
        Seq<u8>,
        crate::compiler::CompileError,
    >(int_const_code(b)));
    assert(spec_compile_expr(&Expr::Int { val: c }) == Ok::<
        Seq<u8>,
        crate::compiler::CompileError,
    >(int_const_code(c)));
    let b1: u8 = if op1 is Plus {
        3
    } else {
        4
    };
    let b2: u8 = if op2 is Plus {
        3
    } else {
        4
    };
    assert(spec_compile_expr(&left2) == Ok::<Seq<u8>, crate::compiler::CompileError>(
        int_const_code(a) + int_const_code(b) + seq![b1],
    ));
    assert(code == (int_const_code(a) + int_const_code(b) + seq![b1]) + int_const_code(c) + seq![
        b2,
    ]);
    let full = code.push(0u8);
    assert(full.len() == 18);
    assert(full.subrange(0, 5) =~= int_const_code(a));
    assert(full.subrange(5, 10) =~= int_const_code(b));
    assert(full[10] == b1);
    assert(full.subrange(11, 16) =~= int_const_code(c));
    assert(full[16] == b2 && full[17] == 0u8);
    let e = Seq::<Value>::empty();
    lemma_run_int_const(full, 0, e, a);
    lemma_run_int_const(full, 5, e.push(Value::Int(a)), b);
    lemma_run_int_binop(full, 10, e, a, b, if op1 is Plus {
        OpCode::Add
    } else {
        OpCode::Subtract
    });
    let ab = sum_op(op1, a, b);
    lemma_run_int_const(full, 11, e.push(Value::Int(ab)), c);
    lemma_run_int_binop(full, 16, e, ab, c, if op2 is Plus {
        OpCode::Add
    } else {
        OpCode::Subtract
    });
    let res = sum_op(op2, ab, c);
    lemma_run_return(full, 17, e.push(Value::Int(res)));
}

/// A sum-level operator applied to two integers, wrapping.
pub open spec fn sum_op(op: Token, x: i32, y: i32) -> i32 {
    if op is Plus {
        vstd::wrapping::i32_specs::wrapping_add(x, y)
    } else {
        vstd::wrapping::i32_specs::wrapping_sub(x, y)
    }
}


/// The opcode bytes as one-element sequences, for assembling code by hand.
proof fn lemma_opcode_seqs()
    ensures
        seq![1u8] == seq![crate::opcodes::spec_opcode_to_u8(OpCode::Int)],
        seq![3u8] == seq![crate::opcodes::spec_opcode_to_u8(OpCode::Add)],
        seq![4u8] == seq![crate::opcodes::spec_opcode_to_u8(OpCode::Subtract)],
        seq![5u8] == seq![crate::opcodes::spec_opcode_to_u8(OpCode::Multiply)],
        seq![6u8] == seq![crate::opcodes::spec_opcode_to_u8(OpCode::Divide)],
{
    assert(seq![1u8] =~= seq![crate::opcodes::spec_opcode_to_u8(OpCode::Int)]);
    assert(seq![3u8] =~= seq![crate::opcodes::spec_opcode_to_u8(OpCode::Add)]);
    assert(seq![4u8] =~= seq![crate::opcodes::spec_opcode_to_u8(OpCode::Subtract)]);
    assert(seq![5u8] =~= seq![crate::opcodes::spec_opcode_to_u8(OpCode::Multiply)]);
    assert(seq![6u8] =~= seq![crate::opcodes::spec_opcode_to_u8(OpCode::Divide)]);
}


/// The expression statement parsed from `( a + b ) * c`: the parentheses
/// reset the precedence, so the sum becomes the product's left operand.
pub proof fn lemma_grouping_parse(a: i32, b: i32, c: i32)
    ensures
        spec_parse(
            seq![
                Token::LParen,
                Token::Int(a),
                Token::Plus,
                Token::Int(b),
                Token::RParen,
                Token::Star,
                Token::Int(c),
                Token::Eof,
            ],
        ) == Ok::<Seq<StmtModel>, crate::parser::ParseError>(
            seq![
                StmtModel::Expression {
                    expr: Expr::Binary {
                        op: Token::Star,
                        left: Box::new(
                            Expr::Grouping {
                                expr: Box::new(
                                    Expr::Binary {
                                        op: Token::Plus,
                                        left: Box::new(Expr::Int { val: a }),
                                        right: Box::new(Expr::Int { val: b }),
                                    },
                                ),
                            },
                        ),
                        right: Box::new(Expr::Int { val: c }),
                    },
                },
            ],
        ),
{
    let toks = seq![
        Token::LParen,
        Token::Int(a),
        Token::Plus,
        Token::Int(b),
        Token::RParen,
        Token::Star,
        Token::Int(c),
        Token::Eof,
    ];
    assert(toks.len() == 8);
    let sum = Expr::Binary {
        op: Token::Plus,
        left: Box::new(Expr::Int { val: a }),
        right: Box::new(Expr::Int { val: b }),
    };
    let grp = Expr::Grouping { expr: Box::new(sum) };
    let whole = Expr::Binary { op: Token::Star, left: Box::new(grp), right: Box::new(Expr::Int { val: c }) };
    assert(spec_prefix(toks, 1) == Ok::<(Expr, int), crate::parser::ParseError>(
        (Expr::Int { val: a }, 2),
    ));
    assert(spec_prefix(toks, 3) == Ok::<(Expr, int), crate::parser::ParseError>(
        (Expr::Int { val: b }, 4),
    ));
    assert(spec_prefix(toks, 6) == Ok::<(Expr, int), crate::parser::ParseError>(
        (Expr::Int { val: c }, 7),
    ));
    // Inside the parentheses: the sum parses at the lowest threshold and
    // stops at the closing parenthesis.
    assert(spec_infix_loop(toks, Expr::Int { val: b }, 4, 3) == Ok::<
        (Expr, int),
        crate::parser::ParseError,
    >((Expr::Int { val: b }, 4)));
    assert(spec_parse_prec(toks, 3, 3) == Ok::<(Expr, int), crate::parser::ParseError>(
        (Expr::Int { val: b }, 4),
    ));
    assert(spec_infix_loop(toks, sum, 4, PREC_ASSIGNMENT) == Ok::<
        (Expr, int),
        crate::parser::ParseError,
    >((sum, 4)));
    assert(spec_infix_loop(toks, Expr::Int { val: a }, 2, PREC_ASSIGNMENT) == Ok::<
        (Expr, int),
        crate::parser::ParseError,
    >((sum, 4)));
    assert(spec_parse_prec(toks, 1, PREC_ASSIGNMENT) == Ok::<
        (Expr, int),
        crate::parser::ParseError,
    >((sum, 4)));
    assert(spec_prefix(toks, 0) == Ok::<(Expr, int), crate::parser::ParseError>((grp, 5)));
    // The product: the grouping is one prefix operand of the star.
    assert(spec_infix_loop(toks, Expr::Int { val: c }, 7, 4) == Ok::<
        (Expr, int),
        crate::parser::ParseError,
    >((Expr::Int { val: c }, 7)));
    assert(spec_parse_prec(toks, 6, 4) == Ok::<(Expr, int), crate::parser::ParseError>(
        (Expr::Int { val: c }, 7),
    ));
    assert(spec_infix_loop(toks, whole, 7, PREC_ASSIGNMENT) == Ok::<
        (Expr, int),
        crate::parser::ParseError,
    >((whole, 7)));
    assert(spec_infix_loop(toks, grp, 5, PREC_ASSIGNMENT) == Ok::<
        (Expr, int),
        crate::parser::ParseError,
    >((whole, 7)));
    assert(spec_expr(toks, 0) == Ok::<(Expr, int), crate::parser::ParseError>((whole, 7)));
    assert(crate::parser::spec_statement(toks, 0) == Ok::<
        (StmtModel, int),
        crate::parser::ParseError,
    >((StmtModel::Expression { expr: whole }, 7)));
    assert(crate::parser::spec_declaration(toks, 0) == Ok::<
        (Option<StmtModel>, int),
        crate::parser::ParseError,
    >((Some(StmtModel::Expression { expr: whole }), 7)));
    assert(crate::parser::spec_declaration(toks, 7) == Ok::<
        (Option<StmtModel>, int),
        crate::parser::ParseError,
    >((None, 8)));
    assert(crate::parser::spec_program(toks, 8) == Ok::<
        Seq<StmtModel>,
        crate::parser::ParseError,
    >(Seq::empty()));
    assert(crate::parser::spec_program(toks, 7) == Ok::<
        Seq<StmtModel>,
        crate::parser::ParseError,
    >(Seq::empty()));
    assert(spec_parse(toks) == Ok::<Seq<StmtModel>, crate::parser::ParseError>(
        seq![StmtModel::Expression { expr: whole }] + Seq::empty(),
    ));
    assert(seq![StmtModel::Expression { expr: whole }] + Seq::<StmtModel>::empty() =~= seq![
        StmtModel::Expression { expr: whole },
    ]);
}

/// Grouping, end to end: a program parsed from `( a + b ) * c`, compiled and
/// run with a return appended, multiplies the parenthesized sum.
pub proof fn lemma_grouping_pipeline(a: i32, b: i32, c: i32, p: Seq<Stmt>, code: Seq<u8>)
    requires
        Ok::<Seq<StmtModel>, crate::parser::ParseError>(stmts_models(p)) == spec_parse(
            seq![
                Token::LParen,
                Token::Int(a),
                Token::Plus,
                Token::Int(b),
                Token::RParen,
                Token::Star,
                Token::Int(c),
                Token::Eof,
            ],
        ),
        Ok::<Seq<u8>, crate::compiler::CompileError>(code) == spec_compile_program(p),
    ensures
        spec_interpret(code.push(0u8)) == Ok::<Value, VmError>(
            Value::Int(
                vstd::wrapping::i32_specs::wrapping_mul(
                    vstd::wrapping::i32_specs::wrapping_add(a, b),
                    c,
                ),
            ),
        ),
{
    let sum = Expr::Binary {
        op: Token::Plus,
        left: Box::new(Expr::Int { val: a }),
        right: Box::new(Expr::Int { val: b }),
    };
    let grp = Expr::Grouping { expr: Box::new(sum) };
    let whole = Expr::Binary { op: Token::Star, left: Box::new(grp), right: Box::new(Expr::Int { val: c }) };
    lemma_grouping_parse(a, b, c);
    lemma_program_shape(p, whole);
    lemma_compile_single(p, whole, code);
    lemma_opcode_seqs();
    assert(spec_compile_expr(&Expr::Int { val: a }) == Ok::<
        Seq<u8>,
        crate::compiler::CompileError,
    >(int_const_code(a)));
    assert(spec_compile_expr(&Expr::Int { val: b }) == Ok::<
        Seq<u8>,
        crate::compiler::CompileError,
    >(int_const_code(b)));
    assert(spec_compile_expr(&Expr::Int { val: c }) == Ok::<
        Seq<u8>,
        crate::compiler::CompileError,
    >(int_const_code(c)));
    assert(spec_compile_expr(&sum) == Ok::<Seq<u8>, crate::compiler::CompileError>(
        int_const_code(a) + int_const_code(b) + seq![3u8],
    ));
    assert(spec_compile_expr(&grp) == spec_compile_expr(&sum));
    assert(code == (int_const_code(a) + int_const_code(b) + seq![3u8]) + int_const_code(c) + seq![
        5u8,
    ]);
    let full = code.push(0u8);
    assert(full.len() == 18);
    assert(full.subrange(0, 5) =~= int_const_code(a));
    assert(full.subrange(5, 10) =~= int_const_code(b));
    assert(full[10] == 3u8);
    assert(full.subrange(11, 16) =~= int_const_code(c));
    assert(full[16] == 5u8 && full[17] == 0u8);
    let e = Seq::<Value>::empty();
    lemma_run_int_const(full, 0, e, a);
    lemma_run_int_const(full, 5, e.push(Value::Int(a)), b);
    lemma_run_int_binop(full, 10, e, a, b, OpCode::Add);
    let ab = vstd::wrapping::i32_specs::wrapping_add(a, b);
    lemma_run_int_const(full, 11, e.push(Value::Int(ab)), c);
    lemma_run_int_binop(full, 16, e, ab, c, OpCode::Multiply);
    let res = vstd::wrapping::i32_specs::wrapping_mul(ab, c);
    lemma_run_return(full, 17, e.push(Value::Int(res)));
}

/// Mixed-type promotion: an arithmetic instruction over an integer and a
/// float promotes the integer to a float pattern denoting exactly the
/// integer, and yields the float arithmetic's result — so the sum of an
/// integer and a float is the rounding of the exact mathematical sum.
pub proof fn lemma_mixed_promotion(i: i32, fb: u64, op: OpCode)
    requires
        op is Add || op is Subtract || op is Multiply,
    ensures
        crate::float::f_is_finite(crate::float::spec_from_i32(i as int)),
        i != 0 ==> crate::float::f_scaled_value(crate::float::spec_from_i32(i as int)) == i
            * vstd::arithmetic::power2::pow2(1075),
        i == 0 ==> crate::float::spec_from_i32(i as int) == 0,
        spec_binop(op, Value::Int(i), Value::Float(fb)) == Ok::<Value, VmError>(
            Value::Float(
                match op {
                    OpCode::Add => crate::float::spec_add_bits(
                        crate::float::spec_from_i32(i as int),
                        fb,
                    ),
                    OpCode::Subtract => crate::float::spec_sub_bits(
                        crate::float::spec_from_i32(i as int),
                        fb,
                    ),
                    _ => crate::float::spec_mul_bits(crate::float::spec_from_i32(i as int), fb),
                },
            ),
        ),
        spec_binop(op, Value::Float(fb), Value::Int(i)) == Ok::<Value, VmError>(
            Value::Float(
                match op {
                    OpCode::Add => crate::float::spec_add_bits(
                        fb,
                        crate::float::spec_from_i32(i as int),
                    ),
                    OpCode::Subtract => crate::float::spec_sub_bits(
                        fb,
                        crate::float::spec_from_i32(i as int),
                    ),
                    _ => crate::float::spec_mul_bits(fb, crate::float::spec_from_i32(i as int)),
                },
            ),
        ),
{
    crate::float::lemma_from_i32_exact(i as int);
}

/// The round trip of an integer literal: the bytes the compiler emits for it
/// decode back to exactly the literal.
pub proof fn lemma_int_literal_round_trip(n: i32)
    ensures
        spec_compile_expr(&Expr::Int { val: n }) matches Ok(code) && code.len() == 5 && code[0]
            == 1u8 && spec_u32_from_be_bytes(code[1], code[2], code[3], code[4]) as i32 == n,
{
    lemma_u32_be_round_trip(n as u32);
    lemma_i32_bits_round_trip(n);
}

/// The round trip of a float literal: the bytes the compiler emits for its
/// pattern decode back to exactly the pattern.
pub proof fn lemma_float_literal_round_trip(bits: u64)
    ensures
        spec_compile_expr(&Expr::Float { bits }) matches Ok(code) && code.len() == 9 && code[0]
            == 7u8 && crate::encoding::spec_u64_from_be_bytes(
            code[1],
            code[2],
            code[3],
            code[4],
            code[5],
            code[6],
            code[7],
            code[8],
        ) == bits,
{
    crate::encoding::lemma_u64_be_round_trip(bits);
}

/// Dividing by the integer zero is a runtime error, for every dividend: the
/// machine never returns a value for it.
pub proof fn lemma_divide_by_zero(a: i32)
    ensures
        spec_interpret(int_const_code(a) + int_const_code(0) + seq![6u8, 0u8]) == Err::<
            Value,
            VmError,
        >(VmError::DivisionByZero),
{
    let full = int_const_code(a) + int_const_code(0) + seq![6u8, 0u8];
    assert(full.len() == 12);
    assert(full.subrange(0, 5) =~= int_const_code(a));
    assert(full.subrange(5, 10) =~= int_const_code(0));
    assert(full[10] == 6u8);
    let e = Seq::<Value>::empty();
    lemma_run_int_const(full, 0, e, a);
    lemma_run_int_const(full, 5, e.push(Value::Int(a)), 0);
    let s2 = e.push(Value::Int(a)).push(Value::Int(0));
    assert(s2.last() == Value::Int(0));
}

/// Popping from an empty stack is an underflow: a lone arithmetic or return
/// instruction fails.
pub proof fn lemma_stack_underflow(b: u8)
    requires
        b == 0 || b == 3 || b == 4 || b == 5 || b == 6,
    ensures
        spec_interpret(seq![b]) == Err::<Value, VmError>(VmError::StackUnderflow),
{
    assert(seq![b].len() == 1);
}

/// Pushing past the stack's capacity is an overflow: a constant instruction
/// over a full stack fails.
pub proof fn lemma_stack_overflow(code: Seq<u8>, ip: int, stack: Seq<Value>)
    requires
        0 <= ip,
        ip + 5 <= code.len(),
        code[ip] == 1u8,
        stack.len() >= 255,
    ensures
        spec_run(code, ip, stack) == Err::<Value, VmError>(VmError::StackOverflow),
{
}

/// Running the machine has no hidden state: the outcome is a function of the
/// bytecode buffer alone, so re-running a buffer on a fresh machine always
/// yields the same result. `VM::interpret` ensures its result equals
/// `spec_interpret` of its buffer, which this equality carries to two runs.
pub proof fn lemma_interpret_repeatable(c1: Seq<u8>, c2: Seq<u8>)
    requires
        c1 == c2,
    ensures
        spec_interpret(c1) == spec_interpret(c2),
{
}


/// Division by zero is a runtime error wherever it arises: with a divide
/// instruction under the pointer and a zero divisor — the integer zero or a
/// float zero of either sign — atop two or more stacked values, the machine
/// stops with the error, whatever the dividend and the rest of the program.
pub proof fn lemma_divide_by_zero_general(code: Seq<u8>, ip: int, stack: Seq<Value>)
    requires
        0 <= ip < code.len(),
        code[ip] == 6u8,
        stack.len() >= 2,
        crate::vm::spec_is_zero_value(stack.last()),
    ensures
        spec_run(code, ip, stack) == Err::<Value, VmError>(VmError::DivisionByZero),
{
}

} // verus!
