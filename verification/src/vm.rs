//! The virtual machine: a stack interpreter over the bytecode buffer. One
//! fetch-decode-execute loop reads an opcode byte, then its fixed-width
//! operand if it has one, and works on a bounded operand stack of tagged
//! values. Integer arithmetic wraps on overflow; an operation that meets a
//! float promotes both operands to floats. Its behaviour is pinned by a
//! recursive specification, one step per instruction.
use vstd::prelude::*;
use crate::value::Value;
use crate::opcodes::{OpCode, opcode_from_u8, spec_opcode_from_u8};
use crate::encoding::{spec_u32_from_be_bytes, spec_u64_from_be_bytes, u32_from_be_bytes,
    u64_from_be_bytes};
use crate::float::{spec_from_i32, from_i32_bits, f_is_zero, spec_negate_bits, negate_bits,
    spec_add_bits, add_bits, spec_sub_bits, sub_bits, spec_mul_bits, mul_bits, spec_div_bits,
    div_bits};

verus! {

/// The operand stack's fixed capacity.
pub const STACK_LIMIT: usize = 255;

/// A runtime failure of the machine.
#[derive(Debug, Clone, Copy, PartialEq, Eq, Structural)]
pub enum VmError {
    /// A byte outside the opcode table stood where an opcode was fetched.
    InvalidOpcode { byte: u8, offset: usize },
    /// An instruction needed more operands than the stack held.
    StackUnderflow,
    /// A push would have passed the stack's capacity.
    StackOverflow,
    /// A division met a zero divisor.
    DivisionByZero,
    /// Execution ran past the end of the buffer without a return
    /// instruction, or an operand was cut short by it.
    MissingReturn,
}

/// Truncated signed 32-bit division, wrapping on the one overflowing case.
pub open spec fn spec_i32_div(a: int, b: int) -> int
    recommends
        b != 0,
{
    if a == -0x8000_0000 && b == -1 {
        -0x8000_0000
    } else {
        let q = (if a < 0 {
            -a
        } else {
            a
        }) / (if b < 0 {
            -b
        } else {
            b
        });
        if (a < 0) != (b < 0) {
            -q
        } else {
            q
        }
    }
}

/// A value is a zero: the integer zero, or a float pattern of either zero.
pub open spec fn spec_is_zero_value(v: Value) -> bool {
    match v {
        Value::Int(i) => i == 0,
        Value::Float(b) => f_is_zero(b),
    }
}

/// A value promoted to a float pattern: an integer converts exactly, a float
/// stays itself.
pub open spec fn spec_promote(v: Value) -> u64 {
    match v {
        Value::Int(i) => spec_from_i32(i as int),
        Value::Float(b) => b,
    }
}

/// One arithmetic instruction on two popped values, left then right:
/// integers stay integers and wrap on overflow; any float promotes both
/// sides to float; a zero divisor is a runtime error.
pub open spec fn spec_binop(op: OpCode, a: Value, b: Value) -> Result<Value, VmError> {
    if op is Divide && spec_is_zero_value(b) {
        Err(VmError::DivisionByZero)
    } else {
        match (a, b) {
            (Value::Int(x), Value::Int(y)) => Ok(
                Value::Int(
                    match op {
                        OpCode::Add => vstd::wrapping::i32_specs::wrapping_add(x, y),
                        OpCode::Subtract => vstd::wrapping::i32_specs::wrapping_sub(x, y),
                        OpCode::Multiply => vstd::wrapping::i32_specs::wrapping_mul(x, y),
                        _ => spec_i32_div(x as int, y as int) as i32,
                    },
                ),
            ),
            _ => {
                let xf = spec_promote(a);
                let yf = spec_promote(b);
                Ok(
                    Value::Float(
                        match op {
                            OpCode::Add => spec_add_bits(xf, yf),
                            OpCode::Subtract => spec_sub_bits(xf, yf),
                            OpCode::Multiply => spec_mul_bits(xf, yf),
                            _ => spec_div_bits(xf, yf),
                        },
                    ),
                )
            },
        }
    }
}

/// A negated value: the tag is kept.
pub open spec fn spec_negate_value(v: Value) -> Value {
    match v {
        Value::Int(i) => Value::Int(vstd::wrapping::i32_specs::wrapping_sub(0, i)),
        Value::Float(b) => Value::Float(spec_negate_bits(b)),
    }
}

/// The outcome of running the bytecode from `ip` with the given stack: the
/// value on top at a return instruction, or the first runtime error. Every
/// instruction moves the pointer forward, so execution in the buffer ends.
pub open spec fn spec_run(code: Seq<u8>, ip: int, stack: Seq<Value>) -> Result<Value, VmError>
    decreases code.len() - ip,
        when 0 <= ip <= code.len()
{
    if ip >= code.len() {
        Err(VmError::MissingReturn)
    } else {
        let b = code[ip];
        match spec_opcode_from_u8(b) {
            None => Err(VmError::InvalidOpcode { byte: b, offset: ip as usize }),
            Some(op) => match op {
                OpCode::Return => {
                    if stack.len() >= 1 {
                        Ok(stack.last())
                    } else {
                        Err(VmError::StackUnderflow)
                    }
                },
                OpCode::Int => {
                    if ip + 5 <= code.len() {
                        if stack.len() >= STACK_LIMIT {
                            Err(VmError::StackOverflow)
                        } else {
                            let v = spec_u32_from_be_bytes(
                                code[ip + 1],
                                code[ip + 2],
                                code[ip + 3],
                                code[ip + 4],
                            ) as i32;
                            spec_run(code, ip + 5, stack.push(Value::Int(v)))
                        }
                    } else {
                        Err(VmError::MissingReturn)
                    }
                },
                OpCode::Float => {
                    if ip + 9 <= code.len() {
                        if stack.len() >= STACK_LIMIT {
                            Err(VmError::StackOverflow)
                        } else {
                            let v = spec_u64_from_be_bytes(
                                code[ip + 1],
                                code[ip + 2],
                                code[ip + 3],
                                code[ip + 4],
                                code[ip + 5],
                                code[ip + 6],
                                code[ip + 7],
                                code[ip + 8],
                            );
                            spec_run(code, ip + 9, stack.push(Value::Float(v)))
                        }
                    } else {
                        Err(VmError::MissingReturn)
                    }
                },
                OpCode::Negate => {
                    if stack.len() >= 1 {
                        spec_run(
                            code,
                            ip + 1,
                            stack.drop_last().push(spec_negate_value(stack.last())),
                        )
                    } else {
                        Err(VmError::StackUnderflow)
                    }
                },
                _ => {
                    if stack.len() >= 2 {
                        let a = stack[stack.len() - 2];
                        let bb = stack.last();
                        match spec_binop(op, a, bb) {
                            Ok(v) => spec_run(
                                code,
                                ip + 1,
                                stack.drop_last().drop_last().push(v),
                            ),
                            Err(e) => Err(e),
                        }
                    } else {
                        Err(VmError::StackUnderflow)
                    }
                },
            },
        }
    }
}

/// What one whole run of a bytecode buffer gives, from a fresh machine.
pub open spec fn spec_interpret(code: Seq<u8>) -> Result<Value, VmError> {
    spec_run(code, 0, Seq::empty())
}

pub struct VM {
    pub ip: usize,
    pub stack: Vec<Value>,
    pub memory: Vec<u8>,
}

impl VM {
    pub fn new() -> (r: VM)
        ensures
            r.ip == 0,
            r.stack@ == Seq::<Value>::empty(),
            r.memory@ == Seq::<u8>::empty(),
    {
        VM { ip: 0, stack: Vec::new(), memory: Vec::new() }
    }

    /// Pushes a value; the stack refuses to grow past its capacity.
    pub fn push(&mut self, constant: Value) -> (r: Result<(), VmError>)
        ensures
            final(self).ip == old(self).ip,
            final(self).memory@ == old(self).memory@,
            match r {
                Ok(()) => old(self).stack@.len() < STACK_LIMIT
                    && final(self).stack@ == old(self).stack@.push(constant),
                Err(e) => old(self).stack@.len() >= STACK_LIMIT && e == VmError::StackOverflow
                    && final(self).stack@ == old(self).stack@,
            },
    {
        if self.stack.len() >= STACK_LIMIT {
            return Err(VmError::StackOverflow);
        }
        self.stack.push(constant);
        Ok(())
    }

    /// Pops the top value; an empty stack is an underflow.
    pub fn pop(&mut self) -> (r: Result<Value, VmError>)
        ensures
            final(self).ip == old(self).ip,
            final(self).memory@ == old(self).memory@,
            match r {
                Ok(v) => old(self).stack@.len() >= 1 && v == old(self).stack@.last()
                    && final(self).stack@ == old(self).stack@.drop_last(),
                Err(e) => old(self).stack@.len() == 0 && e == VmError::StackUnderflow
                    && final(self).stack@ == old(self).stack@,
            },
    {
        if self.stack.len() == 0 {
            return Err(VmError::StackUnderflow);
        }
        match self.stack.pop() {
            Some(v) => Ok(v),
            None => Err(VmError::StackUnderflow),
        }
    }

    /// The value on top of the stack, when there is one.
    pub fn peek(&self) -> (r: Option<Value>)
        ensures
            match r {
                Some(v) => self.stack@.len() >= 1 && v == self.stack@.last(),
                None => self.stack@.len() == 0,
            },
    {
        if self.stack.len() == 0 {
            None
        } else {
            Some(self.stack[self.stack.len() - 1])
        }
    }
}


impl VM {
    /// Runs a bytecode buffer to completion on a fresh machine: the program
    /// is copied into the machine's memory and stepped until a return
    /// instruction yields the top of the stack, or a runtime error stops it.
    pub fn interpret(&mut self, bytes: &[u8]) -> (r: Result<Value, VmError>)
        requires
            old(self).ip == 0,
            old(self).stack@.len() == 0,
            old(self).memory@.len() == 0,
        ensures
            (match r {
                Ok(v) => Ok(v),
                Err(e) => Err(e),
            }) == spec_interpret(bytes@),
    {
        let ghost code = bytes@;
        let mut i: usize = 0;
        while i < bytes.len()
            invariant
                0 <= i <= code.len(),
                bytes@ == code,
                self.memory@ == code.subrange(0, i as int),
                self.ip == 0,
                self.stack@.len() == 0,
            decreases code.len() - i,
        {
            self.memory.push(bytes[i]);
            proof {
                assert(self.memory@ =~= code.subrange(0, i + 1));
            }
            i = i + 1;
        }
        proof {
            assert(self.memory@ =~= code);
            assert(self.stack@ =~= Seq::<Value>::empty());
        }
        while self.ip < self.memory.len()
            invariant
                bytes@ == code,
                self.memory@ == code,
                0 <= self.ip <= code.len(),
                self.stack@.len() <= STACK_LIMIT,
                spec_interpret(code) == spec_run(code, self.ip as int, self.stack@),
            decreases code.len() - self.ip,
        {
            let ghost ip0 = self.ip as int;
            let ghost stk0 = self.stack@;
            let b = self.memory[self.ip];
            let op = match opcode_from_u8(b) {
                Some(op) => op,
                None => {
                    proof {
                        assert(spec_run(code, ip0, stk0) == Err::<Value, VmError>(
                            VmError::InvalidOpcode { byte: b, offset: ip0 as usize },
                        ));
                    }
                    return Err(VmError::InvalidOpcode { byte: b, offset: self.ip });
                },
            };
            self.ip = self.ip + 1;
            match op {
                OpCode::Return => {
                    proof {
                        assert(spec_run(code, ip0, stk0) == (if stk0.len() >= 1 {
                            Ok::<Value, VmError>(stk0.last())
                        } else {
                            Err::<Value, VmError>(VmError::StackUnderflow)
                        }));
                    }
                    return match self.peek() {
                        Some(v) => Ok(v),
                        None => Err(VmError::StackUnderflow),
                    };
                },
                OpCode::Int => {
                    match self.add_int() {
                        Ok(()) => {},
                        Err(e) => {
                            return Err(e);
                        },
                    }
                },
                OpCode::Float => {
                    match self.add_float() {
                        Ok(()) => {},
                        Err(e) => {
                            return Err(e);
                        },
                    }
                },
                OpCode::Negate => {
                    match self.negate() {
                        Ok(()) => {},
                        Err(e) => {
                            return Err(e);
                        },
                    }
                },
                OpCode::Add => {
                    match self.add() {
                        Ok(()) => {},
                        Err(e) => {
                            return Err(e);
                        },
                    }
                },
                OpCode::Subtract => {
                    match self.subtract() {
                        Ok(()) => {},
                        Err(e) => {
                            return Err(e);
                        },
                    }
                },
                OpCode::Multiply => {
                    match self.multiply() {
                        Ok(()) => {},
                        Err(e) => {
                            return Err(e);
                        },
                    }
                },
                OpCode::Divide => {
                    match self.divide() {
                        Ok(()) => {},
                        Err(e) => {
                            return Err(e);
                        },
                    }
                },
            }
        }
        Err(VmError::MissingReturn)
    }

    /// Reads the four operand bytes after an integer opcode, decodes them
    /// big-endian, and pushes the tagged integer.
    fn add_int(&mut self) -> (r: Result<(), VmError>)
        requires
            1 <= old(self).ip <= old(self).memory@.len(),
        ensures
            final(self).memory@ == old(self).memory@,
            match r {
                Ok(()) => {
                    &&& old(self).ip + 4 <= old(self).memory@.len()
                    &&& old(self).stack@.len() < STACK_LIMIT
                    &&& final(self).ip == old(self).ip + 4
                    &&& final(self).stack@ == old(self).stack@.push(
                        Value::Int(
                            spec_u32_from_be_bytes(
                                old(self).memory@[old(self).ip as int],
                                old(self).memory@[old(self).ip + 1],
                                old(self).memory@[old(self).ip + 2],
                                old(self).memory@[old(self).ip + 3],
                            ) as i32,
                        ),
                    )
                },
                Err(e) => {
                    &&& final(self).stack@ == old(self).stack@
                    &&& (if old(self).ip + 4 <= old(self).memory@.len() {
                        e == VmError::StackOverflow && old(self).stack@.len() >= STACK_LIMIT
                    } else {
                        e == VmError::MissingReturn
                    })
                },
            },
    {
        if self.memory.len() - self.ip < 4 {
            return Err(VmError::MissingReturn);
        }
        let b1 = self.memory[self.ip];
        let b2 = self.memory[self.ip + 1];
        let b3 = self.memory[self.ip + 2];
        let b4 = self.memory[self.ip + 3];
        let num = #[verifier::truncate] (u32_from_be_bytes(b1, b2, b3, b4) as i32);
        match self.push(Value::Int(num)) {
            Ok(()) => {
                self.ip = self.ip + 4;
                Ok(())
            },
            Err(e) => Err(e),
        }
    }

    /// Reads the eight operand bytes after a float opcode, decodes them
    /// big-endian, and pushes the tagged float pattern.
    fn add_float(&mut self) -> (r: Result<(), VmError>)
        requires
            1 <= old(self).ip <= old(self).memory@.len(),
        ensures
            final(self).memory@ == old(self).memory@,
            match r {
                Ok(()) => {
                    &&& old(self).ip + 8 <= old(self).memory@.len()
                    &&& old(self).stack@.len() < STACK_LIMIT
                    &&& final(self).ip == old(self).ip + 8
                    &&& final(self).stack@ == old(self).stack@.push(
                        Value::Float(
                            spec_u64_from_be_bytes(
                                old(self).memory@[old(self).ip as int],
                                old(self).memory@[old(self).ip + 1],
                                old(self).memory@[old(self).ip + 2],
                                old(self).memory@[old(self).ip + 3],
                                old(self).memory@[old(self).ip + 4],
                                old(self).memory@[old(self).ip + 5],
                                old(self).memory@[old(self).ip + 6],
                                old(self).memory@[old(self).ip + 7],
                            ),
                        ),
                    )
                },
                Err(e) => {
                    &&& final(self).stack@ == old(self).stack@
                    &&& (if old(self).ip + 8 <= old(self).memory@.len() {
                        e == VmError::StackOverflow && old(self).stack@.len() >= STACK_LIMIT
                    } else {
                        e == VmError::MissingReturn
                    })
                },
            },
    {
        if self.memory.len() - self.ip < 8 {
            return Err(VmError::MissingReturn);
        }
        let b1 = self.memory[self.ip];
        let b2 = self.memory[self.ip + 1];
        let b3 = self.memory[self.ip + 2];
        let b4 = self.memory[self.ip + 3];
        let b5 = self.memory[self.ip + 4];
        let b6 = self.memory[self.ip + 5];
        let b7 = self.memory[self.ip + 6];
        let b8 = self.memory[self.ip + 7];
        let num = u64_from_be_bytes(b1, b2, b3, b4, b5, b6, b7, b8);
        match self.push(Value::Float(num)) {
            Ok(()) => {
                self.ip = self.ip + 8;
                Ok(())
            },
            Err(e) => Err(e),
        }
    }

    /// Pops one value and pushes it negated, the tag kept.
    fn negate(&mut self) -> (r: Result<(), VmError>)
        requires
            old(self).stack@.len() <= STACK_LIMIT,
        ensures
            final(self).memory@ == old(self).memory@,
            final(self).ip == old(self).ip,
            match r {
                Ok(()) => old(self).stack@.len() >= 1 && final(self).stack@ == old(
                    self,
                ).stack@.drop_last().push(spec_negate_value(old(self).stack@.last())),
                Err(e) => old(self).stack@.len() == 0 && e == VmError::StackUnderflow,
            },
    {
        let val = match self.pop() {
            Ok(v) => v,
            Err(e) => {
                return Err(e);
            },
        };
        let neg = match val {
            Value::Int(i) => Value::Int(0i32.wrapping_sub(i)),
            Value::Float(b) => Value::Float(negate_bits(b)),
        };
        match self.push(neg) {
            Ok(()) => Ok(()),
            Err(e) => Err(e),
        }
    }

    /// Pops the right operand, then the left, and pushes their combination
    /// under `op`, with mixed operands promoted to float.
    fn binary_op(&mut self, op: OpCode) -> (r: Result<(), VmError>)
        requires
            old(self).stack@.len() <= STACK_LIMIT,
            op is Add || op is Subtract || op is Multiply || op is Divide,
        ensures
            final(self).memory@ == old(self).memory@,
            final(self).ip == old(self).ip,
            match r {
                Ok(()) => {
                    &&& old(self).stack@.len() >= 2
                    &&& spec_binop(
                        op,
                        old(self).stack@[old(self).stack@.len() - 2],
                        old(self).stack@.last(),
                    ) matches Ok(v)
                    &&& final(self).stack@ == old(self).stack@.drop_last().drop_last().push(v)
                },
                Err(e) => {
                    if old(self).stack@.len() >= 2 {
                        spec_binop(
                            op,
                            old(self).stack@[old(self).stack@.len() - 2],
                            old(self).stack@.last(),
                        ) == Err::<Value, VmError>(e)
                    } else {
                        e == VmError::StackUnderflow
                    }
                },
            },
    {
        if self.stack.len() < 2 {
            return Err(VmError::StackUnderflow);
        }
        let b = match self.pop() {
            Ok(v) => v,
            Err(e) => {
                return Err(e);
            },
        };
        let a = match self.pop() {
            Ok(v) => v,
            Err(e) => {
                return Err(e);
            },
        };
        let b_is_zero = match b {
            Value::Int(y) => y == 0,
            Value::Float(fb) => {
                crate::float::f_bexp_exec(fb) == 0 && crate::float::f_frac_exec(fb) == 0
            },
        };
        if matches!(op, OpCode::Divide) && b_is_zero {
            return Err(VmError::DivisionByZero);
        }
        let v = match (a, b) {
            (Value::Int(x), Value::Int(y)) => Value::Int(
                match op {
                    OpCode::Add => x.wrapping_add(y),
                    OpCode::Subtract => x.wrapping_sub(y),
                    OpCode::Multiply => x.wrapping_mul(y),
                    _ => i32_div_trunc(x, y),
                },
            ),
            _ => {
                let xf = match a {
                    Value::Int(x) => from_i32_bits(x),
                    Value::Float(fb) => fb,
                };
                let yf = match b {
                    Value::Int(y) => from_i32_bits(y),
                    Value::Float(fb) => fb,
                };
                Value::Float(
                    match op {
                        OpCode::Add => add_bits(xf, yf),
                        OpCode::Subtract => sub_bits(xf, yf),
                        OpCode::Multiply => mul_bits(xf, yf),
                        _ => div_bits(xf, yf),
                    },
                )
            },
        };
        match self.push(v) {
            Ok(()) => Ok(()),
            Err(e) => Err(e),
        }
    }

    /// Pops two values and pushes their sum.
    fn add(&mut self) -> (r: Result<(), VmError>)
        requires
            old(self).stack@.len() <= STACK_LIMIT,
        ensures
            binop_post(*old(self), *final(self), OpCode::Add, r),
    {
        self.binary_op(OpCode::Add)
    }

    /// Pops two values and pushes their difference, left minus right.
    fn subtract(&mut self) -> (r: Result<(), VmError>)
        requires
            old(self).stack@.len() <= STACK_LIMIT,
        ensures
            binop_post(*old(self), *final(self), OpCode::Subtract, r),
    {
        self.binary_op(OpCode::Subtract)
    }

    /// Pops two values and pushes their product.
    fn multiply(&mut self) -> (r: Result<(), VmError>)
        requires
            old(self).stack@.len() <= STACK_LIMIT,
        ensures
            binop_post(*old(self), *final(self), OpCode::Multiply, r),
    {
        self.binary_op(OpCode::Multiply)
    }

    /// Pops two values and pushes their quotient, left over right; a zero
    /// divisor is a runtime error.
    fn divide(&mut self) -> (r: Result<(), VmError>)
        requires
            old(self).stack@.len() <= STACK_LIMIT,
        ensures
            binop_post(*old(self), *final(self), OpCode::Divide, r),
    {
        self.binary_op(OpCode::Divide)
    }
}

/// What one arithmetic instruction guarantees of the machine state.
pub open spec fn binop_post(pre: VM, post: VM, op: OpCode, r: Result<(), VmError>) -> bool {
    &&& post.memory@ == pre.memory@
    &&& post.ip == pre.ip
    &&& match r {
        Ok(()) => {
            &&& pre.stack@.len() >= 2
            &&& spec_binop(op, pre.stack@[pre.stack@.len() - 2], pre.stack@.last()) matches Ok(v)
            &&& post.stack@ == pre.stack@.drop_last().drop_last().push(v)
        },
        Err(e) => {
            if pre.stack@.len() >= 2 {
                spec_binop(op, pre.stack@[pre.stack@.len() - 2], pre.stack@.last()) == Err::<
                    Value,
                    VmError,
                >(e)
            } else {
                e == VmError::StackUnderflow
            }
        },
    }
}

/// Truncated 32-bit signed division; the one overflowing quotient wraps.
pub fn i32_div_trunc(a: i32, b: i32) -> (r: i32)
    requires
        b != 0,
    ensures
        r == spec_i32_div(a as int, b as int),
{
    if a == -0x8000_0000i32 && b == -1 {
        return a;
    }
    let ua: u32 = if a < 0 {
        (-(a as i64)) as u32
    } else {
        a as u32
    };
    let ub: u32 = if b < 0 {
        (-(b as i64)) as u32
    } else {
        b as u32
    };
    let q = ua / ub;
    proof {
        assert(ua / ub <= ua) by (nonlinear_arith)
            requires
                ub >= 1,
        ;
        if !((a < 0) != (b < 0)) {
            // Same signs and not the wrapping case: the quotient is at most
            // the larger magnitude, and the magnitude 2^31 only arises from
            // the smallest integer, whose divisor then has the other sign.
            if q >= 0x8000_0000u32 {
                assert(ua == 0x8000_0000u32);
                assert(a as int == -0x8000_0000);
                if ub >= 2 {
                    assert(ua / ub < ua) by (nonlinear_arith)
                        requires
                            ua >= 1,
                            ub >= 2,
                    ;
                }
                assert(ub == 1);
                assert(b == 1 || b == -1);
                assert(false);
            }
        }
    }
    if (a < 0) != (b < 0) {
        (-(q as i64)) as i32
    } else {
        q as i32
    }
}

} // verus!
