//! The tagged scalar produced by the virtual machine: a 32-bit signed integer
//! or a 64-bit float. A float is carried as its IEEE 754 bit pattern so that
//! the tag alone decides how the payload is read.
use vstd::prelude::*;

verus! {

#[derive(Clone, Copy, Debug, PartialEq, Eq, Structural)]
pub enum Value {
    Int(i32),
    /// The IEEE 754 binary64 bit pattern of the float.
    Float(u64),
}

impl Value {
    pub open spec fn spec_is_int(&self) -> bool {
        self is Int
    }

    pub open spec fn spec_is_float(&self) -> bool {
        self is Float
    }

    #[verifier::when_used_as_spec(spec_is_int)]
    pub fn is_int(&self) -> (r: bool)
        ensures
            r == self.spec_is_int(),
    {
        match self {
            Value::Int(_) => true,
            Value::Float(_) => false,
        }
    }

    #[verifier::when_used_as_spec(spec_is_float)]
    pub fn is_float(&self) -> (r: bool)
        ensures
            r == self.spec_is_float(),
    {
        match self {
            Value::Int(_) => false,
            Value::Float(_) => true,
        }
    }

    /// The integer payload, when the tag says the value is an integer.
    pub fn as_int(&self) -> (r: Option<i32>)
        ensures
            match r {
                Some(i) => *self == Value::Int(i),
                None => self is Float,
            },
    {
        match self {
            Value::Int(i) => Some(*i),
            Value::Float(_) => None,
        }
    }

    /// The float payload as its bit pattern, when the tag says the value is a float.
    pub fn as_float_bits(&self) -> (r: Option<u64>)
        ensures
            match r {
                Some(b) => *self == Value::Float(b),
                None => self is Int,
            },
    {
        match self {
            Value::Int(_) => None,
            Value::Float(b) => Some(*b),
        }
    }
}

} // verus!
