//! A small language front end and execution engine: source text is scanned
//! into tokens, parsed into an expression tree by operator precedence,
//! compiled into a compact bytecode of one-byte opcodes with fixed-width
//! big-endian operands, and executed on a bounded stack machine over tagged
//! numeric values — a 32-bit signed integer or a 64-bit float, the float
//! carried everywhere as its IEEE 754 bit pattern and computed on by
//! verified integer arithmetic. Each phase consumes its whole input and
//! either returns a complete artifact or fails with a typed error; each is
//! pinned to a functional specification, and the laws of the pipeline —
//! precedence, associativity, grouping, promotion, encoding round trips,
//! boundary failures — are proved in `laws`.
pub mod helpers;
pub mod encoding;
pub mod value;
pub mod opcodes;
pub mod float;
pub mod token;
pub mod lexer;
pub mod scanner;
pub mod ast;
pub mod parser;
pub mod compiler;
pub mod vm;
pub mod laws;
