use minilang::value::Value;
use minilang::vm::{VmError, VM};

#[test]
fn test_add() {
    let instructions = [
        1, // Constant
        0, 0, 0, 10, 1, // Constant
        0, 0, 0, 5, 3, // Add
        0, // Return
    ];

    let mut vm = VM::new();
    let val = vm.interpret(&instructions).unwrap();
    assert_eq!(val, Value::Int(15));
}

#[test]
fn test_sub() {
    let instructions = [
        1, // Constant
        0, 0, 0, 10, 1, // Constant
        0, 0, 0, 5, 4, // Subtract
        0, // Return
    ];

    let mut vm = VM::new();
    let val = vm.interpret(&instructions).unwrap();
    assert_eq!(val, Value::Int(5));
}

#[test]
fn test_mul() {
    let instructions = [
        1, // Constant
        0, 0, 0, 10, 1, // Constant
        0, 0, 0, 5, 5, // Multiply
        0, // Return
    ];

    let mut vm = VM::new();
    let val = vm.interpret(&instructions).unwrap();
    assert_eq!(val, Value::Int(50));
}

#[test]
fn test_div() {
    let instructions = [
        1, // Constant
        0, 0, 0, 10, 1, // Constant
        0, 0, 0, 5, 6, // Divide
        0, // Return
    ];

    let mut vm = VM::new();
    let val = vm.interpret(&instructions).unwrap();
    assert_eq!(val, Value::Int(2));
}

#[test]
fn test_interpret_source() {
    let s = r#"
        10 + 10
        "#;
    let _ = s;
}

#[test]
fn test_float_constant_and_add() {
    let mut code: Vec<u8> = vec![7];
    code.extend_from_slice(&1.5f64.to_be_bytes());
    code.push(7);
    code.extend_from_slice(&2.25f64.to_be_bytes());
    code.push(3); // Add
    code.push(0); // Return
    let mut vm = VM::new();
    let val = vm.interpret(&code).unwrap();
    assert_eq!(val, Value::Float(3.75f64.to_bits()));
}

#[test]
fn test_negate() {
    let code = [1, 0, 0, 0, 9, 2, 0];
    let mut vm = VM::new();
    assert_eq!(vm.interpret(&code).unwrap(), Value::Int(-9));

    let mut fcode: Vec<u8> = vec![7];
    fcode.extend_from_slice(&2.5f64.to_be_bytes());
    fcode.push(2);
    fcode.push(0);
    let mut vm2 = VM::new();
    assert_eq!(vm2.interpret(&fcode).unwrap(), Value::Float((-2.5f64).to_bits()));
}

#[test]
fn test_divide_by_zero_is_error() {
    let code = [1, 0, 0, 0, 10, 1, 0, 0, 0, 0, 6, 0];
    let mut vm = VM::new();
    assert_eq!(vm.interpret(&code), Err(VmError::DivisionByZero));
}

#[test]
fn test_stack_underflow_is_error() {
    let code = [3];
    let mut vm = VM::new();
    assert_eq!(vm.interpret(&code), Err(VmError::StackUnderflow));

    let ret_only = [0];
    let mut vm2 = VM::new();
    assert_eq!(vm2.interpret(&ret_only), Err(VmError::StackUnderflow));
}

#[test]
fn test_stack_overflow_is_error() {
    // 256 constants in a row: the push past the capacity of 255 fails.
    let mut code: Vec<u8> = Vec::new();
    for _ in 0..256 {
        code.extend_from_slice(&[1, 0, 0, 0, 1]);
    }
    code.push(0);
    let mut vm = VM::new();
    assert_eq!(vm.interpret(&code), Err(VmError::StackOverflow));
}

#[test]
fn test_missing_return_is_error() {
    let code = [1, 0, 0, 0, 10];
    let mut vm = VM::new();
    assert_eq!(vm.interpret(&code), Err(VmError::MissingReturn));

    let empty: [u8; 0] = [];
    let mut vm2 = VM::new();
    assert_eq!(vm2.interpret(&empty), Err(VmError::MissingReturn));

    let truncated = [1, 0, 0];
    let mut vm3 = VM::new();
    assert_eq!(vm3.interpret(&truncated), Err(VmError::MissingReturn));
}

#[test]
fn test_invalid_opcode_is_error() {
    let code = [1, 0, 0, 0, 10, 99, 0];
    let mut vm = VM::new();
    assert_eq!(
        vm.interpret(&code),
        Err(VmError::InvalidOpcode {
            byte: 99,
            offset: 5
        })
    );
}

#[test]
fn test_interpret_same_buffer_twice() {
    // Fresh machines on the same buffer always agree: the outcome depends on
    // the bytes alone.
    let code = [1, 0, 0, 0, 10, 1, 0, 0, 0, 5, 3, 0];
    let mut vm1 = VM::new();
    let mut vm2 = VM::new();
    let r1 = vm1.interpret(&code);
    let r2 = vm2.interpret(&code);
    assert_eq!(r1, r2);
    assert_eq!(r1.unwrap(), Value::Int(15));
}

#[test]
fn test_int_wrapping() {
    let max = i32::MAX.to_be_bytes();
    let code = [
        1, max[0], max[1], max[2], max[3], 1, 0, 0, 0, 1, 3, 0,
    ];
    let mut vm = VM::new();
    assert_eq!(vm.interpret(&code).unwrap(), Value::Int(i32::MIN));
}
