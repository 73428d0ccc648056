use minilang::compiler::compile;
use minilang::encoding::{push_u32_be, push_u64_be, u32_from_be_bytes, u64_from_be_bytes};
use minilang::lexer::scan;
use minilang::parser::parse;
use minilang::float::{add_bits, div_bits, from_i32_bits, mul_bits, negate_bits, sub_bits};
use minilang::value::Value;
use minilang::vm::{VmError, VM};

fn eval(source: &str) -> Result<Value, VmError> {
    let tokens = scan(source).unwrap();
    let program = parse(tokens).unwrap();
    let mut code = compile(program).unwrap();
    code.push(0); // Return
    let mut vm = VM::new();
    vm.interpret(&code)
}

#[test]
fn test_precedence_eval() {
    assert_eq!(eval("1 + 2 * 3").unwrap(), Value::Int(7));
    assert_eq!(eval("10 - 4 / 2").unwrap(), Value::Int(8));
}

#[test]
fn test_associativity_eval() {
    assert_eq!(eval("1 + 2 + 3").unwrap(), Value::Int(6));
    assert_eq!(eval("10 - 5 - 2").unwrap(), Value::Int(3));
}

#[test]
fn test_grouping_eval() {
    assert_eq!(eval("(1 + 2) * 3").unwrap(), Value::Int(9));
    assert_eq!(eval("(10 - 5) - 2").unwrap(), Value::Int(3));
}

#[test]
fn test_mixed_promotion_eval() {
    assert_eq!(eval("1 + 2.5").unwrap(), Value::Float(3.5f64.to_bits()));
    assert_eq!(eval("2.5 + 1").unwrap(), Value::Float(3.5f64.to_bits()));
    assert_eq!(eval("2 * 3.25").unwrap(), Value::Float(6.5f64.to_bits()));
    assert_eq!(eval("7.0 - 3").unwrap(), Value::Float(4.0f64.to_bits()));
}

#[test]
fn test_float_arithmetic_matches_hardware() {
    // The machine's float arithmetic is binary64 with round-to-nearest,
    // ties to even: it agrees with the platform bit for bit.
    assert_eq!(
        eval("0.1 + 0.2").unwrap(),
        Value::Float((0.1f64 + 0.2f64).to_bits())
    );
    assert_eq!(
        eval("10.44492 * 35.5353").unwrap(),
        Value::Float((10.44492f64 * 35.5353f64).to_bits())
    );
    assert_eq!(
        eval("10.5 / 2.5").unwrap(),
        Value::Float((10.5f64 / 2.5f64).to_bits())
    );
    assert_eq!(
        eval("1.0 / 3.0").unwrap(),
        Value::Float((1.0f64 / 3.0f64).to_bits())
    );
    assert_eq!(
        eval("123.456 - 0.0000001").unwrap(),
        Value::Float((123.456f64 - 0.0000001f64).to_bits())
    );
}

#[test]
fn test_unary_eval() {
    assert_eq!(eval("-5").unwrap(), Value::Int(-5));
    assert_eq!(eval("-5 + 3").unwrap(), Value::Int(-2));
    assert_eq!(eval("-2.5").unwrap(), Value::Float((-2.5f64).to_bits()));
    assert_eq!(eval("-7 / 2").unwrap(), Value::Int(-3));
}

#[test]
fn test_integer_division_truncates() {
    assert_eq!(eval("7 / 2").unwrap(), Value::Int(3));
    assert_eq!(eval("10 / 3").unwrap(), Value::Int(3));
}

#[test]
fn test_division_by_zero_eval() {
    assert_eq!(eval("1 / 0"), Err(VmError::DivisionByZero));
    assert_eq!(eval("1.5 / 0.0"), Err(VmError::DivisionByZero));
}

#[test]
fn test_interpret_source_end_to_end() {
    assert_eq!(eval("10 + 10").unwrap(), Value::Int(20));
}

#[test]
fn test_u32_encoding_round_trip() {
    for x in [0u32, 1, 0x7fff_ffff, 0x8000_0000, 0xffff_ffff, 123_456_789] {
        let mut out: Vec<u8> = Vec::new();
        push_u32_be(&mut out, x);
        assert_eq!(out.len(), 4);
        assert_eq!(u32_from_be_bytes(out[0], out[1], out[2], out[3]), x);
        assert_eq!(out, x.to_be_bytes().to_vec());
    }
}

#[test]
fn test_u64_encoding_round_trip() {
    for x in [0u64, 1, 10.44492f64.to_bits(), u64::MAX, 0x0123_4567_89ab_cdef] {
        let mut out: Vec<u8> = Vec::new();
        push_u64_be(&mut out, x);
        assert_eq!(out.len(), 8);
        assert_eq!(
            u64_from_be_bytes(out[0], out[1], out[2], out[3], out[4], out[5], out[6], out[7]),
            x
        );
        assert_eq!(out, x.to_be_bytes().to_vec());
    }
}

#[test]
fn test_int_to_float_conversion_exact() {
    for i in [0i32, 1, -1, 5, -5, i32::MAX, i32::MIN, 123_456_789] {
        assert_eq!(from_i32_bits(i), (i as f64).to_bits(), "converting {}", i);
    }
}

#[test]
fn test_float_ops_random_patterns() {
    // A fixed linear-congruential walk over bit patterns: the library's
    // softfloat agrees with the platform on every finite outcome.
    let mut x: u64 = 0x243f_6a88_85a3_08d3;
    let mut checked = 0;
    for _ in 0..2000 {
        x = x.wrapping_mul(6364136223846793005).wrapping_add(1442695040888963407);
        let a = f64::from_bits(x);
        let y = x.rotate_left(17) ^ 0x9e37_79b9_7f4a_7c15;
        let b = f64::from_bits(y);
        if !a.is_finite() || !b.is_finite() {
            continue;
        }
        assert_eq!(negate_bits(a.to_bits()), (-a).to_bits());
        for (got, want) in [
            (add_bits(a.to_bits(), b.to_bits()), a + b),
            (sub_bits(a.to_bits(), b.to_bits()), a - b),
            (mul_bits(a.to_bits(), b.to_bits()), a * b),
        ] {
            assert_eq!(got, want.to_bits(), "{a:e} and {b:e}");
        }
        if b != 0.0 {
            assert_eq!(
                div_bits(a.to_bits(), b.to_bits()),
                (a / b).to_bits(),
                "{a:e} / {b:e}"
            );
        }
        checked += 1;
    }
    assert!(checked > 1000);
}

#[test]
fn test_float_ops_subnormal_boundaries() {
    let edge: Vec<f64> = vec![
        f64::MIN_POSITIVE,                  // the smallest normal
        f64::from_bits(1),                  // the smallest subnormal
        f64::from_bits(0x000f_ffff_ffff_ffff), // the largest subnormal
        f64::from_bits(0x0010_0000_0000_0001),
        f64::MAX,
        1.0,
        -f64::MIN_POSITIVE,
        -f64::from_bits(1),
        0.0,
        -0.0,
    ];
    for &a in &edge {
        for &b in &edge {
            let s = a + b;
            if s.is_finite() {
                assert_eq!(add_bits(a.to_bits(), b.to_bits()), s.to_bits(), "{a:e} + {b:e}");
            }
            let p = a * b;
            if p.is_finite() {
                assert_eq!(mul_bits(a.to_bits(), b.to_bits()), p.to_bits(), "{a:e} * {b:e}");
            }
            if b != 0.0 {
                let q = a / b;
                if q.is_finite() {
                    assert_eq!(div_bits(a.to_bits(), b.to_bits()), q.to_bits(), "{a:e} / {b:e}");
                }
            }
        }
    }
}

#[test]
fn test_long_literal_through_pipeline() {
    // A literal wider than the exact window still runs through the whole
    // pipeline and agrees with the platform.
    let want = "2.5000000000000000000000000000000000000001".parse::<f64>().unwrap() + 1.0;
    assert_eq!(
        eval("2.5000000000000000000000000000000000000001 + 1").unwrap(),
        Value::Float(want.to_bits())
    );
}
