use minilang::compiler::{compile, CompileError};
use minilang::lexer::scan;
use minilang::parser::parse;
use minilang::token::Token;

#[test]
fn test_compile_expression_stmt() {
    let s = "1 + 2";
    let t = scan(s).unwrap();
    let p = parse(t).unwrap();
    let code = compile(p).unwrap();
    let exp = vec![
        1, // Constant
        0, 0, 0, 1, 1, // Constant
        0, 0, 0, 2, 3, // Add
    ];

    assert_eq!(exp, code);
}

#[test]
fn test_compile_big_num() {
    let s = "2147483647 + 2147483647";
    let t = scan(s).unwrap();
    let p = parse(t).unwrap();
    let code = compile(p).unwrap();
    let exp = vec![
        0x01, // Int OpCode
        0x7F, 0xFF, 0xFF, 0xFF, 0x01, // Int OpCode
        0x7F, 0xFF, 0xFF, 0xFF, 0x03, // Add OpCode
    ];

    assert_eq!(exp, code);
}

#[test]
fn test_float() {
    let s = "10.44492";
    let t = scan(s).unwrap();
    println!("{t:?}");
    let p = parse(t).unwrap();
    println!("{p:?}");
    assert_eq!(p.len(), 1);
    let c = compile(p).unwrap();
    println!("{c:?}");
    assert_eq!(c[0], 7); // Float opcode
    let byte1 = c[1];
    let byte2 = c[2];
    let byte3 = c[3];
    let byte4 = c[4];
    let byte5 = c[5];
    let byte6 = c[6];
    let byte7 = c[7];
    let byte8 = c[8];

    let num = f64::from_be_bytes([byte1, byte2, byte3, byte4, byte5, byte6, byte7, byte8]);
    assert_eq!(num, 10.44492)
}

#[test]
fn test_compile_negate() {
    let t = scan("-7").unwrap();
    let p = parse(t).unwrap();
    let code = compile(p).unwrap();
    assert_eq!(code, vec![1, 0, 0, 0, 7, 2]);
}

#[test]
fn test_compile_grouping_transparent() {
    // Parentheses change the tree, never the instruction stream of the
    // same association.
    let code_grouped = compile(parse(scan("(1 + 2) + 3").unwrap()).unwrap()).unwrap();
    let code_plain = compile(parse(scan("1 + 2 + 3").unwrap()).unwrap()).unwrap();
    assert_eq!(code_grouped, code_plain);
}

#[test]
fn test_compile_name_is_error() {
    let t = scan("x + 1").unwrap();
    let p = parse(t).unwrap();
    assert!(matches!(compile(p), Err(CompileError::UnsupportedExpression)));
}

#[test]
fn test_compile_statement_is_error() {
    let t = scan("let x = 1").unwrap();
    let p = parse(t).unwrap();
    assert!(matches!(compile(p), Err(CompileError::UnsupportedStatement)));
}

#[test]
fn test_compile_comparison_is_error() {
    let t = scan("1 < 2").unwrap();
    let p = parse(t).unwrap();
    assert!(matches!(
        compile(p),
        Err(CompileError::UnsupportedOperator { op: Token::Lt })
    ));
}
