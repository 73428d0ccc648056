use minilang::lexer::{scan, LexError};
use minilang::scanner::{char_at, current_char, peek, peek_next};
use minilang::token::Token;

#[test]
fn test_lexer() {
    let s = r#"let num1 = 5
        let num2 = 10.5

        let string = "name"; let anotherString = "another name"

        fun add(x, y)
            return x + y
        end

        !-/*<> <= >= == !=

        if true
            return nil
        else
            print "free
            numba 9"
        end

        if x == 1: return "1"

        // test a comment

        for i in array
            print iffy
            print inny
        end
        10.
        "#;

    let exp = vec![
        Token::Let,
        Token::Ident("num1".to_string()),
        Token::Eq,
        Token::Int(5),
        Token::NewLine,
        Token::Let,
        Token::Ident("num2".to_string()),
        Token::Eq,
        Token::Float(10.5f64.to_bits()),
        Token::NewLine,
        Token::NewLine,
        Token::Let,
        Token::Ident("string".to_string()),
        Token::Eq,
        Token::String("name".to_string()),
        Token::Semicolon,
        Token::Let,
        Token::Ident("anotherString".to_string()),
        Token::Eq,
        Token::String("another name".to_string()),
        Token::NewLine,
        Token::NewLine,
        Token::Fun,
        Token::Ident("add".to_string()),
        Token::LParen,
        Token::Ident("x".to_string()),
        Token::Comma,
        Token::Ident("y".to_string()),
        Token::RParen,
        Token::NewLine,
        Token::Return,
        Token::Ident("x".to_string()),
        Token::Plus,
        Token::Ident("y".to_string()),
        Token::NewLine,
        Token::End,
        Token::NewLine,
        Token::NewLine,
        Token::Bang,
        Token::Minus,
        Token::Slash,
        Token::Star,
        Token::Lt,
        Token::Gt,
        Token::LtEq,
        Token::GtEq,
        Token::EqEq,
        Token::BangEq,
        Token::NewLine,
        Token::NewLine,
        Token::If,
        Token::True,
        Token::NewLine,
        Token::Return,
        Token::Nil,
        Token::NewLine,
        Token::Else,
        Token::NewLine,
        Token::Print,
        Token::String("free\n            numba 9".to_string()),
        Token::NewLine,
        Token::End,
        Token::NewLine,
        Token::NewLine,
        Token::If,
        Token::Ident("x".to_string()),
        Token::EqEq,
        Token::Int(1),
        Token::Colon,
        Token::Return,
        Token::String("1".to_string()),
        Token::NewLine,
        Token::NewLine,
        Token::NewLine,
        Token::NewLine,
        Token::For,
        Token::Ident("i".to_string()),
        Token::In,
        Token::Ident("array".to_string()),
        Token::NewLine,
        Token::Print,
        Token::Ident("iffy".to_string()),
        Token::NewLine,
        Token::Print,
        Token::Ident("inny".to_string()),
        Token::NewLine,
        Token::End,
        Token::NewLine,
        Token::Float(10.0f64.to_bits()),
        Token::NewLine,
        Token::Eof,
    ];

    let tokens = scan(s).unwrap();

    for (i, t) in tokens.iter().enumerate() {
        let e = &exp[i];

        assert_eq!(e, t, "pos = {}", i);
    }
    assert_eq!(tokens.len(), exp.len());
}

#[test]
fn test_float_literal_bits_exact() {
    // The decimal-to-binary conversion rounds to nearest, ties to even:
    // each literal's bit pattern equals the platform's parse of the text.
    for (text, val) in [
        ("10.5", 10.5f64),
        ("10.44492", 10.44492f64),
        ("35.5353", 35.5353f64),
        ("0.1", 0.1f64),
        ("123.456", 123.456f64),
        ("0.0000001", 0.0000001f64),
        ("999999999999.25", 999999999999.25f64),
    ] {
        let toks = scan(text).unwrap();
        assert_eq!(toks[0], Token::Float(val.to_bits()), "literal {}", text);
    }
}

#[test]
fn test_keyword_boundaries() {
    assert_eq!(scan("lets").unwrap()[0], Token::Ident("lets".to_string()));
    assert_eq!(scan("if").unwrap()[0], Token::If);
    assert_eq!(scan("iffy").unwrap()[0], Token::Ident("iffy".to_string()));
    assert_eq!(scan("ret").unwrap()[0], Token::Ident("ret".to_string()));
    assert_eq!(scan("end").unwrap()[0], Token::End);
    assert_eq!(scan("fals").unwrap()[0], Token::Ident("fals".to_string()));
}

#[test]
fn test_unterminated_string_is_error() {
    assert_eq!(
        scan("\"abc"),
        Err(LexError::UnterminatedString { line: 1 })
    );
}

#[test]
fn test_string_closed_at_end_of_input() {
    let toks = scan("\"abc\"").unwrap();
    assert_eq!(toks[0], Token::String("abc".to_string()));
    assert_eq!(toks[1], Token::Eof);
}

#[test]
fn test_numeral_against_letter_is_error() {
    assert_eq!(scan("10.5x"), Err(LexError::MalformedNumber { line: 1 }));
    assert_eq!(scan("12x"), Err(LexError::MalformedNumber { line: 1 }));
}

#[test]
fn test_int_literal_out_of_range() {
    assert_eq!(
        scan("2147483648"),
        Err(LexError::NumberOutOfRange { line: 1 })
    );
    assert_eq!(scan("2147483647").unwrap()[0], Token::Int(2147483647));
}

#[test]
fn test_error_line_counting() {
    assert_eq!(scan("\n\n\"abc"), Err(LexError::UnterminatedString { line: 3 }));
}

#[test]
fn test_comment_dropped() {
    let toks = scan("1 // comment to end\n2").unwrap();
    assert_eq!(
        toks,
        vec![Token::Int(1), Token::NewLine, Token::Int(2), Token::Eof]
    );
}

#[test]
fn test_scanner_probes() {
    let s = "ab c";
    assert_eq!(current_char(s, 0), 'a');
    assert_eq!(current_char(s, 4), '\0');
    assert_eq!(peek(s, 0), 'b');
    assert_eq!(peek(s, 3), '\0');
    assert_eq!(peek_next(s, 0), ' ');
    assert_eq!(char_at(s, 3), 'c');
}

#[test]
fn test_long_float_literals() {
    // Literals of any length lex to one float token; the value agrees with
    // the platform's parse.
    for text in [
        "3.14159265358979323846264338327950288419716939937510",
        "123456789012345678901234567890123456789012345.0",
        "99999999999999999999999999999999999999.5",
        "0.00000000000000000000000000000000000000000000123",
        "2.50000000000000000000000000000000000000000000000001",
        "0.10000000000000000000000000000000000000000000000002",
    ] {
        let toks = scan(text).unwrap();
        let want: f64 = text.parse().unwrap();
        assert_eq!(toks[0], Token::Float(want.to_bits()), "literal {}", text);
    }
}

#[test]
fn test_extreme_float_literals() {
    // A literal beyond the largest finite value lexes to the infinity
    // pattern; one below half the smallest subnormal lexes to zero.
    let huge = format!("1{}.0", "0".repeat(400));
    let toks = scan(&huge).unwrap();
    assert_eq!(toks[0], Token::Float(f64::INFINITY.to_bits()));

    let tiny = format!("0.{}1", "0".repeat(400));
    let toks2 = scan(&tiny).unwrap();
    assert_eq!(toks2[0], Token::Float(0.0f64.to_bits()));

    let deep = format!("0.{}4941", "0".repeat(320));
    let toks3 = scan(&deep).unwrap();
    let want: f64 = deep.parse().unwrap();
    assert_eq!(toks3[0], Token::Float(want.to_bits()));
}
