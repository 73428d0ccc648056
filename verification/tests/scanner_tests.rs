use minilang::scanner::{scan, ScanError};
use minilang::token::Token;

#[test]
fn test_scanner() {
    let s = r#"let num1 = 5
        let num2 = 10.5

        let string = "name"; let anotherString = "another name"

        fun add(x, y)
            return x + y
        end

        !-/*<> <= >= == !=

        if true
            return nil
        else
            print "free
            numba 9"
        end

        if x == 1: return "1"

        // test a comment

        for i in array
            print iffy
            print inny
        end
        10.0
        "#;

    let exp = vec![
        Token::Let,
        Token::Ident("num1".to_string()),
        Token::Eq,
        Token::Int(5),
        Token::NewLine,
        Token::Let,
        Token::Ident("num2".to_string()),
        Token::Eq,
        Token::Float(10.5f64.to_bits()),
        Token::NewLine,
        Token::NewLine,
        Token::Let,
        Token::Ident("string".to_string()),
        Token::Eq,
        Token::String("name".to_string()),
        Token::Semicolon,
        Token::Let,
        Token::Ident("anotherString".to_string()),
        Token::Eq,
        Token::String("another name".to_string()),
        Token::NewLine,
        Token::NewLine,
        Token::Fun,
        Token::Ident("add".to_string()),
        Token::LParen,
        Token::Ident("x".to_string()),
        Token::Comma,
        Token::Ident("y".to_string()),
        Token::RParen,
        Token::NewLine,
        Token::Return,
        Token::Ident("x".to_string()),
        Token::Plus,
        Token::Ident("y".to_string()),
        Token::NewLine,
        Token::End,
        Token::NewLine,
        Token::NewLine,
        Token::Bang,
        Token::Minus,
        Token::Slash,
        Token::Star,
        Token::Lt,
        Token::Gt,
        Token::LtEq,
        Token::GtEq,
        Token::EqEq,
        Token::BangEq,
        Token::NewLine,
        Token::NewLine,
        Token::If,
        Token::True,
        Token::NewLine,
        Token::Return,
        Token::Nil,
        Token::NewLine,
        Token::Else,
        Token::NewLine,
        Token::Print,
        Token::String("free\n            numba 9".to_string()),
        Token::NewLine,
        Token::End,
        Token::NewLine,
        Token::NewLine,
        Token::If,
        Token::Ident("x".to_string()),
        Token::EqEq,
        Token::Int(1),
        Token::Colon,
        Token::Return,
        Token::String("1".to_string()),
        Token::NewLine,
        Token::NewLine,
        Token::NewLine,
        Token::NewLine,
        Token::For,
        Token::Ident("i".to_string()),
        Token::In,
        Token::Ident("array".to_string()),
        Token::NewLine,
        Token::Print,
        Token::Ident("iffy".to_string()),
        Token::NewLine,
        Token::Print,
        Token::Ident("inny".to_string()),
        Token::NewLine,
        Token::End,
        Token::NewLine,
        Token::Float(10.0f64.to_bits()),
        Token::NewLine,
        Token::Eof,
    ];

    let tokens = scan(s).unwrap();

    for (i, t) in tokens.iter().enumerate() {
        let e = &exp[i];

        assert_eq!(e, t, "pos = {} exp {:?} got {:?}", i, e, t);
    }
    assert_eq!(tokens.len(), exp.len());
}

#[test]
fn test_scanner_wide_integer_falls_back_to_float() {
    // A digit run past the 32-bit range becomes a float, as a parse that
    // tries the integer first and the float second gives.
    let toks = scan("9999999999").unwrap();
    assert_eq!(toks[0], Token::Float(9999999999.0f64.to_bits()));
}

#[test]
fn test_scanner_full_fraction_run() {
    // The whole fractional digit run belongs to one float token.
    let toks = scan("10.55").unwrap();
    assert_eq!(toks[0], Token::Float(10.55f64.to_bits()));
    assert_eq!(toks[1], Token::Eof);
}

#[test]
fn test_scanner_unknown_character_skipped() {
    let toks = scan("1 @ 2").unwrap();
    assert_eq!(toks, vec![Token::Int(1), Token::Int(2), Token::Eof]);
}

#[test]
fn test_scanner_unterminated_string() {
    assert_eq!(scan("\"abc"), Err(ScanError::UnterminatedString));
}

#[test]
fn test_scanner_numeral_against_letter() {
    assert_eq!(scan("12x"), Err(ScanError::MalformedNumber));
    assert_eq!(scan("10.x"), Err(ScanError::MalformedNumber));
}

#[test]
fn test_scanner_long_digit_runs() {
    // Digit runs of any length lex to one token whose value agrees with the
    // platform's parse; runs past the 32-bit range fall back to floats.
    for text in [
        "123456789012345678901234567890123456789012345",
        "99999999999999999999999999999999999999",
        "3.14159265358979323846264338327950288419716939937510",
    ] {
        let toks = scan(text).unwrap();
        let want: f64 = text.parse().unwrap();
        assert_eq!(toks[0], Token::Float(want.to_bits()), "literal {}", text);
    }
    let huge = format!("1{}", "0".repeat(400));
    let toks = scan(&huge).unwrap();
    assert_eq!(toks[0], Token::Float(f64::INFINITY.to_bits()));
}
