use minilang::ast::Expr::{self, Binary, Int};
use minilang::ast::Stmt::{self, Expression};
use minilang::lexer::scan;
use minilang::parser::{parse, ParseError};
use minilang::token::Token;

#[test]
fn test_fun() {
    let s = r#"
        fun add(x, y)
            return x + y
        end
        "#;

    let t = scan(s).unwrap();
    let p = parse(t).unwrap();
    assert_eq!(p.len(), 1);

    let function = Stmt::FunDeclaration {
        name: Token::Ident("add".to_string()),
        params: vec![Token::Ident("x".to_string()), Token::Ident("y".to_string())],
        body: vec![Stmt::Return {
            expr: Some(Expr::Binary {
                left: Box::new(Expr::Name {
                    val: "x".to_string(),
                }),
                right: Box::new(Expr::Name {
                    val: "y".to_string(),
                }),
                op: Token::Plus,
            }),
        }],
    };

    assert_eq!(p[0], function);
}

#[test]
fn test_let() {
    let s = r#"
        let juice = "juice"
        let wrld = "wrld"
        let helloWrld = juice + " " + wrld
        "#;

    let t = scan(s).unwrap();
    let p = parse(t).unwrap();

    assert_eq!(p.len(), 3);

    let exp1 = Stmt::Let {
        name: Token::Ident("juice".to_string()),
        expr: Expr::String {
            val: "juice".to_string(),
        },
    };
    let exp2 = Stmt::Let {
        name: Token::Ident("wrld".to_string()),
        expr: Expr::String {
            val: "wrld".to_string(),
        },
    };
    let exp3 = Stmt::Let {
        name: Token::Ident("helloWrld".to_string()),
        expr: Binary {
            left: Box::new(Binary {
                left: Box::new(Expr::Name {
                    val: "juice".to_string(),
                }),
                op: Token::Plus,
                right: Box::new(Expr::String {
                    val: " ".to_string(),
                }),
            }),
            op: Token::Plus,
            right: Box::new(Expr::Name {
                val: "wrld".to_string(),
            }),
        },
    };

    assert_eq!(exp1, p[0]);
    assert_eq!(exp2, p[1]);
    assert_eq!(exp3, p[2]);
}

#[test]
fn test_expr_stmt() {
    let s = r#"
        1 + 1
        x + y
        x + 1
        juice + " " + wrld
        "#;

    let exp = vec![
        Stmt::Expression {
            expr: Expr::Binary {
                left: Box::new(Expr::Int { val: 1 }),
                op: Token::Plus,
                right: Box::new(Expr::Int { val: 1 }),
            },
        },
        Stmt::Expression {
            expr: Expr::Binary {
                left: Box::new(Expr::Name {
                    val: "x".to_string(),
                }),
                op: Token::Plus,
                right: Box::new(Expr::Name {
                    val: "y".to_string(),
                }),
            },
        },
        Stmt::Expression {
            expr: Expr::Binary {
                left: Box::new(Expr::Name {
                    val: "x".to_string(),
                }),
                op: Token::Plus,
                right: Box::new(Expr::Int { val: 1 }),
            },
        },
        Stmt::Expression {
            expr: Expr::Binary {
                left: Box::new(Binary {
                    left: Box::new(Expr::Name {
                        val: "juice".to_string(),
                    }),
                    op: Token::Plus,
                    right: Box::new(Expr::String {
                        val: " ".to_string(),
                    }),
                }),
                op: Token::Plus,
                right: Box::new(Expr::Name {
                    val: "wrld".to_string(),
                }),
            },
        },
    ];

    check_stmt(s, exp);
}

#[test]
fn test_binary() {
    let s = r#"
        1 + 2
        1 - 2
        1 * 2
        1 / 2
        1 + 2 + 3
        1 + 2 * 3
        1 < 2
        1 > 2
        1 <= 2
        1 >= 2
        "#;

    let exp = vec![
        Stmt::Expression {
            expr: Expr::Binary {
                left: Box::new(Expr::Int { val: 1 }),
                op: Token::Plus,
                right: Box::new(Expr::Int { val: 2 }),
            },
        },
        Stmt::Expression {
            expr: Expr::Binary {
                left: Box::new(Expr::Int { val: 1 }),
                op: Token::Minus,
                right: Box::new(Expr::Int { val: 2 }),
            },
        },
        Stmt::Expression {
            expr: Expr::Binary {
                left: Box::new(Expr::Int { val: 1 }),
                op: Token::Star,
                right: Box::new(Expr::Int { val: 2 }),
            },
        },
        Stmt::Expression {
            expr: Expr::Binary {
                left: Box::new(Expr::Int { val: 1 }),
                op: Token::Slash,
                right: Box::new(Expr::Int { val: 2 }),
            },
        },
        Stmt::Expression {
            expr: Expr::Binary {
                left: Box::new(Binary {
                    left: Box::new(Expr::Int { val: 1 }),
                    op: Token::Plus,
                    right: Box::new(Expr::Int { val: 2 }),
                }),
                op: Token::Plus,
                right: Box::new(Expr::Int { val: 3 }),
            },
        },
        Stmt::Expression {
            expr: Expr::Binary {
                left: Box::new(Expr::Int { val: 1 }),
                op: Token::Plus,
                right: Box::new(Binary {
                    left: Box::new(Expr::Int { val: 2 }),
                    op: Token::Star,
                    right: Box::new(Expr::Int { val: 3 }),
                }),
            },
        },
        Stmt::Expression {
            expr: Expr::Binary {
                left: Box::new(Expr::Int { val: 1 }),
                op: Token::Lt,
                right: Box::new(Expr::Int { val: 2 }),
            },
        },
        Stmt::Expression {
            expr: Expr::Binary {
                left: Box::new(Expr::Int { val: 1 }),
                op: Token::Gt,
                right: Box::new(Expr::Int { val: 2 }),
            },
        },
        Stmt::Expression {
            expr: Expr::Binary {
                left: Box::new(Expr::Int { val: 1 }),
                op: Token::LtEq,
                right: Box::new(Expr::Int { val: 2 }),
            },
        },
        Stmt::Expression {
            expr: Expr::Binary {
                left: Box::new(Expr::Int { val: 1 }),
                op: Token::GtEq,
                right: Box::new(Expr::Int { val: 2 }),
            },
        },
    ];

    check_stmt(s, exp);
}

#[test]
fn test_print() {
    let s = r#"
        print "free" + "lil" + "steve"
        "#;

    let exp = vec![Stmt::Print {
        expr: Expr::Binary {
            left: Box::new(Expr::Binary {
                left: Box::new(Expr::String {
                    val: "free".to_string(),
                }),
                op: Token::Plus,
                right: Box::new(Expr::String {
                    val: "lil".to_string(),
                }),
            }),
            op: Token::Plus,
            right: Box::new(Expr::String {
                val: "steve".to_string(),
            }),
        },
    }];

    check_stmt(s, exp);
}

#[test]
fn test_literal() {
    let s = r#"
        1
        2
        10.5
        35.5353
        "#;

    let exp = vec![
        Expression {
            expr: Int { val: 1 },
        },
        Expression {
            expr: Int { val: 2 },
        },
        Expression {
            expr: Expr::Float {
                bits: 10.5f64.to_bits(),
            },
        },
        Expression {
            expr: Expr::Float {
                bits: 35.5353f64.to_bits(),
            },
        },
    ];

    check_stmt(s, exp);
}

fn check_stmt(s: &str, exp: Vec<Stmt>) {
    let t = scan(s).unwrap();
    let p = parse(t).unwrap();

    assert_eq!(p.len(), exp.len());

    for (i, stmt) in p.iter().enumerate() {
        assert_eq!(stmt, &exp[i]);
    }
}

#[test]
fn test_if() {
    let s = r#"
        if 1 < 2
            print "yah"
        else
            print "nah"
        end
        "#;

    let exp = vec![Stmt::If {
        condition: Expr::Binary {
            left: Box::new(Expr::Int { val: 1 }),
            right: Box::new(Expr::Int { val: 2 }),
            op: Token::Lt,
        },
        consequence: vec![Stmt::Print {
            expr: Expr::String {
                val: "yah".to_string(),
            },
        }],
        alternative: Some(vec![Stmt::Print {
            expr: Expr::String {
                val: "nah".to_string(),
            },
        }]),
    }];
    check_stmt(s, exp);
}

#[test]
fn test_grouping_and_unary() {
    let t = scan("(1 + 2) * 3").unwrap();
    let p = parse(t).unwrap();
    let exp = Stmt::Expression {
        expr: Expr::Binary {
            left: Box::new(Expr::Grouping {
                expr: Box::new(Expr::Binary {
                    left: Box::new(Expr::Int { val: 1 }),
                    op: Token::Plus,
                    right: Box::new(Expr::Int { val: 2 }),
                }),
            }),
            op: Token::Star,
            right: Box::new(Expr::Int { val: 3 }),
        },
    };
    assert_eq!(p[0], exp);

    let t2 = scan("-5 * 2").unwrap();
    let p2 = parse(t2).unwrap();
    let exp2 = Stmt::Expression {
        expr: Expr::Binary {
            left: Box::new(Expr::Unary {
                op: Token::Minus,
                right: Box::new(Expr::Int { val: 5 }),
            }),
            op: Token::Star,
            right: Box::new(Expr::Int { val: 2 }),
        },
    };
    assert_eq!(p2[0], exp2);
}

#[test]
fn test_unclosed_group_is_error() {
    let t = scan("(1 + 2").unwrap();
    assert!(matches!(
        parse(t),
        Err(ParseError::ExpectedToken {
            expected: Token::RParen,
            ..
        })
    ));
}

#[test]
fn test_missing_expression_is_error() {
    let t = scan(") 1").unwrap();
    assert!(matches!(
        parse(t),
        Err(ParseError::ExpectedExpression {
            found: Token::RParen
        })
    ));
}

#[test]
fn test_let_without_name_is_error() {
    let t = scan("let 5 = 3").unwrap();
    assert!(matches!(
        parse(t),
        Err(ParseError::ExpectedIdent {
            found: Token::Int(5)
        })
    ));
}
