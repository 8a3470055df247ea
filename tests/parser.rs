use monkey::ast::{Expr, Node, Stmt};
use monkey::lexer::Lexer;
use monkey::parser::Parser;
use monkey::token::{Token, TokenType};

type AssertExpr = fn(&Expr) -> ();

fn bytes_as_str(value: &[u8]) -> &str {
    std::str::from_utf8(value).unwrap()
}

fn assert_let_stmt(stmt: &Stmt, ename: &[u8], value_assert: AssertExpr) {
    if let Stmt::Let { name, token, value } = stmt {
        assert_eq!(token.literal, b"let");
        assert_ident(name, ename);
        value_assert(value);
    } else {
        panic!("not a let statement")
    }
}

fn assert_return_stmt(stmt: &Stmt, value_assert: AssertExpr) {
    if let Stmt::Return { token, value } = stmt {
        assert_eq!(token.literal, b"return");
        value_assert(value);
    } else {
        panic!("not a return statement")
    }
}

fn assert_int_literal(expr: &Expr, expected: i64) {
    match expr {
        Expr::IntLiteral { value, .. } => {
            assert_eq!(
                *value, expected,
                "expected Int value {} but got {}",
                expected, *value
            );
        }
        _ => {
            panic!("expr not an int literal. Instead got {:?}", expr);
        }
    }
}

fn assert_ident(expr: &Expr, expected_literal: &[u8]) {
    match expr {
        Expr::Identifier { value, .. } => {
            assert_eq!(bytes_as_str(value), bytes_as_str(expected_literal))
        }
        _ => {
            panic!("expr not an int literal. Instead got {:?}", expr);
        }
    }
}

fn assert_expr_stmt<F: FnOnce(&Expr) -> ()>(stmt: &Stmt, assert: F) {
    match stmt {
        Stmt::Expr { expr } => assert(expr),
        _ => panic!("not an expression statement"),
    };
}

fn assert_block_stmt(stmt: &Stmt, assert: AssertExpr) {
    match stmt {
        Stmt::Block { stmts, .. } => stmts.iter().for_each(|s| assert_expr_stmt(s, assert)),
        _ => panic!("not an expression statement"),
    };
}

fn assert_infix_expr(expr: &Expr, eop: &[u8], eleft: AssertExpr, eright: AssertExpr) {
    if let Expr::Infix {
        op, left, right, ..
    } = expr
    {
        assert_eq!(op, &eop);
        eleft(left);
        eright(right);
    } else {
        panic!("not an infix expression")
    }
}

fn log_errors(p: &[String]) {
    println!("parser has {} errors", p.len());
    for err in p.iter() {
        println!("parser error: {}", err)
    }
}

fn assert_prog<F: Fn(&[Stmt])>(input: &str, assertions: F) {
    let mut p = Parser::new(Lexer::new(input.as_bytes()));
    let prog = p.parse();
    if let Ok(p) = prog {
        assertions(&p.stmts);
    } else {
        log_errors(&p.errors);
        panic!();
    }
}

#[test]
fn parser_test_let_stmts() {
    let input = "let x = 5;
let y = 10;
";
    assert_prog(input, |stmts| {
        assert_let_stmt(&stmts[0], b"x", |e| assert_int_literal(e, 5));
        assert_let_stmt(&stmts[1], b"y", |e| assert_int_literal(e, 10));
    })
}

#[test]
fn test_return_stmts() {
    let input = "return 10;
return 2 * 3;
";
    assert_prog(input, |stmts| {
        assert_return_stmt(&stmts[0], |e| assert_int_literal(e, 10));
        assert_return_stmt(&stmts[1], |e| {
            assert_infix_expr(
                e,
                b"*",
                |e| assert_int_literal(e, 2),
                |e| assert_int_literal(e, 3),
            )
        });
    })
}

#[test]
fn parser_test_errors() {
    let input = "
            let x 5;
            let = 10;
            let 123;
            ";

    let mut p = Parser::new(Lexer::new(input.as_bytes()));
    let prog = p.parse();
    assert!(!prog.is_ok());
    log_errors(&prog.err().unwrap());
    assert!(p.errors.len() == 3);
}

#[test]
fn test_display() {
    let a = Stmt::Let {
        token: Token::new(TokenType::LET, b"let"),
        name: Expr::Identifier {
            token: Token::new(TokenType::IDENT, b"x"),
            value: b"x",
        },
        value: Expr::Identifier {
            token: Token::new(TokenType::IDENT, b"y"),
            value: b"y",
        },
    };
    println!("{}", a.to_string());
    assert_eq!(a.to_string(), "let x = y;");
}

#[test]
fn test_expr_stmt() {
    let input = "foobar;";
    assert_prog(input, |stmts| {
        assert_eq!(stmts.len(), 1);
        assert!(matches!(stmts[0], Stmt::Expr { expr: Expr::Identifier { token, .. } } if token.literal == b"foobar"));
    });
}

#[test]
fn parser_test_int_expr() {
    let input = "123";
    assert_prog(input, |stmts| {
        assert_eq!(stmts.len(), 1);
        assert!(matches!(stmts[0], Stmt::Expr { expr: Expr::IntLiteral { value, .. } } if value == 123_i64));
    });
}

#[test]
fn test_prefix_expr() {
    let inputs = [("!5", b"!", 5 as i64), ("-10", b"-", 10 as i64)];
    for (input, eop, eexpr) in inputs {
        assert_prog(input, |stmts| {
            assert_eq!(stmts.len(), 1);
            if let Some(Stmt::Expr { expr }) = stmts.first() {
                if let Expr::Prefix { op, expr, .. } = expr {
                    assert_eq!(op, eop);
                    assert!(matches!(**expr, Expr::IntLiteral { value, .. } if value == eexpr));
                } else {
                    println!("expr doesn't match");
                    panic!()
                }
            }
        });
    }
}

#[test]
fn test_infix_expr() {
    let inputs = [
        ("5 + 5;", 5, "+", 5),
        ("5 - 5;", 5, "-", 5),
        ("5 * 5;", 5, "*", 5),
        ("5 / 5;", 5, "/", 5),
        ("5 > 5;", 5, ">", 5),
        ("5 < 5;", 5, "<", 5),
        ("5 == 5;", 5, "==", 5),
        ("5 != 5;", 5, "!=", 5),
    ];
    for (input, eleft, eop, eright) in inputs {
        assert_prog(input, |stmts| {
            if let Some(Stmt::Expr { expr }) = stmts.first() {
                if let Expr::Infix {
                    op, left, right, ..
                } = expr
                {
                    assert_eq!(op, &eop.as_bytes());
                    assert_int_literal(left, eleft);
                    assert_int_literal(right, eright);
                } else {
                    panic!()
                }
            }
        });
    }
}

#[test]
fn test_complex_expr() {
    let inputs = [
        ("-a * b", "((-a) * b)"),
        ("!-a", "(!(-a))"),
        ("a + b + c", "((a + b) + c)"),
        ("a * b * c", "((a * b) * c)"),
        ("a * b / c", "((a * b) / c)"),
        ("a + b / c", "(a + (b / c))"),
        ("a + b * c + d / e - f", "(((a + (b * c)) + (d / e)) - f)"),
        ("5 < 4 != 3 < 4", "((5 < 4) != (3 < 4))"),
        (
            "3 + 4 * 5 == 3 * 1 + 4 * 5",
            "((3 + (4 * 5)) == ((3 * 1) + (4 * 5)))",
        ),
        ("a + add(b * c) + d", "((a + add((b * c))) + d)"),
        (
            "add(a, b, 1, 2 * 3, 4 + 5, add(6, 7 * 8))",
            "add(a, b, 1, (2 * 3), (4 + 5), add(6, (7 * 8)))",
        ),
        (
            "add(a + b + c * d / f + g)",
            "add((((a + b) + ((c * d) / f)) + g))",
        ),
    ];
    for (i, o) in inputs {
        assert_prog(i, |stmts| {
            assert_eq!(o, stmts[0].to_string());
        })
    }
}

#[test]
fn test_bool_literal() {
    let inputs = [
        ("true", "true"),
        ("false", "false"),
        ("3 > 5 == false", "((3 > 5) == false)"),
        ("3 < 5 == true", "((3 < 5) == true)"),
    ];
    for (i, o) in inputs {
        assert_prog(i, |stmts| {
            assert_eq!(o, stmts[0].to_string());
        })
    }
}

#[test]
fn test_group_expr() {
    let inputs = [
        ("1 + (2 + 3) + 4", "((1 + (2 + 3)) + 4)"),
        ("(5 + 5) * 2", "((5 + 5) * 2)"),
        ("2 / (5 + 5)", "(2 / (5 + 5))"),
        ("-(5 + 5)", "(-(5 + 5))"),
        ("!(true == true)", "(!(true == true))"),
    ];
    for (i, o) in inputs {
        assert_prog(i, |stmts| {
            assert_eq!(o, stmts[0].to_string());
        })
    }
}

#[test]
fn test_if_expr() {
    let input = "if (x < y) { x }";
    assert_prog(input, |stmts| match &stmts[0] {
        Stmt::Expr { expr } => match expr {
            Expr::If {
                condition,
                consequence,
                alternative,
                ..
            } => {
                assert_infix_expr(
                    &condition,
                    b"<",
                    |e| assert_ident(e, b"x"),
                    |e| assert_ident(e, b"y"),
                );

                assert_block_stmt(&consequence, |e| assert_ident(e, b"x"));
                assert!(alternative.is_none());
            }
            _ => panic!("not an If expr, got {:?}", expr),
        },
        _ => panic!("not an expr"),
    })
}

#[test]
fn test_if_else_expr() {
    let input = "if (x < y) { x } else { y }";
    assert_prog(input, |stmts| match &stmts[0] {
        Stmt::Expr { expr } => match expr {
            Expr::If {
                condition,
                consequence,
                alternative,
                ..
            } => {
                assert_infix_expr(
                    &condition,
                    b"<",
                    |e| assert_ident(e, b"x"),
                    |e| assert_ident(e, b"y"),
                );

                assert_block_stmt(&consequence, |e| assert_ident(e, b"x"));
                assert_block_stmt(alternative.as_deref().unwrap(), |e| assert_ident(e, b"y"));
            }
            _ => panic!("not an If expr, got {:?}", expr),
        },
        _ => panic!("not an expr"),
    })
}

#[test]
fn test_fn_literal() {
    let input = "fn(x,y) { x + y; }";

    assert_prog(input, |stmts| {
        assert_expr_stmt(&stmts[0], |s| match s {
            Expr::FnLiteral {
                parameters,
                block,
                ..
            } => {
                assert_eq!(parameters.len(), 2);
                assert_ident(&parameters[0], b"x");
                assert_ident(&parameters[1], b"y");
                match block.as_ref() {
                    Stmt::Block { stmts, .. } => assert_expr_stmt(&stmts[0], |s| {
                        assert_infix_expr(
                            s,
                            b"+",
                            |e| assert_ident(e, b"x"),
                            |e| assert_ident(e, b"y"),
                        );
                    }),
                    _ => panic!("not a block statement"),
                }
            }
            _ => panic!("not a fn literal"),
        });
    })
}

#[test]
fn test_fn_params() {
    let inputs: [(&str, Vec<&[u8]>); 3] = [
        ("fn() {};", vec![]),
        ("fn(x) {};", vec![b"x"]),
        ("fn(x,y,z) {};", vec![b"x", b"y", b"z"]),
    ];
    for (input, eparams) in inputs {
        assert_prog(input, |stmts| {
            assert_expr_stmt(&stmts[0], |s| match s {
                Expr::FnLiteral { parameters, .. } => {
                    for i in 0..eparams.len() {
                        assert_ident(&parameters[i], eparams[i]);
                    }
                }
                _ => panic!("not a fn literal"),
            })
        })
    }
}

#[test]
fn test_fn_call() {
    let input = "add(1, 2 * 3, 4 + 5);";
    assert_prog(input, |stmts| {
        assert_expr_stmt(&stmts[0], |s| match s {
            Expr::Call {
                arguments,
                function,
                ..
            } => {
                assert_ident(function, b"add");
                assert_int_literal(&arguments[0], 1);
                assert_infix_expr(
                    &arguments[1],
                    b"*",
                    |e| assert_int_literal(e, 2),
                    |e| assert_int_literal(e, 3),
                );
                assert_infix_expr(
                    &arguments[2],
                    b"+",
                    |e| assert_int_literal(e, 4),
                    |e| assert_int_literal(e, 5),
                );
            }
            _ => panic!("not a call expr"),
        })
    })
}

#[test]
fn parser_error_messages_name_both_categories() {
    let mut p = Parser::new(Lexer::new(b"let x 5; let = 10; let 123;"));
    let errors = p.parse().err().unwrap();
    assert_eq!(
        errors,
        vec![
            "expected next token to be ASSIGN, instead got INT".to_string(),
            "expected next token to be IDENT, instead got ASSIGN".to_string(),
            "expected next token to be IDENT, instead got INT".to_string(),
        ]
    );
}

#[test]
fn parser_missing_paren_is_an_error() {
    let mut p = Parser::new(Lexer::new(b"(1 + 2"));
    let errors = p.parse().err().unwrap();
    assert_eq!(errors, vec!["expected next token to be RPAREN, instead got EOF".to_string()]);
}

#[test]
fn parser_dangling_operator_drops_statement() {
    let mut p = Parser::new(Lexer::new(b"5 +; 7"));
    let prog = p.parse().ok().unwrap();
    assert_eq!(prog.stmts.len(), 1);
    assert_eq!(prog.stmts[0].to_string(), "7");
}

#[test]
fn parser_empty_input_gives_empty_program() {
    let mut p = Parser::new(Lexer::new(b""));
    let prog = p.parse().ok().unwrap();
    assert_eq!(prog.stmts.len(), 0);
}

#[test]
fn parser_too_large_literal_is_dropped() {
    let mut p = Parser::new(Lexer::new(b"99999999999999999999; 9223372036854775807"));
    let prog = p.parse().ok().unwrap();
    assert_eq!(prog.stmts.len(), 1);
    assert!(matches!(prog.stmts[0], Stmt::Expr { expr: Expr::IntLiteral { value, .. } } if value == i64::MAX));
}

#[test]
fn display_of_if_fn_and_return() {
    let cases = [
        ("if (a) { b } else { c }", "if a b else c)"),
        ("if (a) { b; c }", "if a bc)"),
        ("fn(x, y) { x + y }", "fn (x, y) (x + y)"),
        ("return a + b;", "return (a + b);"),
        ("f()", "f()"),
    ];
    for (i, o) in cases {
        assert_prog(i, |stmts| {
            assert_eq!(o, stmts[0].to_string());
        })
    }
}

#[test]
fn node_display_shows_its_content() {
    let n = Node::Expr(Expr::IntLiteral {
        token: Token::new(TokenType::INT, b"42"),
        value: 42,
    });
    assert_eq!(n.to_string(), "42");
    let m = Node::Stmt(Stmt::Return {
        token: Token::new(TokenType::RETURN, b"return"),
        value: Expr::Identifier {
            token: Token::new(TokenType::IDENT, b"x"),
            value: b"x",
        },
    });
    assert_eq!(m.to_string(), "return x;");
}
