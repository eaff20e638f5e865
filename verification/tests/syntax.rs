use cacom::ast::{Expr, ExprType, Located, Opcode, Stmt, StmtType};
use cacom::lexer::{lex, slice, ParseError, ParseErrorKind, Token, TokenKind};
use cacom::parser::{parse_expr, parse_item, parse_program, statement, Item, TopLevelParser};
use cacom::utils::Location;

fn parse(source: &str) -> Vec<Stmt> {
    match TopLevelParser::new().parse(source).expect("the source is a program").node {
        StmtType::Top(stmts) => stmts,
        other => panic!("no program: {:?}", other),
    }
}

fn error(source: &str) -> ParseError {
    TopLevelParser::new().parse(source).expect_err("the source is no program")
}

fn kinds(source: &str) -> Vec<TokenKind<String>> {
    lex(source).unwrap().into_iter().map(|t| t.kind).collect()
}

fn number(value: i32, begin: usize, end: usize) -> Expr {
    Located { node: ExprType::Integer(value), location: Location(begin, end) }
}

fn variable(name: &str, begin: usize, end: usize) -> Expr {
    Located { node: ExprType::AccessVariable { name: String::from(name) }, location: Location(begin, end) }
}

fn op(op: Opcode, arguments: Vec<Expr>, begin: usize, end: usize) -> Expr {
    Located { node: ExprType::Operator { op, arguments }, location: Location(begin, end) }
}

fn expression(e: Expr) -> Stmt {
    let location = e.location;
    Located { node: StmtType::Expression(e), location }
}

#[test]
fn tokens_of_every_kind() {
    assert_eq!(
        kinds("val var def class if elif else while return true false none"),
        vec![
            TokenKind::Val,
            TokenKind::Var,
            TokenKind::Def,
            TokenKind::Class,
            TokenKind::If,
            TokenKind::Elif,
            TokenKind::Else,
            TokenKind::While,
            TokenKind::Return,
            TokenKind::True,
            TokenKind::False,
            TokenKind::Nothing,
        ]
    );
    assert_eq!(
        kinds("+ - * / % < <= > >= == != = ( ) { } [ ] , ; ."),
        vec![
            TokenKind::Plus,
            TokenKind::Minus,
            TokenKind::Star,
            TokenKind::Slash,
            TokenKind::Percent,
            TokenKind::Less,
            TokenKind::LessEq,
            TokenKind::Greater,
            TokenKind::GreaterEq,
            TokenKind::EqualEqual,
            TokenKind::NotEqual,
            TokenKind::Assign,
            TokenKind::LeftParen,
            TokenKind::RightParen,
            TokenKind::LeftBrace,
            TokenKind::RightBrace,
            TokenKind::LeftBracket,
            TokenKind::RightBracket,
            TokenKind::Comma,
            TokenKind::Semicolon,
            TokenKind::Dot,
        ]
    );
    assert_eq!(
        kinds("x1 _y valx 12 \"a b\" \"\""),
        vec![
            TokenKind::Identifier(String::from("x1")),
            TokenKind::Identifier(String::from("_y")),
            TokenKind::Identifier(String::from("valx")),
            TokenKind::Integer(12),
            TokenKind::Text(String::from("a b")),
            TokenKind::Text(String::new()),
        ]
    );
    assert_eq!(kinds("<==>=!="), vec![
        TokenKind::LessEq,
        TokenKind::Assign,
        TokenKind::GreaterEq,
        TokenKind::NotEqual,
    ]);
    assert_eq!(kinds(" \t\r\n"), vec![]);
    assert_eq!(kinds(""), vec![]);
}

#[test]
fn tokens_carry_their_bytes() {
    assert_eq!(
        lex("ab  \"h\u{e9}\" 7;").unwrap(),
        vec![
            Token { kind: TokenKind::Identifier(String::from("ab")), location: Location(0, 2) },
            Token { kind: TokenKind::Text(String::from("h\u{e9}")), location: Location(4, 9) },
            Token { kind: TokenKind::Integer(7), location: Location(10, 11) },
            Token { kind: TokenKind::Semicolon, location: Location(11, 12) },
        ]
    );
}

#[test]
fn numbers_up_to_the_largest() {
    assert_eq!(kinds("2147483647"), vec![TokenKind::Integer(2147483647)]);
    assert_eq!(kinds("0007"), vec![TokenKind::Integer(7)]);
    assert_eq!(
        lex("1 2147483648"),
        Err(ParseError { kind: ParseErrorKind::IntegerOverflow, position: 2 })
    );
    assert_eq!(
        lex("99999999999999999999"),
        Err(ParseError { kind: ParseErrorKind::IntegerOverflow, position: 0 })
    );
    assert_eq!(kinds("1.5"), vec![TokenKind::Integer(1), TokenKind::Dot, TokenKind::Integer(5)]);
}

#[test]
fn what_is_no_token() {
    assert_eq!(lex("a # b"), Err(ParseError { kind: ParseErrorKind::UnexpectedCharacter, position: 2 }));
    assert_eq!(lex("!"), Err(ParseError { kind: ParseErrorKind::UnexpectedCharacter, position: 0 }));
    assert_eq!(lex("\u{e9}"), Err(ParseError { kind: ParseErrorKind::UnexpectedCharacter, position: 0 }));
    assert_eq!(lex("x \"abc"), Err(ParseError { kind: ParseErrorKind::UnterminatedString, position: 2 }));
}

#[test]
fn slices_lie_between_characters() {
    assert_eq!(slice("h\u{e9}llo", 0, 3), Some("h\u{e9}"));
    assert_eq!(slice("h\u{e9}llo", 3, 6), Some("llo"));
    assert_eq!(slice("h\u{e9}llo", 1, 1), Some(""));
    assert_eq!(slice("h\u{e9}llo", 0, 2), None);
    assert_eq!(slice("h\u{e9}llo", 2, 3), None);
    assert_eq!(slice("abc", 2, 1), None);
    assert_eq!(slice("abc", 0, 4), None);
}

#[test]
fn products_bind_tighter_than_sums() {
    assert_eq!(
        parse("1 + 2 * 3"),
        vec![expression(op(
            Opcode::Add,
            vec![number(1, 0, 1), op(Opcode::Mul, vec![number(2, 4, 5), number(3, 8, 9)], 4, 9)],
            0,
            9
        ))]
    );
    assert_eq!(
        parse("(1 + 2) * 3"),
        vec![expression(op(
            Opcode::Mul,
            vec![op(Opcode::Add, vec![number(1, 1, 2), number(2, 5, 6)], 1, 6), number(3, 10, 11)],
            1,
            11
        ))]
    );
}

#[test]
fn operators_associate_to_the_left() {
    assert_eq!(
        parse("1 - 2 - 3"),
        vec![expression(op(
            Opcode::Sub,
            vec![op(Opcode::Sub, vec![number(1, 0, 1), number(2, 4, 5)], 0, 5), number(3, 8, 9)],
            0,
            9
        ))]
    );
    assert_eq!(
        parse("1 < 2 == true"),
        vec![expression(op(
            Opcode::Eq,
            vec![
                op(Opcode::Less, vec![number(1, 0, 1), number(2, 4, 5)], 0, 5),
                Located { node: ExprType::Bool(true), location: Location(9, 13) },
            ],
            0,
            13
        ))]
    );
}

#[test]
fn negation_nests() {
    assert_eq!(
        parse("1 - --1"),
        vec![expression(op(
            Opcode::Sub,
            vec![
                number(1, 0, 1),
                op(Opcode::Negate, vec![op(Opcode::Negate, vec![number(1, 6, 7)], 5, 7)], 4, 7),
            ],
            0,
            7
        ))]
    );
}

#[test]
fn every_operator_is_read() {
    for (text, opcode) in [
        ("+", Opcode::Add),
        ("-", Opcode::Sub),
        ("*", Opcode::Mul),
        ("/", Opcode::Div),
        ("%", Opcode::Mod),
        ("<", Opcode::Less),
        ("<=", Opcode::LessEq),
        (">", Opcode::Greater),
        (">=", Opcode::GreaterEq),
        ("==", Opcode::Eq),
        ("!=", Opcode::Neq),
    ] {
        let source = format!("a {} b", text);
        let end = 4 + text.len();
        assert_eq!(
            parse(&source),
            vec![expression(op(opcode, vec![variable("a", 0, 1), variable("b", end - 1, end)], 0, end))]
        );
    }
}

#[test]
fn blocks_and_their_values() {
    let none = |begin, end| Located { node: ExprType::NoneVal, location: Location(begin, end) };
    assert_eq!(
        parse("{}"),
        vec![expression(Located {
            node: ExprType::Block(vec![], Box::new(none(1, 2))),
            location: Location(0, 2),
        })]
    );
    assert_eq!(
        parse("{1;2}"),
        vec![expression(Located {
            node: ExprType::Block(vec![expression(number(1, 1, 2))], Box::new(number(2, 3, 4))),
            location: Location(0, 5),
        })]
    );
    assert_eq!(
        parse("{val x = 5;}"),
        vec![expression(Located {
            node: ExprType::Block(
                vec![Located {
                    node: StmtType::Variable {
                        name: String::from("x"),
                        mutable: false,
                        value: number(5, 9, 10),
                    },
                    location: Location(1, 10),
                }],
                Box::new(none(11, 12)),
            ),
            location: Location(0, 12),
        })]
    );
}

#[test]
fn statements_of_a_program() {
    assert_eq!(
        TopLevelParser::new().parse("var x = 1; x = 2").unwrap(),
        Located {
            node: StmtType::Top(vec![
                Located {
                    node: StmtType::Variable {
                        name: String::from("x"),
                        mutable: true,
                        value: number(1, 8, 9),
                    },
                    location: Location(0, 9),
                },
                Located {
                    node: StmtType::AssignVariable { name: String::from("x"), value: number(2, 15, 16) },
                    location: Location(11, 16),
                },
            ]),
            location: Location(0, 16),
        }
    );
    assert_eq!(
        TopLevelParser::new().parse("").unwrap(),
        Located { node: StmtType::Top(vec![]), location: Location(0, 0) }
    );
    assert_eq!(parse("1;"), vec![expression(number(1, 0, 1))]);
    assert_eq!(parse("1;2"), vec![expression(number(1, 0, 1)), expression(number(2, 2, 3))]);
}

#[test]
fn functions_and_calls() {
    assert_eq!(
        parse("def f(a, b) = g(a, 1)"),
        vec![Located {
            node: StmtType::Function {
                name: String::from("f"),
                parameters: vec![String::from("a"), String::from("b")],
                body: Located {
                    node: ExprType::CallFunction {
                        name: String::from("g"),
                        arguments: vec![variable("a", 16, 17), number(1, 19, 20)],
                    },
                    location: Location(14, 21),
                },
            },
            location: Location(0, 21),
        }]
    );
    assert_eq!(
        parse("f()"),
        vec![expression(Located {
            node: ExprType::CallFunction { name: String::from("f"), arguments: vec![] },
            location: Location(0, 3),
        })]
    );
    assert_eq!(
        parse("def f() = 1"),
        vec![Located {
            node: StmtType::Function { name: String::from("f"), parameters: vec![], body: number(1, 10, 11) },
            location: Location(0, 11),
        }]
    );
}

#[test]
fn members_methods_and_elements() {
    let x = || variable("x", 0, 1);
    assert_eq!(
        parse("x.y.z"),
        vec![expression(Located {
            node: ExprType::MemberRead {
                left: Box::new(Located {
                    node: ExprType::MemberRead { left: Box::new(x()), right: String::from("y") },
                    location: Location(0, 3),
                }),
                right: String::from("z"),
            },
            location: Location(0, 5),
        })]
    );
    assert_eq!(
        parse("x.f(1)"),
        vec![expression(Located {
            node: ExprType::MethodCall {
                left: Box::new(x()),
                name: String::from("f"),
                arguments: vec![number(1, 4, 5)],
            },
            location: Location(0, 6),
        })]
    );
    assert_eq!(
        parse("x[1]"),
        vec![expression(Located {
            node: ExprType::AccessList {
                list: Box::new(expression(x())),
                index: Box::new(expression(number(1, 2, 3))),
            },
            location: Location(0, 4),
        })]
    );
    assert_eq!(
        parse("x.y = 1"),
        vec![Located {
            node: StmtType::MemberStore { left: x(), right: String::from("y"), val: number(1, 6, 7) },
            location: Location(0, 7),
        }]
    );
    assert_eq!(
        parse("x[1] = 2"),
        vec![Located {
            node: StmtType::AssignList { list: x(), index: number(1, 2, 3), value: number(2, 7, 8) },
            location: Location(0, 8),
        }]
    );
}

#[test]
fn conditionals_and_their_branches() {
    let block = |value: Expr, begin, end| Located {
        node: ExprType::Block(vec![], Box::new(value)),
        location: Location(begin, end),
    };
    assert_eq!(
        parse("if (1) {2}"),
        vec![expression(Located {
            node: ExprType::Conditional {
                guard: Box::new(number(1, 4, 5)),
                then_branch: Box::new(block(number(2, 8, 9), 7, 10)),
                else_branch: None,
            },
            location: Location(0, 10),
        })]
    );
    assert_eq!(
        parse("if a {1} elif b {2} else {3}"),
        vec![expression(Located {
            node: ExprType::Conditional {
                guard: Box::new(variable("a", 3, 4)),
                then_branch: Box::new(block(number(1, 6, 7), 5, 8)),
                else_branch: Some(Box::new(Located {
                    node: ExprType::Conditional {
                        guard: Box::new(variable("b", 14, 15)),
                        then_branch: Box::new(block(number(2, 17, 18), 16, 19)),
                        else_branch: Some(Box::new(block(number(3, 26, 27), 25, 28))),
                    },
                    location: Location(9, 28),
                })),
            },
            location: Location(0, 28),
        })]
    );
}

#[test]
fn classes_loops_and_returns() {
    assert_eq!(
        parse("class C { def m() = 1; };"),
        vec![Located {
            node: StmtType::Class {
                name: String::from("C"),
                statements: vec![Located {
                    node: StmtType::Function {
                        name: String::from("m"),
                        parameters: vec![],
                        body: number(1, 20, 21),
                    },
                    location: Location(10, 21),
                }],
            },
            location: Location(0, 24),
        }]
    );
    assert_eq!(
        parse("while x { return 1; }"),
        vec![Located {
            node: StmtType::While {
                guard: variable("x", 6, 7),
                body: Box::new(expression(Located {
                    node: ExprType::Block(
                        vec![Located {
                            node: StmtType::Return(number(1, 17, 18)),
                            location: Location(10, 18),
                        }],
                        Box::new(Located { node: ExprType::NoneVal, location: Location(20, 21) }),
                    ),
                    location: Location(8, 21),
                })),
            },
            location: Location(0, 21),
        }]
    );
}

#[test]
fn what_is_no_program() {
    assert_eq!(error("1 % +"), ParseError { kind: ParseErrorKind::UnexpectedToken, position: 4 });
    assert_eq!(error("1 +"), ParseError { kind: ParseErrorKind::UnexpectedEnd, position: 3 });
    assert_eq!(error("{val x = 5}"), ParseError { kind: ParseErrorKind::UnexpectedToken, position: 10 });
    assert_eq!(error("val x"), ParseError { kind: ParseErrorKind::UnexpectedEnd, position: 5 });
    assert_eq!(error("val 1 = 2"), ParseError { kind: ParseErrorKind::UnexpectedToken, position: 4 });
    assert_eq!(error("if(1) 1"), ParseError { kind: ParseErrorKind::UnexpectedToken, position: 6 });
    assert_eq!(error("1 2"), ParseError { kind: ParseErrorKind::UnexpectedToken, position: 2 });
    assert_eq!(error("f(1,"), ParseError { kind: ParseErrorKind::UnexpectedEnd, position: 4 });
    assert_eq!(error("f(1 2)"), ParseError { kind: ParseErrorKind::UnexpectedToken, position: 4 });
    assert_eq!(error("(1"), ParseError { kind: ParseErrorKind::UnexpectedEnd, position: 2 });
    assert_eq!(error("x[1"), ParseError { kind: ParseErrorKind::UnexpectedEnd, position: 3 });
    assert_eq!(error("x."), ParseError { kind: ParseErrorKind::UnexpectedEnd, position: 2 });
    assert_eq!(error("def f(a b) = 1"), ParseError { kind: ParseErrorKind::UnexpectedToken, position: 8 });
    assert_eq!(error("class C { 1 }"), ParseError { kind: ParseErrorKind::UnexpectedToken, position: 12 });
    assert_eq!(error("1 = 2"), ParseError { kind: ParseErrorKind::InvalidTarget, position: 0 });
    assert_eq!(error("f() = 2"), ParseError { kind: ParseErrorKind::InvalidTarget, position: 0 });
    assert_eq!(error("return"), ParseError { kind: ParseErrorKind::UnexpectedEnd, position: 6 });
    assert_eq!(error("x = \"a"), ParseError { kind: ParseErrorKind::UnterminatedString, position: 4 });
}

#[test]
fn parts_of_the_parser() {
    let tokens = lex("1 + 2; x").unwrap();
    let (e, next) = parse_expr(&tokens, 0, 8).unwrap();
    assert_eq!(e, op(Opcode::Add, vec![number(1, 0, 1), number(2, 4, 5)], 0, 5));
    assert_eq!(next, 3);
    match parse_item(&tokens, 4, 8).unwrap() {
        (Item::Expression(e), next) => {
            assert_eq!(e, variable("x", 7, 8));
            assert_eq!(next, 5);
            assert_eq!(statement(Item::Expression(e)), expression(variable("x", 7, 8)));
        }
        _ => panic!("no expression"),
    }
    assert_eq!(
        parse_expr(&tokens, 3, 8).unwrap_err(),
        ParseError { kind: ParseErrorKind::UnexpectedToken, position: 5 }
    );
    assert_eq!(
        parse_expr(&tokens, 5, 8).unwrap_err(),
        ParseError { kind: ParseErrorKind::UnexpectedEnd, position: 8 }
    );
    assert_eq!(
        parse_program(&tokens, 8).unwrap(),
        Located {
            node: StmtType::Top(vec![
                expression(op(Opcode::Add, vec![number(1, 0, 1), number(2, 4, 5)], 0, 5)),
                expression(variable("x", 7, 8)),
            ]),
            location: Location(0, 8),
        }
    );
}
