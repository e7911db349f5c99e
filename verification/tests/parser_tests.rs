use langc::expression::{parse_class_instantiation, Expression};
use langc::parser::{parse, ParseError, Parser};
use langc::tokens::{Token, TokenKind};
use langc::types::Type;

fn lex(src: &str) -> Vec<Token> {
    langc::lexer::tokenize(
        src.to_string(),
        vec![TokenKind::WhiteSpace, TokenKind::Comment, TokenKind::NextLine],
    )
    .expect("lexing failed")
}

fn parse_src(src: &str) -> Vec<Expression> {
    parse(lex(src)).expect("parsing failed")
}

fn parse_err(src: &str) -> ParseError {
    parse(lex(src)).unwrap_err()
}

fn op(kind: TokenKind, value: &str) -> Token {
    Token { kind, value: value.to_string(), line: 0 }
}

fn num(text: &str) -> Box<Expression> {
    Box::new(Expression::Number(text.to_string()))
}

fn ident(name: &str) -> Box<Expression> {
    Box::new(Expression::Identifier(name.to_string()))
}

#[test]
fn parse_empty_program() {
    assert_eq!(parse_src(""), Vec::new());
}

#[test]
fn parse_precedence() {
    let got = parse_src("1 + 2 * 3");
    let expected = Expression::Binary {
        l: num("1"),
        operator: op(TokenKind::Plus, "+"),
        r: Box::new(Expression::Binary {
            l: num("2"),
            operator: op(TokenKind::Star, "*"),
            r: num("3"),
        }),
    };
    assert_eq!(got, vec![expected]);
}

#[test]
fn parse_left_associativity() {
    let got = parse_src("1 - 2 - 3");
    let expected = Expression::Binary {
        l: Box::new(Expression::Binary {
            l: num("1"),
            operator: op(TokenKind::Minus, "-"),
            r: num("2"),
        }),
        operator: op(TokenKind::Minus, "-"),
        r: num("3"),
    };
    assert_eq!(got, vec![expected]);
}

#[test]
fn parse_declaration_scenario() {
    let got = parse_src("let mut i32 x = 1+2;");
    let expected = vec![
        Expression::Assignment {
            target: Box::new(Expression::VariableDeclaration {
                var_type: Type::Symbol("i32".to_string()),
                name: "x".to_string(),
                mutable: true,
            }),
            operator: op(TokenKind::Assignment, "="),
            value: Box::new(Expression::Binary {
                l: num("1"),
                operator: op(TokenKind::Plus, "+"),
                r: num("2"),
            }),
        },
        Expression::Keyword(TokenKind::SemiColon),
    ];
    assert_eq!(got, expected);
}

#[test]
fn parse_immutable_declaration() {
    let got = parse_src("let str s = t;");
    let expected = vec![
        Expression::Assignment {
            target: Box::new(Expression::VariableDeclaration {
                var_type: Type::Symbol("str".to_string()),
                name: "s".to_string(),
                mutable: false,
            }),
            operator: op(TokenKind::Assignment, "="),
            value: ident("t"),
        },
        Expression::Keyword(TokenKind::SemiColon),
    ];
    assert_eq!(got, expected);
}

#[test]
fn parse_grouping_binds_tightest() {
    let got = parse_src("(1 + 2) * 3");
    let expected = Expression::Binary {
        l: Box::new(Expression::Grouping(Box::new(Expression::Binary {
            l: num("1"),
            operator: op(TokenKind::Plus, "+"),
            r: num("2"),
        }))),
        operator: op(TokenKind::Star, "*"),
        r: num("3"),
    };
    assert_eq!(got, vec![expected]);
}

#[test]
fn parse_prefix_minus() {
    let got = parse_src("-5");
    let expected = Expression::Prefix { prefix: op(TokenKind::Minus, "-"), value: num("5") };
    assert_eq!(got, vec![expected]);
}

#[test]
fn parse_if_statement() {
    let got = parse_src("if x < 2 { y; }");
    let expected = Expression::If {
        condition: Box::new(Expression::Binary {
            l: ident("x"),
            operator: op(TokenKind::Less, "<"),
            r: num("2"),
        }),
        inside: vec![
            Expression::Identifier("y".to_string()),
            Expression::Keyword(TokenKind::SemiColon),
        ],
    };
    assert_eq!(got, vec![expected]);
}

#[test]
fn parse_while_statement() {
    let got = parse_src("while x { y; }");
    let expected = Expression::While {
        condition: ident("x"),
        inside: vec![
            Expression::Identifier("y".to_string()),
            Expression::Keyword(TokenKind::SemiColon),
        ],
    };
    assert_eq!(got, vec![expected]);
}

#[test]
fn parse_for_over_range() {
    let got = parse_src("for i in 0..5{x;}");
    let expected = Expression::For {
        iterator_name: "i".to_string(),
        iteration_target: Box::new(Expression::Range { from: num("0"), to: num("5") }),
        inside: vec![
            Expression::Identifier("x".to_string()),
            Expression::Keyword(TokenKind::SemiColon),
        ],
    };
    assert_eq!(got, vec![expected]);
}

#[test]
fn parse_for_over_identifier() {
    let got = parse_src("for i in xs{y;}");
    let expected = Expression::For {
        iterator_name: "i".to_string(),
        iteration_target: ident("xs"),
        inside: vec![
            Expression::Identifier("y".to_string()),
            Expression::Keyword(TokenKind::SemiColon),
        ],
    };
    assert_eq!(got, vec![expected]);
}

#[test]
fn parse_function_full() {
    let got = parse_src("fn pub add(a i32, b i32) -> i32 { return a + b; }");
    let expected = Expression::Function {
        name: "add".to_string(),
        properties: vec![
            Expression::FunctionProperty {
                var_name: "a".to_string(),
                var_type: Type::Symbol("i32".to_string()),
            },
            Expression::FunctionProperty {
                var_name: "b".to_string(),
                var_type: Type::Symbol("i32".to_string()),
            },
        ],
        public: true,
        output: Some(Type::Symbol("i32".to_string())),
        inside: vec![
            Expression::Return {
                value: Box::new(Expression::Binary {
                    l: ident("a"),
                    operator: op(TokenKind::Plus, "+"),
                    r: ident("b"),
                }),
            },
            Expression::Keyword(TokenKind::SemiColon),
        ],
    };
    assert_eq!(got, vec![expected]);
}

#[test]
fn parse_function_private_no_output() {
    let got = parse_src("fn f() { }");
    let expected = Expression::Function {
        name: "f".to_string(),
        properties: Vec::new(),
        public: false,
        output: None,
        inside: Vec::new(),
    };
    assert_eq!(got, vec![expected]);
}

#[test]
fn parse_class_with_properties() {
    let got = parse_src("class pub Point { i32 x; str name; }");
    let expected = Expression::Class {
        public: true,
        name: "Point".to_string(),
        properties: vec![
            Expression::ClassProperty {
                var_name: "x".to_string(),
                var_type: Type::Symbol("i32".to_string()),
            },
            Expression::ClassProperty {
                var_name: "name".to_string(),
                var_type: Type::Symbol("str".to_string()),
            },
        ],
        functions: Vec::new(),
    };
    assert_eq!(got, vec![expected]);
}

#[test]
fn parse_array_initialization_statement() {
    let got = parse_src("{1;2;}");
    let expected = Expression::ArrayInitialization {
        properties: vec![
            Expression::Number("1".to_string()),
            Expression::Keyword(TokenKind::SemiColon),
            Expression::Number("2".to_string()),
            Expression::Keyword(TokenKind::SemiColon),
        ],
    };
    assert_eq!(got, vec![expected]);
}

#[test]
fn parse_member_access() {
    let got = parse_src("a.b");
    let expected = Expression::MemberExpr { member: ident("a"), name: "b".to_string() };
    assert_eq!(got, vec![expected]);
}

#[test]
fn parse_array_type_with_dimensions() {
    let got = parse_src("let i32[,] m = n;");
    let expected = vec![
        Expression::Assignment {
            target: Box::new(Expression::VariableDeclaration {
                var_type: Type::Array {
                    left_type: Box::new(Type::Symbol("i32".to_string())),
                    dimensions: 1,
                },
                name: "m".to_string(),
                mutable: false,
            }),
            operator: op(TokenKind::Assignment, "="),
            value: ident("n"),
        },
        Expression::Keyword(TokenKind::SemiColon),
    ];
    assert_eq!(got, expected);
}

#[test]
fn parse_not_equals_builds_assignment_node() {
    let got = parse_src("a != b");
    let expected = Expression::Assignment {
        target: ident("a"),
        operator: op(TokenKind::NotEquals, "!="),
        value: ident("b"),
    };
    assert_eq!(got, vec![expected]);
}

#[test]
fn parse_class_instantiation_direct() {
    let mut parser = Parser::new(lex("{1;}"));
    let got = parse_class_instantiation(
        &mut parser,
        0,
        Expression::Identifier("Point".to_string()),
    )
    .expect("parsing failed");
    let expected = Expression::ClassInstantiation {
        name: "Point".to_string(),
        properties: vec![
            Expression::Number("1".to_string()),
            Expression::Keyword(TokenKind::SemiColon),
        ],
    };
    assert_eq!(got, expected);
}

#[test]
fn parse_class_instantiation_rejects_non_identifier() {
    let mut parser = Parser::new(lex("{1;}"));
    let got = parse_class_instantiation(&mut parser, 0, Expression::Number("1".to_string()));
    assert_eq!(got, Err(ParseError::InvalidInstantiationTarget { at: 0 }));
}

#[test]
fn parse_error_missing_prefix_handler() {
    assert_eq!(parse_err("*5"), ParseError::MissingPrefixHandler(TokenKind::Star, 0));
}

#[test]
fn parse_error_missing_infix_handler_no_bp() {
    assert_eq!(parse_err("a ! b"), ParseError::MissingInfixHandler(TokenKind::Not, 1));
}

#[test]
fn parse_error_missing_infix_handler_no_rule() {
    assert_eq!(parse_err("a[0]"), ParseError::MissingInfixHandler(TokenKind::OpenBracket, 1));
}

#[test]
fn parse_error_unexpected_token() {
    assert_eq!(
        parse_err("fn 5"),
        ParseError::UnexpectedToken {
            expected: TokenKind::Identifier,
            found: TokenKind::Number,
            at: 1
        }
    );
}

#[test]
fn parse_error_class_body_entry() {
    assert_eq!(
        parse_err("class C { 5 }"),
        ParseError::UnexpectedToken {
            expected: TokenKind::Identifier,
            found: TokenKind::Number,
            at: 3
        }
    );
}

#[test]
fn parse_error_member_name_missing() {
    assert_eq!(
        parse_err("a.5"),
        ParseError::UnexpectedToken {
            expected: TokenKind::Identifier,
            found: TokenKind::Number,
            at: 2
        }
    );
}

#[test]
fn parse_array_type_counts_commas() {
    let got = parse_src("let i32[,,] m = n;");
    match &got[0] {
        Expression::Assignment { target, .. } => match target.as_ref() {
            Expression::VariableDeclaration { var_type, .. } => match var_type {
                Type::Array { dimensions, .. } => assert_eq!(*dimensions, 2),
                _ => panic!("expected an array type"),
            },
            _ => panic!("expected a declaration"),
        },
        _ => panic!("expected an assignment"),
    }
}

#[test]
fn parse_error_array_type_needs_closing_bracket() {
    assert_eq!(
        parse_err("let i32[5] x = y;"),
        ParseError::UnexpectedToken {
            expected: TokenKind::CloseBracket,
            found: TokenKind::Number,
            at: 3
        }
    );
}
