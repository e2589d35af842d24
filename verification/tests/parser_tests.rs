use tinylang::ast::{
    AstNode, Block, Expression, Id, Initialization, Num, Statement, WhileLoop,
};
use tinylang::lexer::{lex, Token};
use tinylang::tokens::Tokens;

#[test]
fn test_parse() {
    let tokens = vec![Token::Id {
        value: "some_id".into(),
        position: (0, 0),
    }];
    let mut tokens = Tokens::new(tokens);
    assert_eq!(
        Id::parse(&mut tokens),
        Ok(AstNode::Id(Id("some_id".into())))
    );
}

#[test]
fn test_error_on_non_id() {
    let tokens = vec![Token::Num {
        value: 3,
        position: (0, 0),
    }];
    let mut tokens = Tokens::new(tokens);
    assert!(Id::parse(&mut tokens).is_err());
}

#[test]
fn test_error_on_eof() {
    let tokens = vec![];
    let mut tokens = Tokens::new(tokens);
    assert!(Id::parse(&mut tokens).is_err());
}

#[test]
fn test_parse_id() {
    let tokens = vec![Token::Id {
        value: "some_id".into(),
        position: (0, 0),
    }];

    assert_eq!(
        Expression::parse(&mut Tokens::new(tokens)),
        Ok(AstNode::Expression(Expression::Id(Id("some_id".into()))))
    )
}

#[test]
fn test_parse_num() {
    let tokens = vec![Token::Num {
        value: 42,
        position: (0, 0),
    }];

    assert_eq!(
        Expression::parse(&mut Tokens::new(tokens)),
        Ok(AstNode::Expression(Expression::Num(Num(42))))
    )
}

fn num(value: u64) -> Token {
    Token::Num {
        value,
        position: (0, 0),
    }
}

fn plus() -> Token {
    Token::Plus { position: (0, 0) }
}

fn times() -> Token {
    Token::Times { position: (0, 0) }
}

#[test]
fn expression_nests_to_the_right_with_plus() {
    // 1 + 2 + 3 parses as Addition(1, Addition(2, 3)).
    let tokens = vec![num(1), plus(), num(2), plus(), num(3)];
    let result = Expression::parse(&mut Tokens::new(tokens));
    assert_eq!(
        result,
        Ok(AstNode::Expression(Expression::Addition(
            Box::new(Expression::Num(Num(1))),
            Box::new(Expression::Addition(
                Box::new(Expression::Num(Num(2))),
                Box::new(Expression::Num(Num(3))),
            )),
        )))
    );
}

#[test]
fn expression_ignores_conventional_precedence() {
    // 1 * 2 + 3 parses as Multiplication(1, Addition(2, 3)): the right-hand
    // side is the full expression rule, so `*` and `+` share one precedence
    // level and standard arithmetic precedence is not enforced.
    let tokens = vec![num(1), times(), num(2), plus(), num(3)];
    let result = Expression::parse(&mut Tokens::new(tokens));
    assert_eq!(
        result,
        Ok(AstNode::Expression(Expression::Multiplication(
            Box::new(Expression::Num(Num(1))),
            Box::new(Expression::Addition(
                Box::new(Expression::Num(Num(2))),
                Box::new(Expression::Num(Num(3))),
            )),
        )))
    );
}

#[test]
fn expression_unhandled_construct() {
    // An identifier followed by `(` fits no expression alternative.
    let tokens = vec![
        Token::Id {
            value: "f".into(),
            position: (0, 0),
        },
        Token::LParen { position: (0, 0) },
    ];
    assert!(Expression::parse(&mut Tokens::new(tokens)).is_err());
}

#[test]
fn initialization_round_trip() {
    // Parsing `let x = 7;` consumes all five tokens and yields the
    // initialization of `x` with the literal 7.
    let tokens = lex("let x = 7;").unwrap();
    assert_eq!(tokens.len(), 5);
    let mut stream = Tokens::new(tokens);
    let result = Initialization::parse(&mut stream);
    assert_eq!(
        result,
        Ok(AstNode::Statement(Statement::Initialization(
            Initialization {
                name: Id("x".into()),
                value: Expression::Num(Num(7)),
            }
        )))
    );
    assert_eq!(stream.get_index(), 5);
}

#[test]
fn initialization_missing_semicolon() {
    let tokens = lex("let x = 7").unwrap();
    assert!(Initialization::parse(&mut Tokens::new(tokens)).is_err());
}

#[test]
fn statement_wraps_initialization() {
    let tokens = lex("let x = 7;").unwrap();
    let result = Statement::parse(&mut Tokens::new(tokens));
    assert_eq!(
        result,
        Ok(AstNode::Statement(Statement::Initialization(
            Initialization {
                name: Id("x".into()),
                value: Expression::Num(Num(7)),
            }
        )))
    );
}

#[test]
fn block_empty() {
    let tokens = lex("{ }").unwrap();
    let mut stream = Tokens::new(tokens);
    let result = Block::parse(&mut stream);
    assert_eq!(
        result,
        Ok(AstNode::Block(Block { statements: vec![] }))
    );
    assert_eq!(stream.get_index(), 2);
}

#[test]
fn block_with_statements() {
    let tokens = lex("{ let a = 1; let b = 2; }").unwrap();
    let result = Block::parse(&mut Tokens::new(tokens));
    assert_eq!(
        result,
        Ok(AstNode::Block(Block {
            statements: vec![
                Statement::Initialization(Initialization {
                    name: Id("a".into()),
                    value: Expression::Num(Num(1)),
                }),
                Statement::Initialization(Initialization {
                    name: Id("b".into()),
                    value: Expression::Num(Num(2)),
                }),
            ]
        }))
    );
}

#[test]
fn block_missing_closing_brace() {
    let tokens = lex("{ let a = 1;").unwrap();
    assert!(Block::parse(&mut Tokens::new(tokens)).is_err());
}

#[test]
fn while_loop_parses() {
    let tokens = lex("while ( x ) { let y = 2; }").unwrap();
    let mut stream = Tokens::new(tokens);
    let result = WhileLoop::parse(&mut stream);
    assert_eq!(
        result,
        Ok(AstNode::WhileLoop(WhileLoop {
            condition: Expression::Id(Id("x".into())),
            block: Block {
                statements: vec![Statement::Initialization(Initialization {
                    name: Id("y".into()),
                    value: Expression::Num(Num(2)),
                })]
            },
        }))
    );
    assert_eq!(stream.get_index(), 11);
}

#[test]
fn while_loop_statement() {
    let tokens = lex("while ( x ) { }").unwrap();
    let result = Statement::parse(&mut Tokens::new(tokens));
    assert_eq!(
        result,
        Ok(AstNode::Statement(Statement::WhileLoop(WhileLoop {
            condition: Expression::Id(Id("x".into())),
            block: Block { statements: vec![] },
        })))
    );
}
