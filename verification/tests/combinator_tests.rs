use tinylang::ast::{AstNode, Id, Num};
use tinylang::combinators::{Comb, ParseError, Rule, Terminal};
use tinylang::lexer::Token;
use tinylang::tokens::Tokens;

#[test]
fn test_sequence_simple() {
    let left = Comb::terminal(Terminal::Let);
    let right = Comb::terminal(Terminal::Eq);
    let new = left.shr(right);

    assert_eq!(
        Comb::Sequence {
            current: Box::new(Comb::Terminal {
                token: Terminal::Let
            }),
            next: Box::new(Comb::Terminal { token: Terminal::Eq })
        },
        new
    );
}

#[test]
fn test_sequence_complex() {
    let a = Comb::terminal(Terminal::Let);
    let b = Comb::terminal(Terminal::Eq);
    let c = Comb::terminal(Terminal::Semicolon);
    let new = a.shr(b).shr(c);

    assert_eq!(
        Comb::Sequence {
            current: Box::new(Comb::Sequence {
                current: Box::new(Comb::Terminal {
                    token: Terminal::Let
                }),
                next: Box::new(Comb::Terminal { token: Terminal::Eq }),
            }),
            next: Box::new(Comb::Terminal {
                token: Terminal::Semicolon
            })
        },
        new
    );
}

#[test]
fn test_either_simple() {
    let left = Comb::terminal(Terminal::Let);
    let right = Comb::terminal(Terminal::Eq);
    let new = left.bitor(right);

    assert_eq!(
        Comb::Either {
            left: Box::new(Comb::Terminal {
                token: Terminal::Let
            }),
            right: Box::new(Comb::Terminal { token: Terminal::Eq })
        },
        new
    );
}

#[test]
fn test_either_complex() {
    let a = Comb::terminal(Terminal::Let);
    let b = Comb::terminal(Terminal::Eq);
    let c = Comb::terminal(Terminal::Semicolon);
    let new = a.bitor(b).bitor(c);

    assert_eq!(
        Comb::Either {
            left: Box::new(Comb::Either {
                left: Box::new(Comb::Terminal {
                    token: Terminal::Let
                }),
                right: Box::new(Comb::Terminal { token: Terminal::Eq }),
            }),
            right: Box::new(Comb::Terminal {
                token: Terminal::Semicolon
            })
        },
        new
    );
}

#[test]
fn test_optional_simple() {
    let a = Comb::terminal(Terminal::Let).not();

    assert_eq!(
        Comb::Optional {
            inner: Box::new(Comb::Terminal {
                token: Terminal::Let
            })
        },
        a
    )
}

#[test]
fn test_parse_optional_matching_terminal() {
    let a = Comb::terminal(Terminal::Let).not();
    let mut tokens = Tokens::new(vec![Token::Let { position: (0, 0) }]);
    let result = a.parse(&mut tokens);

    assert_eq!(Ok(vec![]), result);
    assert_eq!(tokens.get_index(), 1);
}

#[test]
fn test_parse_optional_not_matching_terminal() {
    let a = Comb::terminal(Terminal::Let).not();
    let mut tokens = Tokens::new(vec![Token::Eq { position: (0, 0) }]);
    let result = a.parse(&mut tokens);

    assert_eq!(Ok(vec![]), result);
    assert_eq!(tokens.get_index(), 0);
}

#[test]
fn test_parse_optional_matching_node() {
    let a = Comb::node(Rule::Num).not();
    let mut tokens = Tokens::new(vec![Token::Num {
        value: 42,
        position: (0, 0),
    }]);
    let result = a.parse(&mut tokens);

    assert_eq!(Ok(vec![AstNode::Num(Num(42))]), result);
    assert_eq!(tokens.get_index(), 1);
}

#[test]
fn test_parse_optional_not_matching_node() {
    let a = Comb::node(Rule::Num).not();
    let mut tokens = Tokens::new(vec![Token::Id {
        value: "some_id".into(),
        position: (0, 0),
    }]);
    let result = a.parse(&mut tokens);

    assert_eq!(Ok(vec![]), result);
    assert_eq!(tokens.get_index(), 0);
}

#[test]
fn test_parse_terminal_simple() {
    let a = Comb::terminal(Terminal::Let);
    let mut tokens = Tokens::new(vec![Token::Let { position: (0, 0) }]);
    let result = a.parse(&mut tokens);

    assert_eq!(Ok(vec![]), result);
    assert_eq!(tokens.get_index(), 1);
}

#[test]
fn test_parse_node_simple() {
    let a = Comb::node(Rule::Num);
    let mut tokens = Tokens::new(vec![Token::Num {
        value: 42,
        position: (0, 0),
    }]);
    let result = a.parse(&mut tokens);

    assert_eq!(Ok(vec![AstNode::Num(Num(42))]), result);
    assert_eq!(tokens.get_index(), 1);
}

#[test]
fn test_parse_shr() {
    let matcher = Comb::terminal(Terminal::Let).shr(Comb::node(Rule::Num));
    let mut tokens = Tokens::new(vec![
        Token::Let { position: (0, 0) },
        Token::Num {
            value: 42,
            position: (0, 0),
        },
    ]);
    let result = matcher.parse(&mut tokens);
    assert_eq!(Ok(vec![AstNode::Num(Num(42))]), result);
    assert_eq!(tokens.get_index(), 2);
}

#[test]
fn test_parse_bitor() {
    let matcher = Comb::node(Rule::Id).bitor(Comb::node(Rule::Num));
    let mut tokens = Tokens::new(vec![Token::Num {
        value: 42,
        position: (0, 0),
    }]);
    let result = matcher.parse(&mut tokens);

    assert_eq!(Ok(vec![AstNode::Num(Num(42))]), result);
    assert_eq!(tokens.get_index(), 1);

    let matcher = Comb::node(Rule::Id).bitor(Comb::node(Rule::Num));
    let mut tokens = Tokens::new(vec![Token::Id {
        value: "some_id".into(),
        position: (0, 0),
    }]);
    let result = matcher.parse(&mut tokens);
    assert_eq!(Ok(vec![AstNode::Id(Id("some_id".into()))]), result);
    assert_eq!(tokens.get_index(), 1);
}

#[test]
fn test_parse_simple_error() {
    let a = Comb::terminal(Terminal::Let);
    let mut tokens = Tokens::new(vec![Token::Num {
        value: 42,
        position: (0, 0),
    }]);
    let result = a.parse(&mut tokens);

    assert!(result.is_err());
    assert_eq!(tokens.get_index(), 1);
}

#[test]
fn either_rollback_after_partial_consumption() {
    // The left branch consumes `let` and then fails on `=`; the right branch
    // must start again from index 0, not from where the left branch stopped.
    let left = Comb::terminal(Terminal::Let).shr(Comb::terminal(Terminal::Eq));
    let right = Comb::terminal(Terminal::Let).shr(Comb::terminal(Terminal::Semicolon));
    let matcher = left.bitor(right);
    let mut tokens = Tokens::new(vec![
        Token::Let { position: (0, 0) },
        Token::Semicolon { position: (0, 0) },
    ]);
    let result = matcher.parse(&mut tokens);
    assert_eq!(Ok(vec![]), result);
    assert_eq!(tokens.get_index(), 2);
}

#[test]
fn optional_rollback_after_partial_consumption() {
    let matcher = Comb::terminal(Terminal::Let)
        .shr(Comb::terminal(Terminal::Eq))
        .not();
    let mut tokens = Tokens::new(vec![
        Token::Let { position: (0, 0) },
        Token::Semicolon { position: (0, 0) },
    ]);
    let result = matcher.parse(&mut tokens);
    assert_eq!(Ok(vec![]), result);
    assert_eq!(tokens.get_index(), 0);
}

#[test]
fn sequence_does_not_roll_back() {
    // `let` matches, `=` fails on the semicolon: the error propagates and the
    // stream stays where the failure happened, two tokens in.
    let matcher = Comb::terminal(Terminal::Let).shr(Comb::terminal(Terminal::Eq));
    let mut tokens = Tokens::new(vec![
        Token::Let { position: (0, 0) },
        Token::Semicolon { position: (1, 1) },
    ]);
    let result = matcher.parse(&mut tokens);
    assert_eq!(
        result,
        Err(ParseError::UnexpectedToken {
            found: Token::Semicolon { position: (1, 1) },
            expected: Terminal::Eq
        })
    );
    assert_eq!(tokens.get_index(), 2);
}

#[test]
fn terminal_on_empty_stream_is_unexpected_eof() {
    let a = Comb::terminal(Terminal::Let);
    let mut tokens = Tokens::new(vec![]);
    let result = a.parse(&mut tokens);
    assert_eq!(result, Err(ParseError::UnexpectedEof));
    assert_eq!(tokens.get_index(), 0);
}

#[test]
fn node_rules_on_empty_stream_are_unexpected_eof() {
    for rule in [
        Rule::Id,
        Rule::Num,
        Rule::Expression,
        Rule::Initialization,
        Rule::Statement,
        Rule::Block,
        Rule::WhileLoop,
    ] {
        let mut tokens = Tokens::new(vec![]);
        let result = Comb::node(rule).parse(&mut tokens);
        assert_eq!(result, Err(ParseError::UnexpectedEof));
        assert_eq!(tokens.get_index(), 0);
    }
}

#[test]
fn parse_error_position() {
    let mut tokens = Tokens::new(vec![Token::Num {
        value: 3,
        position: (5, 7),
    }]);
    let err = Id::parse(&mut tokens).unwrap_err();
    assert_eq!(err.position(), Some((5, 7)));

    let mut empty = Tokens::new(vec![]);
    let err = Id::parse(&mut empty).unwrap_err();
    assert_eq!(err.position(), None);
}

#[test]
fn tokens_save_and_restore() {
    let mut tokens = Tokens::new(vec![
        Token::Let { position: (0, 0) },
        Token::Eq { position: (0, 0) },
    ]);
    assert_eq!(tokens.get_index(), 0);
    assert_eq!(tokens.next(), Some(Token::Let { position: (0, 0) }));
    assert_eq!(tokens.get_index(), 1);
    let saved = tokens.get_index();
    assert_eq!(tokens.next(), Some(Token::Eq { position: (0, 0) }));
    assert_eq!(tokens.next(), None);
    tokens.set_index(saved);
    assert_eq!(tokens.get_index(), 1);
    assert_eq!(tokens.peek(), Some(&Token::Eq { position: (0, 0) }));
}
