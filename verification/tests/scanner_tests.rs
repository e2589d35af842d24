use tinylang::scanner::{Lexer, Lexikon, Token};

#[test]
fn mod_test_lex_alphabetic_id() {
    let lexer = Lexer::new("letter");

    assert_eq!(
        Ok(vec![Token::Id {
            value: "letter".into(),
            position: 0
        }]),
        lexer.lex()
    )
}

#[test]
fn mod_test_lex_numeric() {
    let lexer = Lexer::new("1337");

    assert_eq!(
        Ok(vec![Token::Integer {
            value: 1337,
            position: 0
        }]),
        lexer.lex()
    )
}

#[test]
fn test_lex_function() {
    let lexer = Lexer::new("fn () {}");

    assert_eq!(
        Ok(vec![
            Token::FnKeyword { position: 0 },
            Token::LParen { position: 3 },
            Token::RParen { position: 4 },
            Token::LBrace { position: 6 },
            Token::RBrace { position: 7 }
        ]),
        lexer.lex()
    );
}

#[test]
fn test_lex_let() {
    let lexer = Lexer::new("let foo = 42;");

    assert_eq!(
        Ok(vec![
            Token::Let { position: 0 },
            Token::Id {
                value: "foo".into(),
                position: 4
            },
            Token::Assign { position: 8 },
            Token::Integer {
                value: 42,
                position: 10
            },
            Token::Semicolon { position: 12 }
        ]),
        lexer.lex()
    );
}

#[test]
fn scan_keyword_loses_to_longer_identifier() {
    // "fnx" is longer than the "fn" keyword pattern, so the identifier wins.
    let lexer = Lexer::new("fnx");
    assert_eq!(
        Ok(vec![Token::Id {
            value: "fnx".into(),
            position: 0
        }]),
        lexer.lex()
    );
}

#[test]
fn scan_comment_token() {
    let lexer = Lexer::new("// hi\nlet");
    assert_eq!(
        Ok(vec![
            Token::Comment {
                value: " hi".into(),
                position: 0
            },
            Token::Let { position: 6 },
        ]),
        lexer.lex()
    );
}

#[test]
fn scan_while_keyword() {
    let lexer = Lexer::new("while (x) {}");
    assert_eq!(
        Ok(vec![
            Token::While { position: 0 },
            Token::LParen { position: 6 },
            Token::Id {
                value: "x".into(),
                position: 7
            },
            Token::RParen { position: 8 },
            Token::LBrace { position: 10 },
            Token::RBrace { position: 11 },
        ]),
        lexer.lex()
    );
}

#[test]
fn scan_unmatched_input_is_an_error() {
    let lexer = Lexer::new("let #");
    let result = lexer.lex();
    assert!(result.is_err());
    assert_eq!(result.unwrap_err().message(), "failed to lex input");
}

#[test]
fn scan_numeric_overflow_is_an_error() {
    let lexer = Lexer::new("99999999999999999999999");
    let result = lexer.lex();
    assert!(result.is_err());
    assert_eq!(result.unwrap_err().message(), "failed to parse numeric");
}

#[test]
fn scan_trailing_whitespace() {
    let lexer = Lexer::new("let   ");
    assert_eq!(Ok(vec![Token::Let { position: 0 }]), lexer.lex());
}

#[test]
fn scan_empty_input() {
    let lexer = Lexer::new("");
    assert_eq!(Ok(vec![]), lexer.lex());
}

#[test]
fn find_longest_match_prefers_first_registered_on_ties() {
    let lexikon = Lexikon::new();
    let (len, token) = lexikon.find_longest_match("let", 0).unwrap();
    assert_eq!(len, 3);
    assert_eq!(token, Some(Token::Let { position: 0 }));
}

#[test]
fn find_longest_match_no_pattern() {
    let lexikon = Lexikon::new();
    let (len, token) = lexikon.find_longest_match("#", 0).unwrap();
    assert_eq!(len, 0);
    assert_eq!(token, None);
}

#[test]
fn find_longest_match_inside_text() {
    let lexikon = Lexikon::new();
    let (len, token) = lexikon.find_longest_match("a = 1", 2).unwrap();
    assert_eq!(len, 1);
    assert_eq!(token, Some(Token::Assign { position: 2 }));
}
