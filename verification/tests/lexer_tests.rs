use tinylang::lexer::{lex, lex_alphabetic, lex_comment, lex_numeric, Token};

#[test]
fn test_lex_alphabetic_keyword() {
    let mut pos: usize = 0;
    let mut line: usize = 1;
    let mut col: usize = 1;

    assert_eq!(
        Token::Let { position: (1, 1) },
        lex_alphabetic("let", &mut pos, &mut line, &mut col)
    )
}

#[test]
fn lexer_test_lex_alphabetic_id() {
    let mut pos: usize = 0;
    let mut line: usize = 1;
    let mut col: usize = 1;

    assert_eq!(
        Token::Id {
            value: "letter".into(),
            position: (1, 1)
        },
        lex_alphabetic("letter", &mut pos, &mut line, &mut col)
    )
}

#[test]
fn lexer_test_lex_numeric() {
    let mut pos: usize = 0;
    let mut line: usize = 1;
    let mut col: usize = 1;

    assert_eq!(
        Ok(Token::Num {
            value: 1337,
            position: (1, 1)
        }),
        lex_numeric("1337", &mut pos, &mut line, &mut col)
    )
}

#[test]
fn test_lex_comment() {
    let mut pos: usize = 0;
    let mut line: usize = 1;
    let mut col: usize = 1;

    assert_eq!(
        Ok(Token::Comment {
            value: " some comment".into(),
            position: (1, 1)
        }),
        lex_comment("// some comment", &mut pos, &mut line, &mut col)
    )
}

#[test]
fn lex_whole_initialization() {
    let tokens = lex("let foo = 42;").unwrap();
    assert_eq!(
        tokens,
        vec![
            Token::Let { position: (1, 1) },
            Token::Id {
                value: "foo".into(),
                position: (1, 5)
            },
            Token::Eq { position: (1, 9) },
            Token::Num {
                value: 42,
                position: (1, 11)
            },
            Token::Semicolon { position: (1, 13) },
        ]
    );
}

#[test]
fn lex_tracks_lines_and_columns() {
    let tokens = lex("let a\nwhile *").unwrap();
    assert_eq!(
        tokens,
        vec![
            Token::Let { position: (1, 1) },
            Token::Id {
                value: "a".into(),
                position: (1, 5)
            },
            Token::While { position: (2, 1) },
            Token::Times { position: (2, 7) },
        ]
    );
}

#[test]
fn lex_punctuation() {
    let tokens = lex("( ) { } + *").unwrap();
    assert_eq!(
        tokens,
        vec![
            Token::LParen { position: (1, 1) },
            Token::RParen { position: (1, 3) },
            Token::LBrace { position: (1, 5) },
            Token::RBrace { position: (1, 7) },
            Token::Plus { position: (1, 9) },
            Token::Times { position: (1, 11) },
        ]
    );
}

#[test]
fn lex_unrecognized_character_is_an_error() {
    let result = lex("let #");
    assert!(result.is_err());
    assert_eq!(result.unwrap_err().message(), "unrecognized character");
}

#[test]
fn lex_numeric_overflow_is_an_error() {
    let result = lex("99999999999999999999999");
    assert!(result.is_err());
    assert_eq!(result.unwrap_err().message(), "failed to parse numeric");
}

#[test]
fn lex_numeric_largest_value() {
    let tokens = lex("18446744073709551615").unwrap();
    assert_eq!(
        tokens,
        vec![Token::Num {
            value: u64::MAX,
            position: (1, 1)
        }]
    );
}

#[test]
fn lex_single_slash_is_an_error() {
    let result = lex("/x");
    assert!(result.is_err());
    assert_eq!(result.unwrap_err().message(), "Comment without second slash!");
}

#[test]
fn lex_comment_stops_at_line_break() {
    let tokens = lex("// note\nlet").unwrap();
    assert_eq!(
        tokens,
        vec![
            Token::Comment {
                value: " note".into(),
                position: (1, 1)
            },
            Token::Let { position: (2, 1) },
        ]
    );
}

#[test]
fn token_position_accessor() {
    let token = Token::Id {
        value: "x".into(),
        position: (3, 9),
    };
    assert_eq!(token.position(), (3, 9));
}

#[test]
fn lex_empty_input() {
    assert_eq!(lex(""), Ok(vec![]));
}
