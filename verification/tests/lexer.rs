use jslite::lexer::{LexError, Lexer};
use jslite::token::Token;

#[test]
fn read_delimiter() {
    let input = r#"let s = "hello world";"#;
    let mut lex = Lexer::new(input.into());

    let tokens = vec![
        Token::Let,
        Token::ident("s"),
        Token::Assign,
        Token::string("hello world"),
        Token::Semicolon,
    ];

    for token in tokens {
        let next_token = lex.next_token();
        assert_eq!(Ok(token), next_token);
    }
}

#[test]
fn read_int() {
    let input = r#"123;"#;
    let mut lex = Lexer::new(input.into());

    assert_eq!(lex.next_token(), Ok(Token::number("123")));
    assert_eq!(lex.next_token(), Ok(Token::Semicolon));
}

#[test]
fn get_next_token() {
    let input = "=+(){},;!===";
    let mut lexer = Lexer::new(input.into());

    let tokens = vec![
        Token::Assign,
        Token::Plus,
        Token::Lparen,
        Token::Rparen,
        Token::LSquirly,
        Token::RSquirly,
        Token::Comma,
        Token::Semicolon,
        Token::NotEqual,
        Token::Equal,
    ];

    for token in tokens {
        let next_token = lexer.next_token().unwrap();
        assert_eq!(token, next_token);
        assert_eq!(next_token, lexer.curr_token());
    }
}

#[test]
fn get_next_complete() {
    let input = r#"let add = function(x, y) {
                return x + y;
            };
            let result = add(five, ten);
            !-/*5;
            5 < 10 > 5;
            if (5 < 10) {
                return true;
            } else {
                return false;
            }

            10 == 10;
            10 != 9;
            <=
            >=
            &&
            ||
            .51;
            1.23;
            2.3.4;
            "#;

    let mut lex = Lexer::new(input.into());

    let tokens = vec![
        Token::Let,
        Token::ident("add"),
        Token::Assign,
        Token::Function,
        Token::Lparen,
        Token::ident("x"),
        Token::Comma,
        Token::ident("y"),
        Token::Rparen,
        Token::LSquirly,
        Token::Return,
        Token::ident("x"),
        Token::Plus,
        Token::ident("y"),
        Token::Semicolon,
        Token::RSquirly,
        Token::Semicolon,
        Token::Let,
        Token::ident("result"),
        Token::Assign,
        Token::ident("add"),
        Token::Lparen,
        Token::ident("five"),
        Token::Comma,
        Token::ident("ten"),
        Token::Rparen,
        Token::Semicolon,
        Token::Bang,
        Token::Minus,
        Token::ForwardSlash,
        Token::Asterisk,
        Token::number("5"),
        Token::Semicolon,
        Token::number("5"),
        Token::LessThan,
        Token::number("10"),
        Token::GreaterThan,
        Token::number("5"),
        Token::Semicolon,
        Token::If,
        Token::Lparen,
        Token::number("5"),
        Token::LessThan,
        Token::number("10"),
        Token::Rparen,
        Token::LSquirly,
        Token::Return,
        Token::True,
        Token::Semicolon,
        Token::RSquirly,
        Token::Else,
        Token::LSquirly,
        Token::Return,
        Token::False,
        Token::Semicolon,
        Token::RSquirly,
        Token::number("10"),
        Token::Equal,
        Token::number("10"),
        Token::Semicolon,
        Token::number("10"),
        Token::NotEqual,
        Token::number("9"),
        Token::Semicolon,
        Token::LessThanOrEqual,
        Token::GreaterThanOrEqual,
        Token::And,
        Token::Or,
        Token::number(".51"),
        Token::Semicolon,
        Token::number("1.23"),
        Token::Semicolon,
        Token::number("2.3"),
        Token::number(".4"),
        Token::Semicolon,
        Token::Eof,
    ];

    for token in tokens {
        let next_token = lex.next_token();
        println!("expected: {:?}, received {:?}", token, next_token);
        assert_eq!(Ok(token), next_token);
    }
}

#[test]
fn peek_token() {
    let input = "let five = 5;";

    let mut lex = Lexer::new(input.into());

    assert_eq!(Ok(Token::Let), lex.peek_token());
    assert_eq!(Token::Illegal, lex.curr_token());
    assert_eq!(Ok(Token::Let), lex.next_token());
    assert_eq!(Ok(Token::ident("five")), lex.peek_token());
    assert_eq!(Token::Let, lex.curr_token());
}

#[test]
fn match_token() {
    let input = "let five = 5;";

    let mut lex = Lexer::new(input.into());

    assert_eq!(lex.match_token_and_consume(Token::Let), true);
    assert_eq!(lex.match_token_and_consume(Token::Let), false);
}

#[test]
fn keywords_are_reclassified() {
    let mut lex = Lexer::new("let if else while for do function return true false null print lets".into());
    let expected = vec![
        Token::Let,
        Token::If,
        Token::Else,
        Token::While,
        Token::For,
        Token::Do,
        Token::Function,
        Token::Return,
        Token::True,
        Token::False,
        Token::Null,
        Token::Print,
        Token::ident("lets"),
        Token::Eof,
    ];
    for token in expected {
        assert_eq!(Ok(token), lex.next_token());
    }
}

#[test]
fn identifiers_hold_no_digits() {
    let mut lex = Lexer::new("a_b1".into());
    assert_eq!(lex.next_token(), Ok(Token::ident("a_b")));
    assert_eq!(lex.next_token(), Ok(Token::number("1")));
    assert_eq!(lex.next_token(), Ok(Token::Eof));
    assert_eq!(lex.next_token(), Ok(Token::Eof));
}

#[test]
fn illegal_character_is_an_error_and_is_not_skipped() {
    let mut lex = Lexer::new("a # b".into());
    assert_eq!(lex.next_token(), Ok(Token::ident("a")));
    let expected = Err(LexError::IllegalCharacter { byte: b'#', position: 2 });
    assert_eq!(lex.peek_token(), expected);
    assert_eq!(lex.next_token(), expected);
    assert_eq!(lex.next_token(), expected);
    assert_eq!(lex.curr_token(), Token::ident("a"));
    assert_eq!(lex.match_token_and_consume(Token::ident("b")), false);
    assert_eq!(lex.is_at_end(), false);
}

#[test]
fn single_ampersand_and_pipe_are_illegal() {
    let mut lex = Lexer::new("&".into());
    assert_eq!(lex.next_token(), Err(LexError::IllegalCharacter { byte: b'&', position: 0 }));
    let mut lex = Lexer::new(" |x".into());
    assert_eq!(lex.next_token(), Err(LexError::IllegalCharacter { byte: b'|', position: 1 }));
}

#[test]
fn unterminated_string_is_an_error() {
    let mut lex = Lexer::new("x \"abc".into());
    assert_eq!(lex.next_token(), Ok(Token::ident("x")));
    assert_eq!(lex.next_token(), Err(LexError::UnterminatedString { position: 2 }));
    assert_eq!(lex.next_token(), Err(LexError::UnterminatedString { position: 2 }));
}

#[test]
fn string_payload_keeps_non_ascii_text() {
    let mut lex = Lexer::new("\"héllo wörld\" \"\"".into());
    assert_eq!(lex.next_token(), Ok(Token::string("héllo wörld")));
    assert_eq!(lex.next_token(), Ok(Token::string("")));
    assert_eq!(lex.next_token(), Ok(Token::Eof));
}

#[test]
fn is_at_end_when_only_whitespace_remains() {
    let mut lex = Lexer::new("1 \n\t ".into());
    assert_eq!(lex.is_at_end(), false);
    assert_eq!(lex.next_token(), Ok(Token::number("1")));
    assert_eq!(lex.is_at_end(), true);
    assert_eq!(lex.next_token(), Ok(Token::Eof));
    assert_eq!(lex.is_at_end(), true);
    assert_eq!(Lexer::new("".into()).is_at_end(), true);
    assert_eq!(Lexer::new("x".into()).is_at_end(), false);
}

#[test]
fn peek_char_looks_one_byte_ahead() {
    let lex = Lexer::new("ab".into());
    assert_eq!(lex.peek_char(), b'b');
    let lex = Lexer::new("a".into());
    assert_eq!(lex.peek_char(), 0);
    let lex = Lexer::new("".into());
    assert_eq!(lex.peek_char(), 0);
}

#[test]
fn token_same_compares_tag_and_payload() {
    assert!(Token::ident("a").same(&Token::ident("a")));
    assert!(!Token::ident("a").same(&Token::ident("b")));
    assert!(!Token::ident("a").same(&Token::string("a")));
    assert!(!Token::number("1").same(&Token::string("1")));
    assert!(Token::Plus.same(&Token::Plus));
    assert!(!Token::Plus.same(&Token::Minus));
    assert_eq!(Token::string("x y").clone(), Token::string("x y"));
}
