use alumina::token::{parse_u32, Lexer, LexerError, Token};

#[test]
fn splits_a_statement() {
    let tokens = Lexer::tokenize("let x = 5\nexit x").unwrap();
    assert_eq!(
        tokens,
        vec![
            Token::Let,
            Token::Ident("x".to_string()),
            Token::Equal,
            Token::IntLiteral(5),
            Token::Sep,
            Token::Exit,
            Token::Ident("x".to_string()),
        ]
    );
}

#[test]
fn reads_operators_with_and_without_equal() {
    let tokens = Lexer::tokenize("! != = == > >= < <= + - * / ( ) { } ;").unwrap();
    assert_eq!(
        tokens,
        vec![
            Token::Not,
            Token::NotEqual,
            Token::Equal,
            Token::EqualEqual,
            Token::Greater,
            Token::GreaterEqual,
            Token::Less,
            Token::LessEqual,
            Token::Plus,
            Token::Minus,
            Token::Star,
            Token::FSlash,
            Token::LParen,
            Token::RParen,
            Token::LBrace,
            Token::RBrace,
            Token::Sep,
        ]
    );
}

#[test]
fn keywords_ignore_case() {
    let tokens = Lexer::tokenize("EXIT While iF eLse LET").unwrap();
    assert_eq!(tokens, vec![Token::Exit, Token::While, Token::If, Token::Else, Token::Let]);
}

#[test]
fn identifiers_keep_letters_and_digits() {
    let tokens = Lexer::tokenize("abc1 x2y").unwrap();
    assert_eq!(tokens, vec![Token::Ident("abc1".to_string()), Token::Ident("x2y".to_string())]);
}

#[test]
fn empty_text_has_no_tokens() {
    assert_eq!(Lexer::tokenize("").unwrap(), vec![]);
    assert_eq!(Lexer::tokenize("   \t ").unwrap(), vec![]);
}

#[test]
fn unexpected_character_is_reported() {
    assert!(matches!(Lexer::tokenize("let x = @"), Err(LexerError::UnexpectedCharacter('@'))));
}

#[test]
fn oversized_literal_is_rejected() {
    assert!(matches!(Lexer::tokenize("exit 99999999999"), Err(LexerError::IntParse)));
    assert_eq!(Lexer::tokenize("4294967295").unwrap(), vec![Token::IntLiteral(4294967295)]);
}

#[test]
fn next_token_steps_through_text() {
    let mut lexer = Lexer::new("x  = 12");
    assert_eq!(lexer.next_token(), Some(Token::Ident("x".to_string())));
    assert_eq!(lexer.next_token(), Some(Token::Equal));
    assert_eq!(lexer.next_token(), Some(Token::IntLiteral(12)));
    assert_eq!(lexer.next_token(), None);
}

#[test]
fn parses_ascii_digit_runs() {
    assert_eq!(parse_u32(&vec!['4', '0', '7']), Some(407));
    assert_eq!(parse_u32(&vec![]), None);
    assert_eq!(parse_u32(&vec!['1', 'a']), None);
    assert_eq!(parse_u32(&"4294967296".chars().collect()), None);
}
