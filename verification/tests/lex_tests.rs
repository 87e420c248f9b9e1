use minic::lex::munch_identifier;
use minic::lex::munch_int;
use minic::lex::tokenize;
use minic::token::SourcePosition;
use minic::token::Token;

#[test]
fn test_tokenize() {
    let input =
        "+ - * / ( ) { } , == != <= < >= > ; = & if else while for return 12345abcedef12345 int";
    let expected = vec![
        (Token::Plus, SourcePosition(0)),
        (Token::Minus, SourcePosition(2)),
        (Token::Asterisk, SourcePosition(4)),
        (Token::Slash, SourcePosition(6)),
        (Token::LParen, SourcePosition(8)),
        (Token::RParen, SourcePosition(10)),
        (Token::LBrace, SourcePosition(12)),
        (Token::RBrace, SourcePosition(14)),
        (Token::Comma, SourcePosition(16)),
        (Token::Equality, SourcePosition(18)),
        (Token::Inequality, SourcePosition(21)),
        (Token::LessThanOrEqual, SourcePosition(24)),
        (Token::LessThan, SourcePosition(27)),
        (Token::GreaterThanOrEqual, SourcePosition(29)),
        (Token::GreaterThan, SourcePosition(32)),
        (Token::Semicolon, SourcePosition(34)),
        (Token::Assign, SourcePosition(36)),
        (Token::Ampersand, SourcePosition(38)),
        (Token::If, SourcePosition(40)),
        (Token::Else, SourcePosition(43)),
        (Token::While, SourcePosition(48)),
        (Token::For, SourcePosition(54)),
        (Token::Return, SourcePosition(58)),
        (Token::Num(12345), SourcePosition(65)),
        (
            Token::Identifier("abcedef12345".to_string()),
            SourcePosition(70),
        ),
        (Token::Int, SourcePosition(83)),
    ];
    assert_eq!(
        tokenize(&input.chars().collect::<Vec<char>>()).unwrap(),
        expected
    );
}

#[test]
fn test_munch_int() {
    let input = "12345";
    let expected = (Some(12345), 5);
    assert_eq!(munch_int(&input.chars().collect::<Vec<char>>(), 0), expected);
}

#[test]
fn test_munch_identifier() {
    let input = "abc123";
    let (name, length) = munch_identifier(&input.chars().collect::<Vec<char>>(), 0);
    assert_eq!(name, Some("abc123".to_string()));
    assert_eq!(length, 6);
}

#[test]
fn test_tokenize_brackets_and_sizeof() {
    let input = "a[2] sizeof extern";
    let expected = vec![
        (Token::Identifier("a".to_string()), SourcePosition(0)),
        (Token::LBracket, SourcePosition(1)),
        (Token::Num(2), SourcePosition(2)),
        (Token::RBracket, SourcePosition(3)),
        (Token::Sizeof, SourcePosition(5)),
        (Token::Extern, SourcePosition(12)),
    ];
    assert_eq!(
        tokenize(&input.chars().collect::<Vec<char>>()).unwrap(),
        expected
    );
}

#[test]
fn test_tokenize_rejects_unknown_character() {
    let input = "int @";
    let err = tokenize(&input.chars().collect::<Vec<char>>()).unwrap_err();
    assert_eq!(err.pos, 4);
}
