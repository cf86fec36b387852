use lambda_interp::{Keyword, Lexer, Token};

fn tokens_of(src: &str) -> Vec<Token> {
    let mut lexer = Lexer::new("input", src);
    let mut out = vec![];
    loop {
        let token = lexer.next_token();
        if token == Token::EOF {
            break;
        }
        out.push(token);
    }
    out
}

#[test]
fn lexer() {
    let input = r#"
        // Example factorial program
        def fact λ(n) {
            cond 
                (zero?(n) => 1) 
                (true => mul(n, fact(sub(n, 1))))
        }
        "#;
    let mut lexer = Lexer::new("input", input);

    loop {
        let token = lexer.next_token();
        println!("{:?}", token);
        if token == Token::EOF {
            break;
        }
    }
}

#[test]
fn punctuation_and_arrow() {
    assert_eq!(
        tokens_of("( ) { } , ; => ="),
        vec![
            Token::OpenParen,
            Token::CloseParen,
            Token::OpenBrace,
            Token::CloseBrace,
            Token::Comma,
            Token::Semicolon,
            Token::Arrow,
            Token::Equals,
        ]
    );
}

#[test]
fn keywords_and_identifiers() {
    assert_eq!(
        tokens_of("lambda λ let def cond zero? x1"),
        vec![
            Token::Keyword(Keyword::Lambda),
            Token::Keyword(Keyword::Lambda),
            Token::Keyword(Keyword::Let),
            Token::Keyword(Keyword::Def),
            Token::Keyword(Keyword::Cond),
            Token::Identifier("zero?".to_string()),
            Token::Identifier("x1".to_string()),
        ]
    );
}

#[test]
fn signed_integers() {
    assert_eq!(
        tokens_of("42 -7 +3 9223372036854775807 -9223372036854775808"),
        vec![
            Token::Integer(42),
            Token::Integer(-7),
            Token::Integer(3),
            Token::Integer(i64::MAX),
            Token::Integer(i64::MIN),
        ]
    );
}

#[test]
fn integer_out_of_range_is_an_error() {
    assert_eq!(tokens_of("9223372036854775808"), vec![Token::Error]);
}

#[test]
fn string_escapes() {
    assert_eq!(
        tokens_of(r#""a\\b\"c\td\ne\rf""#),
        vec![Token::String("a\\b\"c\td\ne\rf".to_string())]
    );
}

#[test]
fn bad_escape_is_an_error() {
    assert_eq!(tokens_of(r#""a\qb""#), vec![Token::Error]);
}

#[test]
fn comments_are_skipped() {
    assert_eq!(tokens_of("1 // two\n3"), vec![Token::Integer(1), Token::Integer(3)]);
}

#[test]
fn lone_sign_is_an_error() {
    let mut lexer = Lexer::new("input", "+");
    assert_eq!(lexer.next_token(), Token::Error);
    assert_eq!(lexer.next_token(), Token::EOF);
}

#[test]
fn token_offsets_are_bytes() {
    let mut lexer = Lexer::new("input", "  λ x");
    let first = lexer.next_token_container();
    assert_eq!(first.source, 2);
    let second = lexer.next_token_container();
    assert_eq!(second.source, 5);
    assert_eq!(second.token, Token::Identifier("x".to_string()));
}

#[test]
fn integer_out_of_range_records_a_diagnostic() {
    let mut lexer = Lexer::new("input", "99999999999999999999");
    assert_eq!(lexer.next_token(), Token::Error);
    assert_eq!(lexer.errors.len(), 1);
    assert_eq!(lexer.errors[0].main_span, (0, 1));
}

#[test]
fn bad_escape_records_a_diagnostic() {
    let mut lexer = Lexer::new("input", r#""a\qb""#);
    assert_eq!(lexer.next_token(), Token::Error);
    assert_eq!(lexer.errors.len(), 1);
    assert_eq!(lexer.errors[0].main_span, (2, 1));
    let mut lexer = Lexer::new("input", r#""a\nb""#);
    assert_eq!(lexer.next_token(), Token::String("a\nb".to_string()));
    assert!(lexer.errors.is_empty());
}

#[test]
fn extreme_integers_lex() {
    assert_eq!(tokens_of("-9223372036854775808 +7"), vec![Token::Integer(i64::MIN), Token::Integer(7)]);
}
