use lambda_interp::{parse, Json, Keyword, ParseErrorType, Parser, Token};

fn json_from_value(v: &serde_json::Value) -> Json {
    match v {
        serde_json::Value::Null => Json::Null,
        serde_json::Value::Bool(b) => Json::Bool(*b),
        serde_json::Value::Number(n) => match n.as_i64() {
            Some(i) => Json::Int(i),
            None => Json::Number(n.to_string()),
        },
        serde_json::Value::String(s) => Json::Str(s.clone()),
        serde_json::Value::Array(items) => Json::Array(items.iter().map(json_from_value).collect()),
        serde_json::Value::Object(m) => {
            Json::Object(m.iter().map(|(k, v)| (k.clone(), json_from_value(v))).collect())
        }
    }
}

#[test]
fn parser() {
    let tokens = vec![
        Token::Keyword(Keyword::Def),
        Token::Identifier("fact".to_string()),
        Token::Keyword(Keyword::Lambda),
        Token::OpenParen,
        Token::Identifier("n".to_string()),
        Token::CloseParen,
        Token::OpenBrace,
        Token::Keyword(Keyword::Cond),
        Token::OpenParen,
        Token::Identifier("zero?".to_string()),
        Token::OpenParen,
        Token::Identifier("n".to_string()),
        Token::CloseParen,
        Token::Arrow,
        Token::Integer(1),
        Token::CloseParen,
        Token::OpenParen,
        Token::Identifier("true".to_string()),
        Token::Arrow,
        Token::Identifier("mul".to_string()),
        Token::OpenParen,
        Token::Identifier("n".to_string()),
        Token::Comma,
        Token::Identifier("fact".to_string()),
        Token::OpenParen,
        Token::Identifier("sub".to_string()),
        Token::OpenParen,
        Token::Identifier("n".to_string()),
        Token::Comma,
        Token::Integer(1),
        Token::CloseParen,
        Token::CloseParen,
        Token::CloseParen,
        Token::CloseParen,
        Token::CloseBrace,
        Token::EOF,
    ];

    // passing in empty input (we don't expect errors for this test anyway)
    let mut parser = Parser::new("", "", &tokens);
    let ast = parser.parse_program().unwrap();

    let output = r#"
        {"Def":[{"Identifier": "fact"},
        {"Lambda":[{"Parameters":[{"Identifier": "n"}]},
        {"Block":[{"Cond":[{"Clause":[{"Application":[{"Identifier": "zero?"},
        {"Identifier": "n"}]},1]},{"Clause":[{"Identifier": "true"},
        {"Application":[{"Identifier": "mul"},{"Identifier": "n"},
        {"Application":[{"Identifier": "fact"},
        {"Application":[{"Identifier": "sub"},
        {"Identifier": "n"},1]}]}]}]}]}]}]}]}
        "#;
    let output_json: serde_json::Value = serde_json::from_str(output).expect("should be valid json");
    assert_eq!(ast, json_from_value(&output_json));
}

#[test]
fn unclosed_block_is_decorated() {
    let err = parse("input", "{ let x 5 ").unwrap_err();
    assert_eq!(err.error_type, ParseErrorType::BLOCK);
    assert_eq!(err.label, "Found end of block");
    assert_eq!(err.other_spans.len(), 1);
    assert_eq!(err.other_spans[0].offset, 0);
    assert_eq!(err.other_spans[0].label, "Found opening '{' here");
    assert_eq!(err.help.as_deref(), Some("Close the block with a '}'"));
}

#[test]
fn lambda_without_block_is_reported() {
    let err = parse("input", "lambda (x) x").unwrap_err();
    assert_eq!(err.error_type, ParseErrorType::BLOCK);
    assert_eq!(err.label, "Expected a block");
    assert_eq!(err.help.as_deref(), Some("Create a block with enclosing braces"));
    assert_eq!(err.main_span, (11, 1));
}

#[test]
fn let_without_name_is_reported() {
    let err = parse("input", "let 5 5").unwrap_err();
    assert_eq!(err.error_type, ParseErrorType::LET);
}

#[test]
fn def_without_name_is_unexpected() {
    let err = parse("input", "def 5 5").unwrap_err();
    assert_eq!(err.error_type, ParseErrorType::UNEXPECTED);
}

#[test]
fn application_chains() {
    let ast = parse("input", "f(x)(y)").unwrap();
    let expected: serde_json::Value = serde_json::from_str(
        r#"{"Application":[{"Application":[{"Identifier":"f"},{"Identifier":"x"}]},{"Identifier":"y"}]}"#,
    )
    .unwrap();
    assert_eq!(ast, json_from_value(&expected));
}

#[test]
fn assignment_and_let_forms() {
    let ast = parse("input", "{ let a = 1; a = 2 }").unwrap();
    let expected: serde_json::Value = serde_json::from_str(
        r#"{"Block":[{"Let":[{"Identifier":"a"},1]},{"Assignment":[{"Identifier":"a"},2]}]}"#,
    )
    .unwrap();
    assert_eq!(ast, json_from_value(&expected));
}

#[test]
fn string_literal_parses_to_json_string() {
    assert_eq!(parse("input", "\"a\\tb\"").unwrap(), Json::Str("a\tb".to_string()));
}

#[test]
fn lexical_error_is_reported_by_parse() {
    let err = parse("input", "add(1, \"a\\qb\")").unwrap_err();
    assert_eq!(err.error_type, ParseErrorType::UNEXPECTED);
    assert_eq!(err.label, "Invalid escape sequence");
}

#[test]
fn parse_keeps_names_in_parser() {
    let tokens = vec![Token::Integer(3), Token::EOF];
    let parser = Parser::new("name", "3", &tokens);
    assert_eq!(parser.source_name, "name");
    assert_eq!(parser.source, "3");
    assert_eq!(parser.current, 0);
}
