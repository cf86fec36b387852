use lambda_interp::{Expr, InterpError, Interpreter, Json};

fn json_from_value(v: &serde_json::Value) -> Json {
    match v {
        serde_json::Value::Null => Json::Null,
        serde_json::Value::Bool(b) => Json::Bool(*b),
        serde_json::Value::Number(n) => match n.as_i64() {
            Some(i) => Json::Int(i),
            None => Json::Number(n.to_string()),
        },
        serde_json::Value::String(s) => Json::Str(s.clone()),
        serde_json::Value::Array(items) => Json::Array(items.iter().map(json_from_value).collect()),
        serde_json::Value::Object(m) => {
            Json::Object(m.iter().map(|(k, v)| (k.clone(), json_from_value(v))).collect())
        }
    }
}

fn json_text(text: &str) -> Json {
    json_from_value(&serde_json::from_str(text).unwrap())
}

#[test]
fn interpreter_parse_valid_integer() -> Result<(), InterpError> {
    let mut env = Interpreter::new(true, false);
    assert_eq!(Expr::Integer(12), Expr::eval(&json_text("12"), &mut env)?);
    assert_eq!(Expr::Integer(-500), Expr::eval(&json_text("-500"), &mut env)?);
    Ok(())
}

#[test]
fn interpreter_parse_invalid_integer() -> Result<(), InterpError> {
    let mut env = Interpreter::new(true, false);
    let big_num = i64::MAX as u64 + 10;
    let small_num = "-".to_string() + &big_num.to_string();
    assert!(Expr::eval(&json_text(&big_num.to_string()), &mut env)
        .is_err_and(|e| matches!(e, InterpError::TypeError { expected: _, found: _ })));
    assert!(Expr::eval(&json_text(&small_num), &mut env)
        .is_err_and(|e| matches!(e, InterpError::TypeError { expected: _, found: _ })));
    Ok(())
}

#[test]
fn interpreter_parse_valid_string() -> Result<(), InterpError> {
    let mut env = Interpreter::new(true, false);
    assert_eq!(Expr::String("rust".to_string()), Expr::eval(&json_text("\"rust\""), &mut env)?);
    assert_eq!(Expr::String("🦀".to_string()), Expr::eval(&json_text("\"🦀\""), &mut env)?);
    Ok(())
}

#[test]
fn eval_of_unknown_object_is_a_parse_error() {
    let mut env = Interpreter::new(true, false);
    let r = Expr::eval(&json_text("{\"Nothing\": 1}"), &mut env);
    assert!(matches!(r, Err(InterpError::ParseError { .. })));
}

#[test]
fn eval_of_json_array_is_a_list() {
    let mut env = Interpreter::new(true, false);
    let r = Expr::eval(&json_text("[1, \"a\", {\"Identifier\": \"v\"}]"), &mut env).unwrap();
    assert_eq!(r.to_string(), "[1, a, 5]");
}

#[test]
fn undefined_identifier_errors() {
    let mut env = Interpreter::new(true, false);
    let r = Expr::eval(&json_text("{\"Identifier\": \"nope\"}"), &mut env);
    assert_eq!(r, Err(InterpError::UndefinedError { symbol: "nope".to_string() }));
}

#[test]
fn default_constants_resolve() {
    let mut env = Interpreter::new(true, false);
    for (name, value) in [("x", 10), ("v", 5), ("i", 1)] {
        let text = format!("{{\"Identifier\": \"{}\"}}", name);
        assert_eq!(Expr::eval(&json_text(&text), &mut env).unwrap(), Expr::Integer(value));
    }
    assert_eq!(
        Expr::eval(&json_text("{\"Identifier\": \"true\"}"), &mut env).unwrap(),
        Expr::Boolean(true)
    );
}

#[test]
fn applying_a_non_function_is_a_type_error() {
    let mut env = Interpreter::new(true, false);
    let r = Expr::eval(&json_text("{\"Application\": [5, 1]}"), &mut env);
    assert_eq!(
        r,
        Err(InterpError::TypeError { expected: "function".to_string(), found: "5".to_string() })
    );
}

#[test]
fn interpret_to_string_prepends_output() {
    let ast = json_text(
        "{\"Block\": [{\"Application\": [{\"Identifier\": \"print\"}, \"a\", 1]}, 7]}",
    );
    assert_eq!(lambda_interp::interpret_to_string(&ast, true), "a17");
}

#[test]
fn interpret_to_string_reports_errors() {
    let ast = json_text("{\"Identifier\": \"missing\"}");
    assert_eq!(lambda_interp::interpret_to_string(&ast, true), "Undefined symbol 'missing'");
}
