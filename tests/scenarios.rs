use lambda_interp::{interpret_default, parse, Expr, InterpError};

fn run(src: &str, lexical: bool) -> Result<Expr, InterpError> {
    let ast = parse("input", src).expect("source should parse");
    interpret_default(&ast, lexical, true).map(|(value, _)| value)
}

fn shown(src: &str) -> String {
    run(src, true).expect("evaluation should succeed").to_string()
}

#[test]
fn add_two_numbers() {
    assert_eq!(shown("add(4, 5)"), "9");
}

#[test]
fn nested_adds() {
    assert_eq!(shown("add(1, add(2, add(3, add(4, 5))))"), "15");
}

#[test]
fn cond_picks_first_true_clause() {
    assert_eq!(shown("cond (false => -1) (true => 5)"), "5");
}

#[test]
fn recursive_factorial() {
    assert_eq!(
        shown("{ def fact λ(n) { cond (zero?(n) => 1) (true => mul(n, fact(sub(n, 1)))) }; fact(5) }"),
        "120"
    );
}

#[test]
fn inner_let_does_not_leak() {
    assert_eq!(shown("{ let x 1; { let x 2 }; x }"), "1");
}

#[test]
fn block_let_leaves_root_default() {
    assert_eq!(shown("{ { let x 5 }; x }"), "10");
}

#[test]
fn closure_capture_lexical() {
    assert_eq!(shown("{ def x 1; def f λ() { x }; def x 2; f() }"), "1");
}

#[test]
fn closure_capture_dynamic() {
    let v = run("{ def x 1; def f λ() { x }; def x 2; f() }", false).unwrap();
    assert_eq!(v.to_string(), "2");
}

#[test]
fn closure_sees_binding_of_its_frame_dynamic_vs_lexical() {
    let src = "{ def f λ() { y }; { let y 3; f() } }";
    assert_eq!(run(src, false).unwrap().to_string(), "3");
    assert_eq!(
        run(src, true),
        Err(InterpError::UndefinedError { symbol: "y".to_string() })
    );
}

#[test]
fn mutual_recursion_with_def() {
    let src = "{ def even λ(n) { cond (zero?(n) => true) (true => odd(sub(n, 1))) }; \
               def odd λ(n) { cond (zero?(n) => false) (true => even(sub(n, 1))) }; \
               even(10) }";
    assert_eq!(shown(src), "true");
}

#[test]
fn assignment_returns_and_updates() {
    assert_eq!(shown("{ let a 1; a = 7 }"), "7");
    assert_eq!(shown("{ let a 1; a = 7; a }"), "7");
}

#[test]
fn assignment_to_undefined_name_errors() {
    assert_eq!(
        run("{ zz = 1 }", true),
        Err(InterpError::UndefinedError { symbol: "zz".to_string() })
    );
}

#[test]
fn assignment_through_closure_is_shared() {
    assert_eq!(shown("{ def n 0; def bump λ() { n = add(n, 1) }; bump(); bump(); n }"), "2");
}

#[test]
fn cond_evaluates_only_the_chosen_result() {
    assert_eq!(shown("{ def n 0; cond (true => 1) (true => n = 5); n }"), "0");
}

#[test]
fn cond_with_no_true_clause_is_false() {
    assert_eq!(shown("cond (false => 1)"), "false");
}

#[test]
fn cond_with_non_boolean_condition_errors() {
    assert_eq!(
        run("cond (1 => 2)", true),
        Err(InterpError::TypeError { expected: "bool".to_string(), found: "1".to_string() })
    );
}

#[test]
fn wrong_arity_names_function_and_counts() {
    assert_eq!(
        run("{ def f λ(a, b) { a }; f(1) }", true),
        Err(InterpError::ArgumentError { func: "Anonymous".to_string(), expected: 2, got: 1 })
    );
}

#[test]
fn empty_block_is_false() {
    assert_eq!(shown("{ }"), "false");
}

#[test]
fn display_forms() {
    assert_eq!(shown("-42"), "-42");
    assert_eq!(shown("true"), "true");
    assert_eq!(shown("\"hi there\""), "hi there");
    assert_eq!(shown("as_list(1, \"a\", as_list(true))"), "[1, a, [true]]");
    assert_eq!(shown("add"), "function: add");
    assert_eq!(shown("λ() { 1 }"), "function: Anonymous");
}

#[test]
fn nested_calls_beyond_the_fuel_fail() {
    let ast = parse("input", "{ def f λ() { f() }; f() }").unwrap();
    let tree = lambda_interp::Ast::from_json(&ast).unwrap();
    let mut interp = lambda_interp::Interpreter::new(true, false);
    let r = interp.eval_with_fuel(&tree, 5);
    assert!(matches!(r, Err(InterpError::RuntimeError { .. })));
}

#[test]
fn recursion_deeper_than_a_hundred_calls() {
    let src = "{ def down λ(n) { cond (zero?(n) => 0) (true => down(sub(n, 1))) }; down(150) }";
    assert_eq!(shown(src), "0");
}

#[test]
fn output_is_captured_in_order() {
    let ast = parse("input", "{ print(1, \"a\"); println(2); dbg(3); 4 }").unwrap();
    let (value, interp) = interpret_default(&ast, true, true).unwrap();
    assert_eq!(value, Expr::Integer(4));
    assert_eq!(interp.global.output, vec!["1", "a", "2\n", "Integer(3)\n"]);
    assert_eq!(interp.output_text(), "1a2\nInteger(3)\n");
}

#[test]
fn println_without_store_ends_with_one_newline() {
    let ast = parse("input", "println(1, 2)").unwrap();
    let (_, interp) = interpret_default(&ast, true, false).unwrap();
    assert_eq!(interp.global.output, vec!["1", "2", "\n"]);
}

#[test]
fn integer_display_round_trip() {
    for n in [0, 7, -42, i64::MAX, i64::MIN] {
        let text = Expr::Integer(n).to_string();
        assert_eq!(parse("input", &text).unwrap(), lambda_interp::Json::Int(n));
    }
}

#[test]
fn string_display_round_trip() {
    let v = run("\"a b;c\"", true).unwrap();
    assert_eq!(v.to_string(), "a b;c");
    let again = parse("input", &format!("\"{}\"", v.to_string())).unwrap();
    assert_eq!(again, lambda_interp::Json::Str("a b;c".to_string()));
}

#[test]
fn let_in_block_keeps_outer_lookup() {
    assert_eq!(shown("{ def y 3; { let y 4; let z 5 }; y }"), "3");
}

#[test]
fn def_visible_to_earlier_closure() {
    assert_eq!(shown("{ def f λ() { g() }; def g λ() { 11 }; f() }"), "11");
}
