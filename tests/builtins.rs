use std::rc::Rc;

use lambda_interp::functions;
use lambda_interp::{Environment, Expr, InterpError};

fn env() -> Environment {
    Environment { lexical_scope: true, store_output: true, output: vec![] }
}

fn num(n: i64) -> Expr {
    Expr::Integer(n)
}

fn text(s: &str) -> Expr {
    Expr::String(s.to_string())
}

fn list(items: Vec<Expr>) -> Expr {
    Expr::List(Rc::new(items))
}

#[test]
fn add_sums_and_empty_is_zero() {
    assert_eq!(functions::add(&[num(4), num(5)], &mut env()), Ok(num(9)));
    assert_eq!(functions::add(&[], &mut env()), Ok(num(0)));
}

#[test]
fn add_rejects_non_integers() {
    assert_eq!(
        functions::add(&[num(1), text("x")], &mut env()),
        Err(InterpError::TypeError { expected: "integer".to_string(), found: "x".to_string() })
    );
}

#[test]
fn add_overflow_is_a_runtime_error() {
    assert!(matches!(functions::add(&[num(i64::MAX), num(1)], &mut env()), Err(InterpError::RuntimeError { .. })));
}

#[test]
fn sub_first_minus_rest() {
    assert_eq!(functions::sub(&[num(10), num(3), num(2)], &mut env()), Ok(num(5)));
    assert_eq!(functions::sub(&[num(4)], &mut env()), Ok(num(4)));
    assert_eq!(functions::sub(&[], &mut env()), Ok(num(0)));
}

#[test]
fn mul_product_and_empty_is_one() {
    assert_eq!(functions::mul(&[num(2), num(3), num(4)], &mut env()), Ok(num(24)));
    assert_eq!(functions::mul(&[], &mut env()), Ok(num(1)));
}

#[test]
fn div_and_rem_truncate() {
    assert_eq!(functions::div(&[num(-7), num(2)], &mut env()), Ok(num(-3)));
    assert_eq!(functions::rem(&[num(-7), num(2)], &mut env()), Ok(num(-1)));
    assert_eq!(functions::rem(&[num(7), num(-2)], &mut env()), Ok(num(1)));
}

#[test]
fn div_arity_and_zero() {
    assert_eq!(
        functions::div(&[num(1)], &mut env()),
        Err(InterpError::ArgumentError { func: "div".to_string(), expected: 2, got: 1 })
    );
    assert!(matches!(functions::div(&[num(1), num(0)], &mut env()), Err(InterpError::RuntimeError { .. })));
    assert!(matches!(functions::div(&[num(i64::MIN), num(-1)], &mut env()), Err(InterpError::RuntimeError { .. })));
}

#[test]
fn comparisons() {
    assert_eq!(functions::zero(&[num(0)], &mut env()), Ok(Expr::Boolean(true)));
    assert_eq!(functions::zero(&[num(3)], &mut env()), Ok(Expr::Boolean(false)));
    assert_eq!(functions::greater(&[num(3), num(2)], &mut env()), Ok(Expr::Boolean(true)));
    assert_eq!(functions::less(&[num(3), num(2)], &mut env()), Ok(Expr::Boolean(false)));
    assert_eq!(
        functions::less(&[num(3)], &mut env()),
        Err(InterpError::ArgumentError { func: "less?".to_string(), expected: 2, got: 1 })
    );
}

#[test]
fn equality() {
    assert_eq!(functions::eq(&[], &mut env()), Ok(Expr::Boolean(false)));
    assert_eq!(functions::eq(&[num(1), num(1), num(1)], &mut env()), Ok(Expr::Boolean(true)));
    assert_eq!(functions::eq(&[text("a"), text("b")], &mut env()), Ok(Expr::Boolean(false)));
    assert_eq!(
        functions::eq(&[list(vec![num(1), text("a")]), list(vec![num(1), text("a")])], &mut env()),
        Ok(Expr::Boolean(true))
    );
}

#[test]
fn case_changes() {
    assert_eq!(functions::to_uppercase(&[text("abc")], &mut env()), Ok(text("ABC")));
    assert_eq!(functions::to_lowercase(&[text("ÄB")], &mut env()), Ok(text("äb")));
    assert_eq!(
        functions::to_uppercase(&[text("a"), text("b")], &mut env()),
        Ok(list(vec![text("A"), text("B")]))
    );
    assert_eq!(
        functions::to_uppercase(&[], &mut env()),
        Err(InterpError::ArgumentError { func: "to_uppercase".to_string(), expected: 1, got: 0 })
    );
}

#[test]
fn concat_and_contains() {
    assert_eq!(functions::concat(&[text("ab"), text("cd")], &mut env()), Ok(text("abcd")));
    assert_eq!(functions::contains(&[text("b"), text("abc"), text("b")], &mut env()), Ok(Expr::Boolean(true)));
    assert_eq!(functions::contains(&[text("z"), text("abc")], &mut env()), Ok(Expr::Boolean(false)));
    assert_eq!(
        functions::contains(&[text("z")], &mut env()),
        Err(InterpError::ArgumentError { func: "contains".to_string(), expected: 2, got: 1 })
    );
}

#[test]
fn length_of_string_and_list() {
    assert_eq!(functions::length(&[text("héllo")], &mut env()), Ok(num(6)));
    assert_eq!(functions::length(&[list(vec![num(1), num(2)])], &mut env()), Ok(num(2)));
    assert_eq!(
        functions::length(&[num(1)], &mut env()),
        Err(InterpError::TypeError { expected: "string or list".to_string(), found: "1".to_string() })
    );
}

#[test]
fn list_operations() {
    let l = functions::as_list(&[num(1), num(2), num(3)], &mut env()).unwrap();
    assert_eq!(l.to_string(), "[1, 2, 3]");
    assert_eq!(functions::get(&[l.share(), num(1)], &mut env()), Ok(num(2)));
    assert_eq!(functions::set(&[l.share(), num(1), text("x")], &mut env()).unwrap().to_string(), "[1, x, 3]");
    assert_eq!(l.to_string(), "[1, 2, 3]");
    assert!(matches!(functions::get(&[l.share(), num(3)], &mut env()), Err(InterpError::RuntimeError { .. })));
    assert_eq!(
        functions::get(&[num(1), num(0)], &mut env()),
        Err(InterpError::TypeError { expected: "list".to_string(), found: "1".to_string() })
    );
    assert_eq!(
        functions::set(&[l.share(), num(1)], &mut env()),
        Err(InterpError::ArgumentError { func: "set".to_string(), expected: 3, got: 2 })
    );
}

#[test]
fn sort_orders_strings() {
    let l = list(vec![text("pear"), text("apple"), text("Zoo"), text("app")]);
    assert_eq!(functions::sort(&[l], &mut env()).unwrap().to_string(), "[Zoo, app, apple, pear]");
    assert_eq!(
        functions::sort(&[list(vec![text("a"), num(1)])], &mut env()),
        Err(InterpError::TypeError { expected: "string".to_string(), found: "1".to_string() })
    );
}

#[test]
fn sort_orders_integers() {
    let l = list(vec![num(3), num(-1), num(2), num(3)]);
    assert_eq!(functions::sort(&[l], &mut env()).unwrap().to_string(), "[-1, 2, 3, 3]");
    assert_eq!(
        functions::sort(&[list(vec![num(1), text("a")])], &mut env()),
        Err(InterpError::TypeError { expected: "integer".to_string(), found: "a".to_string() })
    );
}
