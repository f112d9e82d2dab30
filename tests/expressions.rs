use sabi::expr::{expr_to_string, number_to_string, EvaluationError, Expr};

fn add(lhs: Expr, rhs: Expr) -> Expr {
    Expr::Add { lhs: Box::new(lhs), rhs: Box::new(rhs) }
}

fn text(s: &str) -> Expr {
    Expr::String(s.to_string())
}

#[test]
fn numbers_add() {
    assert_eq!(add(Expr::Number(2), Expr::Number(40)).evaluate(), Ok(Expr::Number(42)));
}

#[test]
fn strings_concatenate() {
    assert_eq!(add(text("ab"), text("cd")).evaluate(), Ok(text("abcd")));
}

#[test]
fn number_then_string_concatenates_in_order() {
    assert_eq!(add(Expr::Number(7), text("x")).evaluate(), Ok(text("7x")));
    assert_eq!(add(text("x"), Expr::Number(-7)).evaluate(), Ok(text("x-7")));
}

#[test]
fn addition_is_left_associative() {
    let e = add(add(Expr::Number(1), Expr::Number(2)), text("a"));
    assert_eq!(e.evaluate(), Ok(text("3a")));
    let f = add(text("a"), add(Expr::Number(1), Expr::Number(2)));
    assert_eq!(f.evaluate(), Ok(text("a3")));
}

#[test]
fn evaluation_is_idempotent() {
    let e = add(add(text("hi"), Expr::Number(1)), add(Expr::Number(2), Expr::Number(3)));
    let once = e.evaluate().unwrap();
    assert_eq!(once, text("hi15"));
    assert_eq!(once.evaluate(), Ok(once.clone()));
    assert_eq!(Expr::Number(5).evaluate(), Ok(Expr::Number(5)));
}

#[test]
fn overflow_is_an_evaluation_error() {
    let e = add(Expr::Number(i64::MAX), Expr::Number(1));
    assert_eq!(e.evaluate(), Err(EvaluationError::NumberOverflow { lhs: i64::MAX, rhs: 1 }));
    assert!(e.evaluate_into_string().is_err());
}

#[test]
fn texts_of_expressions() {
    assert_eq!(expr_to_string(&Expr::Number(120)), Ok("120".to_string()));
    assert_eq!(expr_to_string(&text("plain")), Ok("plain".to_string()));
    assert_eq!(expr_to_string(&add(text("hi"), Expr::Number(1))), Ok("hi1".to_string()));
    assert_eq!(add(Expr::Number(0), Expr::Number(0)).evaluate_into_string(), Ok("0".to_string()));
}

#[test]
fn decimal_text_of_numbers() {
    assert_eq!(number_to_string(0), "0");
    assert_eq!(number_to_string(9), "9");
    assert_eq!(number_to_string(10), "10");
    assert_eq!(number_to_string(-305), "-305");
    assert_eq!(number_to_string(i64::MAX), "9223372036854775807");
    assert_eq!(number_to_string(i64::MIN), "-9223372036854775808");
}
