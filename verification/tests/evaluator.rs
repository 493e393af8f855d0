use tinycalc::errors::EvalError;
use tinycalc::eval::evaluate;
use tinycalc::rat::Rat;
use tinycalc::render::render;

fn text_of(r: &Rat) -> String {
    render(r).into_iter().collect()
}

fn eval_text(expr: &str) -> String {
    text_of(&evaluate(expr).unwrap())
}

#[test]
fn simple_sum() {
    let r = evaluate("2+2").unwrap();
    assert_eq!(r.num, 4);
    assert_eq!(r.den, 1);
    assert_eq!(text_of(&r), "4");
}

#[test]
fn divide_by_zero() {
    assert_eq!(evaluate("5/0").unwrap_err(), EvalError::DivideByZero);
}

#[test]
fn modulo_by_zero() {
    assert_eq!(evaluate("10%0").unwrap_err(), EvalError::DivideByZero);
}

#[test]
fn empty_expression() {
    assert_eq!(evaluate("").unwrap_err(), EvalError::Empty);
}

#[test]
fn trailing_operator() {
    assert_eq!(evaluate("3*").unwrap_err(), EvalError::Syntax);
}

#[test]
fn leading_operator() {
    assert_eq!(evaluate("+2").unwrap_err(), EvalError::Syntax);
}

#[test]
fn lone_dot() {
    assert_eq!(evaluate(".").unwrap_err(), EvalError::Syntax);
}

#[test]
fn two_dots_in_token() {
    assert_eq!(evaluate("1.2.3").unwrap_err(), EvalError::Syntax);
}

#[test]
fn multiplication_binds_tighter() {
    assert_eq!(eval_text("2+3*4"), "14");
}

#[test]
fn left_to_right_subtraction() {
    assert_eq!(eval_text("10-3-4"), "3");
}

#[test]
fn unary_minus() {
    let r = evaluate("-5").unwrap();
    assert_eq!(r.num, -5);
    assert_eq!(r.den, 1);
}

#[test]
fn double_unary_minus() {
    assert_eq!(eval_text("--5"), "5");
}

#[test]
fn unary_minus_after_operator() {
    assert_eq!(eval_text("2*-3"), "-6");
}

#[test]
fn modulo() {
    assert_eq!(eval_text("10%3"), "1");
}

#[test]
fn fractional_modulo() {
    assert_eq!(eval_text("5.5%2"), "1.5");
}

#[test]
fn exact_decimal_sum() {
    assert_eq!(eval_text("0.1+0.2"), "0.3");
}

#[test]
fn repeating_fraction_truncated() {
    assert_eq!(eval_text("1/3"), "0.333333333333");
}

#[test]
fn leading_dot_literal() {
    assert_eq!(eval_text(".5+.5"), "1");
}

#[test]
fn trailing_dot_literal() {
    assert_eq!(eval_text("5."), "5");
}

#[test]
fn division_keeps_exact_value() {
    assert_eq!(eval_text("5/2"), "2.5");
}

#[test]
fn division_by_fraction() {
    assert_eq!(eval_text("5/0.5"), "10");
}

#[test]
fn integral_result_has_no_point() {
    assert_eq!(eval_text("2.5*4"), "10");
}

#[test]
fn addition_overflow_reported() {
    assert_eq!(
        evaluate("9223372036854775807+1").unwrap_err(),
        EvalError::Overflow
    );
}

#[test]
fn smallest_displayed_fraction() {
    assert_eq!(eval_text("1/1000000000000"), "0.000000000001");
}

#[test]
fn sevenths_truncated() {
    assert_eq!(eval_text("1/7"), "0.142857142857");
}

#[test]
fn render_negative_fraction() {
    let r = Rat { num: -7, den: 2 };
    assert_eq!(text_of(&r), "-3.5");
}

#[test]
fn render_avoids_signed_zero() {
    let r = Rat {
        num: -1,
        den: 9999999999999,
    };
    assert_eq!(text_of(&r), "0");
}

#[test]
fn literal_overflow_reported() {
    assert_eq!(
        evaluate("99999999999999999999").unwrap_err(),
        EvalError::Overflow
    );
}
