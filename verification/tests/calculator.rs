use tinycalc::calc::TinyCalc;

fn shown(c: &TinyCalc) -> String {
    c.display.iter().collect()
}

fn typed(c: &TinyCalc) -> String {
    c.expression.iter().collect()
}

fn press_all(c: &mut TinyCalc, labels: &[&str]) {
    for label in labels {
        c.handle_button(label);
    }
}

#[test]
fn starts_at_zero() {
    let c = TinyCalc::new();
    assert_eq!(shown(&c), "0");
    assert_eq!(typed(&c), "");
}

#[test]
fn digit_presses_concatenate() {
    let mut c = TinyCalc::new();
    press_all(&mut c, &["1", "2", ".", "3"]);
    assert_eq!(shown(&c), "12.3");
    assert_eq!(typed(&c), "12.3");
}

#[test]
fn second_dot_ignored() {
    let mut c = TinyCalc::new();
    press_all(&mut c, &["1", ".", "2", "."]);
    assert_eq!(shown(&c), "1.2");
}

#[test]
fn dot_allowed_in_next_token() {
    let mut c = TinyCalc::new();
    press_all(&mut c, &["1", ".", "5", "+", "2", "."]);
    assert_eq!(shown(&c), "1.5+2.");
}

#[test]
fn clear_resets_everything() {
    let mut c = TinyCalc::new();
    press_all(&mut c, &["7", "*", "8", "AC"]);
    assert_eq!(shown(&c), "0");
    assert_eq!(typed(&c), "");
}

#[test]
fn delete_on_empty_keeps_zero() {
    let mut c = TinyCalc::new();
    c.handle_button("DEL");
    assert_eq!(shown(&c), "0");
    assert_eq!(typed(&c), "");
}

#[test]
fn delete_removes_last_character() {
    let mut c = TinyCalc::new();
    press_all(&mut c, &["1", "2", "DEL"]);
    assert_eq!(shown(&c), "1");
}

#[test]
fn delete_to_empty_shows_zero() {
    let mut c = TinyCalc::new();
    press_all(&mut c, &["9", "DEL"]);
    assert_eq!(shown(&c), "0");
    assert_eq!(typed(&c), "");
}

#[test]
fn operator_on_empty_ignored() {
    let mut c = TinyCalc::new();
    c.handle_button("+");
    assert_eq!(shown(&c), "0");
    assert_eq!(typed(&c), "");
}

#[test]
fn trailing_operator_replaced() {
    let mut c = TinyCalc::new();
    press_all(&mut c, &["1", "+", "*"]);
    assert_eq!(shown(&c), "1*");
}

#[test]
fn chained_computation() {
    let mut c = TinyCalc::new();
    press_all(&mut c, &["1", "+", "2", "="]);
    assert_eq!(shown(&c), "3");
    press_all(&mut c, &["+", "3", "="]);
    assert_eq!(shown(&c), "6");
}

#[test]
fn equals_twice_leaves_display() {
    let mut c = TinyCalc::new();
    press_all(&mut c, &["7", "+", "1", "="]);
    assert_eq!(shown(&c), "8");
    c.handle_button("=");
    assert_eq!(shown(&c), "8");
}

#[test]
fn equals_twice_after_failure() {
    let mut c = TinyCalc::new();
    press_all(&mut c, &["5", "/", "0", "="]);
    assert_eq!(shown(&c), "Error");
    c.handle_button("=");
    assert_eq!(shown(&c), "Error");
    assert_eq!(typed(&c), "");
}

#[test]
fn equals_twice_with_fraction() {
    let mut c = TinyCalc::new();
    press_all(&mut c, &["1", "/", "3", "="]);
    assert_eq!(shown(&c), "0.333333333333");
    c.handle_button("=");
    assert_eq!(shown(&c), "0.333333333333");
}

#[test]
fn sign_toggle_on_number() {
    let mut c = TinyCalc::new();
    press_all(&mut c, &["5", "+/-"]);
    assert_eq!(shown(&c), "-5");
    c.handle_button("+/-");
    assert_eq!(shown(&c), "5");
}

#[test]
fn sign_toggle_on_second_operand() {
    let mut c = TinyCalc::new();
    press_all(&mut c, &["1", "+", "2", "+/-"]);
    assert_eq!(shown(&c), "1+-2");
    c.handle_button("=");
    assert_eq!(shown(&c), "-1");
}

#[test]
fn error_display_after_syntax_failure() {
    let mut c = TinyCalc::new();
    press_all(&mut c, &["3", "*", "="]);
    assert_eq!(shown(&c), "Error");
    assert_eq!(typed(&c), "");
}

#[test]
fn clear_recovers_from_error() {
    let mut c = TinyCalc::new();
    press_all(&mut c, &["5", "/", "0", "=", "AC"]);
    assert_eq!(shown(&c), "0");
    assert_eq!(typed(&c), "");
}

#[test]
fn unknown_label_ignored() {
    let mut c = TinyCalc::new();
    press_all(&mut c, &["4", "2"]);
    c.handle_button("what");
    assert_eq!(shown(&c), "42");
    assert_eq!(typed(&c), "42");
}

#[test]
fn sign_toggle_on_empty_ignored() {
    let mut c = TinyCalc::new();
    c.handle_button("+/-");
    assert_eq!(shown(&c), "0");
    assert_eq!(typed(&c), "");
}

#[test]
fn sign_toggle_after_operator_marks_next_operand() {
    let mut c = TinyCalc::new();
    press_all(&mut c, &["1", "-", "+/-"]);
    assert_eq!(shown(&c), "1--");
    press_all(&mut c, &["2", "="]);
    assert_eq!(shown(&c), "3");
}

#[test]
fn delete_after_error_shows_zero() {
    let mut c = TinyCalc::new();
    press_all(&mut c, &["5", "/", "0", "=", "DEL"]);
    assert_eq!(shown(&c), "0");
    assert_eq!(typed(&c), "");
}

#[test]
fn percent_key_is_modulo() {
    let mut c = TinyCalc::new();
    press_all(&mut c, &["9", "%", "4", "="]);
    assert_eq!(shown(&c), "1");
}
