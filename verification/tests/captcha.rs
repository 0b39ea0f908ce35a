use i12377_api::captcha::evaluate;

#[test]
fn eval_add() {
    assert_eq!(evaluate("5+6=?").as_deref(), Some("11"));
    assert_eq!(evaluate("5+6").as_deref(), Some("11"));
}

#[test]
fn eval_sub() {
    assert_eq!(evaluate("9-3=?").as_deref(), Some("6"));
}

#[test]
fn eval_mul() {
    assert_eq!(evaluate("4*7=?").as_deref(), Some("28"));
}

#[test]
fn eval_div() {
    assert_eq!(evaluate("8/2=?").as_deref(), Some("4"));
}

#[test]
fn eval_with_junk() {
    assert_eq!(evaluate("AB5+6=?XY").as_deref(), Some("11"));
}

#[test]
fn eval_x_to_mul() {
    assert_eq!(evaluate("4x7=?").as_deref(), Some("28"));
    assert_eq!(evaluate("4X7=?").as_deref(), Some("28"));
    assert_eq!(evaluate("4×7=?").as_deref(), Some("28"));
}

#[test]
fn eval_fullwidth_q() {
    assert_eq!(evaluate("5+6=？").as_deref(), Some("11"));
}

#[test]
fn eval_div_by_zero() {
    assert_eq!(evaluate("5/0=?").as_deref(), Some("0"));
}

#[test]
fn eval_no_match() {
    assert_eq!(evaluate("??"), None);
    assert_eq!(evaluate("abc"), None);
}
