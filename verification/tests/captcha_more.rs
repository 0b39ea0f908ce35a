use i12377_api::captcha::{ctc_collapse, evaluate, recognize};

#[test]
fn eval_first_triple_wins() {
    assert_eq!(evaluate("1+2 3*4").as_deref(), Some("3"));
    assert_eq!(evaluate("=?9-8").as_deref(), Some("1"));
    assert_eq!(evaluate("12+3").as_deref(), Some("5"));
}

#[test]
fn eval_negative_and_extremes() {
    assert_eq!(evaluate("0-9=?").as_deref(), Some("-9"));
    assert_eq!(evaluate("9*9=?").as_deref(), Some("81"));
    assert_eq!(evaluate("7/2=?").as_deref(), Some("3"));
    assert_eq!(evaluate("5÷5=?").as_deref(), Some("1"));
}

#[test]
fn eval_equals_breaks_triple() {
    assert_eq!(evaluate("5+=6"), None);
    assert_eq!(evaluate("5 + 6").as_deref(), Some("11"));
    assert_eq!(evaluate(""), None);
}

#[test]
fn junk_is_ignored_law_on_values() {
    let with_junk = "3中+文4";
    assert_eq!(evaluate(with_junk), evaluate("3+4"));
}

#[test]
fn variant_spellings_agree_on_values() {
    assert_eq!(evaluate("6×2＝？"), evaluate("6*2"));
    assert_eq!(evaluate("6÷2"), evaluate("6/2"));
}

#[test]
fn recognize_passes_failures_on() {
    assert_eq!(recognize(None), None);
    assert_eq!(recognize(Some("2*3=?".to_string())).as_deref(), Some("6"));
    assert_eq!(recognize(Some("nothing".to_string())), None);
}

#[test]
fn ctc_collapse_greedy() {
    let charset = vec!['_', '1', '+', '2', '='];
    // blank, 1, 1 (repeat), blank, + , 2, 2, =
    let frames = vec![0, 1, 1, 0, 2, 3, 3, 4];
    assert_eq!(ctc_collapse(&frames, &charset), "1+2=");
    // a blank separates repeats of the same index
    assert_eq!(ctc_collapse(&vec![1, 0, 1], &charset), "11");
    assert_eq!(ctc_collapse(&vec![3, 0, 3], &charset), "22");
    assert_eq!(ctc_collapse(&vec![1, 1, 1], &charset), "1");
    // out-of-charset indices emit nothing but still count as previous
    assert_eq!(ctc_collapse(&vec![9, 1, 9, 1], &charset), "11");
    assert_eq!(ctc_collapse(&vec![], &charset), "");
}
