use i12377_api::client::{
    generate_guest_key, guest_key_from, lenient_i64, JsonScalar, LenientError, QueryResp,
    RawRecord, CAPTCHA_ERR_CODE, SUCCESS_CODE,
};
use i12377_api::orchestrator::{dispatch, to_record, DispatchResult};

fn raw(n: &str) -> RawRecord {
    RawRecord {
        harm_type_top_str: format!("type-{n}"),
        retrieval_code: format!("code-{n}"),
        report_time_str_day: "2024-06-12".to_string(),
        harm_url: format!("https://example.org/{n}"),
        quick_reply: "已处理".to_string(),
    }
}

#[test]
fn lenient_integers() {
    assert_eq!(lenient_i64(JsonScalar::Integer(1000)), Ok(1000));
    assert_eq!(lenient_i64(JsonScalar::Text("3104".to_string())), Ok(3104));
    assert_eq!(lenient_i64(JsonScalar::Text("-2".to_string())), Ok(-2));
    assert_eq!(lenient_i64(JsonScalar::Null), Ok(0));
    assert_eq!(lenient_i64(JsonScalar::OtherNumber), Err(LenientError::NotI64));
    assert_eq!(
        lenient_i64(JsonScalar::Text("ten".to_string())),
        Err(LenientError::NotNumericString)
    );
    assert_eq!(lenient_i64(JsonScalar::Other), Err(LenientError::WrongType));
}

#[test]
fn guest_key_layout() {
    assert_eq!(guest_key_from("20240612103000", &vec![0, 9, 10, 35, 1, 2]), "2024061210300009AZ12");
    let k = generate_guest_key();
    assert!(k.len() >= 6);
    let suffix: Vec<char> = k.chars().rev().take(6).collect();
    assert!(suffix.iter().all(|c| c.is_ascii_digit() || c.is_ascii_uppercase()));
    let stamp: String = k.chars().take(k.chars().count() - 6).collect();
    assert_eq!(stamp.len(), 14);
    assert!(stamp.chars().all(|c| c.is_ascii_digit()));
}

#[test]
fn to_record_renames_fields() {
    let r = to_record(raw("1"));
    assert_eq!(r.harm_type, "type-1");
    assert_eq!(r.retrieval_code, "code-1");
    assert_eq!(r.report_time, "2024-06-12");
    assert_eq!(r.harm_url, "https://example.org/1");
    assert_eq!(r.result, "已处理");
}

#[test]
fn dispatch_by_code() {
    let ok = QueryResp { code: SUCCESS_CODE, total: 2, message: String::new(), data: vec![raw("a"), raw("b")] };
    match dispatch(ok) {
        DispatchResult::Records(rs) => {
            assert_eq!(rs.len(), 2);
            assert_eq!(rs[0].retrieval_code, "code-a");
            assert_eq!(rs[1].retrieval_code, "code-b");
        }
        other => panic!("unexpected {other:?}"),
    }
    let bad = QueryResp { code: CAPTCHA_ERR_CODE, total: 0, message: "验证码错误".to_string(), data: vec![] };
    assert!(matches!(dispatch(bad), DispatchResult::CaptchaError));
    let other = QueryResp { code: 2001, total: 0, message: "not found".to_string(), data: vec![] };
    match dispatch(other) {
        DispatchResult::BadCode(c, m) => {
            assert_eq!(c, 2001);
            assert_eq!(m, "not found");
        }
        x => panic!("unexpected {x:?}"),
    }
}
