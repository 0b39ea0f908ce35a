use i12377_api::client::{QueryResp, RawRecord, CAPTCHA_ERR_CODE, SUCCESS_CODE};
use i12377_api::config::Config;
use i12377_api::error::ApiError;
use i12377_api::models::{HealthResponse, QueryResponse};
use i12377_api::orchestrator::{QueryAction, QueryEvent, QueryRun};
use i12377_api::routes::validate_retrieval_code;

fn record() -> RawRecord {
    RawRecord {
        harm_type_top_str: "t".to_string(),
        retrieval_code: "H026061219520245669A".to_string(),
        report_time_str_day: "2024-06-12".to_string(),
        harm_url: "u".to_string(),
        quick_reply: "r".to_string(),
    }
}

fn resp(code: i64) -> QueryResp {
    QueryResp { code, total: 1, message: "msg".to_string(), data: vec![record()] }
}

#[test]
fn response_constructors() {
    let ok = QueryResponse::ok(vec![]);
    assert!(ok.success && ok.total == 0 && ok.error.is_none());
    let f = QueryResponse::fail("boom".to_string());
    assert!(!f.success && f.total == 0 && f.records.is_empty());
    assert_eq!(f.error.as_deref(), Some("boom"));
    let h = HealthResponse::default();
    assert_eq!((h.status, h.version), ("ok", "0.1.0"));
}

#[test]
fn config_defaults_and_overrides() {
    let c = Config::from_vars(None, None, None, None, None);
    assert_eq!(c.host, "0.0.0.0");
    assert_eq!((c.port, c.max_retries, c.captcha_timeout_secs, c.query_timeout_secs), (8000, 5, 15, 30));
    let c = Config::from_vars(
        Some("127.0.0.1".to_string()),
        Some("9000".to_string()),
        Some("10".to_string()),
        Some("x".to_string()),
        Some("60".to_string()),
    );
    assert_eq!(c.host, "127.0.0.1");
    assert_eq!((c.port, c.max_retries, c.captcha_timeout_secs, c.query_timeout_secs), (9000, 10, 15, 60));
    let c = Config::from_vars(None, Some("70000".to_string()), Some("-1".to_string()), None, None);
    assert_eq!((c.port, c.max_retries), (8000, 5));
}

#[test]
fn error_answers() {
    let cases: Vec<(ApiError, u16, &str, &str)> = vec![
        (ApiError::EmptyCode, 400, "retrieval code cannot be empty", "retrieval code cannot be empty"),
        (ApiError::CodeTooLong, 400, "retrieval code too long (max 64 chars)", "retrieval code too long (max 64 chars)"),
        (ApiError::Network("timeout".to_string()), 502, "upstream network error: timeout", "upstream unreachable"),
        (ApiError::BadJson, 502, "upstream returned non-JSON response", "bad upstream response"),
        (ApiError::CaptchaExhausted(5), 503, "captcha recognition failed after 5 attempts", "captcha solve failed; please retry"),
        (ApiError::Internal("x".to_string()), 500, "internal error: x", "internal error"),
    ];
    for (e, status, text, public) in cases {
        assert_eq!(e.status_code(), status);
        assert_eq!(e.message(), text);
        assert_eq!(e.public_message(), public);
    }
}

#[test]
fn retrieval_code_validation() {
    assert!(matches!(validate_retrieval_code("   "), Err(ApiError::EmptyCode)));
    assert!(matches!(validate_retrieval_code(""), Err(ApiError::EmptyCode)));
    assert_eq!(validate_retrieval_code("  H026061219520245669A \n").unwrap(), "H026061219520245669A");
    let long = "A".repeat(64);
    assert_eq!(validate_retrieval_code(&long).unwrap(), long);
    assert!(matches!(validate_retrieval_code(&"A".repeat(65)), Err(ApiError::CodeTooLong)));
    // the limit counts characters, not bytes
    assert_eq!(validate_retrieval_code(&"码".repeat(64)).unwrap(), "码".repeat(64));
    assert!(matches!(validate_retrieval_code(&"码".repeat(65)), Err(ApiError::CodeTooLong)));
}

#[test]
fn events_must_answer_the_last_action() {
    let (mut run, _) = QueryRun::start(3);
    assert!(run.expects(&QueryEvent::CaptchaRead(None)));
    assert!(!run.expects(&QueryEvent::SubmitNonJson(500)));
    let _ = run.on_event(QueryEvent::CaptchaRead(Some("1+1".to_string())));
    assert!(!run.expects(&QueryEvent::CaptchaRead(None)));
    assert!(run.expects(&QueryEvent::SubmitNonJson(500)));
    let _ = run.on_event(QueryEvent::SubmitAnswered(resp(SUCCESS_CODE)));
    assert!(!run.expects(&QueryEvent::CaptchaRead(None)));
    assert!(!run.expects(&QueryEvent::SubmitNonJson(500)));
}

fn is_fetch(a: &QueryAction) -> bool {
    matches!(a, QueryAction::FetchCaptcha)
}

#[test]
fn successful_query_after_a_rejected_captcha() {
    let (mut run, a) = QueryRun::start(5);
    assert!(is_fetch(&a));
    assert_eq!(run.attempt(), 1);
    let a = run.on_event(QueryEvent::CaptchaRead(Some("3+4=?".to_string())));
    match a {
        QueryAction::Submit(ref code) => assert_eq!(code, "7"),
        _ => panic!("expected submit"),
    }
    let a = run.on_event(QueryEvent::SubmitAnswered(resp(CAPTCHA_ERR_CODE)));
    assert!(is_fetch(&a));
    assert_eq!(run.attempt(), 2);
    let a = run.on_event(QueryEvent::CaptchaRead(Some("2*2".to_string())));
    assert!(matches!(a, QueryAction::Submit(_)));
    match run.on_event(QueryEvent::SubmitAnswered(resp(SUCCESS_CODE))) {
        QueryAction::Finish(Ok(r)) => {
            assert!(r.success);
            assert_eq!(r.total, 1);
            assert_eq!(r.records[0].retrieval_code, "H026061219520245669A");
            assert!(r.error.is_none());
        }
        _ => panic!("expected success"),
    }
}

#[test]
fn exhausted_attempts() {
    let (mut run, _) = QueryRun::start(2);
    assert!(is_fetch(&run.on_event(QueryEvent::CaptchaRead(None))));
    match run.on_event(QueryEvent::CaptchaRead(Some("junk".to_string()))) {
        QueryAction::Finish(Ok(r)) => {
            assert!(!r.success);
            assert_eq!(r.error.as_deref(), Some("captcha recognition failed after 2 attempts"));
        }
        _ => panic!("expected failure"),
    }
    let (_, a) = QueryRun::start(0);
    match a {
        QueryAction::Finish(Ok(r)) => {
            assert_eq!(r.error.as_deref(), Some("captcha recognition failed after 0 attempts"))
        }
        _ => panic!("expected failure"),
    }
}

#[test]
fn unexpected_code_ends_the_query() {
    let (mut run, _) = QueryRun::start(5);
    let _ = run.on_event(QueryEvent::CaptchaRead(Some("1+1".to_string())));
    match run.on_event(QueryEvent::SubmitAnswered(QueryResp {
        code: -3,
        total: 0,
        message: "无此举报".to_string(),
        data: vec![],
    })) {
        QueryAction::Finish(Ok(r)) => {
            assert!(!r.success);
            assert_eq!(r.error.as_deref(), Some("upstream returned code -3: 无此举报"));
        }
        _ => panic!("expected failure"),
    }
}

#[test]
fn transport_failures_retry_then_give_up() {
    let (mut run, _) = QueryRun::start(2);
    assert!(is_fetch(&run.on_event(QueryEvent::CaptchaFetchFailed("dns".to_string()))));
    match run.on_event(QueryEvent::CaptchaFetchFailed("dns".to_string())) {
        QueryAction::Finish(Err(ApiError::Network(e))) => assert_eq!(e, "dns"),
        _ => panic!("expected network error"),
    }
    let (mut run, _) = QueryRun::start(1);
    let _ = run.on_event(QueryEvent::CaptchaRead(Some("1+1".to_string())));
    match run.on_event(QueryEvent::SubmitNonJson(429)) {
        QueryAction::Finish(Err(ApiError::Internal(m))) => {
            assert_eq!(m, "upstream returned non-JSON after 1 attempts (last status=429)")
        }
        _ => panic!("expected internal error"),
    }
    let (mut run, _) = QueryRun::start(2);
    let _ = run.on_event(QueryEvent::CaptchaRead(Some("1+1".to_string())));
    assert!(is_fetch(&run.on_event(QueryEvent::SubmitNetworkFailed("reset".to_string()))));
    let _ = run.on_event(QueryEvent::CaptchaRead(Some("1+1".to_string())));
    match run.on_event(QueryEvent::SubmitNetworkFailed("reset".to_string())) {
        QueryAction::Finish(Err(ApiError::Network(e))) => assert_eq!(e, "reset"),
        _ => panic!("expected network error"),
    }
}

#[test]
fn never_more_fetches_than_attempts() {
    for max in 1u32..6 {
        let (mut run, mut a) = QueryRun::start(max);
        let mut fetches = 0;
        loop {
            match a {
                QueryAction::FetchCaptcha => {
                    fetches += 1;
                    a = run.on_event(QueryEvent::CaptchaRead(Some("1+1".to_string())));
                }
                QueryAction::Submit(_) => {
                    a = run.on_event(QueryEvent::SubmitAnswered(resp(CAPTCHA_ERR_CODE)));
                }
                QueryAction::Finish(_) => break,
            }
        }
        assert_eq!(fetches, max);
    }
}
