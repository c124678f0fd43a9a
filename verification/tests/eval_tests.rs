use pulse::domain::assertion::{AssertOp, Assertion};
use pulse::domain::check::{AssertionSkipped, OutcomeClass};
use pulse::domain::error::ErrorKind;
use pulse::domain::json::{json_encoded_len, parse_json, JsonValue};
use pulse::domain::service::{
    DraftHeader, ExpectedStatus, HttpMethod, Service, ServiceDraft, SECRET_MASK,
};
use pulse::draft::{draft_has_mask, service_from_draft, service_from_draft_at};
use pulse::eval::classify::{evaluate_at, evaluate_response, outcome_of, Compared};
use pulse::eval::path::PathError;
use pulse::eval::{transport, Outcome, RawResponse, TransportError};

const AT: i64 = 1_787_061_600_000;

fn service(method: HttpMethod, assertions: Vec<Assertion>) -> Service {
    Service {
        id: "svc".into(),
        name: "API".into(),
        url: "https://api.example/health".into(),
        method,
        headers: vec![],
        body: None,
        interval_sec: 60,
        timeout_ms: 10_000,
        expected_status: ExpectedStatus::TwoXx,
        assertions,
        max_latency_ms: Some(800),
        action_url: None,
        notify: true,
        always_alert: false,
        paused: false,
        follow_redirects: true,
        fail_threshold: None,
        group: None,
        created_at: AT,
        updated_at: AT,
    }
}

fn status_assertion() -> Assertion {
    Assertion {
        path: "status".into(),
        op: AssertOp::Equals,
        value: Some(JsonValue::Text("ok".into())),
    }
}

fn raw(status: u16, latency_ms: u32) -> RawResponse {
    RawResponse {
        status,
        latency_ms,
        redirects: 0,
        headers_stripped_on_redirect: false,
        body: b"{\"status\":\"degraded\"}".to_vec(),
        body_preview: "{\"status\":\"degraded\"}".into(),
    }
}

fn text_of(v: &JsonValue) -> String {
    match v {
        JsonValue::Text(t) => t.clone(),
        JsonValue::Number(n) => n.clone(),
        JsonValue::Bool(b) => b.to_string(),
        JsonValue::Null => "null".into(),
        _ => "<compound>".into(),
    }
}

/// Text equality, enough for these tests.
fn text_equals(a: &Assertion, found: &Result<JsonValue, PathError>) -> Compared {
    let expected = a.value.as_ref().map(text_of).unwrap_or_else(|| "<missing>".into());
    match found {
        Ok(v) => Compared {
            ok: text_of(v) == expected,
            reason: None,
            expected_text: expected,
            actual_text: text_of(v),
        },
        Err(_) => Compared {
            ok: false,
            reason: Some("missing".into()),
            expected_text: expected,
            actual_text: "<missing>".into(),
        },
    }
}

fn never_called(_: &Assertion, _: &Result<JsonValue, PathError>) -> Compared {
    panic!("no assertion is evaluated here")
}

fn with_body(mut r: RawResponse, body: &str) -> RawResponse {
    r.body = body.as_bytes().to_vec();
    r.body_preview = body.into();
    r
}

#[test]
fn transport_error_is_hard_with_its_message() {
    let s = service(HttpMethod::Get, vec![]);
    let ev = evaluate_at(&s, Err(transport(ErrorKind::Timeout, Some(10_000))), AT, &never_called);
    assert_eq!(ev.outcome, OutcomeClass::Hard);
    assert_eq!(ev.error_kind, Some(ErrorKind::Timeout));
    assert_eq!(ev.error.as_deref(), Some("Timed out after 10s"));
    assert_eq!(ev.latency_ms, Some(10_000));
    assert_eq!(ev.http_status, None);
}

#[test]
fn missing_secret_names_the_header() {
    let s = service(HttpMethod::Get, vec![]);
    let err = TransportError {
        kind: ErrorKind::MissingSecret,
        latency_ms: None,
        detail: Some("Authorization".into()),
    };
    let ev = evaluate_at(&s, Err(err), AT, &never_called);
    assert_eq!(ev.error.as_deref(), Some("Secret header Authorization is not set"));
}

#[test]
fn unexpected_status_comes_first() {
    let s = service(HttpMethod::Get, vec![status_assertion()]);
    let ev = evaluate_at(&s, Ok(raw(502, 1_400)), AT, &never_called);
    assert_eq!(ev.outcome, OutcomeClass::Hard);
    assert_eq!(ev.error_kind, Some(ErrorKind::UnexpectedStatus));
    assert_eq!(ev.error.as_deref(), Some("HTTP 502"));
    assert!(ev.assertion_results.is_empty());
}

#[test]
fn failed_assertion_is_reported_with_both_sides() {
    let s = service(HttpMethod::Get, vec![status_assertion()]);
    let ev = evaluate_response(&s, raw(200, 50), AT, &text_equals);
    assert_eq!(ev.outcome, OutcomeClass::Hard);
    assert_eq!(ev.error_kind, Some(ErrorKind::Assertion));
    assert_eq!(ev.error.as_deref(), Some("status expected ok, got degraded"));
    assert_eq!(ev.assertion_results.len(), 1);
    assert_eq!(ev.assertion_results[0].path, "status");
    assert!(!ev.assertion_results[0].ok);
    assert!(matches!(&ev.assertion_results[0].actual, Some(JsonValue::Text(t)) if t == "degraded"));
}

#[test]
fn body_that_is_not_json_fails_assertions() {
    let s = service(HttpMethod::Get, vec![status_assertion()]);
    let ev = evaluate_response(&s, with_body(raw(200, 50), "<html>down</html>"), AT, &never_called);
    assert_eq!(ev.error_kind, Some(ErrorKind::BodyParse));
    assert_eq!(ev.error.as_deref(), Some("Response is not JSON"));
}

#[test]
fn slow_response_is_soft() {
    let s = service(HttpMethod::Get, vec![status_assertion()]);
    let ev = evaluate_response(&s, with_body(raw(200, 900), "{\"status\":\"ok\"}"), AT, &text_equals);
    assert_eq!(ev.outcome, OutcomeClass::Soft);
    assert_eq!(ev.error_kind, Some(ErrorKind::Slow));
    assert_eq!(ev.error.as_deref(), Some("900ms (limit 800ms)"));
    assert_eq!(
        outcome_of(&ev),
        Outcome::SoftFail {
            kind: ErrorKind::Slow,
            http_status: 200,
            latency_ms: 900
        }
    );
}

#[test]
fn head_skips_assertions() {
    let s = service(HttpMethod::Head, vec![status_assertion()]);
    let ev = evaluate_response(&s, raw(200, 50), AT, &never_called);
    assert_eq!(ev.outcome, OutcomeClass::Pass);
    assert_eq!(ev.assertion_skipped, Some(AssertionSkipped::Head));
    assert_eq!(ev.body_preview.as_deref(), Some("{\"status\":\"degraded\"}"));
}

fn draft() -> ServiceDraft {
    ServiceDraft {
        id: None,
        name: String::new(),
        url: "https://pay.example/health".into(),
        method: HttpMethod::Get,
        headers: vec![
            DraftHeader {
                key: "Authorization".into(),
                value: Some("Bearer typed".into()),
                secret: true,
                clear: false,
            },
            DraftHeader {
                key: "Accept".into(),
                value: None,
                secret: false,
                clear: false,
            },
        ],
        body: Some("{}".into()),
        interval_sec: 5,
        timeout_ms: 100_000,
        expected_status: ExpectedStatus::TwoXx,
        follow_redirects: None,
        assertions: vec![],
        max_latency_ms: None,
        action_url: None,
        notify: true,
        always_alert: false,
        fail_threshold: None,
        group: None,
    }
}

#[test]
fn draft_becomes_a_runnable_service() {
    let s = service_from_draft_at(&draft(), AT);
    assert_eq!(s.id, "draft");
    assert_eq!(s.name, "draft");
    assert_eq!(s.interval_sec, 15);
    assert_eq!(s.timeout_ms, 60_000);
    assert_eq!(s.body, None);
    assert!(s.follow_redirects);
    assert!(!s.paused);
    assert_eq!(s.headers[0].value, None);
    assert!(s.headers[0].secret);
    assert_eq!(s.headers[1].value.as_deref(), Some(""));
    assert_eq!(s.created_at, AT);
    assert_eq!(s.updated_at, AT);
    assert!(s.validate().is_ok());
    let now = service_from_draft(&draft());
    assert_eq!(now.id, "draft");
}

#[test]
fn post_draft_keeps_its_body() {
    let mut d = draft();
    d.method = HttpMethod::Post;
    d.id = Some("svc".into());
    d.name = "Payments".into();
    d.timeout_ms = 10;
    d.follow_redirects = Some(false);
    let s = service_from_draft_at(&d, AT);
    assert_eq!(s.body.as_deref(), Some("{}"));
    assert_eq!(s.id, "svc");
    assert_eq!(s.name, "Payments");
    assert_eq!(s.timeout_ms, 500);
    assert!(!s.follow_redirects);
}

#[test]
fn mask_in_a_draft_is_detected() {
    assert!(!draft_has_mask(&draft()));
    let mut d = draft();
    d.headers[0].value = Some(SECRET_MASK.into());
    assert!(draft_has_mask(&d));
}

#[test]
fn passing_assertions_on_a_json_body() {
    let s = service(HttpMethod::Get, vec![status_assertion()]);
    let ev = evaluate_response(&s, with_body(raw(200, 50), "{\"status\":\"ok\"}"), AT, &text_equals);
    assert_eq!(ev.outcome, OutcomeClass::Pass);
    assert_eq!(ev.error_kind, None);
    assert_eq!(ev.assertion_results.len(), 1);
    assert!(ev.assertion_results[0].ok);
}

#[test]
fn no_content_fails_assertions_without_reading_the_body() {
    let s = service(HttpMethod::Get, vec![status_assertion()]);
    let ev = evaluate_response(&s, raw(204, 50), AT, &never_called);
    assert_eq!(ev.error_kind, Some(ErrorKind::BodyParse));
}

#[test]
fn json_documents_are_read_and_measured() {
    let doc = parse_json(b"{\"b\":[1,2.5,true],\"a\":null}").unwrap();
    match &doc {
        JsonValue::Object(members) => {
            assert_eq!(members.len(), 2);
            assert!(members.iter().any(|(k, _)| k == "a"));
        }
        other => panic!("expected an object, got {other:?}"),
    }
    assert!(parse_json(b"not json").is_none());
    assert_eq!(json_encoded_len(&doc), "{\"a\":null,\"b\":[1,2.5,true]}".len());
}

#[test]
fn assertion_value_is_limited_by_its_encoded_length() {
    let big = JsonValue::Array((0..400).map(|i| JsonValue::Number(i.to_string())).collect());
    let a = Assertion {
        path: "items".into(),
        op: AssertOp::Equals,
        value: Some(big),
    };
    assert!(a.validate().is_err());
    let small = Assertion {
        path: "items".into(),
        op: AssertOp::Equals,
        value: Some(JsonValue::Array(vec![JsonValue::Number("1".into())])),
    };
    assert!(small.validate().is_ok());
}
