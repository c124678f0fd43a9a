use pulse::domain::assertion::{AssertOp, AssertionResult};
use pulse::domain::check::{CheckEvidence, OutcomeClass};
use pulse::domain::error::ErrorKind;
use pulse::domain::json::JsonValue;
use pulse::notify::copy::{
    digest_body, digest_title, down_body, format_duration, format_latency_exact, recovered_body,
};
use pulse::notify::os::{
    last_notified_service_id, parse_focus_arg, parse_focus_args, should_request_permission,
    NotifyHub,
};
use pulse::notify::quiet::{QueuedDown, QuietQueue};
use pulse::notify::{DownGrouper, Notification, NotifyPolicy, QueueOp, RecordingNotifier};

const T0: i64 = 1_700_000_000_000;

fn t(ms: i64) -> i64 {
    T0 + ms
}

/// The label shown for a latency: exact labels from the library, one decimal otherwise.
fn latency_label(ms: u32) -> String {
    format_latency_exact(ms).unwrap_or_else(|| format!("{:.1}s", f64::from(ms) / 1_000.0))
}

fn evidence(kind: ErrorKind, status: Option<u16>, latency: Option<u32>) -> CheckEvidence {
    CheckEvidence {
        at: T0,
        outcome: OutcomeClass::Hard,
        http_status: status,
        latency_ms: latency,
        redirects: None,
        headers_stripped_on_redirect: None,
        assertion_results: Vec::new(),
        assertion_skipped: None,
        error_kind: Some(kind),
        error: None,
        body_preview: Some("{\"token\":\"should-not-leak\"}".into()),
    }
}

fn body(ev: &CheckEvidence, timeout_ms: u32) -> String {
    let label = ev.latency_ms.map(latency_label);
    down_body(ev, timeout_ms, label.as_deref())
}

fn failed(path: &str, expected: JsonValue, actual: JsonValue) -> AssertionResult {
    AssertionResult {
        path: path.into(),
        op: AssertOp::Equals,
        ok: false,
        expected: Some(expected),
        actual: Some(actual),
        reason: None,
    }
}

#[test]
fn templates_match_spec() {
    assert_eq!(
        body(&evidence(ErrorKind::UnexpectedStatus, Some(502), Some(1_400)), 10_000),
        "HTTP 502 · 1.4s"
    );
    assert_eq!(
        body(&evidence(ErrorKind::Timeout, None, Some(10_000)), 10_000),
        "Timed out after 10s"
    );
    assert_eq!(
        body(&evidence(ErrorKind::Dns, None, None), 10_000),
        "Couldn't resolve host"
    );
    assert_eq!(
        body(&evidence(ErrorKind::TlsExpired, None, None), 10_000),
        "TLS: certificate expired"
    );
    assert_eq!(
        body(&evidence(ErrorKind::TlsUntrusted, None, None), 10_000),
        "TLS: certificate untrusted"
    );
    assert_eq!(
        body(&evidence(ErrorKind::Refused, None, None), 10_000),
        "Connection refused"
    );
    assert_eq!(
        body(&evidence(ErrorKind::BodyParse, Some(204), None), 10_000),
        "Response is not JSON · HTTP 204"
    );
    assert_eq!(recovered_body(4 * 60 * 1_000), "Recovered · down 4m");
    assert_eq!(digest_title(3), "3 services down");
}

#[test]
fn assertion_copy_has_no_expected_actual() {
    let mut ev = evidence(ErrorKind::Assertion, Some(200), Some(12));
    ev.assertion_results = vec![failed(
        "status",
        JsonValue::Text("ok".into()),
        JsonValue::Text("degraded".into()),
    )];
    ev.error = Some("status expected ok, got degraded".into());
    ev.body_preview = Some("{\"status\":\"degraded\"}".into());
    let text = body(&ev, 10_000);
    assert_eq!(text, "status failed · HTTP 200");
    assert!(!text.contains("expected"));
    assert!(!text.contains("got"));
    assert!(!text.contains("degraded"));
    assert!(!text.contains("ok"));
}

#[test]
fn n_assertions_failed() {
    let mut ev = evidence(ErrorKind::Assertion, Some(200), None);
    ev.assertion_results = vec![
        failed("status", JsonValue::Text("ok".into()), JsonValue::Text("bad".into())),
        failed(
            "errors.length",
            JsonValue::Number("0".into()),
            JsonValue::Number("2".into()),
        ),
    ];
    assert_eq!(body(&ev, 10_000), "2 assertions failed · HTTP 200");
}

#[test]
fn digest_omits_plus_k_when_three_names_fit() {
    assert_eq!(digest_body(&["API", "Worker"]), "API, Worker");
    assert_eq!(digest_body(&["API", "Worker", "Auth"]), "API, Worker, Auth");
    assert_eq!(
        digest_body(&["API", "Worker", "Auth", "Docs"]),
        "API, Worker, Auth, +1 more"
    );
}

#[test]
fn digest_plus_k_when_names_exceed_budget() {
    let long = "Payments-API-with-a-very-long-operator-name";
    let body = digest_body(&[long, long, "Auth"]);
    assert!(body.contains("+"), "{body}");
    assert!(body.len() > 20);
}

#[test]
fn format_helpers() {
    assert_eq!(latency_label(500), "500ms");
    assert_eq!(latency_label(1_000), "1s");
    assert_eq!(latency_label(1_400), "1.4s");
    assert_eq!(format_duration(12_000), "12s");
    assert_eq!(format_duration(6 * 60 * 1_000), "6m");
    assert_eq!(format_duration(2 * 3_600 * 1_000), "2h");
}

#[test]
fn exact_latency_labels_leave_fractions_to_the_caller() {
    assert_eq!(format_latency_exact(0).as_deref(), Some("0ms"));
    assert_eq!(format_latency_exact(999).as_deref(), Some("999ms"));
    assert_eq!(format_latency_exact(10_000).as_deref(), Some("10s"));
    assert_eq!(format_latency_exact(1_001), None);
    assert_eq!(format_duration(3 * 86_400 * 1_000), "3d");
    assert_eq!(format_duration(59_999), "59s");
}

#[test]
fn notify_enabled_matches_spec() {
    let policy = NotifyPolicy::default();
    assert!(policy.notify_enabled());
    assert!(!policy.should_queue());

    let quiet = NotifyPolicy {
        in_quiet_hours: true,
        ..NotifyPolicy::default()
    };
    assert!(!quiet.notify_enabled());
    assert!(quiet.should_queue());

    let always = NotifyPolicy {
        in_quiet_hours: true,
        always_alert: true,
        ..NotifyPolicy::default()
    };
    assert!(always.notify_enabled());
    assert!(!always.should_queue());

    let snoozed = NotifyPolicy {
        snoozed: true,
        always_alert: true,
        ..NotifyPolicy::default()
    };
    assert!(!snoozed.notify_enabled());
    assert!(!snoozed.should_queue());

    let identity = NotifyPolicy {
        keychain_identity_changed: true,
        ..NotifyPolicy::default()
    };
    assert!(!identity.notify_enabled());
    assert!(!identity.should_queue());
}

fn down(id: &str) -> Notification {
    Notification::Down {
        service_id: id.into(),
        title: id.into(),
        body: "HTTP 502 · 1.4s".into(),
    }
}

fn recovered(id: &str) -> Notification {
    Notification::Recovered {
        service_id: id.into(),
        title: id.into(),
        body: "Recovered · down 4m".into(),
    }
}

#[test]
fn two_downs_within_2s_collapse_to_digest() {
    let mut grouper = DownGrouper::new();
    assert!(grouper.push(down("a"), t(0)).is_empty());
    assert!(grouper.push(down("b"), t(1_500)).is_empty());
    let flushed = grouper.poll(t(2_000));
    assert_eq!(flushed.len(), 1);
    match &flushed[0] {
        Notification::Digest {
            service_ids,
            title,
            body,
        } => {
            assert_eq!(service_ids, &["a", "b"]);
            assert_eq!(title, "2 services down");
            assert_eq!(body, "a, b");
        }
        other => panic!("expected digest, got {other:?}"),
    }
}

#[test]
fn single_down_emits_after_2s() {
    let mut grouper = DownGrouper::new();
    assert!(grouper.push(down("a"), t(0)).is_empty());
    assert!(grouper.poll(t(1_999)).is_empty());
    let flushed = grouper.poll(t(2_000));
    assert_eq!(flushed, vec![down("a")]);
}

#[test]
fn downs_more_than_2s_apart_stay_individual() {
    let mut grouper = DownGrouper::new();
    assert!(grouper.push(down("a"), t(0)).is_empty());
    let first = grouper.push(down("b"), t(2_001));
    assert_eq!(first, vec![down("a")]);
    let second = grouper.poll(t(4_001));
    assert_eq!(second, vec![down("b")]);
}

#[test]
fn recovery_is_never_grouped() {
    let mut grouper = DownGrouper::new();
    assert!(grouper.push(down("a"), t(0)).is_empty());
    let out = grouper.push(recovered("b"), t(100));
    assert_eq!(out, vec![recovered("b")]);
    assert_eq!(grouper.poll(t(2_000)), vec![down("a")]);
}

#[test]
fn recovery_cancels_pending_down_for_same_service() {
    let mut grouper = DownGrouper::new();
    assert!(grouper.push(down("a"), t(0)).is_empty());
    let out = grouper.push(recovered("a"), t(100));
    assert_eq!(out, vec![recovered("a")]);
    assert!(grouper.poll(t(2_000)).is_empty());
}

#[test]
fn recording_notifier_is_headless() {
    let mut rec = RecordingNotifier::default();
    rec.record(down("a"));
    assert_eq!(rec.events.len(), 1);
    let ev = CheckEvidence {
        latency_ms: Some(1400),
        error: Some("HTTP 502".into()),
        body_preview: None,
        ..evidence(ErrorKind::UnexpectedStatus, Some(502), Some(1400))
    };
    let label = latency_label(1400);
    rec.record(Notification::down("b".into(), "B", &ev, 10_000, Some(label.as_str())));
    assert_eq!(rec.events.len(), 2);
    assert_eq!(rec.events[1], Notification::Down {
        service_id: "b".into(),
        title: "B".into(),
        body: "HTTP 502 · 1.4s".into(),
    });
}

#[test]
fn last_id_is_service_for_single_and_none_for_digest() {
    assert_eq!(last_notified_service_id(&down("pay")), Some("pay".into()));
    assert_eq!(
        last_notified_service_id(&Notification::recovered("pay".into(), "Payments", 4_000)),
        Some("pay".into())
    );
    let digest = Notification::digest(&[("a", "API"), ("b", "Worker")]);
    assert_eq!(last_notified_service_id(&digest), None);
}

#[test]
fn hub_remembers_last_single_service_toast() {
    let mut hub = NotifyHub::new(true);
    assert_eq!(hub.last_id(), None);
    hub.remember(&down("pay"));
    assert_eq!(hub.last_id(), Some("pay".to_string()));
    hub.remember(&Notification::digest(&[("a", "API"), ("b", "Worker")]));
    assert_eq!(hub.last_id(), None);
    assert!(hub.sound());
    hub.set_sound(false);
    assert!(!hub.sound());
}

#[test]
fn focus_launch_arg() {
    assert_eq!(parse_focus_args(&["pulse"]), None);
    assert_eq!(parse_focus_args(&["app", "pulse:focus"]), Some(None));
    assert_eq!(
        parse_focus_args(&["pulse:focus?id=abc"]),
        Some(Some("abc".into()))
    );
    assert_eq!(
        parse_focus_args(&["pulse://focus?id=abc"]),
        Some(Some("abc".into()))
    );
    assert_eq!(parse_focus_args(&["pulse:focus?id="]), Some(None));
}

#[test]
fn focus_arg_alone() {
    assert_eq!(parse_focus_arg("--paused"), None);
    assert_eq!(parse_focus_arg("pulse:focus"), Some(None));
    assert_eq!(parse_focus_arg("pulse:focus?id=01J"), Some(Some("01J".into())));
}

#[test]
fn permission_only_on_first_notify_save() {
    let mut asked = false;
    assert!(!should_request_permission(false, &mut asked));
    assert!(!asked);
    assert!(should_request_permission(true, &mut asked));
    assert!(!should_request_permission(true, &mut asked));
}

#[test]
fn hub_asks_permission_once() {
    let mut hub = NotifyHub::new(false);
    assert!(!hub.should_request_permission(false));
    assert!(hub.should_request_permission(true));
    assert!(!hub.should_request_permission(true));
}

fn entry(id: &str) -> QueuedDown {
    QueuedDown {
        service_id: id.into(),
        name: id.into(),
        title: id.into(),
        body: "HTTP 502 · 1.4s".into(),
    }
}

#[test]
fn queue_membership_is_entered_down_during_window() {
    let mut queue = QuietQueue::new();
    queue.apply(QueueOp::Enqueue, entry("payments"));
    queue.apply(QueueOp::Enqueue, entry("worker"));
    assert_eq!(queue.len(), 2);
    assert!(queue.contains("payments"));
    assert!(queue.contains("worker"));
    assert!(!queue.contains("nas"));
}

#[test]
fn down_then_recovered_during_window_cancels_out() {
    let mut queue = QuietQueue::new();
    queue.apply(QueueOp::Enqueue, entry("payments"));
    queue.apply(QueueOp::Enqueue, entry("worker"));
    queue.apply(QueueOp::Dequeue, entry("payments"));
    assert!(!queue.contains("payments"));
    assert_eq!(
        queue
            .members()
            .iter()
            .map(|e| e.service_id.as_str())
            .collect::<Vec<_>>(),
        ["worker"]
    );
}

#[test]
fn enqueue_is_idempotent() {
    let mut queue = QuietQueue::new();
    queue.enter(entry("payments"));
    queue.enter(entry("payments"));
    assert_eq!(queue.len(), 1);
}

#[test]
fn noop_leaves_queue_alone() {
    let mut queue = QuietQueue::new();
    queue.apply(QueueOp::NoOp, entry("payments"));
    assert!(queue.is_empty());
    queue.recover("absent");
    assert!(queue.is_empty());
}

use pulse::domain::settings::QuietHours;
use pulse::notify::quiet::{in_quiet_window, LocalMinute};

fn at(weekday: u8, hour: u32, minute: u32) -> LocalMinute {
    LocalMinute {
        weekday,
        minute_of_day: hour * 60 + minute,
    }
}

const FRIDAY: u8 = 5;
const SATURDAY: u8 = 6;
const SUNDAY: u8 = 0;

#[test]
fn overnight_friday_covers_saturday_morning_even_if_saturday_unchecked() {
    let hours = QuietHours::weekdays_overnight();
    assert!(!in_quiet_window(&hours, at(FRIDAY, 21, 59)));
    assert!(in_quiet_window(&hours, at(FRIDAY, 22, 0)));
    assert!(in_quiet_window(&hours, at(FRIDAY, 23, 30)));
    assert!(in_quiet_window(&hours, at(SATURDAY, 0, 0)));
    assert!(in_quiet_window(&hours, at(SATURDAY, 7, 59)));
    assert!(!in_quiet_window(&hours, at(SATURDAY, 8, 0)));
    assert!(!in_quiet_window(&hours, at(SATURDAY, 22, 0)));
    assert!(!in_quiet_window(&hours, at(SUNDAY, 7, 59)));
}

#[test]
fn same_day_window_does_not_spill() {
    let hours = QuietHours {
        start: "09:00".into(),
        end: "17:00".into(),
        days: vec![1, 2, 3, 4, 5],
    };
    assert!(!in_quiet_window(&hours, at(FRIDAY, 8, 59)));
    assert!(in_quiet_window(&hours, at(FRIDAY, 9, 0)));
    assert!(in_quiet_window(&hours, at(FRIDAY, 16, 59)));
    assert!(!in_quiet_window(&hours, at(FRIDAY, 17, 0)));
    assert!(!in_quiet_window(&hours, at(SATURDAY, 10, 0)));
}

#[test]
fn empty_days_is_never_quiet() {
    let hours = QuietHours {
        start: "22:00".into(),
        end: "08:00".into(),
        days: vec![],
    };
    assert!(!in_quiet_window(&hours, at(FRIDAY, 23, 0)));
}

#[test]
fn unparsable_times_are_never_quiet() {
    let hours = QuietHours {
        start: "25:00".into(),
        end: "08:00".into(),
        days: vec![0, 1, 2, 3, 4, 5, 6],
    };
    assert!(!in_quiet_window(&hours, at(FRIDAY, 23, 0)));
}

#[test]
fn down_body_ignores_previews_and_values() {
    let mut a = evidence(ErrorKind::Assertion, Some(200), Some(40));
    a.assertion_results = vec![failed(
        "status",
        JsonValue::Text("ok".into()),
        JsonValue::Text("secret-a".into()),
    )];
    let mut b = evidence(ErrorKind::Assertion, Some(200), Some(40));
    b.body_preview = Some("something else".into());
    b.assertion_results = vec![failed(
        "status",
        JsonValue::Text("fine".into()),
        JsonValue::Text("secret-b".into()),
    )];
    assert_eq!(body(&a, 10_000), body(&b, 10_000));
    assert_eq!(body(&a, 10_000), "status failed \u{b7} HTTP 200");
}
