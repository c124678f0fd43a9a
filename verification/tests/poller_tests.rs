use pulse::domain::error::ErrorKind;
use pulse::domain::runtime::{MachineStatus, RuntimeState};
use pulse::domain::settings::MIXED_REACHABILITY_HELP;
use pulse::eval::Outcome;
use pulse::notify::quiet::{QueuedDown, QuietQueue};
use pulse::notify::{Emit, NotifyPolicy, QueueOp};
use pulse::poller::client::{
    classify_failure, classify_message, decide_redirect, preview_lossy, ErrorCause, IoKind,
    ParsedUrl, RedirectDecision,
    BODY_PREVIEW_BYTES, MAX_REDIRECTS,
};
use pulse::poller::offline::{
    host_of, in_wake_grace, is_overdue, OfflineDetector, OfflineTransition,
};
use pulse::poller::scheduler::{fnv, should_restart, splitmix64, NoopEvents, PulseEvents};
use pulse::poller::state_machine::{
    fail_threshold, on_result, ProbeEvent, Transition, DEFAULT_FAIL_THRESHOLD,
};

fn url(raw: &str) -> ParsedUrl {
    ParsedUrl::parse(raw).unwrap()
}

#[test]
fn https_to_http_is_downgrade() {
    assert_eq!(
        decide_redirect(
            &url("https://a.example/health"),
            Some("http://a.example/health"),
            0
        ),
        RedirectDecision::Downgrade
    );
}

#[test]
fn http_to_https_follows_and_strips() {
    match decide_redirect(
        &url("http://a.example/health"),
        Some("https://a.example/health"),
        0,
    ) {
        RedirectDecision::Follow { strip, next } => {
            assert!(strip);
            assert_eq!(next.scheme(), "https");
        }
        other => panic!("expected follow, got {other:?}"),
    }
}

#[test]
fn cross_host_strips_same_scheme() {
    match decide_redirect(
        &url("https://a.example/from"),
        Some("https://b.example/to"),
        0,
    ) {
        RedirectDecision::Follow { strip, .. } => assert!(strip),
        other => panic!("expected follow, got {other:?}"),
    }
}

#[test]
fn same_host_same_scheme_keeps_headers() {
    match decide_redirect(&url("https://a.example/from"), Some("/to"), 0) {
        RedirectDecision::Follow { strip, next } => {
            assert!(!strip);
            assert_eq!(next.url().path(), "/to");
        }
        other => panic!("expected follow, got {other:?}"),
    }
}

#[test]
fn fourth_hop_is_too_many() {
    assert_eq!(
        decide_redirect(&url("https://a.example/a"), Some("/b"), MAX_REDIRECTS),
        RedirectDecision::TooMany
    );
}

#[test]
fn file_location_is_invalid() {
    assert_eq!(
        decide_redirect(&url("https://a.example/a"), Some("file:///etc/passwd"), 0),
        RedirectDecision::InvalidTarget
    );
}

#[test]
fn missing_location_is_not_redirect() {
    assert_eq!(
        decide_redirect(&url("https://a.example/a"), None, 0),
        RedirectDecision::NotRedirect
    );
}

#[test]
fn relative_location_resolves_against_the_current_url() {
    match decide_redirect(&url("https://a.example/dir/page"), Some("other"), 2) {
        RedirectDecision::Follow { strip, next } => {
            assert!(!strip);
            assert_eq!(next.as_str(), "https://a.example/dir/other");
            assert_eq!(next.host_str(), Some("a.example"));
        }
        other => panic!("expected follow, got {other:?}"),
    }
}

#[test]
fn classify_transport_messages() {
    assert_eq!(
        classify_message("failed to lookup address information: nodename nor servname"),
        Some(ErrorKind::Dns)
    );
    assert_eq!(
        classify_message("certificate verify failed: self signed certificate"),
        Some(ErrorKind::TlsUntrusted)
    );
    assert_eq!(
        classify_message("certificate has expired"),
        Some(ErrorKind::TlsExpired)
    );
    assert_eq!(
        classify_message("TLS: hostname mismatch"),
        Some(ErrorKind::TlsHostname)
    );
    assert_eq!(
        classify_message("Connection refused (os error 61)"),
        Some(ErrorKind::Refused)
    );
    assert_eq!(
        classify_message("connection reset by peer"),
        Some(ErrorKind::Reset)
    );
    assert_eq!(
        classify_message("operation timed out"),
        Some(ErrorKind::Timeout)
    );
    assert_eq!(classify_message("something else entirely"), None);
}

#[test]
fn preview_is_lossy_utf8_and_2kb() {
    let mut body = vec![0xff, 0xfe];
    body.extend(std::iter::repeat_n(b'a', 3000));
    let preview = preview_lossy(&body);
    assert!(preview.starts_with('\u{FFFD}'));
    assert!(preview.chars().count() <= BODY_PREVIEW_BYTES);
}

#[test]
fn short_preview_is_the_whole_body() {
    assert_eq!(preview_lossy(b"{\"ok\":true}"), "{\"ok\":true}");
    assert_eq!(preview_lossy(b""), "");
}

#[test]
fn offline_mixed_reachability_help_is_verbatim() {
    assert_eq!(
        MIXED_REACHABILITY_HELP,
        "If any check succeeds, Pulse assumes the network is up. A homelab box that still answers will keep Pulse online even if the public internet is gone."
    );
}

const T0: i64 = 1_787_061_600_000;

fn later(secs: i64) -> i64 {
    T0 + secs * 1_000
}

#[test]
fn overdue_is_strictly_more_than_two_intervals_past_due() {
    let interval_ms = 60_000;
    let due = later(60);
    assert!(!is_overdue(due, due, interval_ms));
    assert!(!is_overdue(due + 120_000, due, interval_ms));
    assert!(is_overdue(due + 121_000, due, interval_ms));
}

#[test]
fn wake_grace_is_first_15s() {
    assert!(in_wake_grace(T0, T0));
    assert!(in_wake_grace(later(14), T0));
    assert!(!in_wake_grace(later(15), T0));
}

#[test]
fn host_is_lowercase_without_port() {
    assert_eq!(
        host_of("https://API.Example.com:8443/health").as_deref(),
        Some("api.example.com")
    );
    assert_eq!(host_of("not a url"), None);
}

#[test]
fn single_service_never_goes_offline() {
    let mut det = OfflineDetector::new();
    let change = det.observe(Some("a.example"), Some(ErrorKind::Dns), false, 1, T0);
    assert_eq!(change, OfflineTransition::NoChange);
    assert!(!det.is_offline());
}

#[test]
fn two_hosts_same_service_count_is_not_enough_without_two_unpaused() {
    let mut det = OfflineDetector::new();
    det.observe(Some("a.example"), Some(ErrorKind::Dns), false, 1, T0);
    let change = det.observe(
        Some("b.example"),
        Some(ErrorKind::Unreachable),
        false,
        1,
        later(1),
    );
    assert_eq!(change, OfflineTransition::NoChange);
    assert!(!det.is_offline());
}

#[test]
fn two_services_same_host_is_not_offline() {
    let mut det = OfflineDetector::new();
    det.observe(Some("nas.local"), Some(ErrorKind::Timeout), false, 2, T0);
    let change = det.observe(
        Some("nas.local"),
        Some(ErrorKind::Timeout),
        false,
        2,
        later(1),
    );
    assert_eq!(change, OfflineTransition::NoChange);
    assert!(!det.is_offline());
}

#[test]
fn two_hosts_enter_offline() {
    let mut det = OfflineDetector::new();
    assert_eq!(
        det.observe(Some("a.example"), Some(ErrorKind::Dns), false, 2, T0),
        OfflineTransition::NoChange
    );
    assert_eq!(
        det.observe(
            Some("b.example"),
            Some(ErrorKind::Unreachable),
            false,
            2,
            later(1)
        ),
        OfflineTransition::Entered
    );
    assert!(det.is_offline());
    assert_eq!(det.entered_at(), Some(later(1)));
}

#[test]
fn http_500_is_not_an_offline_signal() {
    let mut det = OfflineDetector::new();
    det.observe(
        Some("a.example"),
        Some(ErrorKind::UnexpectedStatus),
        false,
        2,
        T0,
    );
    let change = det.observe(
        Some("b.example"),
        Some(ErrorKind::UnexpectedStatus),
        false,
        2,
        later(1),
    );
    assert_eq!(change, OfflineTransition::NoChange);
}

#[test]
fn success_exits_and_blocks_reentry_while_recent() {
    let mut det = OfflineDetector::new();
    det.observe(Some("a.example"), Some(ErrorKind::Dns), false, 2, T0);
    det.observe(
        Some("b.example"),
        Some(ErrorKind::Timeout),
        false,
        2,
        later(1),
    );
    assert!(det.is_offline());
    let change = det.observe(Some("nas.local"), None, true, 3, later(2));
    assert_eq!(
        change,
        OfflineTransition::Exited {
            entered_at: later(1)
        }
    );
    assert!(!det.is_offline());

    assert_eq!(
        det.observe(Some("a.example"), Some(ErrorKind::Dns), false, 3, later(3)),
        OfflineTransition::NoChange
    );
    assert_eq!(
        det.observe(
            Some("b.example"),
            Some(ErrorKind::Timeout),
            false,
            3,
            later(4)
        ),
        OfflineTransition::NoChange
    );
    assert!(!det.is_offline());
}

#[test]
fn soft_reach_counts_as_success() {
    let mut det = OfflineDetector::new();
    det.observe(Some("a.example"), Some(ErrorKind::Dns), false, 2, T0);
    det.observe(
        Some("b.example"),
        Some(ErrorKind::Timeout),
        false,
        2,
        later(1),
    );
    assert_eq!(
        det.observe(Some("a.example"), Some(ErrorKind::Slow), true, 2, later(2)),
        OfflineTransition::Exited {
            entered_at: later(1)
        }
    );
}

#[test]
fn failures_older_than_90s_do_not_count() {
    let mut det = OfflineDetector::new();
    det.observe(Some("a.example"), Some(ErrorKind::Dns), false, 2, T0);
    let change = det.observe(
        Some("b.example"),
        Some(ErrorKind::Timeout),
        false,
        2,
        later(91),
    );
    assert_eq!(change, OfflineTransition::NoChange);
    assert!(!det.is_offline());
}

#[test]
fn can_reenter_after_success_ages_out() {
    let mut det = OfflineDetector::new();
    det.observe(Some("a.example"), Some(ErrorKind::Dns), false, 2, T0);
    det.observe(
        Some("b.example"),
        Some(ErrorKind::Timeout),
        false,
        2,
        later(1),
    );
    det.observe(Some("nas.local"), None, true, 3, later(2));
    assert!(!det.is_offline());

    det.observe(Some("a.example"), Some(ErrorKind::Dns), false, 2, later(93));
    let change = det.observe(
        Some("b.example"),
        Some(ErrorKind::Timeout),
        false,
        2,
        later(94),
    );
    assert_eq!(change, OfflineTransition::Entered);
}

#[test]
fn watchdog_restarts_only_once() {
    assert!(should_restart(1));
    assert!(!should_restart(2));
    assert!(!should_restart(0));
}

#[test]
fn splitmix_and_fnv_known_values() {
    assert_eq!(splitmix64(0), 0xE220A8397B1DCDAF);
    assert_eq!(fnv(""), 0xcbf29ce484222325);
    assert_eq!(fnv("a"), 0xaf63dc4c8601ec8c);
}

fn success() -> ProbeEvent {
    ProbeEvent::Applied(Outcome::Success {
        http_status: 200,
        latency_ms: 50,
        redirects: 0,
    })
}

fn soft() -> ProbeEvent {
    ProbeEvent::Applied(Outcome::SoftFail {
        kind: ErrorKind::Slow,
        http_status: 200,
        latency_ms: 900,
    })
}

fn hard() -> ProbeEvent {
    ProbeEvent::Applied(Outcome::HardFail {
        kind: ErrorKind::Timeout,
        http_status: None,
        latency_ms: Some(10_000),
    })
}

fn apply(
    runtime: &mut RuntimeState,
    event: ProbeEvent,
    now: i64,
    threshold: u32,
    policy: &NotifyPolicy,
) -> Transition {
    on_result(runtime, event, now, threshold, false, false, policy)
}

#[test]
fn fail_threshold_defaults_to_3() {
    assert_eq!(fail_threshold(None, 3), 3);
    assert_eq!(fail_threshold(None, 0), 3);
    assert_eq!(fail_threshold(Some(5), 3), 5);
    assert_eq!(DEFAULT_FAIL_THRESHOLD, 3);
}

#[test]
fn pending_soft_fail_becomes_degraded_slow_no_notify() {
    let mut runtime = RuntimeState::pending();
    let transition = apply(&mut runtime, soft(), T0, 3, &NotifyPolicy::default());
    assert!(transition.applied);
    assert_eq!(runtime.status, MachineStatus::Degraded);
    assert_eq!(runtime.consecutive_hard_fails, 0);
    assert_eq!(runtime.down_since, None);
    assert_eq!(runtime.degraded_since, Some(T0));
    assert_eq!(runtime.last_check_at, Some(T0));
    assert_eq!(transition.emit, None);
    assert_eq!(transition.queue, QueueOp::NoOp);
}

#[test]
fn degraded_since_stays_until_leave() {
    let mut runtime = RuntimeState::pending();
    let policy = NotifyPolicy::default();
    apply(&mut runtime, soft(), T0, 3, &policy);
    assert_eq!(runtime.degraded_since, Some(T0));
    apply(&mut runtime, soft(), later(180), 3, &policy);
    assert_eq!(runtime.degraded_since, Some(T0));
    apply(&mut runtime, hard(), later(240), 3, &policy);
    assert_eq!(runtime.status, MachineStatus::Degraded);
    assert_eq!(runtime.degraded_since, Some(T0));
    apply(&mut runtime, success(), later(300), 3, &policy);
    assert_eq!(runtime.status, MachineStatus::Healthy);
    assert_eq!(runtime.degraded_since, None);
}

#[test]
fn canceled_is_noop() {
    let mut runtime = RuntimeState::pending();
    runtime.consecutive_hard_fails = 2;
    runtime.status = MachineStatus::Degraded;
    runtime.last_check_at = Some(T0);
    let before = runtime;

    let a = on_result(
        &mut runtime,
        ProbeEvent::Canceled,
        later(60),
        3,
        false,
        false,
        &NotifyPolicy::default(),
    );
    assert!(!a.applied);
    assert_eq!(runtime, before);

    let b = on_result(
        &mut runtime,
        ProbeEvent::Applied(Outcome::HardFail {
            kind: ErrorKind::Canceled,
            http_status: None,
            latency_ms: None,
        }),
        later(60),
        3,
        false,
        false,
        &NotifyPolicy::default(),
    );
    assert!(!b.applied);
    assert_eq!(runtime, before);
}

#[test]
fn paused_or_offline_is_noop() {
    let mut runtime = RuntimeState::pending();
    let before = runtime;
    assert!(
        !on_result(&mut runtime, success(), T0, 3, true, false, &NotifyPolicy::default()).applied
    );
    assert_eq!(runtime, before);
    assert!(
        !on_result(&mut runtime, hard(), T0, 3, false, true, &NotifyPolicy::default()).applied
    );
    assert_eq!(runtime, before);
    assert!(
        !on_result(
            &mut runtime,
            ProbeEvent::Offline,
            T0,
            3,
            false,
            false,
            &NotifyPolicy::default()
        )
        .applied
    );
    assert_eq!(runtime, before);
}

#[test]
fn recovery_duration_uses_down_clock_adjust() {
    let mut runtime = RuntimeState::pending();
    runtime.status = MachineStatus::Down;
    runtime.consecutive_hard_fails = 3;
    runtime.down_since = Some(T0);
    runtime.down_clock_adjust_ms = 2 * 60 * 1_000;
    let now = later(6 * 60);
    let transition = apply(&mut runtime, success(), now, 3, &NotifyPolicy::default());
    assert_eq!(runtime.status, MachineStatus::Healthy);
    assert_eq!(runtime.down_since, None);
    assert_eq!(runtime.degraded_since, None);
    assert_eq!(runtime.down_clock_adjust_ms, 0);
    match transition.emit {
        Some(Emit::Recovered { duration_ms }) => {
            assert_eq!(duration_ms, 4 * 60 * 1_000);
        }
        other => panic!("expected recovered, got {other:?}"),
    }
}

#[test]
fn snooze_suppresses_down_and_recovery() {
    let policy = NotifyPolicy {
        snoozed: true,
        always_alert: true,
        ..NotifyPolicy::default()
    };
    let mut runtime = RuntimeState::pending();
    runtime.status = MachineStatus::Degraded;
    runtime.consecutive_hard_fails = 2;
    let down = apply(&mut runtime, hard(), T0, 3, &policy);
    assert_eq!(runtime.status, MachineStatus::Down);
    assert_eq!(down.emit, None);
    assert_eq!(down.queue, QueueOp::NoOp);

    runtime.down_since = Some(T0);
    let rec = apply(&mut runtime, success(), later(60), 3, &policy);
    assert_eq!(runtime.status, MachineStatus::Healthy);
    assert_eq!(rec.emit, None);
    assert_eq!(rec.queue, QueueOp::NoOp);
}

#[test]
fn keychain_identity_changed_suppresses_notify() {
    let policy = NotifyPolicy {
        keychain_identity_changed: true,
        ..NotifyPolicy::default()
    };
    let mut runtime = RuntimeState::pending();
    runtime.status = MachineStatus::Degraded;
    runtime.consecutive_hard_fails = 2;
    let down = apply(&mut runtime, hard(), T0, 3, &policy);
    assert_eq!(runtime.status, MachineStatus::Down);
    assert_eq!(down.emit, None);
    assert_eq!(down.queue, QueueOp::NoOp);
}

#[test]
fn quiet_hours_enqueue_down_and_cancel_out_on_recover() {
    let policy = NotifyPolicy {
        in_quiet_hours: true,
        ..NotifyPolicy::default()
    };
    let mut runtime = RuntimeState::pending();
    runtime.status = MachineStatus::Degraded;
    runtime.consecutive_hard_fails = 2;
    let down = apply(&mut runtime, hard(), T0, 3, &policy);
    assert_eq!(runtime.status, MachineStatus::Down);
    assert_eq!(down.emit, None);
    assert_eq!(down.queue, QueueOp::Enqueue);

    let mut queue = QuietQueue::new();
    queue.apply(
        down.queue,
        QueuedDown {
            service_id: "pay".into(),
            name: "Payments".into(),
            title: "Payments".into(),
            body: "HTTP 502 · 1.4s".into(),
        },
    );
    assert!(queue.contains("pay"));

    runtime.down_since = Some(T0);
    let rec = apply(&mut runtime, success(), later(30), 3, &policy);
    assert_eq!(runtime.status, MachineStatus::Healthy);
    assert_eq!(rec.emit, None);
    assert_eq!(rec.queue, QueueOp::Dequeue);
    queue.apply(
        rec.queue,
        QueuedDown {
            service_id: "pay".into(),
            name: "Payments".into(),
            title: "Payments".into(),
            body: String::new(),
        },
    );
    assert!(queue.is_empty());
}

#[test]
fn always_alert_bypasses_quiet_hours() {
    let policy = NotifyPolicy {
        in_quiet_hours: true,
        always_alert: true,
        ..NotifyPolicy::default()
    };
    let mut runtime = RuntimeState::pending();
    runtime.status = MachineStatus::Degraded;
    runtime.consecutive_hard_fails = 2;
    let down = apply(&mut runtime, hard(), T0, 3, &policy);
    assert_eq!(down.emit, Some(Emit::Down));
    assert_eq!(down.queue, QueueOp::NoOp);
}

#[test]
fn three_consecutive_hard_fails_from_pending() {
    let mut runtime = RuntimeState::pending();
    let policy = NotifyPolicy::default();
    let a = apply(&mut runtime, hard(), T0, 3, &policy);
    assert_eq!(runtime.status, MachineStatus::Degraded);
    assert_eq!(runtime.degraded_since, Some(T0));
    assert_eq!(a.emit, None);
    let b = apply(&mut runtime, hard(), later(60), 3, &policy);
    assert_eq!(runtime.status, MachineStatus::Degraded);
    assert_eq!(runtime.degraded_since, Some(T0));
    assert_eq!(b.emit, None);
    let c = apply(&mut runtime, hard(), later(120), 3, &policy);
    assert_eq!(runtime.status, MachineStatus::Down);
    assert_eq!(runtime.down_since, Some(later(120)));
    assert_eq!(runtime.degraded_since, None);
    assert_eq!(c.emit, Some(Emit::Down));
}

#[test]
fn never_returns_to_pending() {
    let mut runtime = RuntimeState::pending();
    apply(&mut runtime, success(), T0, 3, &NotifyPolicy::default());
    assert_eq!(runtime.status, MachineStatus::Healthy);
    apply(&mut runtime, hard(), later(60), 3, &NotifyPolicy::default());
    assert_ne!(runtime.status, MachineStatus::Pending);
    apply(&mut runtime, soft(), later(120), 3, &NotifyPolicy::default());
    assert_ne!(runtime.status, MachineStatus::Pending);
}

use pulse::domain::service::{ExpectedStatus, HttpMethod, Service};
use pulse::poller::scheduler::{min_unpaused_interval, stagger_slot};

fn svc(id: &str, interval_sec: u32, paused: bool) -> Service {
    Service {
        id: id.into(),
        name: id.into(),
        url: "https://example.test/health".into(),
        method: HttpMethod::Get,
        headers: vec![],
        body: None,
        interval_sec,
        timeout_ms: 10_000,
        expected_status: ExpectedStatus::TwoXx,
        assertions: vec![],
        max_latency_ms: None,
        action_url: None,
        notify: true,
        always_alert: false,
        paused,
        follow_redirects: true,
        fail_threshold: None,
        group: None,
        created_at: T0,
        updated_at: T0,
    }
}

#[test]
fn first_checks_spread_over_the_shortest_unpaused_interval() {
    let services = vec![svc("b", 30, false), svc("a", 15, true), svc("c", 45, false)];
    assert_eq!(min_unpaused_interval(&services), 30);
    assert_eq!(min_unpaused_interval(&[svc("a", 15, true)]), 60);
    assert_eq!(min_unpaused_interval(&[]), 60);
}

#[test]
fn start_order_follows_the_ids() {
    let services = vec![svc("bbb", 15, false), svc("aaa", 15, false), svc("zzz", 15, true), svc("ccc", 15, false)];
    assert_eq!(stagger_slot(&services, "aaa"), (0, 3));
    assert_eq!(stagger_slot(&services, "bbb"), (1, 3));
    assert_eq!(stagger_slot(&services, "ccc"), (2, 3));
    assert_eq!(stagger_slot(&services, "zzz"), (0, 3));
    assert_eq!(stagger_slot(&services, "missing"), (0, 3));
    assert_eq!(stagger_slot(&[svc("ab", 15, false), svc("a", 15, false)], "ab"), (1, 2));
}

use pulse::domain::service::HeaderSpec;
use pulse::poller::request::{append_chunk, plan_request, NextStep};

fn secured(url: &str) -> Service {
    let mut s = svc("api", 60, false);
    s.url = url.into();
    s.headers = vec![
        HeaderSpec {
            key: "X-Api-Key".into(),
            secret: true,
            value: None,
        },
        HeaderSpec {
            key: "Accept".into(),
            secret: false,
            value: Some("application/json".into()),
        },
    ];
    s
}

fn header_names(plan: &pulse::poller::request::RequestPlan) -> Vec<String> {
    plan.headers.iter().map(|h| h.name.clone()).collect()
}

#[test]
fn cross_host_302_does_not_forward_x_api_key() {
    let secrets = vec![("X-Api-Key".to_string(), "k-123".to_string())];
    let mut plan = plan_request(&secured("https://a.example/health"), &secrets).ok().unwrap();
    assert!(header_names(&plan).contains(&"x-api-key".to_string()));
    let step = plan.after_response(302, true, Some("https://b.example/health"));
    assert_eq!(step, NextStep::Resend);
    assert!(!header_names(&plan).contains(&"x-api-key".to_string()));
    assert!(header_names(&plan).contains(&"accept".to_string()));
    assert!(plan.stripped);
    assert_eq!(plan.redirects, 1);
}

#[test]
fn same_host_redirect_keeps_x_api_key() {
    let secrets = vec![("X-Api-Key".to_string(), "k-123".to_string())];
    let mut plan = plan_request(&secured("https://a.example/health"), &secrets).ok().unwrap();
    assert_eq!(plan.after_response(301, true, Some("/v2/health")), NextStep::Resend);
    assert!(header_names(&plan).contains(&"x-api-key".to_string()));
    assert!(!plan.stripped);
}

#[test]
fn fourth_redirect_is_too_many() {
    let secrets = vec![("X-Api-Key".to_string(), "k-123".to_string())];
    let mut plan = plan_request(&secured("https://a.example/health"), &secrets).ok().unwrap();
    for _ in 0..3 {
        assert_eq!(plan.after_response(302, true, Some("/again")), NextStep::Resend);
    }
    assert_eq!(
        plan.after_response(302, true, Some("/again")),
        NextStep::Fail(ErrorKind::TooManyRedirects)
    );
    assert_eq!(plan.redirects, 3);
}

#[test]
fn follow_redirects_false_evaluates_first_status() {
    let mut plan = plan_request(&secured("https://a.example/health"), &vec![("X-Api-Key".into(), "k".into())]).ok().unwrap();
    assert_eq!(plan.after_response(302, false, Some("/elsewhere")), NextStep::ReadBody);
    assert_eq!(plan.redirects, 0);
}

#[test]
fn missing_secret_does_not_send() {
    let err = plan_request(&secured("https://a.example/health"), &vec![]).err().unwrap();
    assert_eq!(err.kind, ErrorKind::MissingSecret);
}

#[test]
fn rejects_non_http_schemes() {
    let err = plan_request(&secured("ftp://a.example/health"), &vec![]).err().unwrap();
    assert_eq!(err.kind, ErrorKind::InvalidUrl);
}

#[test]
fn caps_body_at_64kb() {
    let mut body: Vec<u8> = Vec::new();
    let chunk = vec![b'a'; 40 * 1024];
    assert!(!append_chunk(&mut body, &chunk));
    assert!(!append_chunk(&mut body, &chunk));
    assert_eq!(body.len(), 64 * 1024);
    assert!(append_chunk(&mut body, &chunk));
    assert_eq!(body.len(), 64 * 1024);
}

fn cause(io_kind: Option<IoKind>, text: &str) -> ErrorCause {
    ErrorCause { io_kind, text: text.to_string() }
}

#[test]
fn failure_kinds_from_flags_and_causes() {
    let refused = vec![cause(Some(IoKind::ConnectionRefused), "io error")];
    assert_eq!(classify_failure(true, false, &refused), ErrorKind::Timeout);
    assert_eq!(classify_failure(false, true, &refused), ErrorKind::InvalidUrl);
    assert_eq!(classify_failure(false, false, &refused), ErrorKind::Refused);

    let chain = vec![
        cause(None, "error sending request"),
        cause(None, "invalid peer certificate: certificate has expired"),
    ];
    assert_eq!(classify_failure(false, false, &chain), ErrorKind::TlsExpired);

    // The text of a cause is read before its I/O kind.
    let both = vec![cause(Some(IoKind::ConnectionReset), "connection refused")];
    assert_eq!(classify_failure(false, false, &both), ErrorKind::Refused);

    let reset = vec![cause(None, "client error"), cause(Some(IoKind::BrokenPipe), "pipe")];
    assert_eq!(classify_failure(false, false, &reset), ErrorKind::Reset);

    let other = vec![cause(Some(IoKind::Other), "something odd")];
    assert_eq!(classify_failure(false, false, &other), ErrorKind::Unreachable);
    assert_eq!(classify_failure(false, false, &Vec::new()), ErrorKind::Unreachable);
}

#[test]
fn noop_events_report_nothing() {
    let events = NoopEvents;
    events.emit_services(&[]);
    events.emit_poller_dead(0);
}
