use pulse::domain::check::{
    CheckEvidence, CheckResult, CompactSample, OutcomeClass, ServiceStatus, SparklinePoint,
    UiState,
};
use pulse::domain::error::{ErrorKind, MessageArgs, ValidationError};
use pulse::domain::runtime::{MachineStatus, RuntimeState};
use pulse::domain::service::{ExpectedStatus, HeaderSpec, HttpMethod, Service};
use pulse::domain::settings::{
    apply_launch_prompt, hhmm_to_minutes, launch_prompt_action, resolved_hotkey, valid_hhmm,
    AppSettings, LaunchPromptAction, QuietHours, DEFAULT_HOTKEY,
};
use pulse::domain::view::{assemble_view, compact_sample, sparkline24, ui_state, SPARKLINE_LEN};

const AT: i64 = 1_787_061_600_000;

fn service(paused: bool) -> Service {
    Service {
        id: "svc".into(),
        name: "Payments".into(),
        url: "https://pay.example/health".into(),
        method: HttpMethod::Get,
        headers: vec![
            HeaderSpec {
                key: "Authorization".into(),
                secret: true,
                value: None,
            },
            HeaderSpec {
                key: "Accept".into(),
                secret: false,
                value: Some("application/json".into()),
            },
        ],
        body: None,
        interval_sec: 60,
        timeout_ms: 10_000,
        expected_status: ExpectedStatus::TwoXx,
        assertions: vec![],
        max_latency_ms: None,
        action_url: None,
        notify: true,
        always_alert: false,
        paused,
        follow_redirects: true,
        fail_threshold: None,
        group: None,
        created_at: AT,
        updated_at: AT,
    }
}

#[test]
fn default_hotkey_is_command_or_control_shift_u() {
    assert_eq!(DEFAULT_HOTKEY, "CommandOrControl+Shift+U");
    assert_eq!(resolved_hotkey(&AppSettings::default()), DEFAULT_HOTKEY);
    let custom = AppSettings {
        hotkey: Some("CommandOrControl+Shift+P".into()),
        ..AppSettings::default()
    };
    assert_eq!(resolved_hotkey(&custom), "CommandOrControl+Shift+P");
    let blank = AppSettings {
        hotkey: Some("  ".into()),
        ..AppSettings::default()
    };
    assert_eq!(resolved_hotkey(&blank), DEFAULT_HOTKEY);
}

#[test]
fn launch_prompt_fires_once_after_first_save() {
    let mut settings = AppSettings::default();
    assert!(!settings.launch_at_login);
    assert_eq!(launch_prompt_action(&settings), LaunchPromptAction::Ask);
    apply_launch_prompt(&mut settings, false);
    assert!(settings.asked_launch_at_login);
    assert!(!settings.launch_at_login);
    assert_eq!(launch_prompt_action(&settings), LaunchPromptAction::Skip);
}

#[test]
fn enabling_launch_at_login_marks_asked() {
    let settings = AppSettings {
        launch_at_login: true,
        ..AppSettings::default()
    };
    assert_eq!(
        launch_prompt_action(&settings),
        LaunchPromptAction::MarkAsked
    );
}

#[test]
fn hhmm_accepts_only_valid_clock_times() {
    assert_eq!(hhmm_to_minutes("22:00"), Some(22 * 60));
    assert_eq!(hhmm_to_minutes("08:05"), Some(8 * 60 + 5));
    assert_eq!(hhmm_to_minutes("24:00"), None);
    assert_eq!(hhmm_to_minutes("7:00"), None);
    assert!(valid_hhmm("23:59"));
    assert!(!valid_hhmm("23:60"));
    assert!(QuietHours::weekdays_overnight().validate().is_ok());
    let bad_day = QuietHours {
        start: "22:00".into(),
        end: "08:00".into(),
        days: vec![7],
    };
    assert_eq!(bad_day.validate(), Err(ValidationError::QuietHours));
}

#[test]
fn interval_sec_minimum_is_15() {
    let mut s = service(false);
    s.interval_sec = 14;
    assert_eq!(
        s.validate(),
        Err(ValidationError::IntervalTooSmall { min: 15, got: 14 })
    );
    assert_eq!(
        Service::validate_list(&[s]),
        Err(ValidationError::IntervalTooSmall { min: 15, got: 14 })
    );
}

#[test]
fn secret_header_with_value_is_rejected() {
    let mut s = service(false);
    s.headers[0].value = Some("super-secret".into());
    assert_eq!(
        s.validate(),
        Err(ValidationError::SecretNotSupported("Authorization".into()))
    );
}

#[test]
fn secret_header_without_value_is_ok() {
    let s = service(false);
    assert_eq!(s.validate(), Ok(()));
}

#[test]
fn non_http_url_and_duplicate_ids_are_refused() {
    let mut s = service(false);
    s.url = "file:///etc/passwd".into();
    assert_eq!(s.validate(), Err(ValidationError::Url));
    let a = service(false);
    let b = service(false);
    assert_eq!(
        Service::validate_list(&[a, b]),
        Err(ValidationError::DuplicateId("svc".into()))
    );
}

#[test]
fn expected_status_parsing() {
    assert_eq!(ExpectedStatus::from_text("2xx"), Some(ExpectedStatus::TwoXx));
    assert_eq!(ExpectedStatus::from_text("3xx"), None);
    assert_eq!(ExpectedStatus::from_code(204), Some(ExpectedStatus::Code(204)));
    assert_eq!(ExpectedStatus::from_code(99), None);
}

#[test]
fn validation_messages() {
    assert_eq!(ValidationError::Url.message(), ValidationError::Url.message());
    assert!(!ValidationError::IntervalTooSmall { min: 15, got: 14 }.message().is_empty());
    let args = MessageArgs {
        timeout_ms: Some(10_000),
        ..MessageArgs::default()
    };
    assert_eq!(ErrorKind::Timeout.user_message(&args), "Timed out after 10s");
    assert_eq!(
        ErrorKind::Dns.user_message(&MessageArgs::default()),
        "Couldn't resolve host"
    );
}

fn sample(state: ServiceStatus, at: i64) -> CompactSample {
    CompactSample {
        at,
        state,
        outcome: OutcomeClass::Pass,
        http_status: Some(200),
        latency_ms: Some(12),
        error_kind: None,
    }
}

#[test]
fn paused_overrides_machine_status() {
    let mut runtime = RuntimeState::pending();
    runtime.status = MachineStatus::Down;
    let view = assemble_view(&service(true), &runtime, None, &[], false);
    assert_eq!(view.state, UiState::Paused);
    assert_eq!(view.consecutive_hard_fails, 0);
    assert!(view.keychain_identity_changed.is_none());
    assert_eq!(ui_state(true, MachineStatus::Healthy), UiState::Paused);
    assert_eq!(ui_state(false, MachineStatus::Degraded), UiState::Degraded);
}

#[test]
fn first_save_is_pending_until_applied_result() {
    let view = assemble_view(&service(false), &RuntimeState::pending(), None, &[], false);
    assert_eq!(view.state, UiState::Pending);
    assert!(view.last_result.is_none());
    assert_eq!(view.sparkline24.len(), SPARKLINE_LEN);
    assert!(view
        .sparkline24
        .iter()
        .all(|point| *point == SparklinePoint::Gap));
}

#[test]
fn down_clock_adjust_is_copied() {
    let mut runtime = RuntimeState::pending();
    runtime.status = MachineStatus::Down;
    runtime.down_clock_adjust_ms = 90_000;
    let view = assemble_view(&service(false), &runtime, None, &[], false);
    assert_eq!(view.down_clock_adjust_ms, 90_000);
}

#[test]
fn identity_changed_is_set_only_when_true() {
    let view = assemble_view(&service(false), &RuntimeState::pending(), None, &[], true);
    assert_eq!(view.keychain_identity_changed, Some(true));
}

#[test]
fn sparkline_uses_last_24_and_pads_gaps() {
    let samples: Vec<CompactSample> = (0..26)
        .map(|i| {
            let state = if i == 25 {
                ServiceStatus::Down
            } else {
                ServiceStatus::Healthy
            };
            sample(state, AT + i * 1_000)
        })
        .collect();
    let points = sparkline24(&samples);
    assert_eq!(points.len(), 24);
    assert_eq!(points[23], SparklinePoint::Down);
    assert_eq!(points[0], SparklinePoint::Healthy);
    assert_eq!(
        sparkline24(&[sample(ServiceStatus::Degraded, AT)])[23],
        SparklinePoint::Degraded
    );
    assert_eq!(
        sparkline24(&[sample(ServiceStatus::Degraded, AT)])[0],
        SparklinePoint::Gap
    );
}

#[test]
fn compact_sample_copies_post_machine_state() {
    let result = CheckResult {
        evidence: CheckEvidence {
            at: AT,
            outcome: OutcomeClass::Soft,
            http_status: Some(200),
            latency_ms: Some(900),
            redirects: None,
            headers_stripped_on_redirect: None,
            assertion_results: vec![],
            assertion_skipped: None,
            error_kind: Some(ErrorKind::Slow),
            error: Some("slow".into()),
            body_preview: None,
        },
        state: ServiceStatus::Degraded,
    };
    let sample = compact_sample(&result);
    assert_eq!(sample.state, ServiceStatus::Degraded);
    assert_eq!(sample.outcome, OutcomeClass::Soft);
    assert_eq!(sample.error_kind, Some(ErrorKind::Slow));
    assert_eq!(sample.at, AT);
    assert_eq!(sample.latency_ms, Some(900));
}
