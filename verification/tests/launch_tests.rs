use pulse::domain::service::Service;
use pulse::domain::settings::MIXED_REACHABILITY_HELP;
use pulse::launch::{harbor_services, merge_demo, pause_all, LaunchFlags};
use pulse::logging::{pulse_log_level, redact, LogLevel, MAX_LOG_BYTES, MAX_LOG_FILES};
use pulse::domain::service::SECRET_MASK;

const NOW: i64 = 1_700_000_000_000;

#[test]
fn settings_mixed_reachability_help_is_verbatim() {
    assert_eq!(
        MIXED_REACHABILITY_HELP,
        "If any check succeeds, Pulse assumes the network is up. A homelab box that still answers will keep Pulse online even if the public internet is gone."
    );
}

#[test]
fn parse_paused_and_demo_flags() {
    assert_eq!(LaunchFlags::from_args(&["pulse"]), LaunchFlags::default());
    assert_eq!(
        LaunchFlags::from_args(&["pulse", "--paused"]),
        LaunchFlags {
            paused: true,
            demo: false
        }
    );
    assert_eq!(
        LaunchFlags::from_args(&["pnpm", "tauri", "dev", "--", "--demo", "--paused"]),
        LaunchFlags {
            paused: true,
            demo: true
        }
    );
}

#[test]
fn flags_count_wherever_they_stand() {
    assert_eq!(
        LaunchFlags::from_args(&["--demo"]),
        LaunchFlags {
            paused: false,
            demo: true
        }
    );
    assert_eq!(LaunchFlags::from_args(&[]), LaunchFlags::default());
    assert_eq!(LaunchFlags::from_args(&["--PAUSED", "-paused"]), LaunchFlags::default());
}

#[test]
fn harbor_is_seven_named_health_urls() {
    let services = harbor_services(NOW);
    assert_eq!(services.len(), 7);
    Service::validate_list(&services).unwrap();
    let names: Vec<&str> = services.iter().map(|s| s.name.as_str()).collect();
    assert_eq!(
        names,
        ["API", "Web", "Worker", "Auth", "Payments API", "Docs", "NAS"]
    );
    assert_eq!(services[0].url, "https://api.harbor.dev/health");
    assert_eq!(services[1].url, "https://app.harbor.dev/api/healthz");
    assert_eq!(services[2].url, "https://worker.harbor.dev/health");
    assert_eq!(services[3].url, "https://auth.harbor.dev/health");
    assert_eq!(services[4].url, "https://pay.harbor.dev/health");
    assert_eq!(services[5].url, "https://docs.harbor.dev/health");
    assert_eq!(services[6].url, "https://nas.home.arpa/api/v2.0/system/info");
    assert_eq!(services[4].max_latency_ms, Some(800));
    assert!(services[4].always_alert);
    assert!(!services.iter().any(|s| s.paused));
    assert!(services.iter().all(|s| s.created_at == NOW && s.updated_at == NOW));
}

#[test]
fn merge_demo_is_idempotent_by_id_or_url() {
    let demo = harbor_services(NOW);
    let first = merge_demo(Vec::new(), demo.clone());
    assert_eq!(first.len(), 7);
    let again = merge_demo(first.clone(), demo.clone());
    assert_eq!(again.len(), 7);
    let mut existing = first;
    existing[0].name = "Custom API".into();
    let merged = merge_demo(existing, demo);
    assert_eq!(merged.len(), 7);
    assert_eq!(merged[0].name, "Custom API");
}

#[test]
fn merge_demo_matches_by_url_when_ids_differ() {
    let demo = harbor_services(NOW);
    let mut mine = harbor_services(NOW);
    mine.truncate(1);
    mine[0].id = "my-own-id".into();
    let merged = merge_demo(mine, demo);
    assert_eq!(merged.len(), 7);
    assert_eq!(merged[0].id, "my-own-id");
}

#[test]
fn pause_all_marks_every_service() {
    let mut services = harbor_services(NOW);
    pause_all(&mut services);
    assert!(services.iter().all(|s| s.paused));
    assert_eq!(services.len(), 7);
}

#[test]
fn redacts_bearer_jwt_and_header_names() {
    let raw = r#"Authorization: Bearer super-secret eyJabc.def cookie: sid=1"#;
    let cleaned = redact(raw);
    assert!(!cleaned.contains("super-secret"));
    assert!(!cleaned.contains("eyJabc.def"));
    assert!(!cleaned.contains("sid=1"));
    assert!(cleaned.contains(SECRET_MASK));
    assert!(cleaned.contains("***"));
}

#[test]
fn redact_leaves_plain_text_alone() {
    assert_eq!(redact("GET /health 200"), "GET /health 200");
    assert_eq!(redact(""), "");
}

#[test]
fn pulse_filter_accepts_level() {
    assert_eq!(pulse_log_level(None), LogLevel::Info);
    assert_eq!(pulse_log_level(Some("DEBUG")), LogLevel::Debug);
    assert_eq!(pulse_log_level(Some("trace")), LogLevel::Trace);
    assert_eq!(pulse_log_level(Some("warn")), LogLevel::Warn);
    assert_eq!(pulse_log_level(Some("error")), LogLevel::Error);
    assert_eq!(pulse_log_level(Some("off")), LogLevel::Off);
    assert_eq!(pulse_log_level(Some("chatty")), LogLevel::Info);
    assert_eq!(MAX_LOG_BYTES, 2 * 1024 * 1024);
    assert_eq!(MAX_LOG_FILES, 3);
}
