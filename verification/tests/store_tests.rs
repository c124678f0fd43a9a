use pulse::domain::check::{OutcomeClass, ServiceStatus};
use pulse::domain::error::{ErrorKind, ValidationError};
use pulse::domain::runtime::{MachineStatus, RuntimeState};
use pulse::domain::service::{DraftHeader, HeaderSpec, SECRET_MASK};
use pulse::domain::settings::AppSettings;
use pulse::store::export::{confirm_message, export_filename, ImportPreview};
use pulse::store::history::{
    apply_pause, apply_sleep, apply_unpause, apply_wake, machine_status_sql, outcome_sql,
    parse_machine_status, parse_outcome, parse_service_status, service_status_sql, skip_probe,
};
use pulse::store::migrate::{
    ensure_supported, migrate_config, ConfigFile, StoreError, SCHEMA_VERSION,
};
use pulse::store::secrets::{
    account, check_storable, ensure_reveal_window, header_for_ui, persist_draft_headers, persist_plan, resolve_header,
    settle_stored, validate_draft_headers, HeaderResolution, KeychainOp, RevealError,
    MissingSecret, ResolvedHeader, RevealRegistry, ResolveHeader, SecretError, REVEAL_TTL_MS,
};

#[test]
fn export_filename_marks_secrets() {
    assert_eq!(export_filename(false), "pulse-services.json");
    assert_eq!(export_filename(true), "pulse-services.SECRETS.json");
}

#[test]
fn confirm_lists_names_and_hosts() {
    let preview = ImportPreview {
        filename: "pulse-services.json".into(),
        entries: vec![
            ("Payments API".into(), "pay.harbor.dev".into()),
            ("NAS".into(), "nas.home.arpa".into()),
        ],
        has_secret_values: true,
    };
    let message = confirm_message(&preview, true);
    assert!(message.starts_with("Import 2 services from pulse-services.json?"));
    assert!(message.contains("Payments API — pay.harbor.dev"));
    assert!(message.contains("NAS — nas.home.arpa"));
    assert!(message.contains(
        "This file contains secret header values. They will be stored in your OS keychain."
    ));
    let quiet = confirm_message(&preview, false);
    assert!(!quiet.contains("secret header values"));
}

#[test]
fn account_lowercases_header_key() {
    assert_eq!(account("01JABC", "Authorization"), "01JABC/authorization");
}

#[test]
fn v1_is_noop() {
    let mut file = ConfigFile::default();
    assert_eq!(file.schema_version, SCHEMA_VERSION);
    assert!(!migrate_config(&mut file).unwrap());
    assert_eq!(file.schema_version, SCHEMA_VERSION);
}

#[test]
fn older_schema_bumps_to_v1() {
    let mut file = ConfigFile {
        schema_version: 0,
        ..ConfigFile::default()
    };
    assert!(migrate_config(&mut file).unwrap());
    assert_eq!(file.schema_version, SCHEMA_VERSION);
}

#[test]
fn newer_schema_is_refused() {
    let err = ensure_supported(SCHEMA_VERSION + 1).unwrap_err();
    assert!(matches!(err, StoreError::SchemaTooNew { found: 2 }));
    assert_eq!(
        err.message(),
        "Pulse needs to be updated to read this config."
    );
    let mut newer = ConfigFile {
        schema_version: 7,
        settings: AppSettings::default(),
    };
    assert_eq!(
        migrate_config(&mut newer),
        Err(StoreError::SchemaTooNew { found: 7 })
    );
    assert_eq!(newer.schema_version, 7);
}

#[test]
fn refuse_to_store_ui_mask() {
    assert_eq!(check_storable(SECRET_MASK), Err(SecretError::MaskValue));
    assert_eq!(
        check_storable(&format!("{SECRET_MASK}x")),
        Err(SecretError::MaskValue)
    );
    assert_eq!(check_storable("Bearer tok"), Ok(()));
}

fn secret(key: &'static str, value: Option<&'static str>, clear: bool) -> ResolveHeader<'static> {
    ResolveHeader {
        key,
        secret: true,
        value,
        clear,
    }
}

fn missing(r: Result<ResolvedHeader, MissingSecret>) -> MissingSecret {
    match r {
        Err(m) => m,
        Ok(h) => panic!("expected a missing secret, got a value for {}", h.key),
    }
}

#[test]
fn resolve_secrets_prefers_draft_then_keychain() {
    match resolve_header(&secret("Authorization", None, true), Some("svc")) {
        HeaderResolution::Missing(m) => {
            assert!(!m.identity_changed);
            assert_eq!(m.key, "Authorization");
        }
        _ => panic!("a cleared secret is missing"),
    }
    match resolve_header(&secret("Authorization", Some("from-draft"), false), Some("svc")) {
        HeaderResolution::Resolved(h) => assert_eq!(h.value, "from-draft"),
        _ => panic!("a typed secret is used as typed"),
    }
    let masked = secret("Authorization", Some(SECRET_MASK), false);
    assert!(matches!(
        resolve_header(&masked, Some("svc")),
        HeaderResolution::ReadStored
    ));
    let stored = settle_stored(&masked, Ok("from-keychain".into())).unwrap();
    assert_eq!(stored.value, "from-keychain");
    assert_ne!(stored.value, SECRET_MASK);
}

#[test]
fn resolve_service_missing_secret() {
    let header = secret("Authorization", None, false);
    assert!(matches!(
        resolve_header(&header, Some("svc")),
        HeaderResolution::ReadStored
    ));
    let err = missing(settle_stored(&header, Err(SecretError::NotFound("Authorization".into()))));
    assert_eq!(err.key, "Authorization");
    assert!(!err.identity_changed);
    assert_eq!(err.message(), "Secret header Authorization is not set");
}

#[test]
fn unsaved_service_cannot_read_the_keychain() {
    match resolve_header(&secret("Authorization", None, false), None) {
        HeaderResolution::Missing(m) => assert_eq!(m.key, "Authorization"),
        _ => panic!("no saved service, no keychain entry"),
    }
    let plain = ResolveHeader {
        key: "Accept",
        secret: false,
        value: Some("application/json"),
        clear: false,
    };
    match resolve_header(&plain, None) {
        HeaderResolution::Resolved(h) => {
            assert_eq!(h.value, "application/json");
            assert!(!h.secret);
        }
        _ => panic!("a plain header is sent as is"),
    }
}

#[test]
fn identity_read_failure_is_missing_secret_and_sets_flag() {
    let header = secret("Authorization", None, false);
    let err = missing(settle_stored(
        &header,
        Err(SecretError::IdentityChanged("Authorization".into())),
    ));
    assert!(err.identity_changed);
    assert_eq!(err.key, "Authorization");
}

#[test]
fn stored_mask_is_not_sent() {
    let header = secret("Authorization", None, false);
    let err = missing(settle_stored(&header, Ok(SECRET_MASK.into())));
    assert_eq!(err.key, "Authorization");
}

fn draft(key: &str, value: Option<&str>, secret: bool, clear: bool) -> DraftHeader {
    DraftHeader {
        key: key.into(),
        value: value.map(|v| v.to_string()),
        secret,
        clear,
    }
}

#[test]
fn persist_draft_writes_per_header_and_strips_values() {
    let plan = persist_plan(
        &vec![
            draft("Authorization", Some("Bearer tok"), true, false),
            draft("Accept", Some("application/json"), false, false),
        ],
        &vec![],
    );
    let persisted = plan.outcome.unwrap();
    assert_eq!(persisted[0].value, None);
    assert!(persisted[0].secret);
    assert_eq!(persisted[1].value.as_deref(), Some("application/json"));
    assert_eq!(
        plan.ops,
        vec![KeychainOp::Write {
            key: "Authorization".into(),
            value: "Bearer tok".into()
        }]
    );
}

#[test]
fn persist_clear_and_removed_secret_deletes_item() {
    let plan = persist_plan(
        &vec![draft("Authorization", None, true, true)],
        &vec!["Authorization".into(), "X-Api-Key".into()],
    );
    assert!(plan.outcome.is_ok());
    assert!(plan.ops.contains(&KeychainOp::Remove {
        key: "Authorization".into()
    }));
    assert!(plan.ops.contains(&KeychainOp::Remove {
        key: "X-Api-Key".into()
    }));
}

#[test]
fn persist_refuses_mask_on_non_secret_header() {
    let plan = persist_plan(&vec![draft("Authorization", Some(SECRET_MASK), false, false)], &vec![]);
    assert!(matches!(plan.outcome, Err(SecretError::MaskValue)));
    assert!(plan.ops.is_empty());
}

#[test]
fn persist_validates_before_any_keychain_write() {
    let dup = vec![
        draft("Authorization", Some("new-token"), true, false),
        draft("authorization", Some("other"), true, false),
    ];
    assert!(matches!(
        validate_draft_headers(&dup),
        Err(ValidationError::DuplicateHeader(_))
    ));
    let too_long = vec![draft("Authorization", Some(&"x".repeat(8193)), true, false)];
    assert_eq!(
        validate_draft_headers(&too_long),
        Err(ValidationError::HeaderValue)
    );
    let fine = vec![draft("Authorization", Some("tok"), true, false)];
    assert_eq!(validate_draft_headers(&fine), Ok(()));
    match persist_draft_headers(&dup, &vec![]) {
        Err(e) => assert!(matches!(e, ValidationError::DuplicateHeader(_))),
        Ok(_) => panic!("a duplicate header must be refused before any keychain change"),
    }
    let plan = match persist_draft_headers(&fine, &vec![]) {
        Ok(plan) => plan,
        Err(e) => panic!("refused: {e:?}"),
    };
    assert_eq!(plan.ops.len(), 1);
    let stored = plan.outcome.unwrap();
    assert_eq!(stored.len(), 1);
    assert_eq!(stored[0].key, "Authorization");
    assert!(stored[0].secret);
    assert_eq!(stored[0].value, None);
}

#[test]
fn ui_header_masks_existing_secret() {
    let spec = HeaderSpec {
        key: "Authorization".into(),
        secret: true,
        value: None,
    };
    let header = header_for_ui(&spec, true);
    assert_eq!(header.value, SECRET_MASK);
    assert!(header.has_value);
    let empty = header_for_ui(&spec, false);
    assert_eq!(empty.value, "");
    assert!(!empty.has_value);
}

#[test]
fn reveal_token_is_bound_and_ttl_scoped() {
    let mut reveals = RevealRegistry::new();
    assert!(ensure_reveal_window("popover").is_err());
    assert!(ensure_reveal_window("detail").is_ok());
    assert!(ensure_reveal_window("editor").is_ok());

    let now = 1_000_000;
    let grant = reveals.begin("svc", "Authorization", now);
    assert_eq!(grant.ttl_ms, 5_000);
    assert_eq!(grant.token.len(), 26);
    assert!(reveals.reveal_check(&grant.token, "svc", "X-Api-Key", now).is_err());
    assert_eq!(reveals.reveal_check(&grant.token, "svc", "authorization", now + 1), Ok(()));
    assert_eq!(
        reveals.reveal_finish(&grant.token, Ok("Bearer tok".into())),
        Ok("Bearer tok".to_string())
    );
    assert_eq!(
        reveals.reveal_check(&grant.token, "svc", "Authorization", now + 2),
        Err(RevealError::InvalidToken)
    );
}

#[test]
fn expired_grant_is_refused() {
    let mut reveals = RevealRegistry::new();
    let now = 50_000;
    let grant = reveals.begin("svc", "Authorization", now);
    assert_eq!(
        reveals.reveal_check(&grant.token, "svc", "Authorization", now + REVEAL_TTL_MS),
        Err(RevealError::InvalidToken)
    );
    let other = reveals.begin("svc", "Authorization", now);
    reveals.end(&other.token);
    assert_eq!(
        reveals.reveal_check(&other.token, "svc", "Authorization", now),
        Err(RevealError::InvalidToken)
    );
}

#[test]
fn missing_keychain_value_keeps_the_grant() {
    let mut reveals = RevealRegistry::new();
    let grant = reveals.begin("svc", "Authorization", 10);
    assert_eq!(reveals.reveal_check(&grant.token, "svc", "Authorization", 11), Ok(()));
    assert_eq!(
        reveals.reveal_finish(&grant.token, Err(SecretError::NotFound("Authorization".into()))),
        Err(RevealError::MissingSecret("Authorization".into()))
    );
    assert_eq!(reveals.reveal_check(&grant.token, "svc", "Authorization", 12), Ok(()));
}

const DOWN_AT: i64 = 1_700_000_000_000;

fn down_state(now: i64) -> RuntimeState {
    RuntimeState {
        consecutive_hard_fails: 3,
        status: MachineStatus::Down,
        down_since: Some(now),
        degraded_since: None,
        down_clock_adjust_ms: 0,
        last_check_at: Some(now),
        snooze_until: None,
        paused_at: None,
        slept_at: None,
    }
}

#[test]
fn mid_pause_restart_still_subtracts_pause_time() {
    let mut state = down_state(DOWN_AT);
    let pause_at = 1_700_000_060_000;
    assert!(apply_pause(&mut state, pause_at));
    assert_eq!(state.status, MachineStatus::Down);
    assert_eq!(state.paused_at, Some(pause_at));
    assert_eq!(state.down_clock_adjust_ms, 0);
    apply_unpause(&mut state, 1_700_000_180_000);
    assert_eq!(state.paused_at, None);
    assert_eq!(state.down_clock_adjust_ms, 120_000);
    assert_eq!(state.status, MachineStatus::Down);
}

#[test]
fn pause_covers_overlapping_sleep() {
    let mut state = down_state(DOWN_AT);
    let pause_at = 1_700_000_060_000;
    apply_pause(&mut state, pause_at);
    assert!(!apply_sleep(&mut state, 1_700_000_090_000));
    assert_eq!(state.paused_at, Some(pause_at));
    assert!(state.slept_at.is_none());
    apply_wake(&mut state, 1_700_000_150_000);
    apply_unpause(&mut state, 1_700_000_180_000);
    assert_eq!(state.paused_at, None);
    assert_eq!(state.slept_at, None);
    assert_eq!(state.down_clock_adjust_ms, 120_000);
}

#[test]
fn leftover_slept_at_is_folded_before_new_sleep() {
    let mut state = down_state(DOWN_AT);
    apply_sleep(&mut state, 1_700_000_010_000);
    apply_sleep(&mut state, 1_700_000_040_000);
    assert_eq!(state.slept_at, Some(1_700_000_040_000));
    assert_eq!(state.down_clock_adjust_ms, 30_000);
    apply_wake(&mut state, 1_700_000_050_000);
    assert_eq!(state.slept_at, None);
    assert_eq!(state.down_clock_adjust_ms, 40_000);
}

#[test]
fn sleep_wake_adjusts_down_clock() {
    let mut state = down_state(DOWN_AT);
    apply_sleep(&mut state, 1_700_000_010_000);
    apply_wake(&mut state, 1_700_000_040_000);
    assert_eq!(state.slept_at, None);
    assert_eq!(state.down_clock_adjust_ms, 30_000);
}

#[test]
fn healthy_service_is_not_paused_or_slept() {
    let mut state = RuntimeState::pending();
    assert!(!apply_pause(&mut state, DOWN_AT));
    assert!(!apply_sleep(&mut state, DOWN_AT));
    assert_eq!(state, RuntimeState::pending());
}

#[test]
fn status_text_roundtrips() {
    for status in [
        MachineStatus::Pending,
        MachineStatus::Healthy,
        MachineStatus::Degraded,
        MachineStatus::Down,
    ] {
        assert_eq!(parse_machine_status(machine_status_sql(status)), Ok(status));
    }
    assert!(parse_machine_status("sideways").is_err());
    assert!(parse_outcome(outcome_sql(pulse::domain::check::OutcomeClass::Soft)).is_ok());
}

#[test]
fn sample_text_roundtrips() {
    for status in [ServiceStatus::Healthy, ServiceStatus::Degraded, ServiceStatus::Down] {
        assert_eq!(parse_service_status(service_status_sql(status)), Ok(status));
    }
    for outcome in [OutcomeClass::Pass, OutcomeClass::Soft, OutcomeClass::Hard] {
        assert_eq!(parse_outcome(outcome_sql(outcome)), Ok(outcome));
    }
    assert_eq!(outcome_sql(OutcomeClass::Pass), "ok");
    assert_eq!(
        parse_service_status("sideways"),
        Err("unknown sample state sideways".to_string())
    );
}

#[test]
fn canceled_and_offline_are_not_written() {
    assert!(skip_probe(Some(ErrorKind::Canceled)));
    assert!(skip_probe(Some(ErrorKind::Offline)));
    assert!(!skip_probe(Some(ErrorKind::Timeout)));
    assert!(!skip_probe(None));
}

use pulse::domain::service::{DraftHeader as Draft, Header};
use pulse::store::secrets::ResolvedHeaders;

#[test]
fn secrets_debug_redacts_secret_and_denylist_headers() {
    let headers = ResolvedHeaders(vec![
        ResolvedHeader {
            key: "Authorization".into(),
            value: "Bearer super-secret".into(),
            secret: true,
        },
        ResolvedHeader {
            key: "Accept".into(),
            value: "application/json".into(),
            secret: false,
        },
    ]);
    let debug = headers.debug_text();
    assert!(!debug.contains("super-secret"));
    assert!(debug.contains(SECRET_MASK));
    assert!(debug.contains("application/json"));

    let spec = HeaderSpec {
        key: "X-Api-Key".into(),
        secret: false,
        value: Some("abc".into()),
    };
    let spec_debug = spec.debug_text();
    assert!(!spec_debug.contains("abc"));
    assert!(spec_debug.contains(SECRET_MASK));
}

#[test]
fn debug_text_has_the_derived_shape() {
    let plain = HeaderSpec {
        key: "Accept".into(),
        secret: false,
        value: Some("application/json".into()),
    };
    assert_eq!(
        plain.debug_text(),
        "HeaderSpec { key: \"Accept\", secret: false, value: Some(\"application/json\") }"
    );
    let empty = ResolvedHeaders(vec![]);
    assert_eq!(empty.debug_text(), "ResolvedHeaders([])");
    let ui = Header {
        key: "Cookie".into(),
        value: "sid=1".into(),
        secret: false,
        has_value: true,
    };
    assert!(!ui.debug_text().contains("sid=1"));
    let draft = Draft {
        key: "Authorization".into(),
        value: None,
        secret: true,
        clear: true,
    };
    assert_eq!(
        draft.debug_text(),
        "DraftHeader { key: \"Authorization\", value: None, secret: true, clear: true }"
    );
}

use pulse::domain::service::{ExpectedStatus, HttpMethod, Service};
use pulse::store::export::{export_service, prepare_import_at, preview_import, ExportFile};

fn saved_service(id: &str) -> Service {
    Service {
        id: id.into(),
        name: "Payments".into(),
        url: "https://pay.example/health".into(),
        method: HttpMethod::Get,
        headers: vec![
            HeaderSpec {
                key: "Authorization".into(),
                secret: true,
                value: None,
            },
            HeaderSpec {
                key: "Accept".into(),
                secret: false,
                value: Some("application/json".into()),
            },
        ],
        body: None,
        interval_sec: 60,
        timeout_ms: 10_000,
        expected_status: ExpectedStatus::TwoXx,
        assertions: vec![],
        max_latency_ms: None,
        action_url: None,
        notify: true,
        always_alert: false,
        paused: false,
        follow_redirects: true,
        fail_threshold: None,
        group: None,
        created_at: 1_000,
        updated_at: 2_000,
    }
}

#[test]
fn export_without_secrets_omits_values() {
    let s = saved_service("svc");
    let with = export_service(&s, true, &vec![Some("Bearer tok".into()), None]);
    assert_eq!(with.headers[0].value.as_deref(), Some("Bearer tok"));
    assert_eq!(with.headers[1].value.as_deref(), Some("application/json"));
    let without = export_service(&s, false, &vec![Some("Bearer tok".into()), None]);
    assert_eq!(without.headers[0].value, None);
    assert_eq!(without.id.as_deref(), Some("svc"));
}

#[test]
fn reimporting_own_export_changes_only_the_update_time() {
    let s = saved_service("svc");
    let e = export_service(&s, false, &vec![None, None]);
    let prepared = prepare_import_at(&vec![s.clone()], &vec![e], 9_000, &vec![String::new()]).ok().unwrap();
    assert_eq!(prepared.added, 0);
    assert_eq!(prepared.updated, 1);
    assert_eq!(prepared.services.len(), 1);
    let back = &prepared.services[0];
    assert_eq!(back.id, s.id);
    assert_eq!(back.name, s.name);
    assert_eq!(back.url, s.url);
    assert_eq!(back.headers[0].value, None);
    assert_eq!(back.headers[1].value.as_deref(), Some("application/json"));
    assert_eq!(back.created_at, 1_000);
    assert_eq!(back.updated_at, 9_000);
}

#[test]
fn import_without_id_takes_the_fresh_id() {
    let s = saved_service("svc");
    let mut e = export_service(&s, false, &vec![None, None]);
    e.id = Some("   ".into());
    let prepared = prepare_import_at(&vec![s.clone()], &vec![e], 9_000, &vec!["01JNEW".into()]).ok().unwrap();
    assert_eq!(prepared.added, 1);
    assert_eq!(prepared.services.len(), 2);
    assert_eq!(prepared.services[1].id, "01JNEW");
    assert_eq!(prepared.services[1].created_at, 9_000);
}

#[test]
fn invalid_import_is_refused_with_the_first_error() {
    let s = saved_service("svc");
    let mut e = export_service(&s, false, &vec![None, None]);
    e.url = "file:///etc/passwd".into();
    assert!(matches!(
        prepare_import_at(&vec![], &vec![e], 9_000, &vec![String::new()]),
        Err(ValidationError::Url)
    ));
}

#[test]
fn secrets_without_flag_are_refused_before_anything_else() {
    let s = saved_service("svc");
    let e = export_service(&s, true, &vec![Some("Bearer tok".into()), None]);
    let file = ExportFile {
        schema_version: 1,
        exported_at: None,
        include_secrets: Some(true),
        settings: None,
        services: vec![e],
    };
    assert!(matches!(
        preview_import(&file, "pulse-services.SECRETS.json", false),
        Err(StoreError::SecretsWithoutFlag)
    ));
    let preview = preview_import(&file, "pulse-services.SECRETS.json", true).ok().unwrap();
    assert!(preview.has_secret_values);
    assert_eq!(preview.entries, vec![("Payments".to_string(), "pay.example".to_string())]);
}

use pulse::store::secrets::secret_header_exists;

#[test]
fn reveal_requires_existing_secret_header() {
    let services = vec![saved_service("svc")];
    assert_eq!(secret_header_exists(&services, "svc", "authorization"), Ok(()));
    assert_eq!(
        secret_header_exists(&services, "svc", "Accept"),
        Err(RevealError::NotFound)
    );
    assert_eq!(
        secret_header_exists(&services, "other", "Authorization"),
        Err(RevealError::NotFound)
    );
}
