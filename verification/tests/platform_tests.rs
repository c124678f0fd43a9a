use pulse::domain::check::UiState;
use pulse::domain::service::{ExpectedStatus, HttpMethod, Service, ServiceView};
use pulse::domain::settings::AppSettings;
use pulse::platform::autostart::{
    arm_launch_prompt, commit_hotkey, detail_id, is_utility_label, take_pending_launch_prompt,
    utility_labels_list, DetailId, LaunchPromptLatch,
};
use pulse::platform::tray::{
    badge_label, clamp_to_work_area, icon_on_taskbar, mark_from, monitor_containing,
    work_area_anchor, ClickButton, ClickOutcome, ClickProtocol, TrayMark, TraySnapshot,
};

const T0: u64 = 5_000_000;

#[test]
fn editor_is_a_utility_window() {
    assert!(utility_labels_list().contains(&"editor"));
    assert!(is_utility_label("editor"));
    assert!(is_utility_label("detail"));
    assert!(!is_utility_label("popover"));
}

#[test]
fn parse_detail_id_requires_non_empty() {
    assert_eq!(detail_id(Some(DetailId { id: "abc".into() })), Some("abc".into()));
    assert_eq!(detail_id(Some(DetailId { id: String::new() })), None);
    assert_eq!(detail_id(None), None);
}

#[test]
fn pending_launch_prompt_is_one_shot() {
    let mut latch = LaunchPromptLatch::new();
    assert!(!take_pending_launch_prompt(&mut latch));
    arm_launch_prompt(&mut latch);
    assert!(take_pending_launch_prompt(&mut latch));
    assert!(!take_pending_launch_prompt(&mut latch));
}

#[test]
fn failed_register_keeps_last_good_hotkey() {
    assert_eq!(
        commit_hotkey(Some("CommandOrControl+Shift+U".into()), "bad".into(), false),
        Some("CommandOrControl+Shift+U".into())
    );
    assert_eq!(
        commit_hotkey(Some("old".into()), "CommandOrControl+Shift+P".into(), true),
        Some("CommandOrControl+Shift+P".into())
    );
    assert_eq!(commit_hotkey(None, "bad".into(), false), None);
}

#[test]
fn click_protocol_suppresses_blur_and_toggles_on_up() {
    let mut proto = ClickProtocol::default();
    proto.on_down(ClickButton::Left, T0);
    assert!(proto.should_suppress_blur(T0 + 100));
    assert!(!proto.should_suppress_blur(T0 + 251));
    assert_eq!(proto.on_up(ClickButton::Left, false), ClickOutcome::Toggle);
}

#[test]
fn right_click_then_left_does_not_toggle() {
    let mut proto = ClickProtocol::default();
    proto.on_down(ClickButton::Right, T0);
    proto.on_down(ClickButton::Left, T0);
    assert_eq!(proto.on_up(ClickButton::Left, false), ClickOutcome::Ignore);
    proto.on_down(ClickButton::Left, T0);
    assert_eq!(proto.on_up(ClickButton::Left, false), ClickOutcome::Toggle);
}

#[test]
fn dismissed_menu_after_suppress_toggles() {
    let mut proto = ClickProtocol::default();
    proto.on_down(ClickButton::Right, T0);
    proto.on_down(ClickButton::Left, T0 + 251);
    assert_eq!(proto.on_up(ClickButton::Left, false), ClickOutcome::Toggle);
}

#[test]
fn overflow_show_only_does_not_hide() {
    let mut proto = ClickProtocol::default();
    proto.on_down(ClickButton::Left, T0);
    assert_eq!(proto.on_up(ClickButton::Left, true), ClickOutcome::ShowOnly);
}

#[test]
fn closing_the_menu_lets_the_next_left_click_toggle() {
    let mut proto = ClickProtocol::default();
    proto.on_down(ClickButton::Right, T0);
    proto.on_menu_closed();
    proto.on_down(ClickButton::Left, T0 + 10);
    assert_eq!(proto.on_up(ClickButton::Left, false), ClickOutcome::Toggle);
    assert!(!ClickProtocol::default().should_suppress_blur(T0));
}

#[test]
fn work_area_fallback_is_bottom_right_minus_inset() {
    assert_eq!(
        work_area_anchor((0, 0, 1920, 1080), 372, 480, 12, false),
        (1920 - 372 - 12, 1080 - 480 - 12)
    );
    let secondary = (1920, 0, 1440, 900);
    assert_eq!(
        work_area_anchor(secondary, 372, 480, 12, false),
        (1920 + 1440 - 372 - 12, 900 - 480 - 12)
    );
}

#[test]
fn macos_first_run_fallback_is_top_right() {
    assert_eq!(
        work_area_anchor((0, 0, 1920, 1080), 372, 480, 12, true),
        (1920 - 372 - 12, 12)
    );
}

#[test]
fn flyout_inside_work_area_is_overflow_taskbar_is_not() {
    let work = (0, 0, 1920, 1040);
    let taskbar = (1880, 1040, 24, 40);
    let flyout = (1700, 800, 24, 24);
    assert!(icon_on_taskbar(taskbar, work));
    assert!(!icon_on_taskbar(flyout, work));
}

#[test]
fn clamp_keeps_popover_on_the_same_monitor() {
    let left = (0, 0, 1920, 1080);
    let (x, y) = clamp_to_work_area(3000, 20, 372, 480, left, 12);
    assert_eq!(x, 1920 - 372 - 12);
    assert_eq!(y, 20);
    let right = (1920, 0, 1440, 900);
    let (x, y) = clamp_to_work_area(100, 10, 372, 480, right, 12);
    assert_eq!(x, 1920 + 12);
    assert_eq!(y, 12);
}

#[test]
fn monitor_containing_picks_the_display_under_the_point() {
    let monitors = [(0, 0, 1920, 1080), (1920, 0, 1440, 900)];
    assert_eq!(monitor_containing(&monitors, 10, 10), Some(0));
    assert_eq!(monitor_containing(&monitors, 2000, 100), Some(1));
    assert_eq!(monitor_containing(&monitors, -20, 10), None);
}

#[test]
fn badge_caps_at_99() {
    assert_eq!(badge_label(7), "7");
    assert_eq!(badge_label(99), "99");
    assert_eq!(badge_label(100), "99+");
}

fn view(id: &str, state: UiState, paused: bool, snoozed: bool) -> ServiceView {
    let now: i64 = 1_787_054_400_000;
    ServiceView {
        service: Service {
            id: id.into(),
            name: id.into(),
            url: "https://example.test/health".into(),
            method: HttpMethod::Get,
            headers: vec![],
            body: None,
            interval_sec: 60,
            timeout_ms: 10_000,
            expected_status: ExpectedStatus::TwoXx,
            assertions: vec![],
            max_latency_ms: None,
            action_url: None,
            notify: true,
            always_alert: false,
            paused,
            follow_redirects: true,
            fail_threshold: None,
            group: None,
            created_at: now,
            updated_at: now,
        },
        state,
        snooze_until: if snoozed { Some(now + 3_600_000) } else { None },
        keychain_identity_changed: None,
        last_result: None,
        last_check_at: None,
        down_since: None,
        down_clock_adjust_ms: 0,
        consecutive_hard_fails: 0,
        sparkline24: vec![],
    }
}

fn mark(services: &[ServiceView], offline: bool, poller_dead: bool) -> TrayMark {
    mark_from(TraySnapshot {
        services,
        offline,
        poller_dead,
    })
}

#[test]
fn empty_all_paused_all_pending_are_hollow() {
    assert_eq!(mark(&[], false, false), TrayMark::Hollow);
    assert_eq!(
        mark(&[view("a", UiState::Paused, true, false)], false, false),
        TrayMark::Hollow
    );
    assert_eq!(
        mark(
            &[
                view("a", UiState::Pending, false, false),
                view("b", UiState::Pending, false, false)
            ],
            false,
            false
        ),
        TrayMark::Hollow
    );
}

#[test]
fn healthy_requires_an_unpaused_non_pending() {
    assert_eq!(
        mark(&[view("a", UiState::Healthy, false, false)], false, false),
        TrayMark::Healthy
    );
    assert_eq!(
        mark(
            &[
                view("a", UiState::Healthy, false, false),
                view("b", UiState::Pending, false, false)
            ],
            false,
            false
        ),
        TrayMark::Healthy
    );
}

#[test]
fn worst_of_down_beats_degraded_beats_healthy() {
    let mixed = [
        view("ok", UiState::Healthy, false, false),
        view("slow", UiState::Degraded, false, false),
    ];
    assert_eq!(mark(&mixed, false, false), TrayMark::Degraded);
    let with_down = [
        view("ok", UiState::Healthy, false, false),
        view("slow", UiState::Degraded, false, false),
        view("d1", UiState::Down, false, false),
        view("d2", UiState::Down, false, false),
    ];
    assert_eq!(mark(&with_down, false, false), TrayMark::Down { count: 2 });
}

#[test]
fn paused_and_pending_do_not_count() {
    let services = [
        view("paused-down", UiState::Paused, true, false),
        view("pending", UiState::Pending, false, false),
        view("ok", UiState::Healthy, false, false),
    ];
    assert_eq!(mark(&services, false, false), TrayMark::Healthy);
    let only_paused_down = [view("paused-down", UiState::Down, true, false)];
    assert_eq!(mark(&only_paused_down, false, false), TrayMark::Hollow);
}

#[test]
fn snooze_does_not_change_the_mark() {
    let down = [view("pay", UiState::Down, false, true)];
    assert_eq!(mark(&down, false, false), TrayMark::Down { count: 1 });
    let degraded = [view("api", UiState::Degraded, false, true)];
    assert_eq!(mark(&degraded, false, false), TrayMark::Degraded);
}

#[test]
fn offline_overrides_color_poller_dead_overrides_all() {
    let down = [view("pay", UiState::Down, false, false)];
    assert_eq!(mark(&down, true, false), TrayMark::Offline);
    assert_eq!(mark(&down, true, true), TrayMark::PollerDead);
    assert_eq!(mark(&[], false, true), TrayMark::PollerDead);
    assert_eq!(TrayMark::Offline.tooltip(), "Pulse · offline");
    assert_eq!(TrayMark::Hollow.tooltip(), "Pulse");
}

#[test]
fn settings_default_is_valid() {
    assert!(AppSettings::default().validate().is_ok());
}
