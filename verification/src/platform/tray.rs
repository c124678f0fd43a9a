//! The tray mark (the worst state across services), the click protocol of the tray icon, and
//! popover placement arithmetic.
use vstd::prelude::*;

use crate::domain::check::UiState;
use crate::domain::service::ServiceView;
use crate::text::{decimal, decimal_string, owned};

verus! {

pub const SUPPRESS_BLUR_MS: u64 = 250;
pub const WORK_AREA_INSET: i32 = 12;

#[derive(Debug, Clone, Copy, PartialEq, Eq, Structural)]
pub enum TrayMark {
    Healthy,
    Degraded,
    Down { count: u32 },
    Hollow,
    Offline,
    PollerDead,
}

impl TrayMark {
    pub fn tooltip(self) -> (r: &'static str)
        ensures
            r@ == (match self {
                TrayMark::Healthy => "Pulse \u{b7} all healthy"@,
                TrayMark::Degraded => "Pulse \u{b7} degraded"@,
                TrayMark::Down { .. } => "Pulse \u{b7} services down"@,
                TrayMark::Hollow => "Pulse"@,
                TrayMark::Offline => "Pulse \u{b7} offline"@,
                TrayMark::PollerDead => "Pulse \u{b7} checker stopped"@,
            }),
    {
        match self {
            TrayMark::Healthy => "Pulse \u{b7} all healthy",
            TrayMark::Degraded => "Pulse \u{b7} degraded",
            TrayMark::Down { .. } => "Pulse \u{b7} services down",
            TrayMark::Hollow => "Pulse",
            TrayMark::Offline => "Pulse \u{b7} offline",
            TrayMark::PollerDead => "Pulse \u{b7} checker stopped",
        }
    }
}

pub struct TraySnapshot<'a> {
    pub services: &'a [ServiceView],
    pub offline: bool,
    pub poller_dead: bool,
}

/// A service that counts for the mark: not paused.
pub open spec fn active(v: ServiceView) -> bool {
    !v.service.paused && v.state != UiState::Paused
}

/// How many services are active and in `state`.
pub open spec fn count_in(vs: Seq<ServiceView>, state: UiState) -> nat
    decreases vs.len(),
{
    if vs.len() == 0 {
        0
    } else {
        count_in(vs.drop_last(), state) + if active(vs.last()) && vs.last().state == state { 1nat } else { 0nat }
    }
}

pub open spec fn count_active(vs: Seq<ServiceView>) -> nat
    decreases vs.len(),
{
    if vs.len() == 0 {
        0
    } else {
        count_active(vs.drop_last()) + if active(vs.last()) { 1nat } else { 0nat }
    }
}

/// Worst of the active, checked services; a stopped poller or an offline machine first.
/// Snoozing does not change the mark.
pub open spec fn mark_spec(services: Seq<ServiceView>, offline: bool, poller_dead: bool) -> TrayMark {
    if poller_dead {
        TrayMark::PollerDead
    } else if offline {
        TrayMark::Offline
    } else if count_active(services) == count_in(services, UiState::Pending) {
        TrayMark::Hollow
    } else if count_in(services, UiState::Down) > 0 {
        TrayMark::Down { count: count_in(services, UiState::Down) as u32 }
    } else if count_in(services, UiState::Degraded) > 0 {
        TrayMark::Degraded
    } else {
        TrayMark::Healthy
    }
}

proof fn lemma_count_le(vs: Seq<ServiceView>, state: UiState)
    ensures
        count_in(vs, state) <= count_active(vs),
        count_active(vs) <= vs.len(),
    decreases vs.len(),
{
    if vs.len() > 0 {
        lemma_count_le(vs.drop_last(), state);
    }
}

pub fn mark_from(snap: TraySnapshot<'_>) -> (r: TrayMark)
    requires
        snap.services@.len() <= u32::MAX,
    ensures
        r == mark_spec(snap.services@, snap.offline, snap.poller_dead),
{
    if snap.poller_dead {
        return TrayMark::PollerDead;
    }
    if snap.offline {
        return TrayMark::Offline;
    }
    let vs = snap.services;
    let mut act: u32 = 0;
    let mut pending: u32 = 0;
    let mut down: u32 = 0;
    let mut degraded: u32 = 0;
    let mut i: usize = 0;
    while i < vs.len()
        invariant
            i <= vs.len(),
            vs@.len() <= u32::MAX,
            act == count_active(vs@.take(i as int)),
            pending == count_in(vs@.take(i as int), UiState::Pending),
            down == count_in(vs@.take(i as int), UiState::Down),
            degraded == count_in(vs@.take(i as int), UiState::Degraded),
        decreases vs.len() - i,
    {
        proof {
            assert(vs@.take(i + 1).drop_last() =~= vs@.take(i as int));
            assert(vs@.take(i + 1).last() == vs@[i as int]);
            lemma_count_le(vs@.take(i as int), UiState::Pending);
            lemma_count_le(vs@.take(i as int), UiState::Down);
            lemma_count_le(vs@.take(i as int), UiState::Degraded);
        }
        let v = &vs[i];
        if !v.service.paused && v.state != UiState::Paused {
            act = act + 1;
            if v.state == UiState::Pending {
                pending = pending + 1;
            } else if v.state == UiState::Down {
                down = down + 1;
            } else if v.state == UiState::Degraded {
                degraded = degraded + 1;
            }
        }
        i = i + 1;
    }
    proof {
        assert(vs@.take(i as int) =~= vs@);
    }
    if act == pending {
        return TrayMark::Hollow;
    }
    if down > 0 {
        return TrayMark::Down { count: down };
    }
    if degraded > 0 {
        return TrayMark::Degraded;
    }
    TrayMark::Healthy
}

/// A down service always shows, and the mark counts every active down service.
pub proof fn lemma_down_dominates(services: Seq<ServiceView>)
    requires
        count_in(services, UiState::Down) > 0,
        count_in(services, UiState::Down) <= u32::MAX,
    ensures
        mark_spec(services, false, false) == (TrayMark::Down { count: count_in(services, UiState::Down) as u32 }),
{
    lemma_count_le(services, UiState::Down);
    lemma_count_le(services, UiState::Pending);
    lemma_pending_and_down(services);
}

/// The counts of the mark in words: the active services are all pending (or there are none)
/// exactly when no active service has another state, and a state is counted exactly when some
/// active service is in it.
pub proof fn lemma_mark_counts_in_words(vs: Seq<ServiceView>, state: UiState)
    ensures
        (count_active(vs) == count_in(vs, UiState::Pending)) <==> (forall|i: int| 0 <= i < vs.len() && active(#[trigger] vs[i]) ==> vs[i].state == UiState::Pending),
        (count_in(vs, state) > 0) <==> (exists|i: int| 0 <= i < vs.len() && active(#[trigger] vs[i]) && vs[i].state == state),
    decreases vs.len(),
{
    if vs.len() > 0 {
        let p = vs.drop_last();
        let n = vs.len() - 1;
        lemma_mark_counts_in_words(p, state);
        lemma_count_le(p, UiState::Pending);
        assert forall|i: int| 0 <= i < p.len() implies #[trigger] p[i] == vs[i] by {}
        if forall|i: int| 0 <= i < vs.len() && active(#[trigger] vs[i]) ==> vs[i].state == UiState::Pending {
            assert forall|i: int| 0 <= i < p.len() && active(#[trigger] p[i]) implies p[i].state == UiState::Pending by {
                assert(p[i] == vs[i]);
            }
            assert(active(vs[n]) ==> vs[n].state == UiState::Pending);
        }
        if count_active(vs) == count_in(vs, UiState::Pending) {
            assert forall|i: int| 0 <= i < vs.len() && active(#[trigger] vs[i]) implies vs[i].state == UiState::Pending by {
                if i < n {
                    assert(p[i] == vs[i]);
                }
            }
        }
        if exists|i: int| 0 <= i < vs.len() && active(#[trigger] vs[i]) && vs[i].state == state {
            let i = choose|i: int| 0 <= i < vs.len() && active(#[trigger] vs[i]) && vs[i].state == state;
            if i < n {
                assert(p[i] == vs[i]);
            }
        }
        if count_in(p, state) > 0 {
            let i = choose|i: int| 0 <= i < p.len() && active(#[trigger] p[i]) && p[i].state == state;
            assert(vs[i] == p[i]);
        }
        if active(vs[n]) && vs[n].state == state {
            assert(active(vs[n]) && vs[n].state == state);
        }
    }
}

proof fn lemma_pending_and_down(vs: Seq<ServiceView>)
    ensures
        count_in(vs, UiState::Pending) + count_in(vs, UiState::Down) <= count_active(vs),
    decreases vs.len(),
{
    if vs.len() > 0 {
        lemma_pending_and_down(vs.drop_last());
    }
}

/// Paused services never change the mark.
pub proof fn lemma_paused_ignored(services: Seq<ServiceView>, v: ServiceView, offline: bool, dead: bool)
    requires
        v.service.paused,
    ensures
        mark_spec(services.push(v), offline, dead) == mark_spec(services, offline, dead),
{
    assert(services.push(v).drop_last() =~= services);
}

#[derive(Debug, Clone, Copy, PartialEq, Eq, Structural)]
pub enum ClickButton {
    Left,
    Right,
}

#[derive(Debug, Clone, Copy, PartialEq, Eq, Structural)]
pub enum ClickOutcome {
    Ignore,
    Toggle,
    ShowOnly,
}

/// Mouse-down suppresses the popover's blur for a moment; mouse-up toggles it. The left click
/// that dismisses the right-click menu does not toggle. Times are milliseconds on a monotonic
/// clock.
#[derive(Debug, Clone, Copy, PartialEq, Eq, Structural)]
pub struct ClickProtocol {
    pub suppress_until: Option<u64>,
    pub menu_open: bool,
    pub skip_toggle: bool,
}

pub open spec fn suppress_spec(p: ClickProtocol, now: u64) -> bool {
    p.suppress_until matches Some(until) && now < until
}

pub open spec fn on_down_spec(p: ClickProtocol, button: ClickButton, now: u64) -> ClickProtocol {
    let showing = p.menu_open && suppress_spec(p, now);
    match button {
        ClickButton::Right => ClickProtocol { suppress_until: Some((now + SUPPRESS_BLUR_MS) as u64), menu_open: true, skip_toggle: false },
        ClickButton::Left => ClickProtocol { suppress_until: Some((now + SUPPRESS_BLUR_MS) as u64), menu_open: false, skip_toggle: showing },
    }
}

pub open spec fn on_up_spec(p: ClickProtocol, button: ClickButton, overflow: bool) -> (ClickProtocol, ClickOutcome) {
    if button != ClickButton::Left {
        (p, ClickOutcome::Ignore)
    } else if p.skip_toggle {
        (ClickProtocol { skip_toggle: false, ..p }, ClickOutcome::Ignore)
    } else if overflow {
        (p, ClickOutcome::ShowOnly)
    } else {
        (p, ClickOutcome::Toggle)
    }
}

impl Default for ClickProtocol {
    fn default() -> (r: Self)
        ensures
            r == (ClickProtocol { suppress_until: None, menu_open: false, skip_toggle: false }),
    {
        ClickProtocol { suppress_until: None, menu_open: false, skip_toggle: false }
    }
}

impl ClickProtocol {
    pub fn on_down(&mut self, button: ClickButton, now: u64)
        requires
            now + SUPPRESS_BLUR_MS <= u64::MAX,
        ensures
            *final(self) == on_down_spec(*old(self), button, now),
    {
        let showing = self.menu_showing(now);
        self.suppress_until = Some(now + SUPPRESS_BLUR_MS);
        match button {
            ClickButton::Right => {
                self.menu_open = true;
                self.skip_toggle = false;
            },
            ClickButton::Left => {
                self.skip_toggle = showing;
                self.menu_open = false;
            },
        }
    }

    pub fn on_up(&mut self, button: ClickButton, overflow: bool) -> (r: ClickOutcome)
        ensures
            (*final(self), r) == on_up_spec(*old(self), button, overflow),
    {
        if button != ClickButton::Left {
            return ClickOutcome::Ignore;
        }
        if self.skip_toggle {
            self.skip_toggle = false;
            return ClickOutcome::Ignore;
        }
        if overflow {
            ClickOutcome::ShowOnly
        } else {
            ClickOutcome::Toggle
        }
    }

    pub fn on_menu_closed(&mut self)
        ensures
            *final(self) == (ClickProtocol { menu_open: false, ..*old(self) }),
    {
        self.menu_open = false;
    }

    pub fn should_suppress_blur(&self, now: u64) -> (r: bool)
        ensures
            r == suppress_spec(*self, now),
    {
        match self.suppress_until {
            Some(until) => now < until,
            None => false,
        }
    }

    fn menu_showing(&self, now: u64) -> (r: bool)
        ensures
            r == (self.menu_open && suppress_spec(*self, now)),
    {
        self.menu_open && self.should_suppress_blur(now)
    }
}

/// After any press at `now`, whatever the state before, blur is suppressed exactly until
/// `now + SUPPRESS_BLUR_MS`.
pub proof fn lemma_press_opens_blur_window(p: ClickProtocol, button: ClickButton, now: u64, t: u64)
    requires
        now + SUPPRESS_BLUR_MS <= u64::MAX,
    ensures
        suppress_spec(on_down_spec(p, button, now), t) == (t < now + SUPPRESS_BLUR_MS),
{
}

/// A left click that dismisses the right-click menu (within the suppress window) does not
/// toggle the popover; the next left click does.
pub proof fn lemma_menu_dismiss_skips_toggle(p: ClickProtocol, t0: u64, t1: u64, t2: u64)
    requires
        t0 + SUPPRESS_BLUR_MS <= u64::MAX,
        t1 + SUPPRESS_BLUR_MS <= u64::MAX,
        t2 + SUPPRESS_BLUR_MS <= u64::MAX,
        t1 < t0 + SUPPRESS_BLUR_MS,
    ensures
        ({
            let after_menu = on_down_spec(p, ClickButton::Right, t0);
            let dismiss = on_up_spec(on_down_spec(after_menu, ClickButton::Left, t1), ClickButton::Left, false);
            let next = on_up_spec(on_down_spec(dismiss.0, ClickButton::Left, t2), ClickButton::Left, false);
            dismiss.1 == ClickOutcome::Ignore && next.1 == ClickOutcome::Toggle
        }),
{
}

/// A plain left click toggles the popover (or only shows it from the overflow area).
pub proof fn lemma_left_click_toggles(p: ClickProtocol, now: u64, overflow: bool)
    requires
        !p.menu_open,
        now + SUPPRESS_BLUR_MS <= u64::MAX,
    ensures
        on_up_spec(on_down_spec(p, ClickButton::Left, now), ClickButton::Left, overflow).1
            == (if overflow { ClickOutcome::ShowOnly } else { ClickOutcome::Toggle }),
{
}

/// x, y, width, height.
pub type WorkArea = (i32, i32, u32, u32);

/// Where the popover goes when there is no icon to anchor to: the right edge of the work area,
/// at the top (menu bar) or the bottom (taskbar).
pub fn work_area_anchor(area: WorkArea, pop_w: u32, pop_h: u32, inset: i32, from_top: bool) -> (r: (i32, i32))
    requires
        area.2 <= i32::MAX,
        area.3 <= i32::MAX,
        pop_w <= i32::MAX,
        pop_h <= i32::MAX,
        i32::MIN <= area.0 + area.2 <= i32::MAX,
        i32::MIN <= area.0 + area.2 - pop_w <= i32::MAX,
        i32::MIN <= area.0 + area.2 - pop_w - inset <= i32::MAX,
        i32::MIN <= area.1 + inset <= i32::MAX,
        i32::MIN <= area.1 + area.3 <= i32::MAX,
        i32::MIN <= area.1 + area.3 - pop_h <= i32::MAX,
        i32::MIN <= area.1 + area.3 - pop_h - inset <= i32::MAX,
    ensures
        r.0 == area.0 + area.2 - pop_w - inset,
        r.1 == (if from_top { area.1 + inset } else { area.1 + area.3 - pop_h - inset }),
{
    let (area_x, area_y, area_w, area_h) = area;
    let x = area_x + area_w as i32 - pop_w as i32 - inset;
    let y = if from_top {
        area_y + inset
    } else {
        area_y + area_h as i32 - pop_h as i32 - inset
    };
    (x, y)
}

pub open spec fn clamp_spec(v: int, lo: int, hi: int) -> int {
    let top = if hi > lo { hi } else { lo };
    if v < lo { lo } else if v > top { top } else { v }
}

/// Keep the popover inside the work area of its monitor.
pub fn clamp_to_work_area(x: i32, y: i32, pop_w: u32, pop_h: u32, area: WorkArea, inset: i32) -> (r: (i32, i32))
    requires
        area.2 <= i32::MAX,
        area.3 <= i32::MAX,
        pop_w <= i32::MAX,
        pop_h <= i32::MAX,
        i32::MIN <= area.0 + inset <= i32::MAX,
        i32::MIN <= area.1 + inset <= i32::MAX,
        i32::MIN <= area.0 + area.2 <= i32::MAX,
        i32::MIN <= area.0 + area.2 - pop_w <= i32::MAX,
        i32::MIN <= area.0 + area.2 - pop_w - inset <= i32::MAX,
        i32::MIN <= area.1 + area.3 <= i32::MAX,
        i32::MIN <= area.1 + area.3 - pop_h <= i32::MAX,
        i32::MIN <= area.1 + area.3 - pop_h - inset <= i32::MAX,
    ensures
        r.0 == clamp_spec(x as int, area.0 + inset, area.0 + area.2 - pop_w - inset),
        r.1 == clamp_spec(y as int, area.1 + inset, area.1 + area.3 - pop_h - inset),
{
    let (area_x, area_y, area_w, area_h) = area;
    let min_x = area_x + inset;
    let min_y = area_y + inset;
    let max_x = area_x + area_w as i32 - pop_w as i32 - inset;
    let max_y = area_y + area_h as i32 - pop_h as i32 - inset;
    let top_x = if max_x > min_x { max_x } else { min_x };
    let top_y = if max_y > min_y { max_y } else { min_y };
    let cx = if x < min_x { min_x } else if x > top_x { top_x } else { x };
    let cy = if y < min_y { min_y } else if y > top_y { top_y } else { y };
    (cx, cy)
}

pub open spec fn contains_point(m: WorkArea, px: i32, py: i32) -> bool {
    px >= m.0 && py >= m.1 && px < m.0 + m.2 && py < m.1 + m.3
}

/// The first monitor whose rectangle contains the point.
pub fn monitor_containing(monitors: &[WorkArea], px: i32, py: i32) -> (r: Option<usize>)
    requires
        forall|i: int| 0 <= i < monitors@.len() ==> (#[trigger] monitors@[i]).2 <= i32::MAX && monitors@[i].3 <= i32::MAX
            && monitors@[i].0 + monitors@[i].2 <= i32::MAX && monitors@[i].1 + monitors@[i].3 <= i32::MAX,
    ensures
        match r {
            Some(i) => i < monitors@.len() && contains_point(monitors@[i as int], px, py)
                && forall|k: int| 0 <= k < i ==> !contains_point(#[trigger] monitors@[k], px, py),
            None => forall|k: int| 0 <= k < monitors@.len() ==> !contains_point(#[trigger] monitors@[k], px, py),
        },
{
    let mut i: usize = 0;
    while i < monitors.len()
        invariant
            i <= monitors.len(),
            forall|i: int| 0 <= i < monitors@.len() ==> (#[trigger] monitors@[i]).2 <= i32::MAX && monitors@[i].3 <= i32::MAX
                && monitors@[i].0 + monitors@[i].2 <= i32::MAX && monitors@[i].1 + monitors@[i].3 <= i32::MAX,
            forall|k: int| 0 <= k < i ==> !contains_point(#[trigger] monitors@[k], px, py),
        decreases monitors.len() - i,
    {
        let (x, y, w, h) = monitors[i];
        assert(monitors@[i as int] == (x, y, w, h));
        if px >= x && py >= y && px < x + w as i32 && py < y + h as i32 {
            return Some(i);
        }
        i = i + 1;
    }
    None
}

pub open spec fn sat_i32(v: int) -> int {
    if v > i32::MAX { i32::MAX as int } else { v }
}

/// The icon sits on the taskbar or menu bar when it is not wholly inside the work area.
pub fn icon_on_taskbar(icon: WorkArea, work: WorkArea) -> (r: bool)
    ensures
        r == !(icon.0 >= work.0 && icon.1 >= work.1 && sat_i32(icon.0 + icon.2) <= sat_i32(work.0 + work.2)
            && sat_i32(icon.1 + icon.3) <= sat_i32(work.1 + work.3)),
{
    let (ix, iy, iw, ih) = icon;
    let (wx, wy, ww, wh) = work;
    let ir = sat_add(ix, iw);
    let ib = sat_add(iy, ih);
    let wr = sat_add(wx, ww);
    let wb = sat_add(wy, wh);
    !(ix >= wx && iy >= wy && ir <= wr && ib <= wb)
}

/// `i32::saturating_add_unsigned`.
fn sat_add(a: i32, b: u32) -> (r: i32)
    ensures
        r == sat_i32(a + b),
{
    let s: i64 = a as i64 + b as i64;
    if s > i32::MAX as i64 {
        i32::MAX
    } else {
        s as i32
    }
}

/// The badge text: the count, or `99+` above 99.
pub fn badge_label(count: u32) -> (r: String)
    ensures
        r@ == (if count > 99 { "99+"@ } else { decimal(count as nat) }),
{
    if count > 99 {
        owned("99+")
    } else {
        decimal_string(count as u64)
    }
}

/// With the poller alive and the machine online, an active Degraded service and no active Down
/// service give the Degraded mark, however many active services are healthy.
pub proof fn lemma_any_degraded_shows(services: Seq<ServiceView>, k: int)
    requires
        0 <= k < services.len(),
        active(services[k]),
        services[k].state == UiState::Degraded,
        forall|i: int| 0 <= i < services.len() && active(#[trigger] services[i]) ==> services[i].state != UiState::Down,
    ensures
        mark_spec(services, false, false) == TrayMark::Degraded,
{
    lemma_mark_counts_in_words(services, UiState::Degraded);
    lemma_mark_counts_in_words(services, UiState::Down);
    assert(!(forall|i: int| 0 <= i < services.len() && active(#[trigger] services[i]) ==> services[i].state == UiState::Pending));
}

/// With the poller alive and the machine online, active services that are all Healthy or
/// Pending, at least one Healthy, give the Healthy mark.
pub proof fn lemma_all_healthy_shows_healthy(services: Seq<ServiceView>, k: int)
    requires
        0 <= k < services.len(),
        active(services[k]),
        services[k].state == UiState::Healthy,
        forall|i: int| 0 <= i < services.len() && active(#[trigger] services[i])
            ==> services[i].state == UiState::Healthy || services[i].state == UiState::Pending,
    ensures
        mark_spec(services, false, false) == TrayMark::Healthy,
{
    lemma_mark_counts_in_words(services, UiState::Degraded);
    lemma_mark_counts_in_words(services, UiState::Down);
    assert(!(forall|i: int| 0 <= i < services.len() && active(#[trigger] services[i]) ==> services[i].state == UiState::Pending));
}

} // verus!
