//! The scheduler's decisions: settling a finished check into state, notification and history;
//! the missing-secret shortcut; restarts of a dead poller; and the seeds that spread checks.
use vstd::prelude::*;

use crate::domain::check::{CheckEvidence, CheckResult, OutcomeClass, ServiceStatus};
use crate::domain::error::{ErrorKind, MessageArgs};
use crate::domain::runtime::{service_status_of, RuntimeState};
use crate::domain::service::{Service, ServiceView};
use crate::domain::settings::AppSettings;
use crate::eval::classify::{outcome_of, outcome_spec};
use crate::notify::{Emit, Notification, NotifyPolicy};
use crate::notify::quiet::QueuedDown;
use crate::text::owned;
use crate::poller::state_machine::{effective_threshold, fail_threshold, next_state_spec, on_result, transition_spec, ProbeEvent, Transition};
use crate::store::secrets::MissingSecret;

verus! {

pub const CONCURRENCY: usize = 4;
pub const STAGGER_CAP_MS: u64 = 15000;
pub const CHECK_ALL_GAP_MS: u64 = 50;
pub const VIEW_COALESCE_MS: u64 = 100;

/// Where the poller reports: the service views after a change, and a dead poller.
pub trait PulseEvents: Send + Sync {
    fn emit_services(&self, views: &[ServiceView]);

    fn emit_poller_dead(&self, at: i64);
}

/// Reports nothing.
#[derive(Debug, Default, Clone, Copy)]
pub struct NoopEvents;

impl PulseEvents for NoopEvents {
    fn emit_services(&self, views: &[ServiceView]) {
    }

    fn emit_poller_dead(&self, at: i64) {
    }
}

/// A dead poller is restarted once; a second death leaves it dead.
pub fn should_restart(death_count: u32) -> (r: bool)
    ensures
        r == (death_count == 1),
{
    death_count == 1
}

pub open spec fn splitmix_spec(z: u64) -> u64 {
    let a = vstd::wrapping::u64_specs::wrapping_add(z, 0x9E3779B97F4A7C15u64);
    let b = vstd::wrapping::u64_specs::wrapping_mul(a ^ (a >> 30u64), 0xBF58476D1CE4E5B9u64);
    let c = vstd::wrapping::u64_specs::wrapping_mul(b ^ (b >> 27u64), 0x94D049BB133111EBu64);
    c ^ (c >> 31u64)
}

/// The SplitMix64 mixing step, used to spread check times deterministically.
pub fn splitmix64(z: u64) -> (r: u64)
    ensures
        r == splitmix_spec(z),
{
    let mut z = z.wrapping_add(0x9E3779B97F4A7C15);
    z = (z ^ (z >> 30)).wrapping_mul(0xBF58476D1CE4E5B9);
    z = (z ^ (z >> 27)).wrapping_mul(0x94D049BB133111EB);
    z ^ (z >> 31)
}

pub open spec fn fnv_spec(bytes: Seq<u8>) -> u64
    decreases bytes.len(),
{
    if bytes.len() == 0 {
        0xcbf29ce484222325u64
    } else {
        vstd::wrapping::u64_specs::wrapping_mul(fnv_spec(bytes.drop_last()) ^ (bytes.last() as u64), 0x100000001b3u64)
    }
}

/// FNV-1a over the bytes of a service id.
pub fn fnv(id: &str) -> (r: u64)
    ensures
        r == fnv_spec(vstd::utf8::encode_utf8(id@)),
{
    let bytes = id.as_bytes();
    let mut hash: u64 = 0xcbf29ce484222325;
    let mut i: usize = 0;
    while i < bytes.len()
        invariant
            i <= bytes@.len(),
            hash == fnv_spec(bytes@.take(i as int)),
        decreases bytes.len() - i,
    {
        proof {
            assert(bytes@.take(i + 1).drop_last() =~= bytes@.take(i as int));
        }
        hash = hash ^ (bytes[i] as u64);
        hash = hash.wrapping_mul(0x100000001b3);
        i = i + 1;
    }
    proof {
        assert(bytes@.take(i as int) =~= bytes@);
    }
    hash
}

/// Evidence for a check that could not run because a secret header has no value: a hard
/// failure without any request.
pub fn missing_secret_evidence(missing: &MissingSecret, at: i64) -> (r: CheckEvidence)
    ensures
        r.at == at,
        r.outcome == OutcomeClass::Hard,
        r.http_status is None,
        r.latency_ms is None,
        r.redirects is None,
        r.headers_stripped_on_redirect is None,
        r.assertion_results@.len() == 0,
        r.assertion_skipped is None,
        r.error_kind == Some(ErrorKind::MissingSecret),
        r.error matches Some(e) && e@ == "Secret header "@ + missing.key@ + " is not set"@,
        r.body_preview is None,
{
    let args = MessageArgs {
        timeout_ms: None,
        http_status: None,
        path: None,
        expected: None,
        actual: None,
        latency_ms: None,
        max_latency_ms: None,
        secret_key: Some(missing.key.as_str()),
    };
    CheckEvidence {
        at,
        outcome: OutcomeClass::Hard,
        http_status: None,
        latency_ms: None,
        redirects: None,
        headers_stripped_on_redirect: None,
        assertion_results: Vec::new(),
        assertion_skipped: None,
        error_kind: Some(ErrorKind::MissingSecret),
        error: Some(ErrorKind::MissingSecret.user_message(&args)),
        body_preview: None,
    }
}

/// The notification policy of one check.
pub open spec fn policy_spec(service: Service, settings: AppSettings, runtime: RuntimeState, in_quiet_hours: bool, identity_changed: bool, now: i64) -> NotifyPolicy {
    NotifyPolicy {
        notifications: settings.notifications,
        service_notify: service.notify,
        always_alert: service.always_alert,
        in_quiet_hours,
        snoozed: runtime.snooze_until matches Some(until) && now < until,
        keychain_identity_changed: identity_changed,
    }
}

/// Apply a finished check: the damped state moves, the result is the evidence with the state
/// after it (healthy while still pending), and the transition says what to record and notify.
/// `in_quiet_hours` is whether `now` falls in the quiet hours on the local clock; `paused` is
/// whether the service is paused now.
pub fn settle_check(
    service: &Service,
    evidence: CheckEvidence,
    runtime: &mut RuntimeState,
    settings: &AppSettings,
    in_quiet_hours: bool,
    identity_changed: bool,
    paused: bool,
    now: i64,
) -> (r: (CheckResult, Transition))
    ensures
        ({
            let threshold = effective_threshold(match service.fail_threshold { Some(n) => n, None => settings.fail_threshold });
            let event = ProbeEvent::Applied(outcome_spec(evidence));
            &&& *final(runtime) == next_state_spec(*old(runtime), event, now, threshold, paused, false)
            &&& r.1 == transition_spec(*old(runtime), event, now, threshold, paused, false,
                policy_spec(*service, *settings, *old(runtime), in_quiet_hours, identity_changed, now))
            &&& r.0.state == (match service_status_of(final(runtime).status) { Some(s) => s, None => ServiceStatus::Healthy })
            &&& r.0.evidence == evidence
        }),
{
    let policy = NotifyPolicy {
        notifications: settings.notifications,
        service_notify: service.notify,
        always_alert: service.always_alert,
        in_quiet_hours,
        snoozed: runtime.is_snoozed(now),
        keychain_identity_changed: identity_changed,
    };
    let threshold = fail_threshold(service.fail_threshold, settings.fail_threshold);
    let outcome = outcome_of(&evidence);
    let transition = on_result(runtime, ProbeEvent::Applied(outcome), now, threshold, paused, false, &policy);
    let state = match runtime.status.as_service_status() {
        Some(s) => s,
        None => ServiceStatus::Healthy,
    };
    (CheckResult { evidence, state }, transition)
}


/// The notification a transition emits for `service`. `latency_label` is the check's latency as
/// the notification shows it, present exactly when the check has a latency.
pub fn notification_for(emit: Emit, service: &Service, evidence: &CheckEvidence, latency_label: Option<&str>) -> (r: Notification)
    requires
        latency_label is Some == evidence.latency_ms is Some,
    ensures
        match emit {
            Emit::Down => r matches Notification::Down { service_id, title, body } && service_id@ == service.id@
                && title@ == service.name@
                && body@ == crate::notify::copy::down_body_spec(*evidence, service.timeout_ms, crate::poller::client::opt_ref_view(latency_label)),
            Emit::Recovered { duration_ms } => r matches Notification::Recovered { service_id, title, body } && service_id@ == service.id@
                && title@ == service.name@ && body@ == "Recovered \u{b7} down "@ + crate::notify::copy::duration_text(duration_ms),
        },
{
    match emit {
        Emit::Down => Notification::down(owned(service.id.as_str()), service.name.as_str(), evidence, service.timeout_ms, latency_label),
        Emit::Recovered { duration_ms } => Notification::recovered(owned(service.id.as_str()), service.name.as_str(), duration_ms),
    }
}

/// The entry a down alert leaves in the quiet-hours queue.
pub fn queued_down(service: &Service) -> (r: QueuedDown)
    ensures
        r.service_id@ == service.id@,
        r.name@ == service.name@,
        r.title@ == service.name@,
        r.body@.len() == 0,
{
    QueuedDown { service_id: owned(service.id.as_str()), name: owned(service.name.as_str()), title: owned(service.name.as_str()), body: String::new() }
}

/// The shortest interval among the unpaused services, if any is unpaused.
pub open spec fn min_unpaused_opt(services: Seq<Service>) -> Option<u32>
    decreases services.len(),
{
    if services.len() == 0 {
        None
    } else {
        let rest = min_unpaused_opt(services.drop_last());
        let last = services.last();
        if last.paused {
            rest
        } else {
            match rest {
                None => Some(last.interval_sec),
                Some(m) => Some(if last.interval_sec < m { last.interval_sec } else { m }),
            }
        }
    }
}

/// The shortest interval among the unpaused services, in seconds; 60 when all are paused.
/// The first checks are spread over it.
pub fn min_unpaused_interval(services: &[Service]) -> (r: u32)
    ensures
        r == (match min_unpaused_opt(services@) {
            Some(m) => m,
            None => 60,
        }),
{
    let mut best: Option<u32> = None;
    let mut i: usize = 0;
    while i < services.len()
        invariant
            i <= services.len(),
            best == min_unpaused_opt(services@.take(i as int)),
        decreases services.len() - i,
    {
        proof {
            assert(services@.take(i + 1).drop_last() =~= services@.take(i as int));
        }
        let s = &services[i];
        if !s.paused {
            best = match best {
                None => Some(s.interval_sec),
                Some(m) => Some(if s.interval_sec < m { s.interval_sec } else { m }),
            };
        }
        i = i + 1;
    }
    proof {
        assert(services@.take(i as int) =~= services@);
    }
    match best {
        Some(m) => m,
        None => 60,
    }
}

/// `a` sorts before `b`, character by character from position `i` (a prefix sorts first).
pub open spec fn text_lt_from(a: Seq<char>, b: Seq<char>, i: int) -> bool
    decreases a.len() - i,
{
    if i < 0 || i >= a.len() {
        0 <= i < b.len()
    } else if i >= b.len() {
        false
    } else if a[i] != b[i] {
        (a[i] as u32) < (b[i] as u32)
    } else {
        text_lt_from(a, b, i + 1)
    }
}

/// `a` sorts before `b` by code points, which is the byte order of their UTF-8 text.
pub open spec fn text_lt(a: Seq<char>, b: Seq<char>) -> bool {
    text_lt_from(a, b, 0)
}

fn text_less(a: &str, b: &str) -> (r: bool)
    ensures
        r == text_lt(a@, b@),
{
    let ac = crate::text::str_chars(a);
    let bc = crate::text::str_chars(b);
    let mut i: usize = 0;
    while i < ac.len() && i < bc.len() && ac[i] == bc[i]
        invariant
            i <= ac.len(),
            i <= bc.len(),
            ac@ == a@,
            bc@ == b@,
            text_lt(a@, b@) == text_lt_from(a@, b@, i as int),
        decreases ac.len() - i,
    {
        i = i + 1;
    }
    if i >= ac.len() {
        i < bc.len()
    } else if i >= bc.len() {
        false
    } else {
        (ac[i] as u32) < (bc[i] as u32)
    }
}

pub open spec fn count_unpaused(services: Seq<Service>) -> nat
    decreases services.len(),
{
    if services.len() == 0 {
        0
    } else {
        count_unpaused(services.drop_last()) + if services.last().paused { 0nat } else { 1nat }
    }
}

/// How many unpaused services have an id that sorts before `id`.
pub open spec fn count_unpaused_before(services: Seq<Service>, id: Seq<char>) -> nat
    decreases services.len(),
{
    if services.len() == 0 {
        0
    } else {
        count_unpaused_before(services.drop_last(), id) + if !services.last().paused && text_lt(
            services.last().id@,
            id,
        ) {
            1nat
        } else {
            0nat
        }
    }
}

pub open spec fn has_unpaused_id(services: Seq<Service>, id: Seq<char>) -> bool {
    exists|i: int| 0 <= i < services.len() && !(#[trigger] services[i]).paused && services[i].id@ == id
}

proof fn lemma_counts_bounded(services: Seq<Service>, id: Seq<char>)
    ensures
        count_unpaused_before(services, id) <= count_unpaused(services),
        count_unpaused(services) <= services.len(),
    decreases services.len(),
{
    if services.len() > 0 {
        lemma_counts_bounded(services.drop_last(), id);
    }
}

/// Where the first check of service `id` falls among the unpaused services, which start in
/// the order of their ids: its position (0 when it is paused or unknown) and how many there are.
pub fn stagger_slot(services: &[Service], id: &str) -> (r: (usize, usize))
    ensures
        r.1 == count_unpaused(services@),
        r.0 == (if has_unpaused_id(services@, id@) { count_unpaused_before(services@, id@) } else { 0 }),
{
    let mut before: usize = 0;
    let mut total: usize = 0;
    let mut found = false;
    let mut i: usize = 0;
    while i < services.len()
        invariant
            i <= services.len(),
            total == count_unpaused(services@.take(i as int)),
            before == count_unpaused_before(services@.take(i as int), id@),
            found == has_unpaused_id(services@.take(i as int), id@),
        decreases services.len() - i,
    {
        let ghost prefix = services@.take(i as int);
        proof {
            assert(services@.take(i + 1).drop_last() =~= prefix);
            lemma_counts_bounded(prefix, id@);
        }
        let s = &services[i];
        if !s.paused {
            total = total + 1;
            if text_less(s.id.as_str(), id) {
                before = before + 1;
            }
            if crate::text::str_eq(s.id.as_str(), id) {
                found = true;
            }
        }
        proof {
            let next = services@.take(i + 1);
            if has_unpaused_id(prefix, id@) {
                let k = choose|k: int| 0 <= k < prefix.len() && !(#[trigger] prefix[k]).paused && prefix[k].id@ == id@;
                assert(next[k] == prefix[k]);
            }
            if has_unpaused_id(next, id@) && !has_unpaused_id(prefix, id@) {
                let k = choose|k: int| 0 <= k < next.len() && !(#[trigger] next[k]).paused && next[k].id@ == id@;
                if k < i {
                    assert(prefix[k] == next[k]);
                }
            }
            if !s.paused && s.id@ == id@ {
                assert(next[i as int] == *s);
            }
        }
        i = i + 1;
    }
    proof {
        assert(services@.take(i as int) =~= services@);
    }
    (if found { before } else { 0 }, total)
}

} // verus!
