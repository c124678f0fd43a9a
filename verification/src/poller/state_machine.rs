//! Flap-damped per-service state machine.
use vstd::prelude::*;

use crate::domain::error::ErrorKind;
use crate::domain::runtime::{displayed_down_spec, MachineStatus, RuntimeState};
use crate::eval::Outcome;
use crate::notify::{notify_enabled_spec, should_queue_spec, Emit, NotifyPolicy, QueueOp};

verus! {

pub const DEFAULT_FAIL_THRESHOLD: u32 = 3;

/// `Canceled` / `Offline` never come from the evaluator; they are sentinels.
#[derive(Debug, Clone, Copy, PartialEq, Eq, Structural)]
pub enum ProbeEvent {
    Canceled,
    Offline,
    Applied(Outcome),
}

#[derive(Debug, Clone, Copy, PartialEq, Eq, Structural)]
pub struct Transition {
    /// False for canceled / paused / offline: do not write last_result or history.
    pub applied: bool,
    pub emit: Option<Emit>,
    pub queue: QueueOp,
}

pub open spec fn silent_spec(applied: bool) -> Transition {
    Transition { applied, emit: None, queue: QueueOp::NoOp }
}

impl Transition {
    pub fn silent(applied: bool) -> (r: Self)
        ensures
            r == silent_spec(applied),
    {
        Transition { applied, emit: None, queue: QueueOp::NoOp }
    }
}

/// `threshold == 0` falls back to the default of 3.
pub open spec fn effective_threshold(threshold: u32) -> u32 {
    if threshold == 0 {
        DEFAULT_FAIL_THRESHOLD
    } else {
        threshold
    }
}

/// `service.failThreshold ?? settings.failThreshold`, default 3.
pub fn fail_threshold(service: Option<u32>, settings: u32) -> (r: u32)
    ensures
        r == effective_threshold(
            match service {
                Some(n) => n,
                None => settings,
            },
        ),
{
    let n = match service {
        Some(n) => n,
        None => settings,
    };
    if n == 0 {
        DEFAULT_FAIL_THRESHOLD
    } else {
        n
    }
}

pub open spec fn is_canceled_spec(event: ProbeEvent) -> bool {
    event matches ProbeEvent::Canceled || event matches ProbeEvent::Applied(
        Outcome::HardFail { kind: ErrorKind::Canceled, .. },
    )
}

pub open spec fn is_offline_event_spec(event: ProbeEvent) -> bool {
    event matches ProbeEvent::Offline || event matches ProbeEvent::Applied(
        Outcome::HardFail { kind: ErrorKind::Offline, .. },
    )
}

/// Events that leave the runtime untouched: canceled, offline, or the service is paused / the host offline.
pub open spec fn ignored_spec(event: ProbeEvent, paused: bool, offline: bool) -> bool {
    is_canceled_spec(event) || is_offline_event_spec(event) || paused || offline
}

/// Leaving Down: clear the down clock, and report the displayed down time.
pub open spec fn recovery_emit_spec(rt: RuntimeState, now: i64) -> Option<Emit> {
    if rt.status == MachineStatus::Down {
        Some(
            Emit::Recovered {
                duration_ms: match displayed_down_spec(rt, now) {
                    Some(d) => d,
                    None => 0,
                },
            },
        )
    } else {
        None
    }
}

pub open spec fn success_state_spec(rt: RuntimeState, now: i64) -> RuntimeState {
    RuntimeState {
        consecutive_hard_fails: 0,
        status: MachineStatus::Healthy,
        down_since: None,
        degraded_since: None,
        down_clock_adjust_ms: 0,
        last_check_at: Some(now),
        ..rt
    }
}

/// `degraded_since` is stamped only when entering Degraded.
pub open spec fn degraded_since_after(rt: RuntimeState, now: i64) -> Option<i64> {
    if rt.status != MachineStatus::Degraded {
        Some(now)
    } else {
        rt.degraded_since
    }
}

pub open spec fn soft_state_spec(rt: RuntimeState, now: i64) -> RuntimeState {
    RuntimeState {
        consecutive_hard_fails: 0,
        status: MachineStatus::Degraded,
        down_since: None,
        degraded_since: degraded_since_after(rt, now),
        down_clock_adjust_ms: 0,
        last_check_at: Some(now),
        ..rt
    }
}

pub open spec fn hard_fails_after(rt: RuntimeState) -> u32 {
    if rt.consecutive_hard_fails == u32::MAX {
        u32::MAX
    } else {
        (rt.consecutive_hard_fails + 1) as u32
    }
}

pub open spec fn hard_state_spec(rt: RuntimeState, now: i64, threshold: u32) -> RuntimeState {
    let fails = hard_fails_after(rt);
    if fails >= threshold {
        if rt.status != MachineStatus::Down {
            RuntimeState {
                consecutive_hard_fails: fails,
                status: MachineStatus::Down,
                down_since: Some(now),
                degraded_since: None,
                last_check_at: Some(now),
                ..rt
            }
        } else {
            RuntimeState { consecutive_hard_fails: fails, last_check_at: Some(now), ..rt }
        }
    } else {
        RuntimeState {
            consecutive_hard_fails: fails,
            status: MachineStatus::Degraded,
            degraded_since: degraded_since_after(rt, now),
            last_check_at: Some(now),
            ..rt
        }
    }
}

/// A Down toast fires only on the hard fail that enters Down.
pub open spec fn hard_emit_spec(rt: RuntimeState, threshold: u32) -> Option<Emit> {
    if hard_fails_after(rt) >= threshold && rt.status != MachineStatus::Down {
        Some(Emit::Down)
    } else {
        None
    }
}

/// What a state change turns into: a toast, a quiet-hours queue op, or nothing.
pub open spec fn decide_spec(emit: Option<Emit>, policy: NotifyPolicy) -> Transition {
    match emit {
        None => silent_spec(true),
        Some(e) => if notify_enabled_spec(policy) {
            Transition { applied: true, emit: Some(e), queue: QueueOp::NoOp }
        } else if should_queue_spec(policy) {
            Transition {
                applied: true,
                emit: None,
                queue: match e {
                    Emit::Down => QueueOp::Enqueue,
                    Emit::Recovered { .. } => QueueOp::Dequeue,
                },
            }
        } else {
            silent_spec(true)
        },
    }
}

/// The new runtime state after one probe event.
pub open spec fn next_state_spec(
    rt: RuntimeState,
    event: ProbeEvent,
    now: i64,
    threshold: u32,
    paused: bool,
    offline: bool,
) -> RuntimeState {
    if ignored_spec(event, paused, offline) {
        rt
    } else {
        match event {
            ProbeEvent::Applied(Outcome::Success { .. }) => success_state_spec(rt, now),
            ProbeEvent::Applied(Outcome::SoftFail { .. }) => soft_state_spec(rt, now),
            ProbeEvent::Applied(Outcome::HardFail { .. }) => hard_state_spec(
                rt,
                now,
                effective_threshold(threshold),
            ),
            _ => rt,
        }
    }
}

/// The state change that one probe event reports, before the notify policy.
pub open spec fn state_emit_spec(
    rt: RuntimeState,
    event: ProbeEvent,
    now: i64,
    threshold: u32,
    paused: bool,
    offline: bool,
) -> Option<Emit> {
    if ignored_spec(event, paused, offline) {
        None
    } else {
        match event {
            ProbeEvent::Applied(Outcome::Success { .. }) => recovery_emit_spec(rt, now),
            ProbeEvent::Applied(Outcome::SoftFail { .. }) => recovery_emit_spec(rt, now),
            ProbeEvent::Applied(Outcome::HardFail { .. }) => hard_emit_spec(
                rt,
                effective_threshold(threshold),
            ),
            _ => None,
        }
    }
}

pub open spec fn transition_spec(
    rt: RuntimeState,
    event: ProbeEvent,
    now: i64,
    threshold: u32,
    paused: bool,
    offline: bool,
    policy: NotifyPolicy,
) -> Transition {
    if ignored_spec(event, paused, offline) {
        silent_spec(false)
    } else {
        decide_spec(state_emit_spec(rt, event, now, threshold, paused, offline), policy)
    }
}


/// A hard failure that the machine counts (not a canceled / offline sentinel).
pub open spec fn is_counted_hard_fail(event: ProbeEvent) -> bool {
    &&& event matches ProbeEvent::Applied(Outcome::HardFail { kind, .. })
    &&& !is_canceled_spec(event)
    &&& !is_offline_event_spec(event)
}

/// State after `n` consecutive counted hard failures, all observed at `now`.
pub open spec fn hard_run(rt: RuntimeState, event: ProbeEvent, now: i64, threshold: u32, n: nat) -> RuntimeState
    decreases n,
{
    if n == 0 {
        rt
    } else {
        hard_run(next_state_spec(rt, event, now, threshold, false, false), event, now, threshold, (n - 1) as nat)
    }
}

/// Number of Down state changes reported during that run.
pub open spec fn hard_run_down_count(rt: RuntimeState, event: ProbeEvent, now: i64, threshold: u32, n: nat) -> nat
    decreases n,
{
    if n == 0 {
        0
    } else {
        (if state_emit_spec(rt, event, now, threshold, false, false) == Some(Emit::Down) { 1nat } else { 0nat })
            + hard_run_down_count(next_state_spec(rt, event, now, threshold, false, false), event, now, threshold, (n - 1) as nat)
    }
}

/// Flap damping: after `n >= 1` consecutive hard failures the service is Down exactly when it
/// was already Down or the failure count has reached the threshold (default 3); the counter
/// counts every failure, and Down is reported once, on the failure that enters it.
/// (A service that is Down with fewer failures than the threshold, which only a raised
/// threshold can produce, is left out.)
pub proof fn lemma_consecutive_hard_fails(rt: RuntimeState, event: ProbeEvent, now: i64, threshold: u32, n: nat)
    requires
        is_counted_hard_fail(event),
        n >= 1,
        rt.consecutive_hard_fails + n <= u32::MAX,
        rt.status == MachineStatus::Down ==> rt.consecutive_hard_fails >= effective_threshold(threshold),
    ensures
        hard_run(rt, event, now, threshold, n).status == MachineStatus::Down <==> (rt.status
            == MachineStatus::Down || rt.consecutive_hard_fails + n >= effective_threshold(threshold)),
        hard_run(rt, event, now, threshold, n).consecutive_hard_fails == rt.consecutive_hard_fails + n,
        hard_run_down_count(rt, event, now, threshold, n) == (if rt.status != MachineStatus::Down
            && rt.consecutive_hard_fails + n >= effective_threshold(threshold) {
            1nat
        } else {
            0nat
        }),
    decreases n,
{
    let next = next_state_spec(rt, event, now, threshold, false, false);
    assert(next == hard_state_spec(rt, now, effective_threshold(threshold)));
    assert(hard_run(rt, event, now, threshold, n) == hard_run(next, event, now, threshold, (n - 1) as nat));
    if n > 1 {
        lemma_consecutive_hard_fails(next, event, now, threshold, (n - 1) as nat);
    } else {
        assert(hard_run(next, event, now, threshold, 0) == next);
        assert(hard_run_down_count(next, event, now, threshold, 0) == 0);
    }
}

/// From a fresh service with the default threshold: one or two failed checks never page,
/// the third consecutive one marks it Down.
pub proof fn lemma_three_strikes(event: ProbeEvent, now: i64)
    requires
        is_counted_hard_fail(event),
    ensures
        hard_run(RuntimeState::pending_spec(), event, now, 0, 1).status == MachineStatus::Degraded,
        hard_run(RuntimeState::pending_spec(), event, now, 0, 2).status == MachineStatus::Degraded,
        hard_run(RuntimeState::pending_spec(), event, now, 0, 3).status == MachineStatus::Down,
        hard_run_down_count(RuntimeState::pending_spec(), event, now, 0, 2) == 0,
        hard_run_down_count(RuntimeState::pending_spec(), event, now, 0, 3) == 1,
{
    lemma_consecutive_hard_fails(RuntimeState::pending_spec(), event, now, 0, 2);
    lemma_consecutive_hard_fails(RuntimeState::pending_spec(), event, now, 0, 3);
    reveal_with_fuel(hard_run, 4);
}

/// Once a result has been applied, the machine never goes back to Pending.
pub proof fn lemma_applied_never_pending(
    rt: RuntimeState,
    event: ProbeEvent,
    now: i64,
    threshold: u32,
    paused: bool,
    offline: bool,
)
    requires
        !ignored_spec(event, paused, offline),
    ensures
        next_state_spec(rt, event, now, threshold, paused, offline).status != MachineStatus::Pending,
        next_state_spec(rt, event, now, threshold, paused, offline).last_check_at == Some(now),
        transition_spec(rt, event, now, threshold, paused, offline, NotifyPolicy {
            notifications: true,
            service_notify: true,
            always_alert: false,
            in_quiet_hours: false,
            snoozed: false,
            keychain_identity_changed: false,
        }).applied,
{
}

/// Canceled and offline probes, and probes of a paused service or while offline, change nothing
/// and are not recorded.
pub proof fn lemma_ignored_is_noop(
    rt: RuntimeState,
    event: ProbeEvent,
    now: i64,
    threshold: u32,
    paused: bool,
    offline: bool,
    policy: NotifyPolicy,
)
    requires
        ignored_spec(event, paused, offline),
    ensures
        next_state_spec(rt, event, now, threshold, paused, offline) == rt,
        transition_spec(rt, event, now, threshold, paused, offline, policy) == silent_spec(false),
{
}

/// Any reach (success or slow) resets the flap counter and clears the down clock; leaving Down
/// reports a recovery whose duration is the displayed down time.
pub proof fn lemma_reach_resets(
    rt: RuntimeState,
    event: ProbeEvent,
    now: i64,
    threshold: u32,
)
    requires
        event matches ProbeEvent::Applied(Outcome::Success { .. }) || event matches ProbeEvent::Applied(
            Outcome::SoftFail { .. },
        ),
    ensures
        next_state_spec(rt, event, now, threshold, false, false).consecutive_hard_fails == 0,
        next_state_spec(rt, event, now, threshold, false, false).down_since is None,
        next_state_spec(rt, event, now, threshold, false, false).down_clock_adjust_ms == 0,
        next_state_spec(rt, event, now, threshold, false, false).status != MachineStatus::Down,
        rt.status == MachineStatus::Down ==> state_emit_spec(rt, event, now, threshold, false, false)
            == Some(Emit::Recovered { duration_ms: displayed_down_spec(rt, now).unwrap_or(0) }),
        rt.status != MachineStatus::Down ==> state_emit_spec(rt, event, now, threshold, false, false)
            is None,
{
}

/// A transition never both toasts and queues; snooze and a keychain identity change silence
/// both; quiet hours turn a Down into an enqueue and a recovery into a dequeue.
pub proof fn lemma_transition_policy(emit: Option<Emit>, policy: NotifyPolicy)
    ensures
        decide_spec(emit, policy).emit is Some ==> decide_spec(emit, policy).queue == QueueOp::NoOp,
        (policy.snoozed || policy.keychain_identity_changed) ==> decide_spec(emit, policy).emit is None
            && decide_spec(emit, policy).queue == QueueOp::NoOp,
        (emit == Some(Emit::Down) && should_queue_spec(policy)) ==> decide_spec(emit, policy).queue
            == QueueOp::Enqueue,
        (emit matches Some(Emit::Recovered { .. }) && should_queue_spec(policy)) ==> decide_spec(
            emit,
            policy,
        ).queue == QueueOp::Dequeue,
        decide_spec(emit, policy).applied,
{
    crate::notify::lemma_notify_or_queue_exclusive(policy);
}

fn is_canceled_outcome(event: &ProbeEvent) -> (r: bool)
    ensures
        r == (event matches ProbeEvent::Applied(
            Outcome::HardFail { kind: ErrorKind::Canceled, .. },
        )),
{
    match event {
        ProbeEvent::Applied(Outcome::HardFail { kind: ErrorKind::Canceled, .. }) => true,
        _ => false,
    }
}

fn is_offline_outcome(event: &ProbeEvent) -> (r: bool)
    ensures
        r == (event matches ProbeEvent::Applied(
            Outcome::HardFail { kind: ErrorKind::Offline, .. },
        )),
{
    match event {
        ProbeEvent::Applied(Outcome::HardFail { kind: ErrorKind::Offline, .. }) => true,
        _ => false,
    }
}

/// Apply one probe event to `runtime` and decide what, if anything, to notify.
pub fn on_result(
    runtime: &mut RuntimeState,
    event: ProbeEvent,
    now: i64,
    threshold: u32,
    paused: bool,
    offline: bool,
    policy: &NotifyPolicy,
) -> (t: Transition)
    ensures
        *final(runtime) == next_state_spec(*old(runtime), event, now, threshold, paused, offline),
        t == transition_spec(*old(runtime), event, now, threshold, paused, offline, *policy),
{
    if matches!(event, ProbeEvent::Canceled) || is_canceled_outcome(&event) {
        return Transition::silent(false);
    }
    if matches!(event, ProbeEvent::Offline) || is_offline_outcome(&event) || paused || offline {
        return Transition::silent(false);
    }
    let outcome = match event {
        ProbeEvent::Applied(outcome) => outcome,
        _ => {
            return Transition::silent(false);
        },
    };
    let threshold = if threshold == 0 {
        DEFAULT_FAIL_THRESHOLD
    } else {
        threshold
    };
    match outcome {
        Outcome::Success { .. } => apply_success(runtime, now, policy),
        Outcome::SoftFail { .. } => apply_soft(runtime, now, policy),
        Outcome::HardFail { .. } => apply_hard(runtime, now, threshold, policy),
    }
}

fn apply_success(runtime: &mut RuntimeState, now: i64, policy: &NotifyPolicy) -> (t: Transition)
    ensures
        *final(runtime) == success_state_spec(*old(runtime), now),
        t == decide_spec(recovery_emit_spec(*old(runtime), now), *policy),
{
    let notify = take_recovery(runtime, now);
    runtime.consecutive_hard_fails = 0;
    runtime.status = MachineStatus::Healthy;
    runtime.degraded_since = None;
    runtime.last_check_at = Some(now);
    decide(notify, policy)
}

fn apply_soft(runtime: &mut RuntimeState, now: i64, policy: &NotifyPolicy) -> (t: Transition)
    ensures
        *final(runtime) == soft_state_spec(*old(runtime), now),
        t == decide_spec(recovery_emit_spec(*old(runtime), now), *policy),
{
    // A slow 2xx is a successful reach: reset the flap counter.
    let notify = take_recovery(runtime, now);
    runtime.consecutive_hard_fails = 0;
    enter_degraded(runtime, now);
    runtime.last_check_at = Some(now);
    decide(notify, policy)
}

fn apply_hard(runtime: &mut RuntimeState, now: i64, threshold: u32, policy: &NotifyPolicy) -> (t:
    Transition)
    ensures
        *final(runtime) == hard_state_spec(*old(runtime), now, threshold),
        t == decide_spec(hard_emit_spec(*old(runtime), threshold), *policy),
{
    runtime.consecutive_hard_fails = runtime.consecutive_hard_fails.saturating_add(1);
    runtime.last_check_at = Some(now);
    let notify = if runtime.consecutive_hard_fails >= threshold {
        let entered = runtime.status != MachineStatus::Down;
        if entered {
            runtime.status = MachineStatus::Down;
            runtime.down_since = Some(now);
            runtime.degraded_since = None;
            Some(Emit::Down)
        } else {
            None
        }
    } else {
        enter_degraded(runtime, now);
        None
    };
    decide(notify, policy)
}

fn enter_degraded(runtime: &mut RuntimeState, now: i64)
    ensures
        *final(runtime) == (RuntimeState {
            status: MachineStatus::Degraded,
            degraded_since: degraded_since_after(*old(runtime), now),
            ..*old(runtime)
        }),
{
    if runtime.status != MachineStatus::Degraded {
        runtime.degraded_since = Some(now);
    }
    runtime.status = MachineStatus::Degraded;
}

fn take_recovery(runtime: &mut RuntimeState, now: i64) -> (r: Option<Emit>)
    ensures
        r == recovery_emit_spec(*old(runtime), now),
        *final(runtime) == (RuntimeState {
            down_since: None,
            down_clock_adjust_ms: 0,
            ..*old(runtime)
        }),
{
    let notify = if runtime.status == MachineStatus::Down {
        let duration_ms = match runtime.displayed_down_ms(now) {
            Some(d) => d,
            None => 0,
        };
        Some(Emit::Recovered { duration_ms })
    } else {
        None
    };
    runtime.down_since = None;
    runtime.down_clock_adjust_ms = 0;
    notify
}

pub fn decide(emit: Option<Emit>, policy: &NotifyPolicy) -> (t: Transition)
    ensures
        t == decide_spec(emit, *policy),
{
    match emit {
        None => Transition::silent(true),
        Some(e) => {
            if policy.notify_enabled() {
                Transition { applied: true, emit: Some(e), queue: QueueOp::NoOp }
            } else if policy.should_queue() {
                let queue = match e {
                    Emit::Down => QueueOp::Enqueue,
                    Emit::Recovered { .. } => QueueOp::Dequeue,
                };
                Transition { applied: true, emit: None, queue }
            } else {
                Transition::silent(true)
            }
        },
    }
}

/// A counted hard failure below the threshold leaves the service Degraded, whatever its status
/// before (Healthy, Pending or Degraded), counts one more failure, and stamps `degraded_since`
/// when it was not Degraded already.
pub proof fn lemma_hard_fail_below_threshold_degrades(rt: RuntimeState, event: ProbeEvent, now: i64, threshold: u32)
    requires
        is_counted_hard_fail(event),
        rt.consecutive_hard_fails + 1 < effective_threshold(threshold),
    ensures
        next_state_spec(rt, event, now, threshold, false, false).status == MachineStatus::Degraded,
        next_state_spec(rt, event, now, threshold, false, false).consecutive_hard_fails == rt.consecutive_hard_fails + 1,
        rt.status != MachineStatus::Degraded ==> next_state_spec(rt, event, now, threshold, false, false).degraded_since == Some(now),
        state_emit_spec(rt, event, now, threshold, false, false) is None,
{
}

} // verus!
