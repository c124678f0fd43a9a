//! The history store's rules: which results are recorded, how paused and asleep time is taken
//! off the down clock, and how states are written in the database. The database itself is
//! reached by the application.
use vstd::prelude::*;

use crate::domain::check::{OutcomeClass, ServiceStatus};
use crate::domain::error::ErrorKind;
use crate::domain::runtime::{elapsed_ms, elapsed_nonneg, sat_add_u64, MachineStatus, RuntimeState};
use crate::text::{concat_str, str_eq};

verus! {

/// Canceled and offline probes say nothing about the service and are not recorded.
pub fn skip_probe(error_kind: Option<ErrorKind>) -> (r: bool)
    ensures
        r == (error_kind == Some(ErrorKind::Canceled) || error_kind == Some(ErrorKind::Offline)),
{
    match error_kind {
        Some(ErrorKind::Canceled) | Some(ErrorKind::Offline) => true,
        _ => false,
    }
}

/// The down clock after a gap that began at `started`: while down, the gap is added to the
/// adjustment (saturating); otherwise nothing changes.
pub open spec fn fold_spec(st: RuntimeState, started: Option<i64>, now: i64) -> RuntimeState {
    if st.status != MachineStatus::Down {
        st
    } else {
        match started {
            Some(s) => RuntimeState { down_clock_adjust_ms: sat_add_u64(st.down_clock_adjust_ms, elapsed_nonneg(s, now) as int), ..st },
            None => st,
        }
    }
}

pub fn fold_clock_gap(state: &mut RuntimeState, started: Option<i64>, now: i64)
    ensures
        *final(state) == fold_spec(*old(state), started, now),
{
    if state.status != MachineStatus::Down {
        return;
    }
    if let Some(s) = started {
        let elapsed = elapsed_ms(s, now);
        state.down_clock_adjust_ms = state.down_clock_adjust_ms.saturating_add(elapsed);
    }
}

/// On pause while down: remember when; the clock is folded on unpause.
pub open spec fn pause_spec(st: RuntimeState, now: i64) -> RuntimeState {
    if st.status == MachineStatus::Down && st.paused_at is None {
        RuntimeState { paused_at: Some(now), ..st }
    } else {
        st
    }
}

/// On unpause: the paused time comes off the down clock.
pub open spec fn unpause_spec(st: RuntimeState, now: i64) -> RuntimeState {
    RuntimeState { paused_at: None, ..fold_spec(st, st.paused_at, now) }
}

/// On sleep while down and not paused: remember when, folding a sleep left from a missed wake.
pub open spec fn sleep_spec(st: RuntimeState, now: i64) -> RuntimeState {
    if st.paused_at is Some || st.status != MachineStatus::Down {
        st
    } else {
        let folded = match st.slept_at {
            Some(old) => fold_spec(st, Some(old), now),
            None => st,
        };
        RuntimeState { slept_at: Some(now), ..folded }
    }
}

/// On wake: the slept time comes off the down clock, unless a pause already covers it.
pub open spec fn wake_spec(st: RuntimeState, now: i64) -> RuntimeState {
    if st.paused_at is Some {
        RuntimeState { slept_at: None, ..st }
    } else {
        RuntimeState { slept_at: None, ..fold_spec(st, st.slept_at, now) }
    }
}

/// Pause a service's runtime; says whether it changed.
pub fn apply_pause(state: &mut RuntimeState, now: i64) -> (changed: bool)
    ensures
        *final(state) == pause_spec(*old(state), now),
        changed == (*final(state) != *old(state)),
{
    if state.status == MachineStatus::Down && state.paused_at.is_none() {
        state.paused_at = Some(now);
        return true;
    }
    false
}

pub fn apply_unpause(state: &mut RuntimeState, now: i64)
    ensures
        *final(state) == unpause_spec(*old(state), now),
{
    let paused_at = state.paused_at;
    fold_clock_gap(state, paused_at, now);
    state.paused_at = None;
}

/// Sleep a service's runtime; says whether it changed.
pub fn apply_sleep(state: &mut RuntimeState, now: i64) -> (changed: bool)
    ensures
        *final(state) == sleep_spec(*old(state), now),
        changed == !(old(state).paused_at is Some || old(state).status != MachineStatus::Down),
{
    if state.paused_at.is_some() {
        return false;
    }
    if state.status != MachineStatus::Down {
        return false;
    }
    if let Some(old) = state.slept_at {
        fold_clock_gap(state, Some(old), now);
    }
    state.slept_at = Some(now);
    true
}

/// Wake a service's runtime; says whether it must be written back.
pub fn apply_wake(state: &mut RuntimeState, now: i64) -> (write: bool)
    ensures
        *final(state) == wake_spec(*old(state), now),
        write == (old(state).paused_at is None || old(state).slept_at is Some),
{
    if state.paused_at.is_some() {
        if state.slept_at.is_some() {
            state.slept_at = None;
            return true;
        }
        return false;
    }
    let slept_at = state.slept_at;
    fold_clock_gap(state, slept_at, now);
    state.slept_at = None;
    true
}

/// A pause from `t1` to `t2` while down takes exactly `t2 - t1` off the down clock.
pub proof fn lemma_pause_time_excluded(st: RuntimeState, t1: i64, t2: i64)
    requires
        st.status == MachineStatus::Down,
        st.paused_at is None,
        t1 <= t2,
        st.down_clock_adjust_ms + (t2 - t1) <= u64::MAX,
    ensures
        unpause_spec(pause_spec(st, t1), t2).down_clock_adjust_ms == st.down_clock_adjust_ms + (t2 - t1),
        unpause_spec(pause_spec(st, t1), t2).paused_at is None,
{
}

/// A sleep inside a pause is not taken off twice: pause at `t1`, sleep, wake, unpause at `t2`
/// takes off `t2 - t1` only.
pub proof fn lemma_sleep_inside_pause_not_counted_twice(st: RuntimeState, t1: i64, ts: i64, tw: i64, t2: i64)
    requires
        st.status == MachineStatus::Down,
        st.paused_at is None,
        st.slept_at is None,
        t1 <= t2,
        st.down_clock_adjust_ms + (t2 - t1) <= u64::MAX,
    ensures
        unpause_spec(wake_spec(sleep_spec(pause_spec(st, t1), ts), tw), t2).down_clock_adjust_ms
            == st.down_clock_adjust_ms + (t2 - t1),
{
}

/// A sleep from `ts` to `tw` while down (not paused) takes exactly `tw - ts` off the down clock.
pub proof fn lemma_sleep_time_excluded(st: RuntimeState, ts: i64, tw: i64)
    requires
        st.status == MachineStatus::Down,
        st.paused_at is None,
        st.slept_at is None,
        ts <= tw,
        st.down_clock_adjust_ms + (tw - ts) <= u64::MAX,
    ensures
        wake_spec(sleep_spec(st, ts), tw).down_clock_adjust_ms == st.down_clock_adjust_ms + (tw - ts),
        wake_spec(sleep_spec(st, ts), tw).slept_at is None,
{
}

pub fn machine_status_sql(status: MachineStatus) -> (r: &'static str)
    ensures
        r@ == machine_status_text(status),
{
    match status {
        MachineStatus::Pending => "pending",
        MachineStatus::Healthy => "healthy",
        MachineStatus::Degraded => "degraded",
        MachineStatus::Down => "down",
    }
}

pub open spec fn machine_status_text(status: MachineStatus) -> Seq<char> {
    match status {
        MachineStatus::Pending => "pending"@,
        MachineStatus::Healthy => "healthy"@,
        MachineStatus::Degraded => "degraded"@,
        MachineStatus::Down => "down"@,
    }
}

/// The status written as `value`, or the message for an unknown one.
pub fn parse_machine_status(value: &str) -> (r: Result<MachineStatus, String>)
    ensures
        r matches Ok(s) ==> machine_status_text(s) == value@,
        (value@ == "pending"@ || value@ == "healthy"@ || value@ == "degraded"@ || value@ == "down"@) ==> r is Ok,
        r matches Err(m) ==> m@ == "unknown status "@ + value@,
{
    if str_eq(value, "pending") {
        Ok(MachineStatus::Pending)
    } else if str_eq(value, "healthy") {
        Ok(MachineStatus::Healthy)
    } else if str_eq(value, "degraded") {
        Ok(MachineStatus::Degraded)
    } else if str_eq(value, "down") {
        Ok(MachineStatus::Down)
    } else {
        Err(concat_str("unknown status ", value))
    }
}

pub open spec fn service_status_text(status: ServiceStatus) -> Seq<char> {
    match status {
        ServiceStatus::Healthy => "healthy"@,
        ServiceStatus::Degraded => "degraded"@,
        ServiceStatus::Down => "down"@,
    }
}

pub fn service_status_sql(status: ServiceStatus) -> (r: &'static str)
    ensures
        r@ == service_status_text(status),
{
    match status {
        ServiceStatus::Healthy => "healthy",
        ServiceStatus::Degraded => "degraded",
        ServiceStatus::Down => "down",
    }
}

pub fn parse_service_status(value: &str) -> (r: Result<ServiceStatus, String>)
    ensures
        r matches Ok(s) ==> service_status_text(s) == value@,
        (value@ == "healthy"@ || value@ == "degraded"@ || value@ == "down"@) ==> r is Ok,
        r matches Err(m) ==> m@ == "unknown sample state "@ + value@,
{
    if str_eq(value, "healthy") {
        Ok(ServiceStatus::Healthy)
    } else if str_eq(value, "degraded") {
        Ok(ServiceStatus::Degraded)
    } else if str_eq(value, "down") {
        Ok(ServiceStatus::Down)
    } else {
        Err(concat_str("unknown sample state ", value))
    }
}

pub open spec fn outcome_text(o: OutcomeClass) -> Seq<char> {
    match o {
        OutcomeClass::Pass => "ok"@,
        OutcomeClass::Soft => "soft"@,
        OutcomeClass::Hard => "hard"@,
    }
}

pub fn outcome_sql(outcome: OutcomeClass) -> (r: &'static str)
    ensures
        r@ == outcome_text(outcome),
{
    match outcome {
        OutcomeClass::Pass => "ok",
        OutcomeClass::Soft => "soft",
        OutcomeClass::Hard => "hard",
    }
}

pub fn parse_outcome(value: &str) -> (r: Result<OutcomeClass, String>)
    ensures
        r matches Ok(o) ==> outcome_text(o) == value@,
        (value@ == "ok"@ || value@ == "soft"@ || value@ == "hard"@) ==> r is Ok,
        r matches Err(m) ==> m@ == "unknown outcome "@ + value@,
{
    if str_eq(value, "ok") {
        Ok(OutcomeClass::Pass)
    } else if str_eq(value, "soft") {
        Ok(OutcomeClass::Soft)
    } else if str_eq(value, "hard") {
        Ok(OutcomeClass::Hard)
    } else {
        Err(concat_str("unknown outcome ", value))
    }
}

/// Writing a state and reading it back gives the same state.
pub proof fn lemma_status_text_roundtrip(a: MachineStatus, b: MachineStatus)
    ensures
        machine_status_text(a) == machine_status_text(b) ==> a == b,
{
    reveal_strlit("pending");
    reveal_strlit("healthy");
    reveal_strlit("degraded");
    reveal_strlit("down");
    if a != b {
        assert(machine_status_text(a) != machine_status_text(b)) by {
            let ta = machine_status_text(a);
            let tb = machine_status_text(b);
            if ta.len() == tb.len() {
                assert(ta[0] != tb[0]);
            }
        }
    }
}

/// Writing a sample's state and outcome and reading them back gives the same state and outcome.
pub proof fn lemma_sample_text_roundtrip(a: ServiceStatus, b: ServiceStatus, x: OutcomeClass, y: OutcomeClass)
    ensures
        service_status_text(a) == service_status_text(b) ==> a == b,
        outcome_text(x) == outcome_text(y) ==> x == y,
{
    reveal_strlit("healthy");
    reveal_strlit("degraded");
    reveal_strlit("down");
    reveal_strlit("ok");
    reveal_strlit("soft");
    reveal_strlit("hard");
    if a != b {
        let ta = service_status_text(a);
        let tb = service_status_text(b);
        if ta.len() == tb.len() {
            assert(ta[0] != tb[0]);
        }
    }
    if x != y {
        let tx = outcome_text(x);
        let ty = outcome_text(y);
        assert(tx[0] != ty[0]);
    }
}

} // verus!
