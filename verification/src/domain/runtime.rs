//! Runtime (flap-damped) state of one service. Lives in the history store, never in the config.
use vstd::prelude::*;

use crate::domain::check::ServiceStatus;

verus! {

/// Machine status after the flap damper. `Pending` only before the first applied result.
#[derive(Debug, Clone, Copy, PartialEq, Eq, Structural)]
pub enum MachineStatus {
    Pending,
    Healthy,
    Degraded,
    Down,
}

/// Timestamps are milliseconds since the Unix epoch (UTC).
#[derive(Debug, Clone, Copy, PartialEq, Eq, Structural)]
pub struct RuntimeState {
    pub consecutive_hard_fails: u32,
    pub status: MachineStatus,
    pub down_since: Option<i64>,
    pub degraded_since: Option<i64>,
    pub down_clock_adjust_ms: u64,
    pub last_check_at: Option<i64>,
    pub snooze_until: Option<i64>,
    pub paused_at: Option<i64>,
    pub slept_at: Option<i64>,
}

/// `now - start` in milliseconds, or 0 when `now` is not after `start`.
pub open spec fn elapsed_nonneg(start: i64, now: i64) -> nat {
    if now > start {
        (now - start) as nat
    } else {
        0
    }
}

/// Saturating `u64` addition on mathematical integers.
pub open spec fn sat_add_u64(a: u64, b: int) -> u64 {
    if a + b > u64::MAX {
        u64::MAX
    } else {
        (a + b) as u64
    }
}

/// Down duration shown to the user: wall time since `down_since`, minus time spent paused or asleep.
pub open spec fn displayed_down_spec(rt: RuntimeState, now: i64) -> Option<u64> {
    match rt.down_since {
        None => None,
        Some(since) => {
            let elapsed = elapsed_nonneg(since, now);
            if elapsed > rt.down_clock_adjust_ms {
                Some((elapsed - rt.down_clock_adjust_ms) as u64)
            } else {
                Some(0u64)
            }
        },
    }
}

/// Whole-millisecond difference `now - start`, clamped at zero.
pub fn elapsed_ms(start: i64, now: i64) -> (r: u64)
    ensures
        r == elapsed_nonneg(start, now),
{
    if now > start {
        let d: i128 = now as i128 - start as i128;
        d as u64
    } else {
        0
    }
}

impl RuntimeState {
    /// The state of a service that has never had a result applied.
    pub fn pending() -> (r: Self)
        ensures
            r == Self::pending_spec(),
    {
        RuntimeState {
            consecutive_hard_fails: 0,
            status: MachineStatus::Pending,
            down_since: None,
            degraded_since: None,
            down_clock_adjust_ms: 0,
            last_check_at: None,
            snooze_until: None,
            paused_at: None,
            slept_at: None,
        }
    }

    pub open spec fn pending_spec() -> Self {
        RuntimeState {
            consecutive_hard_fails: 0,
            status: MachineStatus::Pending,
            down_since: None,
            degraded_since: None,
            down_clock_adjust_ms: 0,
            last_check_at: None,
            snooze_until: None,
            paused_at: None,
            slept_at: None,
        }
    }

    /// Down duration excluding paused / asleep time. `None` when not down.
    pub fn displayed_down_ms(&self, now: i64) -> (r: Option<u64>)
        ensures
            r == displayed_down_spec(*self, now),
    {
        match self.down_since {
            None => None,
            Some(since) => {
                let elapsed = elapsed_ms(since, now);
                Some(elapsed.saturating_sub(self.down_clock_adjust_ms))
            },
        }
    }

    /// Snoozed while `now` is before `snooze_until`.
    pub fn is_snoozed(&self, now: i64) -> (r: bool)
        ensures
            r == (self.snooze_until matches Some(until) && now < until),
    {
        match self.snooze_until {
            Some(until) => now < until,
            None => false,
        }
    }
}

impl MachineStatus {
    /// Post-machine sample state. `Pending` has none.
    pub fn as_service_status(self) -> (r: Option<ServiceStatus>)
        ensures
            r == service_status_of(self),
    {
        match self {
            MachineStatus::Pending => None,
            MachineStatus::Healthy => Some(ServiceStatus::Healthy),
            MachineStatus::Degraded => Some(ServiceStatus::Degraded),
            MachineStatus::Down => Some(ServiceStatus::Down),
        }
    }
}

pub open spec fn service_status_of(s: MachineStatus) -> Option<ServiceStatus> {
    match s {
        MachineStatus::Pending => None,
        MachineStatus::Healthy => Some(ServiceStatus::Healthy),
        MachineStatus::Degraded => Some(ServiceStatus::Degraded),
        MachineStatus::Down => Some(ServiceStatus::Down),
    }
}

} // verus!
