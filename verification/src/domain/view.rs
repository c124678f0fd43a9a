//! What the UI shows for a service: its state, the 24-point sparkline, and the assembled view.
use vstd::prelude::*;

use crate::domain::check::{CheckResult, CompactSample, ServiceStatus, SparklinePoint, UiState};
use crate::domain::runtime::{MachineStatus, RuntimeState};
use crate::domain::service::{copy_service, service_model, Service, ServiceView};

verus! {

pub const SPARKLINE_LEN: usize = 24;

pub open spec fn ui_state_spec(paused: bool, status: MachineStatus) -> UiState {
    if paused {
        UiState::Paused
    } else {
        match status {
            MachineStatus::Pending => UiState::Pending,
            MachineStatus::Healthy => UiState::Healthy,
            MachineStatus::Degraded => UiState::Degraded,
            MachineStatus::Down => UiState::Down,
        }
    }
}

/// A paused service reads `Paused`, whatever its machine status.
pub fn ui_state(paused: bool, status: MachineStatus) -> (r: UiState)
    ensures
        r == ui_state_spec(paused, status),
{
    if paused {
        return UiState::Paused;
    }
    match status {
        MachineStatus::Pending => UiState::Pending,
        MachineStatus::Healthy => UiState::Healthy,
        MachineStatus::Degraded => UiState::Degraded,
        MachineStatus::Down => UiState::Down,
    }
}

pub open spec fn point_of(s: ServiceStatus) -> SparklinePoint {
    match s {
        ServiceStatus::Healthy => SparklinePoint::Healthy,
        ServiceStatus::Degraded => SparklinePoint::Degraded,
        ServiceStatus::Down => SparklinePoint::Down,
    }
}

/// The last 24 samples in order, with gaps in front when there are fewer.
pub open spec fn sparkline_spec(samples: Seq<CompactSample>) -> Seq<SparklinePoint> {
    let n = if samples.len() < SPARKLINE_LEN { samples.len() as int } else { SPARKLINE_LEN as int };
    let recent = samples.subrange(samples.len() - n, samples.len() as int);
    Seq::new((SPARKLINE_LEN - n) as nat, |i: int| SparklinePoint::Gap) + recent.map_values(|s: CompactSample| point_of(s.state))
}

pub fn sparkline24(samples: &[CompactSample]) -> (r: Vec<SparklinePoint>)
    ensures
        r@ == sparkline_spec(samples@),
        r@.len() == SPARKLINE_LEN,
{
    let n = if samples.len() < SPARKLINE_LEN { samples.len() } else { SPARKLINE_LEN };
    let pad = SPARKLINE_LEN - n;
    let mut out: Vec<SparklinePoint> = Vec::new();
    let mut i: usize = 0;
    while i < pad
        invariant
            i <= pad,
            out@ == Seq::new(i as nat, |k: int| SparklinePoint::Gap),
        decreases pad - i,
    {
        out.push(SparklinePoint::Gap);
        i = i + 1;
        assert(out@ =~= Seq::new(i as nat, |k: int| SparklinePoint::Gap));
    }
    let start = samples.len() - n;
    let ghost gaps = out@;
    let ghost recent = samples@.subrange(start as int, samples@.len() as int);
    let mut j: usize = start;
    while j < samples.len()
        invariant
            start <= j <= samples.len(),
            recent == samples@.subrange(start as int, samples@.len() as int),
            out@ == gaps + recent.take(j - start).map_values(|s: CompactSample| point_of(s.state)),
        decreases samples.len() - j,
    {
        let p = match samples[j].state {
            ServiceStatus::Healthy => SparklinePoint::Healthy,
            ServiceStatus::Degraded => SparklinePoint::Degraded,
            ServiceStatus::Down => SparklinePoint::Down,
        };
        out.push(p);
        proof {
            assert(recent.take(j + 1 - start) =~= recent.take(j - start).push(samples@[j as int]));
            assert(recent.take(j + 1 - start).map_values(|s: CompactSample| point_of(s.state))
                =~= recent.take(j - start).map_values(|s: CompactSample| point_of(s.state)).push(point_of(samples@[j as int].state)));
        }
        j = j + 1;
        assert(out@ =~= gaps + recent.take(j - start).map_values(|s: CompactSample| point_of(s.state)));
    }
    proof {
        assert(recent.take(j - start) =~= recent);
        assert(out@ =~= sparkline_spec(samples@));
    }
    out
}

/// The sample kept in history for a result.
pub fn compact_sample(result: &CheckResult) -> (r: CompactSample)
    ensures
        r == (CompactSample {
            at: result.evidence.at,
            state: result.state,
            outcome: result.evidence.outcome,
            http_status: result.evidence.http_status,
            latency_ms: result.evidence.latency_ms,
            error_kind: result.evidence.error_kind,
        }),
{
    CompactSample {
        at: result.evidence.at,
        state: result.state,
        outcome: result.evidence.outcome,
        http_status: result.evidence.http_status,
        latency_ms: result.evidence.latency_ms,
        error_kind: result.evidence.error_kind,
    }
}

/// A service with its runtime state, last result and recent samples, as the UI lists it.
pub fn assemble_view(
    service: &Service,
    runtime: &RuntimeState,
    last_result: Option<CheckResult>,
    samples: &[CompactSample],
    keychain_identity_changed: bool,
) -> (r: ServiceView)
    ensures
        service_model(r.service) == service_model(*service),
        r.state == ui_state_spec(service.paused, runtime.status),
        r.snooze_until == runtime.snooze_until,
        r.keychain_identity_changed == (if keychain_identity_changed { Some(true) } else { None::<bool> }),
        r.last_result == last_result,
        r.last_check_at == runtime.last_check_at,
        r.down_since == runtime.down_since,
        r.down_clock_adjust_ms == runtime.down_clock_adjust_ms,
        r.consecutive_hard_fails == runtime.consecutive_hard_fails,
        r.sparkline24@ == sparkline_spec(samples@),
{
    ServiceView {
        service: copy_service(service),
        state: ui_state(service.paused, runtime.status),
        snooze_until: runtime.snooze_until,
        keychain_identity_changed: if keychain_identity_changed { Some(true) } else { None },
        last_result,
        last_check_at: runtime.last_check_at,
        down_since: runtime.down_since,
        down_clock_adjust_ms: runtime.down_clock_adjust_ms,
        consecutive_hard_fails: runtime.consecutive_hard_fails,
        sparkline24: sparkline24(samples),
    }
}

/// Before any result the row is pending, or paused; a paused row stays paused.
pub proof fn lemma_pause_wins(status: MachineStatus)
    ensures
        ui_state_spec(true, status) == UiState::Paused,
        ui_state_spec(false, MachineStatus::Pending) == UiState::Pending,
{
}

} // verus!
