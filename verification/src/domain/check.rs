//! Evaluator and post-machine classifications.
use vstd::prelude::*;

verus! {

/// Evaluator output. Not flap-damped machine state.
#[derive(Debug, Clone, Copy, PartialEq, Eq, Structural)]
pub enum OutcomeClass {
    Pass,
    Soft,
    Hard,
}

/// Post-machine state after a result is applied.
#[derive(Debug, Clone, Copy, PartialEq, Eq, Structural)]
pub enum ServiceStatus {
    Healthy,
    Degraded,
    Down,
}

#[derive(Debug, Clone, Copy, PartialEq, Eq, Structural)]
pub enum UiState {
    Healthy,
    Degraded,
    Down,
    Paused,
    Pending,
}

#[derive(Debug, Clone, Copy, PartialEq, Eq, Structural)]
pub enum AssertionSkipped {
    Head,
}

#[derive(Debug, Clone, Copy, PartialEq, Eq, Structural)]
pub enum SparklinePoint {
    Healthy,
    Degraded,
    Down,
    Gap,
}

} // verus!

use crate::domain::assertion::AssertionResult;
use crate::domain::error::ErrorKind;

verus! {

/// Evidence of one check. `at` is milliseconds since the Unix epoch.
#[derive(Debug, Clone)]
pub struct CheckEvidence {
    pub at: i64,
    pub outcome: OutcomeClass,
    pub http_status: Option<u16>,
    pub latency_ms: Option<u32>,
    pub redirects: Option<u8>,
    pub headers_stripped_on_redirect: Option<bool>,
    pub assertion_results: Vec<AssertionResult>,
    pub assertion_skipped: Option<AssertionSkipped>,
    pub error_kind: Option<ErrorKind>,
    pub error: Option<String>,
    pub body_preview: Option<String>,
}

/// Live check after the state machine has applied it.
#[derive(Debug, Clone)]
pub struct CheckResult {
    pub evidence: CheckEvidence,
    pub state: ServiceStatus,
}

#[derive(Debug, Clone, Copy, PartialEq, Eq, Structural)]
pub struct CompactSample {
    pub at: i64,
    pub state: ServiceStatus,
    pub outcome: OutcomeClass,
    pub http_status: Option<u16>,
    pub latency_ms: Option<u32>,
    pub error_kind: Option<ErrorKind>,
}

} // verus!
