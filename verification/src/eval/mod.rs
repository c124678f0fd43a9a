//! Evaluator data: raw transport results and classified outcomes.
pub mod classify;
pub mod path;
use vstd::prelude::*;

use crate::domain::error::ErrorKind;

verus! {

/// What came back from the network for one check.
#[derive(Debug, Clone, PartialEq, Eq)]
pub struct RawResponse {
    pub status: u16,
    pub latency_ms: u32,
    pub redirects: u8,
    pub headers_stripped_on_redirect: bool,
    pub body: Vec<u8>,
    pub body_preview: String,
}

/// Why no response came back.
#[derive(Debug, Clone, PartialEq, Eq)]
pub struct TransportError {
    pub kind: ErrorKind,
    pub latency_ms: Option<u32>,
    pub detail: Option<String>,
}

pub open spec fn opt_string_view(o: Option<String>) -> Option<Seq<char>> {
    match o {
        Some(s) => Some(s@),
        None => None,
    }
}

impl TransportError {
    /// Kind, latency and the characters of the detail.
    pub open spec fn model(self) -> (ErrorKind, Option<u32>, Option<Seq<char>>) {
        (self.kind, self.latency_ms, opt_string_view(self.detail))
    }
}

/// A transport error without detail.
pub fn transport(kind: ErrorKind, latency_ms: Option<u32>) -> (r: TransportError)
    ensures
        r.model() == (kind, latency_ms, None::<Seq<char>>),
{
    TransportError { kind, latency_ms, detail: None }
}

#[derive(Debug, Clone, Copy, PartialEq, Eq, Structural)]
#[allow(inconsistent_fields)]
pub enum Outcome {
    Success { http_status: u16, latency_ms: u32, redirects: u8 },
    SoftFail { kind: ErrorKind, http_status: u16, latency_ms: u32 },
    HardFail { kind: ErrorKind, http_status: Option<u16>, latency_ms: Option<u32> },
}

} // verus!
