//! From a raw response (or a transport error) to the evidence of one check.
use vstd::prelude::*;

use crate::domain::assertion::{opt_json, Assertion, AssertionResult};
use crate::domain::json::{json_clone, json_parse_result, parse_json, Json, JsonValue};
use crate::eval::path::{resolve_path, resolve_path_spec, PathError};
use crate::domain::check::{AssertionSkipped, CheckEvidence, OutcomeClass};
use crate::domain::error::{user_message_spec, ErrorKind, MessageArgs};
use crate::domain::service::{ExpectedStatus, HttpMethod, Service};
use crate::eval::{opt_string_view, Outcome, RawResponse, TransportError};
use crate::text::{decimal, owned, str_chars, string_from_chars, sub_chars};

verus! {

pub const PREVIEW_CHARS: usize = 2048;

/// An assertion's result with its expected and actual values written as the failure message
/// shows them (`<missing>` for an absent value).
pub struct CheckedAssertion {
    pub result: AssertionResult,
    pub expected_text: String,
    pub actual_text: String,
}

pub open spec fn status_matches_spec(expected: ExpectedStatus, status: u16) -> bool {
    match expected {
        ExpectedStatus::TwoXx => 200 <= status < 300,
        ExpectedStatus::Code(c) => c == status,
        ExpectedStatus::Codes(cs) => cs@.contains(status),
    }
}

pub fn status_matches(expected: &ExpectedStatus, status: u16) -> (r: bool)
    ensures
        r == status_matches_spec(*expected, status),
{
    match expected {
        ExpectedStatus::TwoXx => 200 <= status && status < 300,
        ExpectedStatus::Code(c) => *c == status,
        ExpectedStatus::Codes(cs) => {
            let mut i: usize = 0;
            while i < cs.len()
                invariant
                    i <= cs.len(),
                    *expected == ExpectedStatus::Codes(*cs),
                    forall|k: int| 0 <= k < i ==> cs@[k] != status,
                decreases cs.len() - i,
            {
                if cs[i] == status {
                    assert(cs@[i as int] == status);
                    return true;
                }
                i = i + 1;
            }
            false
        },
    }
}

/// The preview kept with the evidence: at most the first 2048 characters, none when empty.
pub open spec fn preview_spec(p: Seq<char>) -> Option<Seq<char>> {
    if p.len() == 0 {
        None
    } else if p.len() <= PREVIEW_CHARS {
        Some(p)
    } else {
        Some(p.take(PREVIEW_CHARS as int))
    }
}

fn preview(body_preview: &str) -> (r: Option<String>)
    ensures
        opt_string_view(r) == preview_spec(body_preview@),
{
    let cs = str_chars(body_preview);
    if cs.len() == 0 {
        return None;
    }
    let n = if cs.len() <= PREVIEW_CHARS {
        cs.len()
    } else {
        PREVIEW_CHARS
    };
    let head = sub_chars(&cs, 0, n);
    proof {
        if cs.len() <= PREVIEW_CHARS {
            assert(cs@.subrange(0, n as int) =~= cs@);
        }
    }
    Some(string_from_chars(head.as_slice()))
}

/// A message, or none when it is empty.
pub fn nonempty(message: String) -> (r: Option<String>)
    ensures
        opt_string_view(r) == (if message@.len() == 0 { None } else { Some(message@) }),
{
    if str_chars(message.as_str()).len() == 0 {
        None
    } else {
        Some(message)
    }
}

/// The outcome the state machine consumes, read off the evidence.
pub open spec fn outcome_spec(evidence: CheckEvidence) -> Outcome {
    match evidence.outcome {
    OutcomeClass::Pass => Outcome::Success {
        http_status: match evidence.http_status { Some(s) => s, None => 0 },
        latency_ms: match evidence.latency_ms { Some(l) => l, None => 0 },
        redirects: match evidence.redirects { Some(n) => n, None => 0 },
    },
    OutcomeClass::Soft => Outcome::SoftFail {
        kind: match evidence.error_kind { Some(k) => k, None => ErrorKind::Slow },
        http_status: match evidence.http_status { Some(s) => s, None => 0 },
        latency_ms: match evidence.latency_ms { Some(l) => l, None => 0 },
    },
    OutcomeClass::Hard => Outcome::HardFail {
        kind: match evidence.error_kind { Some(k) => k, None => ErrorKind::Assertion },
        http_status: evidence.http_status,
        latency_ms: evidence.latency_ms,
    },
        }
}

pub fn outcome_of(evidence: &CheckEvidence) -> (r: Outcome)
    ensures
        r == outcome_spec(*evidence),
{
    match evidence.outcome {
        OutcomeClass::Pass => Outcome::Success {
            http_status: match evidence.http_status { Some(s) => s, None => 0 },
            latency_ms: match evidence.latency_ms { Some(l) => l, None => 0 },
            redirects: match evidence.redirects { Some(n) => n, None => 0 },
        },
        OutcomeClass::Soft => Outcome::SoftFail {
            kind: match evidence.error_kind { Some(k) => k, None => ErrorKind::Slow },
            http_status: match evidence.http_status { Some(s) => s, None => 0 },
            latency_ms: match evidence.latency_ms { Some(l) => l, None => 0 },
        },
        OutcomeClass::Hard => Outcome::HardFail {
            kind: match evidence.error_kind { Some(k) => k, None => ErrorKind::Assertion },
            http_status: evidence.http_status,
            latency_ms: evidence.latency_ms,
        },
    }
}

/// The message of a transport failure; a missing secret names its header.
pub open spec fn transport_message_spec(kind: ErrorKind, timeout_ms: u32, detail: Option<Seq<char>>) -> Seq<char> {
    match kind {
        ErrorKind::MissingSecret => "Secret header "@ + (match detail { Some(d) => d, None => Seq::empty() }) + " is not set"@,
        _ => user_message_spec(kind, MessageArgs {
            timeout_ms: Some(timeout_ms),
            http_status: None,
            path: None,
            expected: None,
            actual: None,
            latency_ms: None,
            max_latency_ms: None,
            secret_key: None,
        }),
    }
}

/// Evidence for a check whose request failed before any response: a hard failure of the
/// transport's kind, with its message.
pub open spec fn transport_evidence(service: Service, err: TransportError, at: i64, r: CheckEvidence) -> bool {
    &&& r.at == at
    &&& r.outcome == OutcomeClass::Hard
    &&& r.http_status is None
    &&& r.latency_ms == err.latency_ms
    &&& r.redirects is None
    &&& r.headers_stripped_on_redirect is None
    &&& r.assertion_results@.len() == 0
    &&& r.assertion_skipped is None
    &&& r.error_kind == Some(err.kind)
    &&& opt_string_view(r.error) == ({
        let m = transport_message_spec(err.kind, service.timeout_ms, opt_string_view(err.detail));
        if m.len() == 0 { None } else { Some(m) }
    })
    &&& r.body_preview is None
}

pub fn evaluate_transport(service: &Service, err: TransportError, at: i64) -> (r: CheckEvidence)
    ensures
        transport_evidence(*service, err, at, r),
{
    let secret_key = match &err.detail {
        Some(d) => Some(d.as_str()),
        None => None,
    };
    let args = MessageArgs {
        timeout_ms: Some(service.timeout_ms),
        http_status: None,
        path: None,
        expected: None,
        actual: None,
        latency_ms: None,
        max_latency_ms: None,
        secret_key,
    };
    let message = err.kind.user_message(&args);
    CheckEvidence {
        at,
        outcome: OutcomeClass::Hard,
        http_status: None,
        latency_ms: err.latency_ms,
        redirects: None,
        headers_stripped_on_redirect: None,
        assertion_results: Vec::new(),
        assertion_skipped: None,
        error_kind: Some(err.kind),
        error: nonempty(message),
        body_preview: None,
    }
}

/// Index of the first failed assertion.
pub open spec fn first_failed(cs: Seq<CheckedAssertion>) -> Option<int>
    decreases cs.len(),
{
    if cs.len() == 0 {
        None
    } else {
        match first_failed(cs.drop_last()) {
            Some(i) => Some(i),
            None => if !cs.last().result.ok {
                Some(cs.len() - 1)
            } else {
                None
            },
        }
    }
}

pub open spec fn assertion_message_spec(c: CheckedAssertion) -> Seq<char> {
    c.result.path@ + " expected "@ + c.expected_text@ + ", got "@ + c.actual_text@
}

/// The verdict of a response: outcome, error kind and message.
pub type Verdict = (OutcomeClass, Option<ErrorKind>, Option<Seq<char>>);

pub open spec fn latency_verdict(service: Service, latency_ms: u32) -> Verdict {
    match service.max_latency_ms {
        Some(max) => if latency_ms > max {
            (OutcomeClass::Soft, Some(ErrorKind::Slow), Some(decimal(latency_ms as nat) + "ms (limit "@ + decimal(max as nat) + "ms)"@))
        } else {
            (OutcomeClass::Pass, None, None)
        },
        None => (OutcomeClass::Pass, None, None),
    }
}

/// Whether the assertions are evaluated on this response.
pub open spec fn asserts_body(service: Service) -> bool {
    service.method != HttpMethod::Head && service.assertions@.len() > 0
}

/// The verdict on a response, rule by rule: the status first, then the body (unless the method
/// is `HEAD`: a 204 or a body that is not JSON fails, then the first failed assertion), then the
/// latency limit.
pub open spec fn response_verdict(service: Service, status: u16, latency_ms: u32, checked: Option<Seq<CheckedAssertion>>) -> Verdict {
    if !status_matches_spec(service.expected_status, status) {
        (OutcomeClass::Hard, Some(ErrorKind::UnexpectedStatus), Some("HTTP "@ + decimal(status as nat)))
    } else if asserts_body(service) && (status == 204 || checked is None) {
        (OutcomeClass::Hard, Some(ErrorKind::BodyParse), Some("Response is not JSON"@))
    } else if asserts_body(service) && first_failed(checked->0) is Some {
        (OutcomeClass::Hard, Some(ErrorKind::Assertion), Some(assertion_message_spec(checked->0[first_failed(checked->0)->0])))
    } else {
        latency_verdict(service, latency_ms)
    }
}

pub open spec fn results_of(cs: Seq<CheckedAssertion>) -> Seq<AssertionResult> {
    cs.map_values(|c: CheckedAssertion| c.result)
}

fn find_failed(cs: &Vec<CheckedAssertion>) -> (r: Option<usize>)
    ensures
        match r {
            Some(i) => first_failed(cs@) == Some(i as int) && i < cs@.len(),
            None => first_failed(cs@) is None,
        },
{
    let mut i: usize = 0;
    while i < cs.len()
        invariant
            i <= cs.len(),
            first_failed(cs@.take(i as int)) is None,
        decreases cs.len() - i,
    {
        proof {
            assert(cs@.take(i + 1).drop_last() =~= cs@.take(i as int));
        }
        if !cs[i].result.ok {
            proof {
                lemma_first_failed_prefix(cs@, i as int);
            }
            return Some(i);
        }
        i = i + 1;
    }
    proof {
        assert(cs@.take(i as int) =~= cs@);
    }
    None
}

proof fn lemma_first_failed_prefix(cs: Seq<CheckedAssertion>, i: int)
    requires
        0 <= i < cs.len(),
        first_failed(cs.take(i)) is None,
        !cs[i].result.ok,
    ensures
        first_failed(cs) == Some(i),
    decreases cs.len(),
{
    if cs.len() == i + 1 {
        assert(cs.take(i + 1).drop_last() =~= cs.take(i));
        assert(cs =~= cs.take(i + 1));
    } else {
        assert(cs.drop_last().take(i) =~= cs.take(i));
        lemma_first_failed_prefix(cs.drop_last(), i);
    }
}

/// What comparing one assertion's value gives: whether it holds, why not, and its expected and
/// actual values as the failure message writes them.
pub struct Compared {
    pub ok: bool,
    pub reason: Option<String>,
    pub expected_text: String,
    pub actual_text: String,
}

pub open spec fn checked_view(checked: Option<Vec<CheckedAssertion>>) -> Option<Seq<CheckedAssertion>> {
    match checked {
        Some(v) => Some(v@),
        None => None,
    }
}

pub open spec fn found_view(found: Result<JsonValue, PathError>) -> Result<Json, PathError> {
    match found {
        Ok(v) => Ok(v@),
        Err(e) => Err(e),
    }
}

/// `c` is assertion `a` evaluated: its path, operator and expected value, the value `found` at
/// its path as the actual value, and the comparison `k`.
pub open spec fn checked_from(c: CheckedAssertion, a: Assertion, found: Result<JsonValue, PathError>, k: Compared) -> bool {
    &&& c.result.path@ == a.path@
    &&& c.result.op == a.op
    &&& opt_json(c.result.expected) == opt_json(a.value)
    &&& opt_json(c.result.actual) == (match found_view(found) { Ok(j) => Some(j), Err(_) => None::<Json> })
    &&& c.result.ok == k.ok
    &&& opt_string_view(c.result.reason) == opt_string_view(k.reason)
    &&& c.expected_text@ == k.expected_text@
    &&& c.actual_text@ == k.actual_text@
}

/// The document the assertions are evaluated on: the body as JSON, when the status is expected,
/// the method is not `HEAD`, there are assertions and the status is not 204.
pub open spec fn evaluated_root(service: Service, raw: RawResponse) -> Option<Json> {
    if status_matches_spec(service.expected_status, raw.status) && asserts_body(service) && raw.status != 204 {
        json_parse_result(raw.body@)
    } else {
        None
    }
}

/// `c` is assertion `a` evaluated on the document `root` by `compare`: `compare` was given the
/// assertion and the value at its path, and `c` holds what it answered.
pub open spec fn evaluated_one<F: Fn(&Assertion, &Result<JsonValue, PathError>) -> Compared>(
    compare: F,
    a: Assertion,
    root: Json,
    c: CheckedAssertion,
) -> bool {
    exists|found: Result<JsonValue, PathError>, k: Compared|
        found_view(found) == resolve_path_spec(root, a.path@)
            && call_ensures(compare, (&a, &found), k)
            && checked_from(c, a, found, k)
}

/// `checked` is each assertion of `asserts`, in order, evaluated on `root` by `compare` (nothing
/// when there is no document).
pub open spec fn evaluated_by<F: Fn(&Assertion, &Result<JsonValue, PathError>) -> Compared>(
    compare: F,
    asserts: Seq<Assertion>,
    root: Option<Json>,
    checked: Seq<CheckedAssertion>,
) -> bool {
    match root {
        None => checked.len() == 0,
        Some(j) => checked.len() == asserts.len() && forall|i: int| 0 <= i < asserts.len()
            ==> #[trigger] evaluated_one(compare, asserts[i], j, checked[i]),
    }
}

/// The assertions evaluated on the document: for each, the value at its path and `compare`'s
/// verdict on it.
fn check_all<F: Fn(&Assertion, &Result<JsonValue, PathError>) -> Compared>(
    asserts: &Vec<Assertion>,
    root: &JsonValue,
    compare: &F,
) -> (r: Vec<CheckedAssertion>)
    requires
        forall|a: &Assertion, f: &Result<JsonValue, PathError>| compare.requires((a, f)),
    ensures
        evaluated_by(*compare, asserts@, Some(root@), r@),
{
    let mut out: Vec<CheckedAssertion> = Vec::new();
    let ghost mut founds: Seq<Result<JsonValue, PathError>> = Seq::empty();
    let ghost mut ks: Seq<Compared> = Seq::empty();
    let mut i: usize = 0;
    while i < asserts.len()
        invariant
            i <= asserts.len(),
            out@.len() == i,
            founds.len() == i,
            ks.len() == i,
            forall|a: &Assertion, f: &Result<JsonValue, PathError>| compare.requires((a, f)),
            forall|m: int| 0 <= m < i ==> found_view(#[trigger] founds[m]) == resolve_path_spec(root@, asserts@[m].path@)
                && call_ensures(*compare, (&asserts@[m], &founds[m]), ks[m])
                && checked_from(out@[m], asserts@[m], founds[m], ks[m]),
        decreases asserts.len() - i,
    {
        let a = &asserts[i];
        let found = resolve_path(root, a.path.as_str());
        let k = compare(a, &found);
        let ghost kg = k;
        let ghost fg = found;
        let actual = match &found {
            Ok(v) => Some(json_clone(v)),
            Err(_) => None,
        };
        let expected = match &a.value {
            Some(v) => Some(json_clone(v)),
            None => None,
        };
        let c = CheckedAssertion {
            result: AssertionResult { path: owned(a.path.as_str()), op: a.op, ok: k.ok, expected, actual, reason: k.reason },
            expected_text: k.expected_text,
            actual_text: k.actual_text,
        };
        let ghost before = out@;
        out.push(c);
        proof {
            founds = founds.push(fg);
            ks = ks.push(kg);
            assert forall|m: int| 0 <= m < i + 1 implies found_view(#[trigger] founds[m]) == resolve_path_spec(root@, asserts@[m].path@)
                && call_ensures(*compare, (&asserts@[m], &founds[m]), ks[m])
                && checked_from(out@[m], asserts@[m], founds[m], ks[m]) by {
                if m < i {
                    assert(out@[m] == before[m]);
                }
            }
        }
        i = i + 1;
    }
    proof {
        assert forall|m: int| 0 <= m < asserts@.len() implies #[trigger] evaluated_one(*compare, asserts@[m], root@, out@[m]) by {
            assert(found_view(founds[m]) == resolve_path_spec(root@, asserts@[m].path@));
            assert(call_ensures(*compare, (&asserts@[m], &founds[m]), ks[m]));
            assert(checked_from(out@[m], asserts@[m], founds[m], ks[m]));
        }
        assert(out@.len() == asserts@.len());
    }
    out
}

/// The evidence of a response at `at`: its figures, the verdict of the rules, the assertions
/// that were evaluated, and a note when `HEAD` skipped them.
pub open spec fn response_evidence(service: Service, raw: RawResponse, at: i64, checked: Option<Seq<CheckedAssertion>>, r: CheckEvidence) -> bool {
    &&& r.at == at
    &&& r.http_status == Some(raw.status)
    &&& r.latency_ms == Some(raw.latency_ms)
    &&& r.redirects == Some(raw.redirects)
    &&& r.headers_stripped_on_redirect == (if raw.headers_stripped_on_redirect { Some(true) } else { None::<bool> })
    &&& opt_string_view(r.body_preview) == preview_spec(raw.body_preview@)
    &&& (r.outcome, r.error_kind, opt_string_view(r.error)) == response_verdict(service, raw.status, raw.latency_ms, checked)
    &&& r.assertion_skipped == (if status_matches_spec(service.expected_status, raw.status)
        && service.method == HttpMethod::Head && service.assertions@.len() > 0 {
        Some(AssertionSkipped::Head)
    } else {
        None::<AssertionSkipped>
    })
    &&& r.assertion_results@ == (if status_matches_spec(service.expected_status, raw.status) && asserts_body(service)
        && raw.status != 204 && checked is Some {
        results_of(checked->0)
    } else {
        Seq::empty()
    })
}

fn evidence_of(service: &Service, raw: RawResponse, at: i64, checked: Option<Vec<CheckedAssertion>>) -> (r: CheckEvidence)
    ensures
        response_evidence(*service, raw, at, checked_view(checked), r),
{
    let mut evidence = CheckEvidence {
        at,
        outcome: OutcomeClass::Pass,
        http_status: Some(raw.status),
        latency_ms: Some(raw.latency_ms),
        redirects: Some(raw.redirects),
        headers_stripped_on_redirect: if raw.headers_stripped_on_redirect { Some(true) } else { None },
        assertion_results: Vec::new(),
        assertion_skipped: None,
        error_kind: None,
        error: None,
        body_preview: preview(raw.body_preview.as_str()),
    };
    let none = MessageArgs {
        timeout_ms: None,
        http_status: None,
        path: None,
        expected: None,
        actual: None,
        latency_ms: None,
        max_latency_ms: None,
        secret_key: None,
    };
    if !status_matches(&service.expected_status, raw.status) {
        evidence.outcome = OutcomeClass::Hard;
        evidence.error_kind = Some(ErrorKind::UnexpectedStatus);
        evidence.error = Some(ErrorKind::UnexpectedStatus.user_message(&MessageArgs { http_status: Some(raw.status), ..none }));
        return evidence;
    }
    if service.method == HttpMethod::Head {
        if service.assertions.len() > 0 {
            evidence.assertion_skipped = Some(AssertionSkipped::Head);
        }
    } else if service.assertions.len() > 0 {
        if raw.status == 204 {
            evidence.outcome = OutcomeClass::Hard;
            evidence.error_kind = Some(ErrorKind::BodyParse);
            evidence.error = Some(ErrorKind::BodyParse.user_message(&none));
            return evidence;
        }
        let cs = match checked {
            Some(cs) => cs,
            None => {
                evidence.outcome = OutcomeClass::Hard;
                evidence.error_kind = Some(ErrorKind::BodyParse);
                evidence.error = Some(ErrorKind::BodyParse.user_message(&none));
                return evidence;
            },
        };
        let failed = find_failed(&cs);
        let message = match failed {
            Some(i) => {
                let c = &cs[i];
                Some(ErrorKind::Assertion.user_message(&MessageArgs {
                    path: Some(c.result.path.as_str()),
                    expected: Some(c.expected_text.as_str()),
                    actual: Some(c.actual_text.as_str()),
                    ..none
                }))
            },
            None => None,
        };
        let ghost cv = cs@;
        let mut results: Vec<AssertionResult> = Vec::new();
        let mut rest = cs;
        proof {
            assert(results@ =~= results_of(cv.take(0)));
            assert(rest@ =~= cv.skip(0));
        }
        while rest.len() > 0
            invariant
                rest@.len() <= cv.len(),
                results@ == results_of(cv.take(cv.len() - rest@.len())),
                rest@ == cv.skip(cv.len() - rest@.len()),
            decreases rest.len(),
        {
            let ghost k = cv.len() - rest@.len();
            let c = rest.remove(0);
            let ghost before = results@;
            results.push(c.result);
            proof {
                assert(c == cv[k]);
                assert(rest@ =~= cv.skip(k + 1));
                assert(results_of(cv.take(k + 1)) =~= results_of(cv.take(k)).push(cv[k].result));
            }
        }
        proof {
            assert(cv.take(cv.len() as int) =~= cv);
        }
        evidence.assertion_results = results;
        if let Some(m) = message {
            evidence.outcome = OutcomeClass::Hard;
            evidence.error_kind = Some(ErrorKind::Assertion);
            evidence.error = Some(m);
            return evidence;
        }
    }
    if let Some(max) = service.max_latency_ms {
        if raw.latency_ms > max {
            evidence.outcome = OutcomeClass::Soft;
            evidence.error_kind = Some(ErrorKind::Slow);
            evidence.error = Some(ErrorKind::Slow.user_message(&MessageArgs {
                latency_ms: Some(raw.latency_ms),
                max_latency_ms: Some(max),
                ..none
            }));
        }
    }
    evidence
}

/// The evaluated assertions the verdict reads: those of `checked` when the assertions are
/// evaluated and the body is JSON, none when it is not.
pub open spec fn body_checked(service: Service, raw: RawResponse, checked: Seq<CheckedAssertion>) -> Option<Seq<CheckedAssertion>> {
    if status_matches_spec(service.expected_status, raw.status) && asserts_body(service) && raw.status != 204 {
        match json_parse_result(raw.body@) {
            Some(_) => Some(checked),
            None => None,
        }
    } else {
        None
    }
}

/// Evidence for a response. When the status is expected, the method is not `HEAD`, there are
/// assertions and the status is not 204, the body is read as JSON: a body that is not JSON
/// fails; otherwise each assertion is evaluated on it, in order, by `compare`, which is given
/// the assertion and the value at its path.
pub fn evaluate_response<F: Fn(&Assertion, &Result<JsonValue, PathError>) -> Compared>(
    service: &Service,
    raw: RawResponse,
    at: i64,
    compare: &F,
) -> (r: CheckEvidence)
    requires
        forall|a: &Assertion, f: &Result<JsonValue, PathError>| compare.requires((a, f)),
    ensures
        exists|checked: Seq<CheckedAssertion>|
            evaluated_by(*compare, service.assertions@, evaluated_root(*service, raw), checked)
                && response_evidence(*service, raw, at, body_checked(*service, raw, checked), r),
{
    if status_matches(&service.expected_status, raw.status) && service.method != HttpMethod::Head
        && service.assertions.len() > 0 && raw.status != 204 {
        match parse_json(raw.body.as_slice()) {
            Some(root) => {
                let cs = check_all(&service.assertions, &root, compare);
                let ghost cv = cs@;
                let r = evidence_of(service, raw, at, Some(cs));
                assert(evaluated_by(*compare, service.assertions@, evaluated_root(*service, raw), cv)
                    && response_evidence(*service, raw, at, body_checked(*service, raw, cv), r));
                r
            },
            None => {
                let r = evidence_of(service, raw, at, None);
                assert(evaluated_by(*compare, service.assertions@, evaluated_root(*service, raw), Seq::empty())
                    && response_evidence(*service, raw, at, body_checked(*service, raw, Seq::empty()), r));
                r
            },
        }
    } else {
        let r = evidence_of(service, raw, at, None);
        assert(evaluated_by(*compare, service.assertions@, evaluated_root(*service, raw), Seq::empty())
            && response_evidence(*service, raw, at, body_checked(*service, raw, Seq::empty()), r));
        r
    }
}

/// Evidence for one check at `at`: from the transport error, or from the response with its
/// assertions evaluated by `compare`.
pub fn evaluate_at<F: Fn(&Assertion, &Result<JsonValue, PathError>) -> Compared>(
    service: &Service,
    raw: Result<RawResponse, TransportError>,
    at: i64,
    compare: &F,
) -> (r: CheckEvidence)
    requires
        forall|a: &Assertion, f: &Result<JsonValue, PathError>| compare.requires((a, f)),
    ensures
        match raw {
            Err(e) => transport_evidence(*service, e, at, r),
            Ok(resp) => exists|checked: Seq<CheckedAssertion>|
                evaluated_by(*compare, service.assertions@, evaluated_root(*service, resp), checked)
                    && response_evidence(*service, resp, at, body_checked(*service, resp, checked), r),
        },
{
    match raw {
        Err(e) => evaluate_transport(service, e, at),
        Ok(resp) => evaluate_response(service, resp, at, compare),
    }
}

/// Every code of an expected list is an expected status, and only those are: a response with
/// any listed code passes the status rule.
pub proof fn lemma_listed_codes_expected(cs: Vec<u16>, status: u16)
    ensures
        status_matches_spec(ExpectedStatus::Codes(cs), status) <==> exists|i: int| 0 <= i < cs@.len() && cs@[i] == status,
        forall|i: int| 0 <= i < cs@.len() ==> status_matches_spec(ExpectedStatus::Codes(cs), #[trigger] cs@[i]),
{
    assert forall|i: int| 0 <= i < cs@.len() implies status_matches_spec(ExpectedStatus::Codes(cs), #[trigger] cs@[i]) by {
        assert(cs@.contains(cs@[i]));
    }
}

/// A response whose status is one of the listed codes is never failed as an unexpected status.
pub proof fn lemma_listed_code_not_unexpected(service: Service, cs: Vec<u16>, i: int, latency_ms: u32, checked: Option<Seq<CheckedAssertion>>)
    requires
        service.expected_status == ExpectedStatus::Codes(cs),
        0 <= i < cs@.len(),
    ensures
        response_verdict(service, cs@[i], latency_ms, checked).1 != Some(ErrorKind::UnexpectedStatus),
{
    lemma_listed_codes_expected(cs, cs@[i]);
    assert(status_matches_spec(service.expected_status, cs@[i]));
}

/// Any status from 200 to 299 is expected under `2xx`, and no other.
pub proof fn lemma_two_xx_expected(status: u16)
    ensures
        status_matches_spec(ExpectedStatus::TwoXx, status) <==> (200 <= status && status <= 299),
{
}

} // verus!
