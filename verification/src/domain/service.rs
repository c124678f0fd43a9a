//! Service configuration: what is checked, how, and the rules a configuration must meet.
use vstd::prelude::*;

use crate::domain::assertion::Assertion;
use crate::domain::check::{CheckResult, SparklinePoint, UiState};
use crate::domain::error::{outcome_view, Refusal, ValidationError};
use crate::poller::client::{is_web_url, url_parse_result, ParsedUrl};
use crate::text::{
    ascii_lowercase, bool_text, byte_len, debug_quoted, extend_bool, extend_opt_debug, extend_str, finish,
    lower_seq, opt_debug, str_chars, str_debug_result, str_eq,
};

verus! {

/// What the UI shows in place of a secret value; never sent as a header value.
pub const SECRET_MASK: &'static str = "••••••••";

pub const MIN_INTERVAL_SEC: u32 = 15;
pub const MAX_INTERVAL_SEC: u32 = 600;
pub const MAX_SERVICES: usize = 100;
pub const MAX_HEADERS: usize = 32;
pub const MAX_ASSERTIONS: usize = 16;
pub const MAX_NAME_CHARS: usize = 80;
pub const MAX_GROUP_CHARS: usize = 40;
pub const MAX_URL_BYTES: usize = 2048;
pub const MAX_BODY_BYTES: usize = 65536;
pub const MAX_HEADER_KEY_BYTES: usize = 128;
pub const MAX_HEADER_VALUE_BYTES: usize = 8192;
pub const MAX_STATUS_CODES: usize = 16;

pub open spec fn mask_spec() -> Seq<char> {
    seq!['\u{2022}', '\u{2022}', '\u{2022}', '\u{2022}', '\u{2022}', '\u{2022}', '\u{2022}', '\u{2022}']
}

/// Whether `value` is the UI mask rather than a real value.
pub fn is_mask(value: &str) -> (r: bool)
    ensures
        r == (value@ == mask_spec()),
{
    proof {
        reveal_strlit("••••••••");
        assert(SECRET_MASK@ =~= mask_spec());
    }
    str_eq(value, SECRET_MASK)
}

/// Whether `value` starts with the UI mask, so that it cannot be a real secret value.
pub fn is_mask_like(value: &str) -> (r: bool)
    ensures
        r == crate::text::starts_with_spec(value@, mask_spec()),
{
    proof {
        reveal_strlit("••••••••");
        assert(SECRET_MASK@ =~= mask_spec());
    }
    crate::text::str_starts_with(value, SECRET_MASK)
}

/// Header names that always carry credentials, in lower case.
pub open spec fn denylisted(name: Seq<char>) -> bool {
    name == "authorization"@ || name == "proxy-authorization"@ || name == "cookie"@
        || name == "set-cookie"@ || name == "x-api-key"@ || name == "x-auth-token"@
}

/// `denylisted` on a name that is already lower case.
pub fn is_denylisted(name: &str) -> (r: bool)
    ensures
        r == denylisted(name@),
{
    str_eq(name, "authorization") || str_eq(name, "proxy-authorization") || str_eq(name, "cookie")
        || str_eq(name, "set-cookie") || str_eq(name, "x-api-key") || str_eq(name, "x-auth-token")
}

/// Whether a header's value is shown masked whatever its `secret` flag says.
pub fn is_redacted_header(key: &str) -> (r: bool)
    ensures
        r == denylisted(lower_seq(key@)),
{
    let lower = ascii_lowercase(key);
    is_denylisted(lower.as_str())
}

#[derive(Debug, Clone, Copy, PartialEq, Eq, Structural)]
pub enum HttpMethod {
    Get,
    Head,
    Post,
}

#[derive(Debug, Clone, PartialEq, Eq)]
pub enum ExpectedStatus {
    TwoXx,
    Code(u16),
    Codes(Vec<u16>),
}

/// Why a list of expected status codes was refused.
#[derive(Debug, Clone, Copy, PartialEq, Eq, Structural)]
pub enum StatusListError {
    OutOfRange,
    TooMany,
    Empty,
}

pub open spec fn status_code_ok(code: int) -> bool {
    100 <= code <= 599
}

/// The outcome of reading a list of codes in order: the first out-of-range code, or a 17th
/// code, stops the reading.
pub open spec fn codes_check(codes: Seq<u16>) -> Result<(), StatusListError>
    decreases codes.len(),
{
    if codes.len() == 0 {
        Ok(())
    } else {
        match codes_check(codes.drop_last()) {
            Err(e) => Err(e),
            Ok(()) => if !status_code_ok(codes.last() as int) {
                Err(StatusListError::OutOfRange)
            } else if codes.len() > MAX_STATUS_CODES {
                Err(StatusListError::TooMany)
            } else {
                Ok(())
            },
        }
    }
}

impl ExpectedStatus {
    /// The `"2xx"` form; any other text is refused.
    pub fn from_text(value: &str) -> (r: Option<ExpectedStatus>)
        ensures
            r is Some <==> value@ == "2xx"@,
            r matches Some(s) ==> s is TwoXx,
    {
        if str_eq(value, "2xx") {
            Some(ExpectedStatus::TwoXx)
        } else {
            None
        }
    }

    /// A single code, which must lie in 100..=599.
    pub fn from_code(value: u64) -> (r: Option<ExpectedStatus>)
        ensures
            r is Some <==> status_code_ok(value as int),
            r matches Some(s) ==> s == ExpectedStatus::Code(value as u16),
    {
        if 100 <= value && value <= 599 {
            Some(ExpectedStatus::Code(value as u16))
        } else {
            None
        }
    }

    /// A list of 1 to 16 codes, each in 100..=599.
    pub fn from_codes(values: &Vec<u16>) -> (r: Result<ExpectedStatus, StatusListError>)
        ensures
            match codes_check(values@) {
                Err(e) => r == Err::<ExpectedStatus, StatusListError>(e),
                Ok(()) => if values@.len() == 0 {
                    r == Err::<ExpectedStatus, StatusListError>(StatusListError::Empty)
                } else {
                    r matches Ok(ExpectedStatus::Codes(c)) && c@ == values@
                },
            },
    {
        let mut codes: Vec<u16> = Vec::new();
        let mut i: usize = 0;
        while i < values.len()
            invariant
                i <= values.len(),
                codes@ == values@.take(i as int),
                codes_check(values@.take(i as int)) is Ok,
            decreases values.len() - i,
        {
            proof {
                assert(values@.take(i + 1).drop_last() =~= values@.take(i as int));
            }
            let code = values[i];
            if !(100 <= code && code <= 599) {
                proof {
                    lemma_codes_check_prefix(values@, i as int + 1);
                }
                return Err(StatusListError::OutOfRange);
            }
            if codes.len() >= MAX_STATUS_CODES {
                proof {
                    lemma_codes_check_prefix(values@, i as int + 1);
                }
                return Err(StatusListError::TooMany);
            }
            codes.push(code);
            i = i + 1;
            assert(codes@ =~= values@.take(i as int));
        }
        proof {
            assert(values@.take(i as int) =~= values@);
        }
        if codes.len() == 0 {
            return Err(StatusListError::Empty);
        }
        Ok(ExpectedStatus::Codes(codes))
    }
}

/// A refusal on a prefix is the refusal of the whole list.
proof fn lemma_codes_check_prefix(codes: Seq<u16>, n: int)
    requires
        0 <= n <= codes.len(),
        codes_check(codes.take(n)) is Err,
    ensures
        codes_check(codes) == codes_check(codes.take(n)),
    decreases codes.len(),
{
    if n == codes.len() {
        assert(codes.take(n) =~= codes);
    } else {
        assert(codes.drop_last().take(n) =~= codes.take(n));
        lemma_codes_check_prefix(codes.drop_last(), n);
    }
}

#[derive(Clone, PartialEq, Eq)]
pub struct HeaderSpec {
    pub key: String,
    pub secret: bool,
    /// Plain text only when `secret` is false; secret values are never stored here.
    pub value: Option<String>,
}

/// A header as the UI sees it: a secret value is empty or the mask, never the plain text.
#[derive(Clone, PartialEq, Eq)]
pub struct Header {
    pub key: String,
    pub value: String,
    pub secret: bool,
    pub has_value: bool,
}

#[derive(Clone, PartialEq, Eq)]
pub struct DraftHeader {
    pub key: String,
    pub value: Option<String>,
    pub secret: bool,
    pub clear: bool,
}

/// Editor and "Test now" payload; secret values never stay on a `Service`.
#[derive(Clone)]
pub struct ServiceDraft {
    pub id: Option<String>,
    pub name: String,
    pub url: String,
    pub method: HttpMethod,
    pub headers: Vec<DraftHeader>,
    pub body: Option<String>,
    pub interval_sec: u32,
    pub timeout_ms: u32,
    pub expected_status: ExpectedStatus,
    pub follow_redirects: Option<bool>,
    pub assertions: Vec<Assertion>,
    pub max_latency_ms: Option<u32>,
    pub action_url: Option<String>,
    pub notify: bool,
    pub always_alert: bool,
    pub fail_threshold: Option<u32>,
    pub group: Option<String>,
}

/// Persisted configuration of one service. Times are milliseconds since the Unix epoch.
#[derive(Clone)]
pub struct Service {
    pub id: String,
    pub name: String,
    pub url: String,
    pub method: HttpMethod,
    pub headers: Vec<HeaderSpec>,
    pub body: Option<String>,
    pub interval_sec: u32,
    pub timeout_ms: u32,
    pub expected_status: ExpectedStatus,
    pub assertions: Vec<Assertion>,
    pub max_latency_ms: Option<u32>,
    pub action_url: Option<String>,
    pub notify: bool,
    pub always_alert: bool,
    pub paused: bool,
    pub follow_redirects: bool,
    pub fail_threshold: Option<u32>,
    pub group: Option<String>,
    pub created_at: i64,
    pub updated_at: i64,
}

/// A service with its live state, as the UI lists it.
#[derive(Clone)]
pub struct ServiceView {
    pub service: Service,
    pub state: UiState,
    pub snooze_until: Option<i64>,
    pub keychain_identity_changed: Option<bool>,
    pub last_result: Option<CheckResult>,
    pub last_check_at: Option<i64>,
    pub down_since: Option<i64>,
    pub down_clock_adjust_ms: u64,
    pub consecutive_hard_fails: u32,
    pub sparkline24: Vec<SparklinePoint>,
}

/// The value as shown in logs: masked when it is secret or its header carries credentials.
pub fn redacted_opt<'a>(secret: bool, value: Option<&'a str>, key: &str) -> (r: Option<&'a str>)
    ensures
        match value {
            Some(v) => if secret || denylisted(lower_seq(key@)) {
                r matches Some(m) && m@ == mask_spec()
            } else {
                r == Some(v)
            },
            None => r is None,
        },
{
    proof {
        reveal_strlit("••••••••");
        assert(SECRET_MASK@ =~= mask_spec());
    }
    match value {
        Some(v) => {
            if secret || is_redacted_header(key) {
                Some(SECRET_MASK)
            } else {
                Some(v)
            }
        },
        None => None,
    }
}

/// The value a log line shows for a header: the mask for a secret or a credential header.
pub open spec fn shown_value(secret: bool, value: Option<Seq<char>>, key: Seq<char>) -> Option<Seq<char>> {
    match value {
        Some(v) => if secret || denylisted(lower_seq(key)) {
            Some(mask_spec())
        } else {
            Some(v)
        },
        None => None,
    }
}

fn shown<'a>(secret: bool, value: Option<&'a str>, key: &str) -> (r: Option<&'a str>)
    ensures
        (match r {
            Some(x) => Some(x@),
            None => None,
        }) == shown_value(secret, match value {
            Some(v) => Some(v@),
            None => None,
        }, key@),
{
    redacted_opt(secret, value, key)
}

pub open spec fn header_spec_debug(h: HeaderSpec) -> Seq<char> {
    "HeaderSpec { key: "@ + str_debug_result(h.key@) + ", secret: "@ + bool_text(h.secret) + ", value: "@
        + opt_debug(shown_value(h.secret, opt_view(h.value), h.key@)) + " }"@
}

pub open spec fn header_debug(h: Header) -> Seq<char> {
    "Header { key: "@ + str_debug_result(h.key@) + ", value: "@ + str_debug_result(
        shown_value(h.secret, Some(h.value@), h.key@)->0,
    ) + ", secret: "@ + bool_text(h.secret) + ", has_value: "@ + bool_text(h.has_value) + " }"@
}

pub open spec fn draft_header_debug(h: DraftHeader) -> Seq<char> {
    "DraftHeader { key: "@ + str_debug_result(h.key@) + ", value: "@ + opt_debug(
        shown_value(h.secret, opt_view(h.value), h.key@),
    ) + ", secret: "@ + bool_text(h.secret) + ", clear: "@ + bool_text(h.clear) + " }"@
}

fn opt_str(o: &Option<String>) -> (r: Option<&str>)
    ensures
        (match r {
            Some(x) => Some(x@),
            None => None,
        }) == opt_view(*o),
{
    match o {
        Some(v) => Some(v.as_str()),
        None => None,
    }
}

impl HeaderSpec {
    /// The header as logs show it: the value masked when it is secret or a credential.
    pub fn debug_text(&self) -> (r: String)
        ensures
            r@ == header_spec_debug(*self),
    {
        let mut out: Vec<char> = str_chars("HeaderSpec { key: ");
        extend_str(&mut out, debug_quoted(self.key.as_str()).as_str());
        extend_str(&mut out, ", secret: ");
        extend_bool(&mut out, self.secret);
        extend_str(&mut out, ", value: ");
        extend_opt_debug(&mut out, shown(self.secret, opt_str(&self.value), self.key.as_str()));
        extend_str(&mut out, " }");
        finish(out)
    }
}

impl Header {
    /// The header as logs show it: the value masked when it is secret or a credential.
    pub fn debug_text(&self) -> (r: String)
        ensures
            r@ == header_debug(*self),
    {
        let mut out: Vec<char> = str_chars("Header { key: ");
        extend_str(&mut out, debug_quoted(self.key.as_str()).as_str());
        extend_str(&mut out, ", value: ");
        let v = match shown(self.secret, Some(self.value.as_str()), self.key.as_str()) {
            Some(v) => v,
            None => self.value.as_str(),
        };
        extend_str(&mut out, debug_quoted(v).as_str());
        extend_str(&mut out, ", secret: ");
        extend_bool(&mut out, self.secret);
        extend_str(&mut out, ", has_value: ");
        extend_bool(&mut out, self.has_value);
        extend_str(&mut out, " }");
        finish(out)
    }
}

impl DraftHeader {
    /// The header as logs show it: the value masked when it is secret or a credential.
    pub fn debug_text(&self) -> (r: String)
        ensures
            r@ == draft_header_debug(*self),
    {
        let mut out: Vec<char> = str_chars("DraftHeader { key: ");
        extend_str(&mut out, debug_quoted(self.key.as_str()).as_str());
        extend_str(&mut out, ", value: ");
        extend_opt_debug(&mut out, shown(self.secret, opt_str(&self.value), self.key.as_str()));
        extend_str(&mut out, ", secret: ");
        extend_bool(&mut out, self.secret);
        extend_str(&mut out, ", clear: ");
        extend_bool(&mut out, self.clear);
        extend_str(&mut out, " }");
        finish(out)
    }
}

pub open spec fn opt_view(o: Option<String>) -> Option<Seq<char>> {
    match o {
        Some(s) => Some(s@),
        None => None,
    }
}

/// A header key of 1 to 128 bytes; no value on a secret header; a value of at most 8192 bytes.
pub open spec fn header_check(key: Seq<char>, secret: bool, value: Option<Seq<char>>) -> Result<(), Refusal> {
    if byte_len(key) == 0 || byte_len(key) > MAX_HEADER_KEY_BYTES {
        Err(Refusal::HeaderKey)
    } else if secret && value is Some {
        Err(Refusal::SecretNotSupported(key))
    } else {
        match value {
            Some(v) => if byte_len(v) > MAX_HEADER_VALUE_BYTES {
                Err(Refusal::HeaderValue)
            } else {
                Ok(())
            },
            None => Ok(()),
        }
    }
}

impl HeaderSpec {
    pub open spec fn check_spec(&self) -> Result<(), Refusal> {
        header_check(self.key@, self.secret, opt_view(self.value))
    }

    pub fn validate(&self) -> (r: Result<(), ValidationError>)
        ensures
            outcome_view(r) == self.check_spec(),
    {
        let key = self.key.as_str();
        if key.len() == 0 || key.len() > MAX_HEADER_KEY_BYTES {
            return Err(ValidationError::HeaderKey);
        }
        if self.secret && self.value.is_some() {
            return Err(ValidationError::SecretNotSupported(self.key.clone()));
        }
        match &self.value {
            Some(v) => {
                if v.as_str().len() > MAX_HEADER_VALUE_BYTES {
                    return Err(ValidationError::HeaderValue);
                }
            },
            None => {},
        }
        Ok(())
    }
}

/// An absolute `http(s)` URL with a host, of 1 to 2048 bytes.
pub open spec fn valid_http_url_spec(value: Seq<char>) -> bool {
    byte_len(value) != 0 && byte_len(value) <= MAX_URL_BYTES && match url_parse_result(value) {
        Some(u) => is_web_url(u),
        None => false,
    }
}

pub fn valid_http_url(value: &str) -> (r: bool)
    ensures
        r == valid_http_url_spec(value@),
{
    if value.len() == 0 || value.len() > MAX_URL_BYTES {
        return false;
    }
    match crate::poller::client::parse_check_url(value) {
        Some(_) => true,
        None => false,
    }
}

pub open spec fn redirect_code(code: u16) -> bool {
    300 <= code < 400
}

/// Whether the expected statuses include a 3xx code.
pub open spec fn expected_has_3xx_spec(status: ExpectedStatus) -> bool {
    match status {
        ExpectedStatus::TwoXx => false,
        ExpectedStatus::Code(c) => redirect_code(c),
        ExpectedStatus::Codes(cs) => any_redirect(cs@),
    }
}

pub open spec fn any_redirect(cs: Seq<u16>) -> bool {
    exists|i: int| 0 <= i < cs.len() && redirect_code(#[trigger] cs[i])
}

pub fn expected_has_3xx(status: &ExpectedStatus) -> (r: bool)
    ensures
        r == expected_has_3xx_spec(*status),
        r == status_has_3xx(status_model(*status)),
{
    match status {
        ExpectedStatus::TwoXx => false,
        ExpectedStatus::Code(c) => 300 <= *c && *c < 400,
        ExpectedStatus::Codes(cs) => {
            let mut i: usize = 0;
            while i < cs.len()
                invariant
                    i <= cs.len(),
                    *status == ExpectedStatus::Codes(*cs),
                    forall|j: int| 0 <= j < i ==> !redirect_code(#[trigger] cs@[j]),
                decreases cs.len() - i,
            {
                if 300 <= cs[i] && cs[i] < 400 {
                    assert(redirect_code(cs@[i as int]));
                    assert(any_redirect(cs@));
                    return true;
                }
                i = i + 1;
            }
            false
        },
    }
}

pub type HeaderModel = (Seq<char>, bool, Option<Seq<char>>);

pub type AssertionModel = (Seq<char>, crate::domain::assertion::AssertOp, Option<crate::domain::json::Json>);

/// The first refusal among `headers`, in order.
pub open spec fn headers_check(headers: Seq<HeaderModel>) -> Result<(), Refusal>
    decreases headers.len(),
{
    if headers.len() == 0 {
        Ok(())
    } else {
        match headers_check(headers.drop_last()) {
            Err(e) => Err(e),
            Ok(()) => header_check(headers.last().0, headers.last().1, headers.last().2),
        }
    }
}

/// The first refusal among `assertions`, in order.
pub open spec fn assertions_check(assertions: Seq<AssertionModel>) -> Result<(), Refusal>
    decreases assertions.len(),
{
    if assertions.len() == 0 {
        Ok(())
    } else {
        match assertions_check(assertions.drop_last()) {
            Err(e) => Err(e),
            Ok(()) => crate::domain::assertion::assertion_check(
                assertions.last().0,
                assertions.last().2,
            ),
        }
    }
}

proof fn lemma_headers_prefix(h: Seq<HeaderModel>, n: int)
    requires
        0 <= n <= h.len(),
        headers_check(h.take(n)) is Err,
    ensures
        headers_check(h) == headers_check(h.take(n)),
    decreases h.len(),
{
    if n == h.len() {
        assert(h.take(n) =~= h);
    } else {
        assert(h.drop_last().take(n) =~= h.take(n));
        lemma_headers_prefix(h.drop_last(), n);
    }
}

proof fn lemma_assertions_prefix(a: Seq<AssertionModel>, n: int)
    requires
        0 <= n <= a.len(),
        assertions_check(a.take(n)) is Err,
    ensures
        assertions_check(a) == assertions_check(a.take(n)),
    decreases a.len(),
{
    if n == a.len() {
        assert(a.take(n) =~= a);
    } else {
        assert(a.drop_last().take(n) =~= a.take(n));
        lemma_assertions_prefix(a.drop_last(), n);
    }
}

fn validate_headers(headers: &Vec<HeaderSpec>) -> (r: Result<(), ValidationError>)
    ensures
        outcome_view(r) == headers_check(headers_model(headers@)),
{
    let ghost m = headers_model(headers@);
    let mut i: usize = 0;
    while i < headers.len()
        invariant
            i <= headers.len(),
            m == headers_model(headers@),
            headers_check(m.take(i as int)) is Ok,
        decreases headers.len() - i,
    {
        let r = headers[i].validate();
        proof {
            assert(m.take(i + 1).drop_last() =~= m.take(i as int));
            assert(m.take(i + 1).last() == header_model(headers@[i as int]));
        }
        match r {
            Err(e) => {
                proof {
                    lemma_headers_prefix(m, i + 1);
                }
                return Err(e);
            },
            Ok(()) => {},
        }
        i = i + 1;
    }
    proof {
        assert(m.take(i as int) =~= m);
    }
    Ok(())
}

fn validate_assertions(assertions: &Vec<Assertion>) -> (r: Result<(), ValidationError>)
    ensures
        outcome_view(r) == assertions_check(assertions_model(assertions@)),
{
    let ghost m = assertions_model(assertions@);
    let mut i: usize = 0;
    while i < assertions.len()
        invariant
            i <= assertions.len(),
            m == assertions_model(assertions@),
            assertions_check(m.take(i as int)) is Ok,
        decreases assertions.len() - i,
    {
        let r = assertions[i].validate();
        proof {
            assert(m.take(i + 1).drop_last() =~= m.take(i as int));
            assert(m.take(i + 1).last() == assertion_model(assertions@[i as int]));
        }
        match r {
            Err(e) => {
                proof {
                    lemma_assertions_prefix(m, i + 1);
                }
                return Err(e);
            },
            Ok(()) => {},
        }
        i = i + 1;
    }
    proof {
        assert(m.take(i as int) =~= m);
    }
    Ok(())
}

/// Whether an expected-status model includes a 3xx code.
pub open spec fn status_has_3xx(e: (u8, u16, Seq<u16>)) -> bool {
    if e.0 == 1 {
        redirect_code(e.1)
    } else if e.0 == 2 {
        any_redirect(e.2)
    } else {
        false
    }
}

/// The rules a service must meet, checked in this order; the first broken rule is reported.
pub open spec fn model_check(s: ServiceModel) -> Result<(), Refusal> {
    if byte_len(s.id) == 0 {
        Err(Refusal::Id)
    } else if s.name.len() == 0 || s.name.len() > MAX_NAME_CHARS {
        Err(Refusal::Name)
    } else if !valid_http_url_spec(s.url) {
        Err(Refusal::Url)
    } else if s.interval_sec < MIN_INTERVAL_SEC {
        Err(Refusal::IntervalTooSmall { min: MIN_INTERVAL_SEC, got: s.interval_sec })
    } else if s.interval_sec > MAX_INTERVAL_SEC {
        Err(Refusal::IntervalTooLarge { max: MAX_INTERVAL_SEC, got: s.interval_sec })
    } else if !(500 <= s.timeout_ms <= 60000) {
        Err(Refusal::TimeoutMs { got: s.timeout_ms })
    } else if s.fail_threshold matches Some(t) && !(1 <= t <= 10) {
        Err(Refusal::FailThreshold { got: s.fail_threshold->0 })
    } else if s.max_latency_ms matches Some(m) && !(1 <= m <= 60000) {
        Err(Refusal::MaxLatencyMs { got: s.max_latency_ms->0 })
    } else if s.action_url matches Some(a) && !valid_http_url_spec(a) {
        Err(Refusal::ActionUrl)
    } else if s.body is Some && s.method != HttpMethod::Post {
        Err(Refusal::BodyNotAllowed)
    } else if s.body matches Some(b) && byte_len(b) > MAX_BODY_BYTES {
        Err(Refusal::BodyTooLarge)
    } else if s.expected_status.0 == 2 && s.expected_status.2.len() == 0 {
        Err(Refusal::ExpectedStatusEmpty)
    } else if s.follow_redirects && status_has_3xx(s.expected_status) {
        Err(Refusal::ExpectedRedirectStatus)
    } else if s.headers.len() > MAX_HEADERS {
        Err(Refusal::TooManyHeaders)
    } else if headers_check(s.headers) is Err {
        headers_check(s.headers)
    } else if s.assertions.len() > MAX_ASSERTIONS {
        Err(Refusal::TooManyAssertions)
    } else if assertions_check(s.assertions) is Err {
        assertions_check(s.assertions)
    } else if s.group matches Some(g) && g.len() > MAX_GROUP_CHARS {
        Err(Refusal::Group)
    } else {
        Ok(())
    }
}

pub open spec fn service_check(s: Service) -> Result<(), Refusal> {
    model_check(service_model(s))
}

/// The refusal of the first invalid service in the list, or the first id seen twice.
pub open spec fn list_check(services: Seq<Service>) -> Result<(), Refusal>
    decreases services.len(),
{
    if services.len() == 0 {
        Ok(())
    } else {
        let prefix = services.drop_last();
        let last = services.last();
        match list_check(prefix) {
            Err(e) => Err(e),
            Ok(()) => match service_check(last) {
                Err(e) => Err(e),
                Ok(()) => if exists|i: int| 0 <= i < prefix.len() && (#[trigger] prefix[i]).id@ == last.id@ {
                    Err(Refusal::DuplicateId(last.id@))
                } else {
                    Ok(())
                },
            },
        }
    }
}

pub open spec fn services_check(services: Seq<Service>) -> Result<(), Refusal> {
    if services.len() > MAX_SERVICES {
        Err(Refusal::TooManyServices)
    } else {
        list_check(services)
    }
}

proof fn lemma_list_prefix(s: Seq<Service>, n: int)
    requires
        0 <= n <= s.len(),
        list_check(s.take(n)) is Err,
    ensures
        list_check(s) == list_check(s.take(n)),
    decreases s.len(),
{
    if n == s.len() {
        assert(s.take(n) =~= s);
    } else {
        assert(s.drop_last().take(n) =~= s.take(n));
        lemma_list_prefix(s.drop_last(), n);
    }
}

impl Service {
    pub fn validate(&self) -> (r: Result<(), ValidationError>)
        ensures
            outcome_view(r) == service_check(*self),
    {
        if self.id.as_str().len() == 0 {
            return Err(ValidationError::Id);
        }
        let name_len = str_chars(self.name.as_str()).len();
        if name_len == 0 || name_len > MAX_NAME_CHARS {
            return Err(ValidationError::Name);
        }
        if !valid_http_url(self.url.as_str()) {
            return Err(ValidationError::Url);
        }
        if self.interval_sec < MIN_INTERVAL_SEC {
            return Err(ValidationError::IntervalTooSmall { min: MIN_INTERVAL_SEC, got: self.interval_sec });
        }
        if self.interval_sec > MAX_INTERVAL_SEC {
            return Err(ValidationError::IntervalTooLarge { max: MAX_INTERVAL_SEC, got: self.interval_sec });
        }
        if !(500 <= self.timeout_ms && self.timeout_ms <= 60000) {
            return Err(ValidationError::TimeoutMs { got: self.timeout_ms });
        }
        if let Some(threshold) = self.fail_threshold {
            if !(1 <= threshold && threshold <= 10) {
                return Err(ValidationError::FailThreshold { got: threshold });
            }
        }
        if let Some(max_latency_ms) = self.max_latency_ms {
            if !(1 <= max_latency_ms && max_latency_ms <= 60000) {
                return Err(ValidationError::MaxLatencyMs { got: max_latency_ms });
            }
        }
        if let Some(action_url) = &self.action_url {
            if !valid_http_url(action_url.as_str()) {
                return Err(ValidationError::ActionUrl);
            }
        }
        if self.body.is_some() && self.method != HttpMethod::Post {
            return Err(ValidationError::BodyNotAllowed);
        }
        if let Some(body) = &self.body {
            if body.as_str().len() > MAX_BODY_BYTES {
                return Err(ValidationError::BodyTooLarge);
            }
        }
        if let ExpectedStatus::Codes(codes) = &self.expected_status {
            if codes.len() == 0 {
                return Err(ValidationError::ExpectedStatusEmpty);
            }
        }
        if self.follow_redirects && expected_has_3xx(&self.expected_status) {
            return Err(ValidationError::ExpectedRedirectStatus);
        }
        if self.headers.len() > MAX_HEADERS {
            return Err(ValidationError::TooManyHeaders);
        }
        match validate_headers(&self.headers) {
            Err(e) => {
                return Err(e);
            },
            Ok(()) => {},
        }
        if self.assertions.len() > MAX_ASSERTIONS {
            return Err(ValidationError::TooManyAssertions);
        }
        match validate_assertions(&self.assertions) {
            Err(e) => {
                return Err(e);
            },
            Ok(()) => {},
        }
        if let Some(group) = &self.group {
            if str_chars(group.as_str()).len() > MAX_GROUP_CHARS {
                return Err(ValidationError::Group);
            }
        }
        Ok(())
    }

    /// Validate every service and refuse an id used twice.
    pub fn validate_list(services: &[Service]) -> (r: Result<(), ValidationError>)
        ensures
            outcome_view(r) == services_check(services@),
    {
        if services.len() > MAX_SERVICES {
            return Err(ValidationError::TooManyServices);
        }
        let mut i: usize = 0;
        while i < services.len()
            invariant
                i <= services.len(),
                services@.len() <= MAX_SERVICES,
                list_check(services@.take(i as int)) is Ok,
            decreases services.len() - i,
        {
            let ghost prefix = services@.take(i as int);
            proof {
                assert(services@.take(i + 1).drop_last() =~= prefix);
                assert(services@.take(i + 1).last() == services@[i as int]);
            }
            let checked = services[i].validate();
            match checked {
                Err(e) => {
                    proof {
                        assert(service_check(services@[i as int]) == Err::<(), Refusal>(crate::domain::error::refusal(e)));
                        assert(list_check(services@.take(i + 1)) == Err::<(), Refusal>(crate::domain::error::refusal(e)));
                        lemma_list_prefix(services@, i + 1);
                    }
                    return Err(e);
                },
                Ok(()) => {},
            }
            let mut j: usize = 0;
            while j < i
                invariant
                    j <= i,
                    i < services.len(),
                    services@.len() <= MAX_SERVICES,
                    prefix == services@.take(i as int),
                    list_check(prefix) is Ok,
                    service_check(services@[i as int]) is Ok,
                    services@.take(i + 1).drop_last() == prefix,
                    services@.take(i + 1).last() == services@[i as int],
                    forall|k: int| 0 <= k < j ==> (#[trigger] prefix[k]).id@ != services@[i as int].id@,
                decreases i - j,
            {
                if str_eq(services[j].id.as_str(), services[i].id.as_str()) {
                    proof {
                        assert(prefix[j as int].id@ == services@[i as int].id@);
                        assert(list_check(services@.take(i + 1)) is Err);
                        lemma_list_prefix(services@, i + 1);
                    }
                    return Err(ValidationError::DuplicateId(services[i].id.clone()));
                }
                j = j + 1;
            }
            i = i + 1;
        }
        proof {
            assert(services@.take(i as int) =~= services@);
        }
        Ok(())
    }
}


/// Model of a header specification.
pub open spec fn header_model(h: HeaderSpec) -> (Seq<char>, bool, Option<Seq<char>>) {
    (h.key@, h.secret, opt_view(h.value))
}

pub open spec fn headers_model(hs: Seq<HeaderSpec>) -> Seq<(Seq<char>, bool, Option<Seq<char>>)> {
    hs.map_values(|h: HeaderSpec| header_model(h))
}

/// Model of an expected status: the form (0 = 2xx, 1 = one code, 2 = a list) with its codes.
pub open spec fn status_model(e: ExpectedStatus) -> (u8, u16, Seq<u16>) {
    match e {
        ExpectedStatus::TwoXx => (0u8, 0u16, Seq::empty()),
        ExpectedStatus::Code(c) => (1u8, c, Seq::empty()),
        ExpectedStatus::Codes(cs) => (2u8, 0u16, cs@),
    }
}

/// Model of an assertion.
pub open spec fn assertion_model(a: Assertion) -> (Seq<char>, crate::domain::assertion::AssertOp, Option<crate::domain::json::Json>) {
    (a.path@, a.op, crate::domain::assertion::opt_json(a.value))
}

pub open spec fn assertions_model(a: Seq<Assertion>) -> Seq<(Seq<char>, crate::domain::assertion::AssertOp, Option<crate::domain::json::Json>)> {
    a.map_values(|x: Assertion| assertion_model(x))
}

/// What a service is, field by field, with text taken by its characters.
pub struct ServiceModel {
    pub id: Seq<char>,
    pub name: Seq<char>,
    pub url: Seq<char>,
    pub method: HttpMethod,
    pub headers: Seq<(Seq<char>, bool, Option<Seq<char>>)>,
    pub body: Option<Seq<char>>,
    pub interval_sec: u32,
    pub timeout_ms: u32,
    pub expected_status: (u8, u16, Seq<u16>),
    pub assertions: Seq<(Seq<char>, crate::domain::assertion::AssertOp, Option<crate::domain::json::Json>)>,
    pub max_latency_ms: Option<u32>,
    pub action_url: Option<Seq<char>>,
    pub notify: bool,
    pub always_alert: bool,
    pub paused: bool,
    pub follow_redirects: bool,
    pub fail_threshold: Option<u32>,
    pub group: Option<Seq<char>>,
    pub created_at: i64,
    pub updated_at: i64,
}

pub open spec fn service_model(s: Service) -> ServiceModel {
    ServiceModel {
        id: s.id@,
        name: s.name@,
        url: s.url@,
        method: s.method,
        headers: headers_model(s.headers@),
        body: opt_view(s.body),
        interval_sec: s.interval_sec,
        timeout_ms: s.timeout_ms,
        expected_status: status_model(s.expected_status),
        assertions: assertions_model(s.assertions@),
        max_latency_ms: s.max_latency_ms,
        action_url: opt_view(s.action_url),
        notify: s.notify,
        always_alert: s.always_alert,
        paused: s.paused,
        follow_redirects: s.follow_redirects,
        fail_threshold: s.fail_threshold,
        group: opt_view(s.group),
        created_at: s.created_at,
        updated_at: s.updated_at,
    }
}

/// A copy of `o`.
pub fn copy_opt(o: &Option<String>) -> (r: Option<String>)
    ensures
        opt_view(r) == opt_view(*o),
{
    match o {
        Some(s) => Some(crate::text::owned(s.as_str())),
        None => None,
    }
}

pub fn copy_status(e: &ExpectedStatus) -> (r: ExpectedStatus)
    ensures
        status_model(r) == status_model(*e),
{
    match e {
        ExpectedStatus::TwoXx => ExpectedStatus::TwoXx,
        ExpectedStatus::Code(c) => ExpectedStatus::Code(*c),
        ExpectedStatus::Codes(cs) => {
            let mut out: Vec<u16> = Vec::new();
            let mut i: usize = 0;
            while i < cs.len()
                invariant
                    i <= cs.len(),
                    out@ == cs@.take(i as int),
                decreases cs.len() - i,
            {
                out.push(cs[i]);
                i = i + 1;
                assert(out@ =~= cs@.take(i as int));
            }
            assert(cs@.take(i as int) =~= cs@);
            ExpectedStatus::Codes(out)
        },
    }
}

pub fn copy_assertions(a: &Vec<Assertion>) -> (r: Vec<Assertion>)
    ensures
        assertions_model(r@) == assertions_model(a@),
{
    let mut out: Vec<Assertion> = Vec::new();
    let mut i: usize = 0;
    while i < a.len()
        invariant
            i <= a.len(),
            assertions_model(out@) == assertions_model(a@.take(i as int)),
        decreases a.len() - i,
    {
        let x = &a[i];
        let value = match &x.value {
            Some(v) => Some(crate::domain::json::json_clone(v)),
            None => None,
        };
        let ghost before = out@;
        out.push(Assertion { path: crate::text::owned(x.path.as_str()), op: x.op, value });
        i = i + 1;
        proof {
            assert(assertions_model(out@) =~= assertions_model(before).push(assertion_model(a@[i - 1])));
            assert(assertions_model(a@.take(i as int)) =~= assertions_model(a@.take(i - 1)).push(assertion_model(a@[i - 1])));
        }
    }
    proof {
        assert(a@.take(i as int) =~= a@);
    }
    out
}


pub fn copy_headers(h: &Vec<HeaderSpec>) -> (r: Vec<HeaderSpec>)
    ensures
        headers_model(r@) == headers_model(h@),
{
    let mut out: Vec<HeaderSpec> = Vec::new();
    let mut i: usize = 0;
    while i < h.len()
        invariant
            i <= h.len(),
            headers_model(out@) == headers_model(h@.take(i as int)),
        decreases h.len() - i,
    {
        let ghost before = out@;
        out.push(HeaderSpec { key: crate::text::owned(h[i].key.as_str()), secret: h[i].secret, value: copy_opt(&h[i].value) });
        proof {
            assert(headers_model(out@) =~= headers_model(before).push(header_model(h@[i as int])));
            assert(headers_model(h@.take(i + 1)) =~= headers_model(h@.take(i as int)).push(header_model(h@[i as int])));
        }
        i = i + 1;
    }
    proof {
        assert(h@.take(i as int) =~= h@);
    }
    out
}

/// A copy of `s`.
pub fn copy_service(s: &Service) -> (r: Service)
    ensures
        service_model(r) == service_model(*s),
{
    Service {
        id: crate::text::owned(s.id.as_str()),
        name: crate::text::owned(s.name.as_str()),
        url: crate::text::owned(s.url.as_str()),
        method: s.method,
        headers: copy_headers(&s.headers),
        body: copy_opt(&s.body),
        interval_sec: s.interval_sec,
        timeout_ms: s.timeout_ms,
        expected_status: copy_status(&s.expected_status),
        assertions: copy_assertions(&s.assertions),
        max_latency_ms: s.max_latency_ms,
        action_url: copy_opt(&s.action_url),
        notify: s.notify,
        always_alert: s.always_alert,
        paused: s.paused,
        follow_redirects: s.follow_redirects,
        fail_threshold: s.fail_threshold,
        group: copy_opt(&s.group),
        created_at: s.created_at,
        updated_at: s.updated_at,
    }
}

pub open spec fn services_model(s: Seq<Service>) -> Seq<ServiceModel> {
    s.map_values(|x: Service| service_model(x))
}

/// `list_check` over the models of the services.
pub open spec fn models_list_check(ms: Seq<ServiceModel>) -> Result<(), Refusal>
    decreases ms.len(),
{
    if ms.len() == 0 {
        Ok(())
    } else {
        let prefix = ms.drop_last();
        let last = ms.last();
        match models_list_check(prefix) {
            Err(e) => Err(e),
            Ok(()) => match model_check(last) {
                Err(e) => Err(e),
                Ok(()) => if exists|i: int| 0 <= i < prefix.len() && (#[trigger] prefix[i]).id == last.id {
                    Err(Refusal::DuplicateId(last.id))
                } else {
                    Ok(())
                },
            },
        }
    }
}

/// `services_check` over the models of the services.
pub open spec fn models_check(ms: Seq<ServiceModel>) -> Result<(), Refusal> {
    if ms.len() > MAX_SERVICES {
        Err(Refusal::TooManyServices)
    } else {
        models_list_check(ms)
    }
}

/// A list of services passes or fails its check exactly as its models do.
pub proof fn lemma_services_check_models(s: Seq<Service>)
    ensures
        services_check(s) == models_check(services_model(s)),
    decreases s.len(),
{
    lemma_list_check_models(s);
}

proof fn lemma_list_check_models(s: Seq<Service>)
    ensures
        list_check(s) == models_list_check(services_model(s)),
    decreases s.len(),
{
    if s.len() > 0 {
        let m = services_model(s);
        let prefix = s.drop_last();
        assert(m.drop_last() =~= services_model(prefix));
        lemma_list_check_models(prefix);
        let last = s.last();
        assert(m.last() == service_model(last));
        let mp = m.drop_last();
        if exists|i: int| 0 <= i < prefix.len() && (#[trigger] prefix[i]).id@ == last.id@ {
            let i = choose|i: int| 0 <= i < prefix.len() && (#[trigger] prefix[i]).id@ == last.id@;
            assert(mp[i].id == m.last().id);
        }
        if exists|i: int| 0 <= i < mp.len() && (#[trigger] mp[i]).id == m.last().id {
            let i = choose|i: int| 0 <= i < mp.len() && (#[trigger] mp[i]).id == m.last().id;
            assert(prefix[i].id@ == last.id@);
        }
    }
}

proof fn lemma_headers_check_each(hs: Seq<HeaderModel>, i: int)
    requires
        headers_check(hs) is Ok,
        0 <= i < hs.len(),
    ensures
        header_check(hs[i].0, hs[i].1, hs[i].2) is Ok,
    decreases hs.len(),
{
    if i < hs.len() - 1 {
        assert(hs.drop_last()[i] == hs[i]);
        lemma_headers_check_each(hs.drop_last(), i);
    }
}

/// A service that passes its check holds no secret value: its secret headers have none.
pub proof fn lemma_valid_service_holds_no_secret_value(s: ServiceModel)
    requires
        model_check(s) is Ok,
    ensures
        forall|i: int| 0 <= i < s.headers.len() && (#[trigger] s.headers[i]).1 ==> s.headers[i].2 is None,
{
    assert forall|i: int| 0 <= i < s.headers.len() && (#[trigger] s.headers[i]).1 implies s.headers[i].2 is None by {
        lemma_headers_check_each(s.headers, i);
    }
}

} // verus!
