//! Error taxonomy and config validation errors.
use vstd::prelude::*;

use crate::text::{decimal, decimal_chars, extend_chars, extend_str, finish, owned};

verus! {

#[derive(Debug, Clone, Copy, PartialEq, Eq, Structural)]
pub enum ErrorKind {
    Timeout,
    Dns,
    TlsUntrusted,
    TlsExpired,
    TlsHostname,
    TlsOther,
    Refused,
    Reset,
    Unreachable,
    TooManyRedirects,
    RedirectDowngrade,
    UnexpectedStatus,
    BodyParse,
    Assertion,
    Slow,
    Canceled,
    Offline,
    InvalidUrl,
    MissingSecret,
}

/// Why a service, header, assertion or setting is refused.
#[derive(Debug, Clone, PartialEq, Eq)]
pub enum ValidationError {
    IntervalTooSmall { min: u32, got: u32 },
    IntervalTooLarge { max: u32, got: u32 },
    TimeoutMs { got: u32 },
    FailThreshold { got: u32 },
    MaxLatencyMs { got: u32 },
    Id,
    DuplicateId(String),
    TooManyServices,
    Name,
    Url,
    ActionUrl,
    BodyNotAllowed,
    BodyTooLarge,
    ExpectedRedirectStatus,
    ExpectedStatusEmpty,
    SecretNotSupported(String),
    DuplicateHeader(String),
    HeaderKey,
    HeaderValue,
    TooManyHeaders,
    TooManyAssertions,
    AssertionPath,
    AssertionValue,
    Group,
    QuietHours,
    Hotkey,
}

/// Model of a validation error, with names taken by their characters.
pub enum Refusal {
    IntervalTooSmall { min: u32, got: u32 },
    IntervalTooLarge { max: u32, got: u32 },
    TimeoutMs { got: u32 },
    FailThreshold { got: u32 },
    MaxLatencyMs { got: u32 },
    Id,
    DuplicateId(Seq<char>),
    TooManyServices,
    Name,
    Url,
    ActionUrl,
    BodyNotAllowed,
    BodyTooLarge,
    ExpectedRedirectStatus,
    ExpectedStatusEmpty,
    SecretNotSupported(Seq<char>),
    DuplicateHeader(Seq<char>),
    HeaderKey,
    HeaderValue,
    TooManyHeaders,
    TooManyAssertions,
    AssertionPath,
    AssertionValue,
    Group,
    QuietHours,
    Hotkey,
}

pub open spec fn refusal(e: ValidationError) -> Refusal {
    match e {
        ValidationError::IntervalTooSmall { min, got } => Refusal::IntervalTooSmall { min, got },
        ValidationError::IntervalTooLarge { max, got } => Refusal::IntervalTooLarge { max, got },
        ValidationError::TimeoutMs { got } => Refusal::TimeoutMs { got },
        ValidationError::FailThreshold { got } => Refusal::FailThreshold { got },
        ValidationError::MaxLatencyMs { got } => Refusal::MaxLatencyMs { got },
        ValidationError::Id => Refusal::Id,
        ValidationError::DuplicateId(id) => Refusal::DuplicateId(id@),
        ValidationError::TooManyServices => Refusal::TooManyServices,
        ValidationError::Name => Refusal::Name,
        ValidationError::Url => Refusal::Url,
        ValidationError::ActionUrl => Refusal::ActionUrl,
        ValidationError::BodyNotAllowed => Refusal::BodyNotAllowed,
        ValidationError::BodyTooLarge => Refusal::BodyTooLarge,
        ValidationError::ExpectedRedirectStatus => Refusal::ExpectedRedirectStatus,
        ValidationError::ExpectedStatusEmpty => Refusal::ExpectedStatusEmpty,
        ValidationError::SecretNotSupported(k) => Refusal::SecretNotSupported(k@),
        ValidationError::DuplicateHeader(k) => Refusal::DuplicateHeader(k@),
        ValidationError::HeaderKey => Refusal::HeaderKey,
        ValidationError::HeaderValue => Refusal::HeaderValue,
        ValidationError::TooManyHeaders => Refusal::TooManyHeaders,
        ValidationError::TooManyAssertions => Refusal::TooManyAssertions,
        ValidationError::AssertionPath => Refusal::AssertionPath,
        ValidationError::AssertionValue => Refusal::AssertionValue,
        ValidationError::Group => Refusal::Group,
        ValidationError::QuietHours => Refusal::QuietHours,
        ValidationError::Hotkey => Refusal::Hotkey,
    }
}

/// The model of a validation outcome.
pub open spec fn outcome_view(r: Result<(), ValidationError>) -> Result<(), Refusal> {
    match r {
        Ok(()) => Ok(()),
        Err(e) => Err(refusal(e)),
    }
}

/// The text of a validation error.
pub open spec fn validation_message(e: ValidationError) -> Seq<char> {
    match e {
        ValidationError::IntervalTooSmall { min, got } => "intervalSec must be an integer >= "@ + decimal(min as nat) + " (got "@ + decimal(got as nat) + ")"@,
        ValidationError::IntervalTooLarge { max, got } => "intervalSec must be <= "@ + decimal(max as nat) + " (got "@ + decimal(got as nat) + ")"@,
        ValidationError::TimeoutMs { got } => "timeoutMs must be between 500 and 60000 (got "@ + decimal(got as nat) + ")"@,
        ValidationError::FailThreshold { got } => "failThreshold must be between 1 and 10 (got "@ + decimal(got as nat) + ")"@,
        ValidationError::MaxLatencyMs { got } => "maxLatencyMs must be between 1 and 60000 (got "@ + decimal(got as nat) + ")"@,
        ValidationError::Id => "id must not be empty"@,
        ValidationError::DuplicateId(id) => "duplicate service id `"@ + id@ + "`"@,
        ValidationError::TooManyServices => "too many services (max 100)"@,
        ValidationError::Name => "name must be 1\u{2013}80 characters"@,
        ValidationError::Url => "url must be http(s) with a host and at most 2048 characters"@,
        ValidationError::ActionUrl => "actionUrl must be http(s) with a host and at most 2048 characters"@,
        ValidationError::BodyNotAllowed => "body is only allowed on POST"@,
        ValidationError::BodyTooLarge => "body must be at most 65536 bytes"@,
        ValidationError::ExpectedRedirectStatus => "numeric 3xx expectedStatus requires followRedirects: false"@,
        ValidationError::ExpectedStatusEmpty => "expectedStatus list must not be empty"@,
        ValidationError::SecretNotSupported(k) => "secret header `"@ + k@ + "` cannot be stored in this build"@,
        ValidationError::DuplicateHeader(k) => "duplicate header `"@ + k@ + "`"@,
        ValidationError::HeaderKey => "header key must be 1\u{2013}128 characters"@,
        ValidationError::HeaderValue => "header value must be at most 8192 characters"@,
        ValidationError::TooManyHeaders => "too many headers (max 32)"@,
        ValidationError::TooManyAssertions => "too many assertions (max 16)"@,
        ValidationError::AssertionPath => "assertion path must be 1\u{2013}256 characters"@,
        ValidationError::AssertionValue => "assertion value exceeds 1024 bytes"@,
        ValidationError::Group => "group must be at most 40 characters"@,
        ValidationError::QuietHours => "invalid quiet hours"@,
        ValidationError::Hotkey => "hotkey must be at most 64 characters"@,
    }
}

fn number_text(prefix: &str, n: u32, suffix: &str) -> (r: String)
    ensures
        r@ == prefix@ + decimal(n as nat) + suffix@,
{
    let mut out: Vec<char> = Vec::new();
    extend_str(&mut out, prefix);
    let digits = decimal_chars(n as u64);
    extend_chars(&mut out, &digits);
    extend_str(&mut out, suffix);
    finish(out)
}

fn two_numbers(a: &str, x: u32, b: &str, y: u32, c: &str) -> (r: String)
    ensures
        r@ == a@ + decimal(x as nat) + b@ + decimal(y as nat) + c@,
{
    let mut out: Vec<char> = Vec::new();
    extend_str(&mut out, a);
    let dx = decimal_chars(x as u64);
    extend_chars(&mut out, &dx);
    extend_str(&mut out, b);
    let dy = decimal_chars(y as u64);
    extend_chars(&mut out, &dy);
    extend_str(&mut out, c);
    finish(out)
}

fn quoted(a: &str, k: &str, b: &str) -> (r: String)
    ensures
        r@ == a@ + k@ + b@,
{
    let mut out: Vec<char> = Vec::new();
    extend_str(&mut out, a);
    extend_str(&mut out, k);
    extend_str(&mut out, b);
    finish(out)
}

impl ValidationError {
    /// The message shown for this error.
    pub fn message(&self) -> (r: String)
        ensures
            r@ == validation_message(*self),
    {
        match self {
            ValidationError::IntervalTooSmall { min, got } => two_numbers("intervalSec must be an integer >= ", *min, " (got ", *got, ")"),
            ValidationError::IntervalTooLarge { max, got } => two_numbers("intervalSec must be <= ", *max, " (got ", *got, ")"),
            ValidationError::TimeoutMs { got } => number_text("timeoutMs must be between 500 and 60000 (got ", *got, ")"),
            ValidationError::FailThreshold { got } => number_text("failThreshold must be between 1 and 10 (got ", *got, ")"),
            ValidationError::MaxLatencyMs { got } => number_text("maxLatencyMs must be between 1 and 60000 (got ", *got, ")"),
            ValidationError::Id => owned("id must not be empty"),
            ValidationError::DuplicateId(id) => quoted("duplicate service id `", id.as_str(), "`"),
            ValidationError::TooManyServices => owned("too many services (max 100)"),
            ValidationError::Name => owned("name must be 1\u{2013}80 characters"),
            ValidationError::Url => owned("url must be http(s) with a host and at most 2048 characters"),
            ValidationError::ActionUrl => owned("actionUrl must be http(s) with a host and at most 2048 characters"),
            ValidationError::BodyNotAllowed => owned("body is only allowed on POST"),
            ValidationError::BodyTooLarge => owned("body must be at most 65536 bytes"),
            ValidationError::ExpectedRedirectStatus => owned("numeric 3xx expectedStatus requires followRedirects: false"),
            ValidationError::ExpectedStatusEmpty => owned("expectedStatus list must not be empty"),
            ValidationError::SecretNotSupported(k) => quoted("secret header `", k.as_str(), "` cannot be stored in this build"),
            ValidationError::DuplicateHeader(k) => quoted("duplicate header `", k.as_str(), "`"),
            ValidationError::HeaderKey => owned("header key must be 1\u{2013}128 characters"),
            ValidationError::HeaderValue => owned("header value must be at most 8192 characters"),
            ValidationError::TooManyHeaders => owned("too many headers (max 32)"),
            ValidationError::TooManyAssertions => owned("too many assertions (max 16)"),
            ValidationError::AssertionPath => owned("assertion path must be 1\u{2013}256 characters"),
            ValidationError::AssertionValue => owned("assertion value exceeds 1024 bytes"),
            ValidationError::Group => owned("group must be at most 40 characters"),
            ValidationError::QuietHours => owned("invalid quiet hours"),
            ValidationError::Hotkey => owned("hotkey must be at most 64 characters"),
        }
    }
}

/// Values substituted into the user-facing messages.
#[derive(Debug, Clone, Copy)]
pub struct MessageArgs<'a> {
    pub timeout_ms: Option<u32>,
    pub http_status: Option<u16>,
    pub path: Option<&'a str>,
    pub expected: Option<&'a str>,
    pub actual: Option<&'a str>,
    pub latency_ms: Option<u32>,
    pub max_latency_ms: Option<u32>,
    pub secret_key: Option<&'a str>,
}

impl<'a> Default for MessageArgs<'a> {
    fn default() -> (r: Self)
        ensures
            r.timeout_ms is None && r.http_status is None && r.path is None && r.expected is None
                && r.actual is None && r.latency_ms is None && r.max_latency_ms is None
                && r.secret_key is None,
    {
        MessageArgs {
            timeout_ms: None,
            http_status: None,
            path: None,
            expected: None,
            actual: None,
            latency_ms: None,
            max_latency_ms: None,
            secret_key: None,
        }
    }
}

pub open spec fn opt_u32(v: Option<u32>) -> nat {
    match v {
        Some(n) => n as nat,
        None => 0,
    }
}

pub open spec fn opt_text(v: Option<&str>, fallback: Seq<char>) -> Seq<char> {
    match v {
        Some(s) => s@,
        None => fallback,
    }
}

/// Seconds as `f64` displays them: `ms / 1000` with trailing fractional zeros dropped.
pub open spec fn timeout_seconds_text(ms: u32) -> Seq<char> {
    let whole = decimal((ms / 1000) as nat);
    let r = (ms % 1000) as nat;
    let d1 = crate::text::digit_char(r / 100);
    let d2 = crate::text::digit_char((r / 10) % 10);
    let d3 = crate::text::digit_char(r % 10);
    if r == 0 {
        whole
    } else if r % 10 != 0 {
        whole + seq!['.', d1, d2, d3]
    } else if r % 100 != 0 {
        whole + seq!['.', d1, d2]
    } else {
        whole + seq!['.', d1]
    }
}

/// User-facing taxonomy string. Empty for `canceled` (not shown).
pub open spec fn user_message_spec(kind: ErrorKind, args: MessageArgs) -> Seq<char> {
    match kind {
        ErrorKind::Timeout => "Timed out after "@ + timeout_seconds_text(
            match args.timeout_ms {
                Some(n) => n,
                None => 0,
            },
        ) + "s"@,
        ErrorKind::Dns => "Couldn't resolve host"@,
        ErrorKind::TlsUntrusted => "TLS: certificate untrusted"@,
        ErrorKind::TlsExpired => "TLS: certificate expired"@,
        ErrorKind::TlsHostname => "TLS: hostname mismatch"@,
        ErrorKind::TlsOther => "TLS handshake failed"@,
        ErrorKind::Refused => "Connection refused"@,
        ErrorKind::Reset => "Connection reset"@,
        ErrorKind::Unreachable => "Network unreachable"@,
        ErrorKind::TooManyRedirects => "Too many redirects"@,
        ErrorKind::RedirectDowngrade => "Redirect would drop HTTPS"@,
        ErrorKind::UnexpectedStatus => "HTTP "@ + decimal(
            match args.http_status {
                Some(n) => n as nat,
                None => 0,
            },
        ),
        ErrorKind::BodyParse => "Response is not JSON"@,
        ErrorKind::Assertion => opt_text(args.path, Seq::empty()) + " expected "@ + opt_text(
            args.expected,
            "<missing>"@,
        ) + ", got "@ + opt_text(args.actual, "<missing>"@),
        ErrorKind::Slow => decimal(opt_u32(args.latency_ms)) + "ms (limit "@ + decimal(
            opt_u32(args.max_latency_ms),
        ) + "ms)"@,
        ErrorKind::Canceled => Seq::empty(),
        ErrorKind::Offline => "Offline"@,
        ErrorKind::InvalidUrl => "Invalid URL"@,
        ErrorKind::MissingSecret => "Secret header "@ + opt_text(args.secret_key, Seq::empty())
            + " is not set"@,
    }
}

/// `timeout_ms / 1000` in seconds, as `f64` would print it.
pub fn format_timeout_s(timeout_ms: u32) -> (r: String)
    ensures
        r@ == timeout_seconds_text(timeout_ms),
{
    let mut out = decimal_chars((timeout_ms / 1000) as u64);
    let rem = timeout_ms % 1000;
    if rem != 0 {
        out.push('.');
        out.push(digit((rem / 100) as u64));
        if rem % 100 != 0 {
            out.push(digit(((rem / 10) % 10) as u64));
            if rem % 10 != 0 {
                out.push(digit((rem % 10) as u64));
            }
        }
    }
    finish(out)
}

fn digit(d: u64) -> (c: char)
    requires
        d < 10,
    ensures
        c == crate::text::digit_char(d as nat),
{
    let v = decimal_chars(d);
    assert(v@ == seq![crate::text::digit_char(d as nat)]);
    v[0]
}

fn push_opt(out: &mut Vec<char>, v: Option<&str>, fallback: &str)
    ensures
        final(out)@ == old(out)@ + opt_text(v, fallback@),
{
    match v {
        Some(s) => extend_str(out, s),
        None => extend_str(out, fallback),
    }
}

impl ErrorKind {
    /// User-facing taxonomy string. Empty for `canceled` (not shown).
    pub fn user_message(self, args: &MessageArgs<'_>) -> (r: String)
        ensures
            r@ == user_message_spec(self, *args),
    {
        match self {
            ErrorKind::Timeout => {
                let ms = match args.timeout_ms {
                    Some(n) => n,
                    None => 0,
                };
                let mut out: Vec<char> = Vec::new();
                extend_str(&mut out, "Timed out after ");
                extend_str(&mut out, format_timeout_s(ms).as_str());
                extend_str(&mut out, "s");
                assert(out@ =~= user_message_spec(self, *args));
                finish(out)
            },
            ErrorKind::Dns => owned("Couldn't resolve host"),
            ErrorKind::TlsUntrusted => owned("TLS: certificate untrusted"),
            ErrorKind::TlsExpired => owned("TLS: certificate expired"),
            ErrorKind::TlsHostname => owned("TLS: hostname mismatch"),
            ErrorKind::TlsOther => owned("TLS handshake failed"),
            ErrorKind::Refused => owned("Connection refused"),
            ErrorKind::Reset => owned("Connection reset"),
            ErrorKind::Unreachable => owned("Network unreachable"),
            ErrorKind::TooManyRedirects => owned("Too many redirects"),
            ErrorKind::RedirectDowngrade => owned("Redirect would drop HTTPS"),
            ErrorKind::UnexpectedStatus => {
                let code: u16 = match args.http_status {
                    Some(n) => n,
                    None => 0,
                };
                let mut out: Vec<char> = Vec::new();
                extend_str(&mut out, "HTTP ");
                let digits = decimal_chars(code as u64);
                extend_chars(&mut out, &digits);
                assert(out@ =~= user_message_spec(self, *args));
                finish(out)
            },
            ErrorKind::BodyParse => owned("Response is not JSON"),
            ErrorKind::Assertion => {
                let mut out: Vec<char> = Vec::new();
                proof {
                    reveal_strlit("");
                }
                push_opt(&mut out, args.path, "");
                extend_str(&mut out, " expected ");
                push_opt(&mut out, args.expected, "<missing>");
                extend_str(&mut out, ", got ");
                push_opt(&mut out, args.actual, "<missing>");
                assert(out@ =~= user_message_spec(self, *args));
                finish(out)
            },
            ErrorKind::Slow => {
                let latency: u32 = match args.latency_ms {
                    Some(n) => n,
                    None => 0,
                };
                let max: u32 = match args.max_latency_ms {
                    Some(n) => n,
                    None => 0,
                };
                let mut out = decimal_chars(latency as u64);
                extend_str(&mut out, "ms (limit ");
                let digits = decimal_chars(max as u64);
                extend_chars(&mut out, &digits);
                extend_str(&mut out, "ms)");
                assert(out@ =~= user_message_spec(self, *args));
                finish(out)
            },
            ErrorKind::Canceled => {
                let r = String::new();
                assert(r@ =~= user_message_spec(self, *args));
                r
            },
            ErrorKind::Offline => owned("Offline"),
            ErrorKind::InvalidUrl => owned("Invalid URL"),
            ErrorKind::MissingSecret => {
                let mut out: Vec<char> = Vec::new();
                extend_str(&mut out, "Secret header ");
                proof {
                    reveal_strlit("");
                }
                push_opt(&mut out, args.secret_key, "");
                extend_str(&mut out, " is not set");
                assert(out@ =~= user_message_spec(self, *args));
                finish(out)
            },
        }
    }
}

} // verus!
