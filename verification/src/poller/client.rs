//! Request planning for one check: URL handling, redirect hops, header credentials and the
//! mapping of transport failures to error kinds. The network calls themselves are made by the
//! application around these decisions.
use vstd::prelude::*;

use crate::domain::error::ErrorKind;
use crate::text::{ascii_lowercase, contains_spec, eq_ignore_ascii_case, eq_ignore_case_spec, lower_seq, str_contains, str_eq};

verus! {

pub const MAX_BODY_BYTES: usize = 65536;
pub const BODY_PREVIEW_BYTES: usize = 2048;
pub const MAX_REDIRECTS: u8 = 3;

#[verifier::external_type_specification]
#[verifier::external_body]
pub struct ExUrl(url::Url);

/// A parsed absolute URL with the parts that the checks read.
#[derive(Debug, PartialEq, Eq)]
pub struct ParsedUrl {
    url: url::Url,
    href: String,
    scheme: String,
    host: Option<String>,
}

/// Serialization, scheme and host of a URL.
pub type UrlView = (Seq<char>, Seq<char>, Option<Seq<char>>);

pub open spec fn opt_str_view(o: Option<String>) -> Option<Seq<char>> {
    match o {
        Some(s) => Some(s@),
        None => None,
    }
}

pub open spec fn opt_ref_view(o: Option<&str>) -> Option<Seq<char>> {
    match o {
        Some(s) => Some(s@),
        None => None,
    }
}

impl View for ParsedUrl {
    type V = UrlView;

    closed spec fn view(&self) -> UrlView {
        (self.href@, self.scheme@, opt_str_view(self.host))
    }
}

pub open spec fn opt_url_view(o: Option<ParsedUrl>) -> Option<UrlView> {
    match o {
        Some(u) => Some(u@),
        None => None,
    }
}

/// What `url::Url::parse` makes of the input: serialization, scheme and host, or `None`.
pub uninterp spec fn url_parse_result(raw: Seq<char>) -> Option<UrlView>;

/// What `url::Url::join` makes of `input` against the URL serialized as `base`.
pub uninterp spec fn url_join_result(base: Seq<char>, input: Seq<char>) -> Option<UrlView>;

/// Calls `url::Url::parse`. The contract only names the outcome: parsing follows the URL
/// standard, which is not restated here.
#[verifier::external_body]
fn url_parse(raw: &str) -> (r: Option<ParsedUrl>)
    ensures
        opt_url_view(r) == url_parse_result(raw@),
{
    match url::Url::parse(raw) {
        Ok(u) => Some(ParsedUrl {
            href: u.as_str().to_string(),
            scheme: u.scheme().to_string(),
            host: u.host_str().map(|h| h.to_string()),
            url: u,
        }),
        Err(_) => None,
    }
}

/// Calls `url::Url::join`, resolving `input` against `base` as a browser resolves a link.
/// The contract only names the outcome as a function of the base's serialization and the input.
#[verifier::external_body]
fn url_join(base: &ParsedUrl, input: &str) -> (r: Option<ParsedUrl>)
    ensures
        opt_url_view(r) == url_join_result(base@.0, input@),
{
    match base.url.join(input) {
        Ok(u) => Some(ParsedUrl {
            href: u.as_str().to_string(),
            scheme: u.scheme().to_string(),
            host: u.host_str().map(|h| h.to_string()),
            url: u,
        }),
        Err(_) => None,
    }
}

impl ParsedUrl {
    /// Parse an absolute URL.
    pub fn parse(raw: &str) -> (r: Option<ParsedUrl>)
        ensures
            opt_url_view(r) == url_parse_result(raw@),
    {
        url_parse(raw)
    }

    pub fn as_str(&self) -> (r: &str)
        ensures
            r@ == self@.0,
    {
        self.href.as_str()
    }

    pub fn scheme(&self) -> (r: &str)
        ensures
            r@ == self@.1,
    {
        self.scheme.as_str()
    }

    pub fn host_str(&self) -> (r: Option<&str>)
        ensures
            opt_ref_view(r) == self@.2,
    {
        match &self.host {
            Some(h) => Some(h.as_str()),
            None => None,
        }
    }

    /// The parsed URL itself, as the outside crate holds it.
    pub closed spec fn inner_url(&self) -> url::Url {
        self.url
    }

    /// The `url::Url` this value was parsed into.
    pub fn url(&self) -> (r: &url::Url)
        ensures
            *r == self.inner_url(),
    {
        &self.url
    }
}

pub open spec fn http_word() -> Seq<char> {
    seq!['h', 't', 't', 'p']
}

pub open spec fn https_word() -> Seq<char> {
    seq!['h', 't', 't', 'p', 's']
}

/// An `http` or `https` URL with a host.
pub open spec fn is_web_url(u: UrlView) -> bool {
    (u.1 == http_word() || u.1 == https_word()) && u.2 is Some
}

fn is_http(s: &str) -> (r: bool)
    ensures
        r == (s@ == http_word()),
{
    proof {
        reveal_strlit("http");
        assert("http"@ =~= http_word());
    }
    str_eq(s, "http")
}

fn is_https(s: &str) -> (r: bool)
    ensures
        r == (s@ == https_word()),
{
    proof {
        reveal_strlit("https");
        assert("https"@ =~= https_word());
    }
    str_eq(s, "https")
}

fn is_web(u: &ParsedUrl) -> (r: bool)
    ensures
        r == is_web_url(u@),
{
    (is_http(u.scheme.as_str()) || is_https(u.scheme.as_str())) && u.host.is_some()
}

/// Hosts compared without regard to ASCII case; a missing host matches nothing.
pub open spec fn same_host_spec(a: Option<Seq<char>>, b: Option<Seq<char>>) -> bool {
    match (a, b) {
        (Some(x), Some(y)) => eq_ignore_case_spec(x, y),
        _ => false,
    }
}

pub fn same_host(left: &ParsedUrl, right: &ParsedUrl) -> (r: bool)
    ensures
        r == same_host_spec(left@.2, right@.2),
{
    match (&left.host, &right.host) {
        (Some(a), Some(b)) => eq_ignore_ascii_case(a.as_str(), b.as_str()),
        _ => false,
    }
}

/// The URL a check starts from: it parses and is `http(s)` with a host.
pub fn parse_check_url(raw: &str) -> (r: Option<ParsedUrl>)
    ensures
        match url_parse_result(raw@) {
            Some(u) => if is_web_url(u) {
                opt_url_view(r) == Some(u)
            } else {
                r is None
            },
            None => r is None,
        },
{
    match url_parse(raw) {
        Some(u) => {
            if is_web(&u) {
                Some(u)
            } else {
                None
            }
        },
        None => None,
    }
}

#[derive(Debug, PartialEq, Eq)]
pub enum RedirectDecision {
    Follow { next: ParsedUrl, strip: bool },
    TooMany,
    Downgrade,
    InvalidTarget,
    NotRedirect,
}

/// Model of a redirect decision.
pub enum Hop {
    Follow(UrlView, bool),
    TooMany,
    Downgrade,
    InvalidTarget,
    NotRedirect,
}

pub open spec fn decision_view(d: RedirectDecision) -> Hop {
    match d {
        RedirectDecision::Follow { next, strip } => Hop::Follow(next@, strip),
        RedirectDecision::TooMany => Hop::TooMany,
        RedirectDecision::Downgrade => Hop::Downgrade,
        RedirectDecision::InvalidTarget => Hop::InvalidTarget,
        RedirectDecision::NotRedirect => Hop::NotRedirect,
    }
}

/// What to do with a `Location` that resolved to `joined`: only web URLs are followed, never
/// from `https` down to `http`, and credentials are stripped when host or scheme changes.
pub open spec fn join_hop(from: UrlView, joined: Option<UrlView>) -> Hop {
    match joined {
        None => Hop::InvalidTarget,
        Some(next) => if !is_web_url(next) {
            Hop::InvalidTarget
        } else if from.1 == https_word() && next.1 == http_word() {
            Hop::Downgrade
        } else {
            Hop::Follow(next, !same_host_spec(from.2, next.2) || from.1 != next.1)
        },
    }
}

/// The decision for a redirect response after `hops` followed hops.
pub open spec fn redirect_spec(from: UrlView, location: Option<Seq<char>>, hops: u8) -> Hop {
    if hops >= MAX_REDIRECTS {
        Hop::TooMany
    } else {
        match location {
            None => Hop::NotRedirect,
            Some(loc) => join_hop(from, url_join_result(from.0, loc)),
        }
    }
}

/// The decision once the `Location` header has been resolved against `from`.
pub fn decide_joined(from: &ParsedUrl, joined: Option<ParsedUrl>) -> (r: RedirectDecision)
    ensures
        decision_view(r) == join_hop(from@, opt_url_view(joined)),
{
    let next = match joined {
        Some(n) => n,
        None => {
            return RedirectDecision::InvalidTarget;
        },
    };
    if !is_web(&next) {
        return RedirectDecision::InvalidTarget;
    }
    if is_https(from.scheme.as_str()) && is_http(next.scheme.as_str()) {
        return RedirectDecision::Downgrade;
    }
    let strip = !same_host(from, &next) || !str_eq(from.scheme.as_str(), next.scheme.as_str());
    RedirectDecision::Follow { next, strip }
}

/// Whether and where to follow a redirect from `from` carrying `location`.
pub fn decide_redirect(from: &ParsedUrl, location: Option<&str>, hops: u8) -> (r: RedirectDecision)
    ensures
        decision_view(r) == redirect_spec(from@, opt_ref_view(location), hops),
{
    if hops >= MAX_REDIRECTS {
        return RedirectDecision::TooMany;
    }
    let location = match location {
        Some(l) => l,
        None => {
            return RedirectDecision::NotRedirect;
        },
    };
    let joined = url_join(from, location);
    decide_joined(from, joined)
}

/// A followed redirect never leaves `https` for anything but `https`.
pub proof fn lemma_redirect_never_downgrades(from: UrlView, location: Option<Seq<char>>, hops: u8)
    requires
        from.1 == https_word(),
    ensures
        redirect_spec(from, location, hops) matches Hop::Follow(next, strip) ==> next.1 == https_word(),
{
    assert(http_word() != https_word()) by {
        assert(http_word().len() != https_word().len());
    }
}

/// A followed redirect to another host or scheme always drops the credentials.
pub proof fn lemma_cross_origin_strips(from: UrlView, location: Option<Seq<char>>, hops: u8)
    ensures
        redirect_spec(from, location, hops) matches Hop::Follow(next, strip) ==> (
            (!same_host_spec(from.2, next.2) || from.1 != next.1) <==> strip),
{
}

/// The kind of an I/O error found among the causes of a transport failure.
#[derive(Debug, Clone, Copy, PartialEq, Eq, Structural)]
pub enum IoKind {
    ConnectionRefused,
    ConnectionReset,
    BrokenPipe,
    TimedOut,
    HostUnreachable,
    NetworkUnreachable,
    AddrNotAvailable,
    Other,
}

/// One error in the chain of causes of a transport failure: its I/O kind when it is an I/O
/// error, and its text.
#[derive(Debug, Clone)]
pub struct ErrorCause {
    pub io_kind: Option<IoKind>,
    pub text: String,
}

pub open spec fn io_kind_verdict(k: IoKind) -> Option<ErrorKind> {
    match k {
        IoKind::ConnectionRefused => Some(ErrorKind::Refused),
        IoKind::ConnectionReset | IoKind::BrokenPipe => Some(ErrorKind::Reset),
        IoKind::TimedOut => Some(ErrorKind::Timeout),
        IoKind::HostUnreachable | IoKind::NetworkUnreachable | IoKind::AddrNotAvailable => Some(ErrorKind::Unreachable),
        IoKind::Other => None,
    }
}

/// What one cause says: its text first, then the kind of an I/O error.
pub open spec fn cause_verdict(io_kind: Option<IoKind>, text: Seq<char>) -> Option<ErrorKind> {
    match classify_spec(text) {
        Some(k) => Some(k),
        None => match io_kind {
            Some(k) => io_kind_verdict(k),
            None => None,
        },
    }
}

pub open spec fn mentions_tls(text: Seq<char>) -> bool {
    let l = lower_seq(text);
    contains_spec(l, "tls"@) || contains_spec(l, "ssl"@) || contains_spec(l, "certificate"@)
}

pub type CauseView = (Option<IoKind>, Seq<char>);

pub open spec fn causes_view(chain: Seq<ErrorCause>) -> Seq<CauseView> {
    chain.map_values(|c: ErrorCause| (c.io_kind, c.text@))
}

/// The verdict of the first cause that has one.
pub open spec fn chain_verdict(chain: Seq<CauseView>) -> Option<ErrorKind>
    decreases chain.len(),
{
    if chain.len() == 0 {
        None
    } else {
        match cause_verdict(chain[0].0, chain[0].1) {
            Some(k) => Some(k),
            None => chain_verdict(chain.drop_first()),
        }
    }
}

/// The error kind of a failed request: a timeout, a request that could not be built, the first
/// cause (outermost first) that names a kind, any mention of TLS, or else unreachable.
pub open spec fn failure_kind_spec(is_timeout: bool, is_builder: bool, chain: Seq<CauseView>) -> ErrorKind {
    if is_timeout {
        ErrorKind::Timeout
    } else if is_builder {
        ErrorKind::InvalidUrl
    } else {
        match chain_verdict(chain) {
            Some(k) => k,
            None => if exists|i: int| 0 <= i < chain.len() && mentions_tls(#[trigger] chain[i].1) {
                ErrorKind::TlsOther
            } else {
                ErrorKind::Unreachable
            },
        }
    }
}

fn io_verdict(k: IoKind) -> (r: Option<ErrorKind>)
    ensures
        r == io_kind_verdict(k),
{
    match k {
        IoKind::ConnectionRefused => Some(ErrorKind::Refused),
        IoKind::ConnectionReset | IoKind::BrokenPipe => Some(ErrorKind::Reset),
        IoKind::TimedOut => Some(ErrorKind::Timeout),
        IoKind::HostUnreachable | IoKind::NetworkUnreachable | IoKind::AddrNotAvailable => Some(ErrorKind::Unreachable),
        IoKind::Other => None,
    }
}

/// The error kind of a failed request, from the flags of the error and its chain of causes.
pub fn classify_failure(is_timeout: bool, is_builder: bool, chain: &Vec<ErrorCause>) -> (r: ErrorKind)
    ensures
        r == failure_kind_spec(is_timeout, is_builder, causes_view(chain@)),
{
    if is_timeout {
        return ErrorKind::Timeout;
    }
    if is_builder {
        return ErrorKind::InvalidUrl;
    }
    let ghost cv = causes_view(chain@);
    let mut saw_tls = false;
    let mut i: usize = 0;
    assert(cv.skip(0) =~= cv);
    while i < chain.len()
        invariant
            i <= chain.len(),
            !is_timeout,
            !is_builder,
            cv == causes_view(chain@),
            chain_verdict(cv) == chain_verdict(cv.skip(i as int)),
            saw_tls == exists|j: int| 0 <= j < i && mentions_tls(#[trigger] cv[j].1),
        decreases chain.len() - i,
    {
        let c = &chain[i];
        proof {
            assert(cv.skip(i as int)[0] == cv[i as int]);
            assert(cv[i as int] == (c.io_kind, c.text@));
            assert(cv.skip(i as int).drop_first() =~= cv.skip(i + 1));
        }
        let verdict = match classify_message(c.text.as_str()) {
            Some(k) => Some(k),
            None => match c.io_kind {
                Some(k) => io_verdict(k),
                None => None,
            },
        };
        assert(verdict == cause_verdict(c.io_kind, c.text@));
        if let Some(k) = verdict {
            assert(cv.skip(i as int).len() > 0);
            assert(chain_verdict(cv.skip(i as int)) == Some(k));
            return k;
        }
        let lower = ascii_lowercase(c.text.as_str());
        let l = lower.as_str();
        if str_contains(l, "tls") || str_contains(l, "ssl") || str_contains(l, "certificate") {
            saw_tls = true;
        }
        i = i + 1;
    }
    proof {
        assert(cv.skip(i as int).len() == 0);
    }
    if saw_tls {
        ErrorKind::TlsOther
    } else {
        ErrorKind::Unreachable
    }
}

/// The error kind that a transport message names, by the first matching family.
pub open spec fn classify_spec(msg: Seq<char>) -> Option<ErrorKind> {
    let m = lower_seq(msg);
    if contains_spec(m, "timed out"@) || contains_spec(m, "timeout"@) {
        Some(ErrorKind::Timeout)
    } else if contains_spec(m, "nodename nor servname"@) || contains_spec(m, "failed to lookup"@)
        || contains_spec(m, "no such host"@) || contains_spec(m, "name or service not known"@)
        || contains_spec(m, "temporary failure in name resolution"@)
        || contains_spec(m, "no address associated"@) {
        Some(ErrorKind::Dns)
    } else if contains_spec(m, "certificate has expired"@) || contains_spec(m, "certificate expired"@)
        || contains_spec(m, "cert_e_expired"@) || contains_spec(m, "errsslcertexpired"@) {
        Some(ErrorKind::TlsExpired)
    } else if contains_spec(m, "hostname mismatch"@) || contains_spec(m, "cert_e_cn_no_match"@)
        || contains_spec(m, "errsslhostnamemismatch"@)
        || (contains_spec(m, "does not match"@) && contains_spec(m, "host"@))
        || contains_spec(m, "certificate not valid for"@) {
        Some(ErrorKind::TlsHostname)
    } else if contains_spec(m, "unknown issuer"@) || contains_spec(m, "unknown ca"@)
        || contains_spec(m, "untrusted"@) || contains_spec(m, "self signed"@)
        || contains_spec(m, "self-signed"@) || contains_spec(m, "cert_e_untrustedroot"@)
        || contains_spec(m, "not trusted"@) || contains_spec(m, "certificate verify failed"@)
        || contains_spec(m, "invalid certificate"@) {
        Some(ErrorKind::TlsUntrusted)
    } else if contains_spec(m, "ssl"@) || contains_spec(m, "tls"@) || contains_spec(m, "certificate"@)
        || contains_spec(m, "handshake"@) {
        Some(ErrorKind::TlsOther)
    } else if contains_spec(m, "connection refused"@) {
        Some(ErrorKind::Refused)
    } else if contains_spec(m, "connection reset"@) || contains_spec(m, "broken pipe"@) {
        Some(ErrorKind::Reset)
    } else if contains_spec(m, "network is unreachable"@) || contains_spec(m, "host is unreachable"@)
        || contains_spec(m, "no route to host"@) {
        Some(ErrorKind::Unreachable)
    } else {
        None
    }
}

/// Map the text of a transport error to an error kind.
pub fn classify_message(msg: &str) -> (r: Option<ErrorKind>)
    ensures
        r == classify_spec(msg@),
{
    let lower = ascii_lowercase(msg);
    let m = lower.as_str();
    if str_contains(m, "timed out") || str_contains(m, "timeout") {
        return Some(ErrorKind::Timeout);
    }
    if str_contains(m, "nodename nor servname") || str_contains(m, "failed to lookup")
        || str_contains(m, "no such host") || str_contains(m, "name or service not known")
        || str_contains(m, "temporary failure in name resolution")
        || str_contains(m, "no address associated") {
        return Some(ErrorKind::Dns);
    }
    if str_contains(m, "certificate has expired") || str_contains(m, "certificate expired")
        || str_contains(m, "cert_e_expired") || str_contains(m, "errsslcertexpired") {
        return Some(ErrorKind::TlsExpired);
    }
    if str_contains(m, "hostname mismatch") || str_contains(m, "cert_e_cn_no_match")
        || str_contains(m, "errsslhostnamemismatch")
        || (str_contains(m, "does not match") && str_contains(m, "host"))
        || str_contains(m, "certificate not valid for") {
        return Some(ErrorKind::TlsHostname);
    }
    if str_contains(m, "unknown issuer") || str_contains(m, "unknown ca")
        || str_contains(m, "untrusted") || str_contains(m, "self signed")
        || str_contains(m, "self-signed") || str_contains(m, "cert_e_untrustedroot")
        || str_contains(m, "not trusted") || str_contains(m, "certificate verify failed")
        || str_contains(m, "invalid certificate") {
        return Some(ErrorKind::TlsUntrusted);
    }
    if str_contains(m, "ssl") || str_contains(m, "tls") || str_contains(m, "certificate")
        || str_contains(m, "handshake") {
        return Some(ErrorKind::TlsOther);
    }
    if str_contains(m, "connection refused") {
        return Some(ErrorKind::Refused);
    }
    if str_contains(m, "connection reset") || str_contains(m, "broken pipe") {
        return Some(ErrorKind::Reset);
    }
    if str_contains(m, "network is unreachable") || str_contains(m, "host is unreachable")
        || str_contains(m, "no route to host") {
        return Some(ErrorKind::Unreachable);
    }
    None
}

/// Index of the first secret named exactly `key`, or, failing that, up to ASCII case.
pub open spec fn first_secret(s: Seq<(Seq<char>, Seq<char>)>, key: Seq<char>, exact: bool) -> Option<int>
    decreases s.len(),
{
    if s.len() == 0 {
        None
    } else {
        let rest = first_secret(s.drop_last(), key, exact);
        if rest is Some {
            rest
        } else if (exact && s.last().0 == key) || (!exact && eq_ignore_case_spec(s.last().0, key)) {
            Some(s.len() - 1)
        } else {
            None
        }
    }
}

pub open spec fn secrets_view(s: Seq<(String, String)>) -> Seq<(Seq<char>, Seq<char>)> {
    s.map_values(|p: (String, String)| (p.0@, p.1@))
}

/// The secret value for header `key`: the exact name wins, else a name equal up to ASCII case;
/// an empty value counts as missing.
pub open spec fn lookup_secret_spec(s: Seq<(Seq<char>, Seq<char>)>, key: Seq<char>) -> Option<Seq<char>> {
    let found = match first_secret(s, key, true) {
        Some(i) => Some(s[i].1),
        None => match first_secret(s, key, false) {
            Some(i) => Some(s[i].1),
            None => None,
        },
    };
    match found {
        Some(v) => if v.len() > 0 {
            Some(v)
        } else {
            None
        },
        None => None,
    }
}

proof fn lemma_first_secret_bounds(s: Seq<(Seq<char>, Seq<char>)>, key: Seq<char>, exact: bool)
    ensures
        first_secret(s, key, exact) matches Some(i) ==> 0 <= i < s.len(),
    decreases s.len(),
{
    if s.len() > 0 {
        lemma_first_secret_bounds(s.drop_last(), key, exact);
    }
}

fn find_secret(secrets: &Vec<(String, String)>, key: &str, exact: bool) -> (r: Option<usize>)
    ensures
        match r {
            Some(i) => first_secret(secrets_view(secrets@), key@, exact) == Some(i as int),
            None => first_secret(secrets_view(secrets@), key@, exact) is None,
        },
{
    let ghost sv = secrets_view(secrets@);
    let mut i: usize = 0;
    while i < secrets.len()
        invariant
            i <= secrets.len(),
            sv == secrets_view(secrets@),
            first_secret(sv.take(i as int), key@, exact) is None,
        decreases secrets.len() - i,
    {
        let hit = if exact {
            str_eq(secrets[i].0.as_str(), key)
        } else {
            eq_ignore_ascii_case(secrets[i].0.as_str(), key)
        };
        proof {
            assert(sv.take(i + 1).drop_last() =~= sv.take(i as int));
            assert(sv.take(i + 1).last() == sv[i as int]);
        }
        if hit {
            proof {
                lemma_prefix_first_secret(sv, key@, exact, i as int);
            }
            return Some(i);
        }
        i = i + 1;
    }
    proof {
        assert(sv.take(i as int) =~= sv);
    }
    None
}

/// A hit at `i` with no hit before it is the first hit of the whole sequence.
proof fn lemma_prefix_first_secret(s: Seq<(Seq<char>, Seq<char>)>, key: Seq<char>, exact: bool, i: int)
    requires
        0 <= i < s.len(),
        first_secret(s.take(i + 1), key, exact) == Some(i),
    ensures
        first_secret(s, key, exact) == Some(i),
    decreases s.len(),
{
    if s.len() == i + 1 {
        assert(s.take(i + 1) =~= s);
    } else {
        assert(s.drop_last().take(i + 1) =~= s.take(i + 1));
        lemma_prefix_first_secret(s.drop_last(), key, exact, i);
    }
}

/// The value of secret header `key` in `secrets`.
pub fn lookup_secret<'a>(secrets: &'a Vec<(String, String)>, key: &str) -> (r: Option<&'a str>)
    ensures
        opt_ref_view(r) == lookup_secret_spec(secrets_view(secrets@), key@),
{
    proof {
        lemma_first_secret_bounds(secrets_view(secrets@), key@, true);
        lemma_first_secret_bounds(secrets_view(secrets@), key@, false);
    }
    let ghost sv = secrets_view(secrets@);
    let ghost want = match first_secret(sv, key@, true) {
        Some(i) => Some(sv[i].1),
        None => match first_secret(sv, key@, false) {
            Some(i) => Some(sv[i].1),
            None => None,
        },
    };
    let found = match find_secret(secrets, key, true) {
        Some(i) => Some(i),
        None => find_secret(secrets, key, false),
    };
    match found {
        Some(i) => {
            let v = secrets[i].1.as_str();
            assert(sv[i as int] == (secrets@[i as int].0@, secrets@[i as int].1@));
            assert(want == Some(v@));
            if crate::text::str_chars(v).len() > 0 {
                Some(v)
            } else {
                None
            }
        },
        None => {
            assert(want is None);
            None
        },
    }
}

/// What `String::from_utf8_lossy` returns for `bytes`.
pub uninterp spec fn utf8_lossy_result(bytes: Seq<u8>) -> Seq<char>;

/// Calls `String::from_utf8_lossy`: valid UTF-8 decodes as is; each invalid sequence becomes
/// one U+FFFD, so there is never more than one character per byte.
#[verifier::external_body]
fn utf8_lossy(bytes: &[u8]) -> (r: String)
    ensures
        r@ == utf8_lossy_result(bytes@),
        vstd::utf8::valid_utf8(bytes@) ==> r@ == vstd::utf8::decode_utf8(bytes@),
        r@.len() <= bytes@.len(),
{
    String::from_utf8_lossy(bytes).into_owned()
}

/// At most the first `BODY_PREVIEW_BYTES` bytes of the body, decoded lossily.
pub fn preview_lossy(body: &[u8]) -> (r: String)
    ensures
        r@ == utf8_lossy_result(body@.take(if body@.len() < BODY_PREVIEW_BYTES {
            body@.len() as int
        } else {
            BODY_PREVIEW_BYTES as int
        })),
        r@.len() <= BODY_PREVIEW_BYTES,
{
    let n = if body.len() < BODY_PREVIEW_BYTES {
        body.len()
    } else {
        BODY_PREVIEW_BYTES
    };
    let mut head: Vec<u8> = Vec::new();
    let mut i: usize = 0;
    while i < n
        invariant
            i <= n,
            n <= body.len(),
            head@ == body@.take(i as int),
        decreases n - i,
    {
        head.push(body[i]);
        i = i + 1;
        assert(head@ =~= body@.take(i as int));
    }
    utf8_lossy(head.as_slice())
}

} // verus!
