//! The request a check sends, and how it changes from one redirect hop to the next.
use vstd::prelude::*;

use crate::domain::error::ErrorKind;
use crate::domain::service::{denylisted, is_denylisted, opt_view, HeaderSpec, HttpMethod, Service};
use crate::eval::{transport, TransportError};
use crate::poller::client::{
    decide_redirect, decision_view, is_web_url, lookup_secret, lookup_secret_spec, opt_ref_view,
    parse_check_url, redirect_spec, same_host_spec, secrets_view, url_parse_result, Hop, ParsedUrl,
    RedirectDecision, MAX_BODY_BYTES, MAX_REDIRECTS,
};
use crate::text::{owned, str_chars, str_eq};

verus! {

/// A request header as it is sent: its normalized name, its value, and whether the value is a
/// credential to be hidden from logs.
pub struct OutgoingHeader {
    pub name: String,
    pub value: String,
    pub sensitive: bool,
}

pub type HeaderView = (Seq<char>, Seq<char>, bool);

pub open spec fn hview(h: OutgoingHeader) -> HeaderView {
    (h.name@, h.value@, h.sensitive)
}

pub open spec fn hviews(s: Seq<OutgoingHeader>) -> Seq<HeaderView> {
    s.map_values(|h: OutgoingHeader| hview(h))
}

pub open spec fn names_view(s: Seq<String>) -> Seq<Seq<char>> {
    s.map_values(|n: String| n@)
}

fn copy_header(h: &OutgoingHeader) -> (r: OutgoingHeader)
    ensures
        hview(r) == hview(*h),
{
    OutgoingHeader { name: owned(h.name.as_str()), value: owned(h.value.as_str()), sensitive: h.sensitive }
}

/// What `http::HeaderName::from_bytes` makes of a name: the normalized name, or `None`.
pub uninterp spec fn header_name_result(bytes: Seq<u8>) -> Option<Seq<char>>;

/// Calls `http::HeaderName::from_bytes` and returns the normalized name. Which names are valid
/// and how they are normalized is left to the crate and only named here.
#[verifier::external_body]
fn header_name(key: &str) -> (r: Option<String>)
    ensures
        opt_view(r) == header_name_result(vstd::utf8::encode_utf8(key@)),
{
    match http::HeaderName::from_bytes(key.as_bytes()) {
        Ok(name) => Some(name.as_str().to_string()),
        Err(_) => None,
    }
}

/// A byte that `http::HeaderValue` accepts: tab, or anything from space up except DEL.
pub open spec fn value_byte_ok(b: u8) -> bool {
    (b >= 32 && b != 127) || b == 9
}

pub open spec fn header_value_ok(value: Seq<char>) -> bool {
    forall|i: int| 0 <= i < vstd::utf8::encode_utf8(value).len() ==> value_byte_ok(
        #[trigger] vstd::utf8::encode_utf8(value)[i],
    )
}

/// Calls `http::HeaderValue::from_str`, which accepts a value exactly when every byte is a tab
/// or at least a space and not DEL.
#[verifier::external_body]
fn header_value_valid(value: &str) -> (r: bool)
    ensures
        r == header_value_ok(value@),
{
    http::HeaderValue::from_str(value).is_ok()
}

/// `hs` with the header named as `h` replaced by `h`, or with `h` added at the end.
pub open spec fn insert_header(hs: Seq<HeaderView>, h: HeaderView) -> Seq<HeaderView> {
    if exists|i: int| 0 <= i < hs.len() && (#[trigger] hs[i]).0 == h.0 {
        hs.update(choose|i: int| 0 <= i < hs.len() && (#[trigger] hs[i]).0 == h.0, h)
    } else {
        hs.push(h)
    }
}

/// No two headers share a name.
pub open spec fn distinct_names(hs: Seq<HeaderView>) -> bool {
    forall|i: int, j: int| 0 <= i < hs.len() && 0 <= j < hs.len() && i != j ==> (#[trigger] hs[i]).0 != (#[trigger] hs[j]).0
}

/// The value a header is sent with: a secret comes from the secret store, or from a non-empty
/// stored value; a plain header sends its stored value or nothing.
pub open spec fn header_value_spec(spec: HeaderSpec, secrets: Seq<(Seq<char>, Seq<char>)>) -> Option<Seq<char>> {
    if spec.secret {
        match lookup_secret_spec(secrets, spec.key@) {
            Some(v) => Some(v),
            None => match spec.value {
                Some(v) => if v@.len() > 0 {
                    Some(v@)
                } else {
                    None
                },
                None => None,
            },
        }
    } else {
        match spec.value {
            Some(v) => Some(v@),
            None => Some(Seq::empty()),
        }
    }
}

/// The headers so far and the names of the secret ones.
pub type HeaderPlan = (Seq<HeaderView>, Seq<Seq<char>>);

/// One header added to the plan, or the error that stops the request.
pub open spec fn add_header_spec(acc: HeaderPlan, spec: HeaderSpec, secrets: Seq<(Seq<char>, Seq<char>)>) -> Result<HeaderPlan, (ErrorKind, Option<u32>, Option<Seq<char>>)> {
    match header_name_result(vstd::utf8::encode_utf8(spec.key@)) {
        None => Err((ErrorKind::InvalidUrl, None, None)),
        Some(name) => match header_value_spec(spec, secrets) {
            None => Err((ErrorKind::MissingSecret, None, Some(spec.key@))),
            Some(value) => if !header_value_ok(value) {
                Err((ErrorKind::InvalidUrl, None, None))
            } else {
                let sensitive = spec.secret || denylisted(name);
                let names = if spec.secret {
                    acc.1.push(name)
                } else {
                    acc.1
                };
                Ok((insert_header(acc.0, (name, value, sensitive)), names))
            },
        },
    }
}

/// The headers a service sends, built in order; the first failing header stops it.
pub open spec fn headers_spec(specs: Seq<HeaderSpec>, secrets: Seq<(Seq<char>, Seq<char>)>) -> Result<HeaderPlan, (ErrorKind, Option<u32>, Option<Seq<char>>)>
    decreases specs.len(),
{
    if specs.len() == 0 {
        Ok((Seq::empty(), Seq::empty()))
    } else {
        match headers_spec(specs.drop_last(), secrets) {
            Err(e) => Err(e),
            Ok(acc) => add_header_spec(acc, specs.last(), secrets),
        }
    }
}

proof fn lemma_headers_prefix(specs: Seq<HeaderSpec>, secrets: Seq<(Seq<char>, Seq<char>)>, n: int)
    requires
        0 <= n <= specs.len(),
        headers_spec(specs.take(n), secrets) is Err,
    ensures
        headers_spec(specs, secrets) == headers_spec(specs.take(n), secrets),
    decreases specs.len(),
{
    if n == specs.len() {
        assert(specs.take(n) =~= specs);
    } else {
        assert(specs.drop_last().take(n) =~= specs.take(n));
        lemma_headers_prefix(specs.drop_last(), secrets, n);
    }
}

/// Put `h` in `headers`, replacing a header of the same name.
fn put_header(headers: &mut Vec<OutgoingHeader>, h: OutgoingHeader)
    requires
        distinct_names(hviews(old(headers)@)),
    ensures
        hviews(final(headers)@) == insert_header(hviews(old(headers)@), hview(h)),
        distinct_names(hviews(final(headers)@)),
{
    let ghost hv = hviews(headers@);
    let mut i: usize = 0;
    while i < headers.len()
        invariant
            i <= headers.len(),
            hv == hviews(headers@),
            hv == hviews(old(headers)@),
            distinct_names(hv),
            forall|k: int| 0 <= k < i ==> (#[trigger] hv[k]).0 != h.name@,
        decreases headers.len() - i,
    {
        if str_eq(headers[i].name.as_str(), h.name.as_str()) {
            proof {
                assert(hv[i as int].0 == hview(h).0);
                let c = choose|k: int| 0 <= k < hv.len() && (#[trigger] hv[k]).0 == hview(h).0;
                if c != i as int {
                    assert(hv[c].0 == hv[i as int].0);
                }
                assert(c == i as int);
            }
            headers.set(i, h);
            proof {
                assert(hviews(headers@) =~= hv.update(i as int, hview(h)));
                let nv = hviews(headers@);
                assert forall|a: int, b: int| 0 <= a < nv.len() && 0 <= b < nv.len() && a != b implies (#[trigger] nv[a]).0 != (#[trigger] nv[b]).0 by {
                    if a != i as int && b != i as int {
                        assert(nv[a] == hv[a] && nv[b] == hv[b]);
                    } else if a == i as int {
                        assert(nv[b] == hv[b]);
                        assert(hv[b].0 != hv[i as int].0);
                    } else {
                        assert(nv[a] == hv[a]);
                        assert(hv[a].0 != hv[i as int].0);
                    }
                }
            }
            return;
        }
        i = i + 1;
    }
    headers.push(h);
    proof {
        assert(hviews(headers@) =~= hv.push(hview(h)));
        let nv = hviews(headers@);
        assert forall|a: int, b: int| 0 <= a < nv.len() && 0 <= b < nv.len() && a != b implies (#[trigger] nv[a]).0 != (#[trigger] nv[b]).0 by {
            if a < hv.len() && b < hv.len() {
                assert(nv[a] == hv[a] && nv[b] == hv[b]);
            } else if a < hv.len() {
                assert(nv[a] == hv[a]);
            } else {
                assert(nv[b] == hv[b]);
            }
        }
    }
}

fn names_contain(names: &Vec<String>, n: &str) -> (r: bool)
    ensures
        r == names_view(names@).contains(n@),
{
    let mut i: usize = 0;
    while i < names.len()
        invariant
            i <= names.len(),
            forall|k: int| 0 <= k < i ==> (#[trigger] names@[k])@ != n@,
        decreases names.len() - i,
    {
        if str_eq(names[i].as_str(), n) {
            assert(names_view(names@)[i as int] == n@);
            return true;
        }
        i = i + 1;
    }
    proof {
        assert forall|k: int| 0 <= k < names_view(names@).len() implies names_view(names@)[k] != n@ by {
            assert(names@[k]@ != n@);
        }
    }
    false
}

/// The value a header is sent with, or `None` when a secret has no value anywhere.
fn header_value(spec: &HeaderSpec, secrets: &Vec<(String, String)>) -> (r: Option<String>)
    ensures
        opt_view(r) == header_value_spec(*spec, secrets_view(secrets@)),
{
    if spec.secret {
        match lookup_secret(secrets, spec.key.as_str()) {
            Some(v) => Some(owned(v)),
            None => match &spec.value {
                Some(v) => {
                    if str_chars(v.as_str()).len() > 0 {
                        Some(owned(v.as_str()))
                    } else {
                        None
                    }
                },
                None => None,
            },
        }
    } else {
        match &spec.value {
            Some(v) => Some(owned(v.as_str())),
            None => Some(String::new()),
        }
    }
}

/// The headers of `specs` as they are sent, and the names of the secret ones.
pub fn build_headers(specs: &Vec<HeaderSpec>, secrets: &Vec<(String, String)>) -> (r: Result<(Vec<OutgoingHeader>, Vec<String>), TransportError>)
    ensures
        match headers_spec(specs@, secrets_view(secrets@)) {
            Ok(plan) => r matches Ok((hs, names)) && hviews(hs@) == plan.0 && names_view(names@) == plan.1
                && distinct_names(plan.0),
            Err(e) => r matches Err(x) && x.model() == e,
        },
{
    let ghost sv = secrets_view(secrets@);
    let mut headers: Vec<OutgoingHeader> = Vec::new();
    let mut names: Vec<String> = Vec::new();
    let mut i: usize = 0;
    proof {
        assert(hviews(headers@) =~= Seq::<HeaderView>::empty());
        assert(names_view(names@) =~= Seq::<Seq<char>>::empty());
    }
    while i < specs.len()
        invariant
            i <= specs.len(),
            sv == secrets_view(secrets@),
            headers_spec(specs@.take(i as int), sv) == Ok::<HeaderPlan, (ErrorKind, Option<u32>, Option<Seq<char>>)>((hviews(headers@), names_view(names@))),
            distinct_names(hviews(headers@)),
        decreases specs.len() - i,
    {
        proof {
            assert(specs@.take(i + 1).drop_last() =~= specs@.take(i as int));
            assert(specs@.take(i + 1).last() == specs@[i as int]);
        }
        let spec = &specs[i];
        let name = match header_name(spec.key.as_str()) {
            Some(n) => n,
            None => {
                proof {
                    lemma_headers_prefix(specs@, sv, i + 1);
                }
                return Err(transport(ErrorKind::InvalidUrl, None));
            },
        };
        let value = match header_value(spec, secrets) {
            Some(v) => v,
            None => {
                proof {
                    lemma_headers_prefix(specs@, sv, i + 1);
                }
                return Err(TransportError { kind: ErrorKind::MissingSecret, latency_ms: None, detail: Some(owned(spec.key.as_str())) });
            },
        };
        if !header_value_valid(value.as_str()) {
            proof {
                lemma_headers_prefix(specs@, sv, i + 1);
            }
            return Err(transport(ErrorKind::InvalidUrl, None));
        }
        let sensitive = spec.secret || is_denylisted(name.as_str());
        if spec.secret {
            let ghost before = names@;
            names.push(owned(name.as_str()));
            proof {
                assert(names_view(names@) =~= names_view(before).push(name@));
            }
        }
        put_header(&mut headers, OutgoingHeader { name, value, sensitive });
        i = i + 1;
    }
    proof {
        assert(specs@.take(i as int) =~= specs@);
    }
    Ok((headers, names))
}

/// The headers of `hs` whose names are not in `drop`, in order.
pub open spec fn keep_headers(hs: Seq<HeaderView>, drop: Seq<Seq<char>>) -> Seq<HeaderView>
    decreases hs.len(),
{
    if hs.len() == 0 {
        Seq::empty()
    } else {
        let kept = keep_headers(hs.drop_last(), drop);
        if drop.contains(hs.last().0) {
            kept
        } else {
            kept.push(hs.last())
        }
    }
}

proof fn lemma_keep_len(hs: Seq<HeaderView>, drop: Seq<Seq<char>>)
    ensures
        keep_headers(hs, drop).len() <= hs.len(),
        keep_headers(hs, drop).len() == hs.len() <==> (forall|i: int| 0 <= i < hs.len() ==> !drop.contains(#[trigger] hs[i].0)),
        forall|k: int| 0 <= k < keep_headers(hs, drop).len() ==> hs.contains(#[trigger] keep_headers(hs, drop)[k]),
    decreases hs.len(),
{
    if hs.len() > 0 {
        let p = hs.drop_last();
        lemma_keep_len(p, drop);
        if keep_headers(hs, drop).len() == hs.len() {
            assert forall|i: int| 0 <= i < hs.len() implies !drop.contains(#[trigger] hs[i].0) by {
                if i < hs.len() - 1 {
                    assert(p[i] == hs[i]);
                }
            }
        }
        if forall|i: int| 0 <= i < hs.len() ==> !drop.contains(#[trigger] hs[i].0) {
            assert forall|i: int| 0 <= i < p.len() implies !drop.contains(#[trigger] p[i].0) by {
                assert(p[i] == hs[i]);
            }
            assert(!drop.contains(hs[hs.len() - 1].0));
        }
        assert forall|k: int| 0 <= k < keep_headers(hs, drop).len() implies hs.contains(#[trigger] keep_headers(hs, drop)[k]) by {
            if k < keep_headers(p, drop).len() {
                assert(p.contains(keep_headers(p, drop)[k]));
                let j = choose|j: int| 0 <= j < p.len() && p[j] == keep_headers(p, drop)[k];
                assert(hs[j] == p[j]);
            } else {
                assert(hs[hs.len() - 1] == hs.last());
            }
        }
    }
}

/// Remove the headers named in `drop`; says whether any was removed.
fn remove_headers(headers: &mut Vec<OutgoingHeader>, drop: &Vec<String>) -> (r: bool)
    ensures
        hviews(final(headers)@) == keep_headers(hviews(old(headers)@), names_view(drop@)),
        r == (keep_headers(hviews(old(headers)@), names_view(drop@)).len() < old(headers)@.len()),
{
    let ghost hv = hviews(headers@);
    let ghost dv = names_view(drop@);
    let mut out: Vec<OutgoingHeader> = Vec::new();
    let mut i: usize = 0;
    proof {
        assert(hviews(out@) =~= keep_headers(hv.take(0), dv));
    }
    while i < headers.len()
        invariant
            i <= headers.len(),
            hv == hviews(headers@),
            dv == names_view(drop@),
            hviews(out@) == keep_headers(hv.take(i as int), dv),
        decreases headers.len() - i,
    {
        proof {
            assert(hv.take(i + 1).drop_last() =~= hv.take(i as int));
            assert(hv.take(i + 1).last() == hv[i as int]);
        }
        if !names_contain(drop, headers[i].name.as_str()) {
            let ghost before = out@;
            out.push(copy_header(&headers[i]));
            proof {
                assert(hviews(out@) =~= hviews(before).push(hv[i as int]));
            }
        }
        i = i + 1;
    }
    proof {
        assert(hv.take(i as int) =~= hv);
        lemma_keep_len(hv, dv);
    }
    let removed = out.len() < headers.len();
    *headers = out;
    removed
}

/// Names a redirect to another origin always drops.
pub open spec fn credential_names() -> Seq<Seq<char>> {
    seq!["authorization"@, "proxy-authorization"@, "cookie"@, "x-api-key"@, "x-auth-token"@]
}

/// Names that describe a request body.
pub open spec fn body_header_names() -> Seq<Seq<char>> {
    seq!["content-length"@, "content-type"@, "transfer-encoding"@]
}

/// Drop credential headers and the secret headers; says whether any was dropped.
pub fn strip_sensitive(headers: &mut Vec<OutgoingHeader>, secret_names: &Vec<String>) -> (r: bool)
    ensures
        hviews(final(headers)@) == keep_headers(hviews(old(headers)@), credential_names() + names_view(secret_names@)),
        r == (hviews(final(headers)@).len() < old(headers)@.len()),
{
    let mut drop: Vec<String> = Vec::new();
    drop.push(owned("authorization"));
    drop.push(owned("proxy-authorization"));
    drop.push(owned("cookie"));
    drop.push(owned("x-api-key"));
    drop.push(owned("x-auth-token"));
    let mut i: usize = 0;
    proof {
        assert(names_view(drop@) =~= credential_names());
    }
    while i < secret_names.len()
        invariant
            i <= secret_names.len(),
            names_view(drop@) == credential_names() + names_view(secret_names@).take(i as int),
        decreases secret_names.len() - i,
    {
        let ghost before = drop@;
        drop.push(owned(secret_names[i].as_str()));
        i = i + 1;
        proof {
            assert(names_view(drop@) =~= names_view(before).push(secret_names@[i - 1]@));
            assert(names_view(secret_names@).take(i as int) =~= names_view(secret_names@).take(i - 1).push(secret_names@[i - 1]@));
        }
    }
    proof {
        assert(names_view(secret_names@).take(i as int) =~= names_view(secret_names@));
    }
    remove_headers(headers, &drop)
}

/// Whether a redirect with `status` turns the request into a bodiless `GET`.
pub open spec fn rewrites_to_get(status: u16, method: HttpMethod) -> bool {
    301 <= status <= 303 && method != HttpMethod::Get && method != HttpMethod::Head
}

/// The request of one check as it stands before a hop.
pub struct RequestPlan {
    pub url: ParsedUrl,
    pub method: HttpMethod,
    pub body: Option<String>,
    pub headers: Vec<OutgoingHeader>,
    pub secret_names: Vec<String>,
    pub redirects: u8,
    pub stripped: bool,
}

/// Model of a plan: URL, method, body, headers, secret names, hops, stripped.
pub type PlanView = (crate::poller::client::UrlView, HttpMethod, Option<Seq<char>>, Seq<HeaderView>, Seq<Seq<char>>, u8, bool);

impl RequestPlan {
    pub open spec fn model(&self) -> PlanView {
        (self.url@, self.method, opt_view(self.body), hviews(self.headers@), names_view(self.secret_names@), self.redirects, self.stripped)
    }
}

/// The first request of a check on `service`: the service URL, its method, a body only for
/// `POST`, and its headers.
pub fn plan_request(service: &Service, secrets: &Vec<(String, String)>) -> (r: Result<RequestPlan, TransportError>)
    ensures
        match url_parse_result(service.url@) {
            Some(u) if is_web_url(u) => match headers_spec(service.headers@, secrets_view(secrets@)) {
                Ok(hp) => r matches Ok(p) && p.model() == (u, service.method,
                    if service.method == HttpMethod::Post { opt_view(service.body) } else { None::<Seq<char>> },
                    hp.0, hp.1, 0u8, false),
                Err(e) => r matches Err(x) && x.model() == e,
            },
            _ => r matches Err(x) && x.model() == (ErrorKind::InvalidUrl, None::<u32>, None::<Seq<char>>),
        },
{
    let url = match parse_check_url(service.url.as_str()) {
        Some(u) => u,
        None => {
            return Err(transport(ErrorKind::InvalidUrl, None));
        },
    };
    let (headers, secret_names) = match build_headers(&service.headers, secrets) {
        Ok(x) => x,
        Err(e) => {
            return Err(e);
        },
    };
    let body = if service.method == HttpMethod::Post {
        match &service.body {
            Some(b) => Some(owned(b.as_str())),
            None => None,
        }
    } else {
        None
    };
    Ok(RequestPlan { url, method: service.method, body, headers, secret_names, redirects: 0, stripped: false })
}

/// What the caller does after a response arrives.
#[derive(Debug, Clone, Copy, PartialEq, Eq, Structural)]
pub enum NextStep {
    /// Read the body of this response: it is the answer.
    ReadBody,
    /// A redirect without a `Location`: answer with its status and no body.
    EmptyBody,
    /// Send the updated request.
    Resend,
    /// Stop with this error.
    Fail(ErrorKind),
}

pub open spec fn is_redirection(status: u16) -> bool {
    300 <= status <= 399
}

/// The plan after following a hop to `next`.
pub open spec fn follow_spec(p: PlanView, status: u16, next: crate::poller::client::UrlView, strip: bool) -> PlanView {
    let stripped_headers = if strip {
        keep_headers(p.3, credential_names() + p.4)
    } else {
        p.3
    };
    let removed = strip && stripped_headers.len() < p.3.len();
    let (method, body, headers) = if rewrites_to_get(status, p.1) {
        (HttpMethod::Get, None::<Seq<char>>, keep_headers(stripped_headers, body_header_names()))
    } else {
        (p.1, p.2, stripped_headers)
    };
    (next, method, body, headers, p.4, (p.5 + 1) as u8, p.6 || removed)
}

/// The step after a response with `status` and `location`, and the plan for the next hop.
pub open spec fn after_response_spec(p: PlanView, status: u16, follow_redirects: bool, location: Option<Seq<char>>) -> (NextStep, PlanView) {
    if !is_redirection(status) || !follow_redirects {
        (NextStep::ReadBody, p)
    } else {
        match redirect_spec(p.0, location, p.5) {
            Hop::Follow(next, strip) => (NextStep::Resend, follow_spec(p, status, next, strip)),
            Hop::TooMany => (NextStep::Fail(ErrorKind::TooManyRedirects), p),
            Hop::Downgrade => (NextStep::Fail(ErrorKind::RedirectDowngrade), p),
            Hop::InvalidTarget => (NextStep::Fail(ErrorKind::InvalidUrl), p),
            Hop::NotRedirect => (NextStep::EmptyBody, p),
        }
    }
}

impl RequestPlan {
    /// Decide what follows a response, updating the request for a followed redirect.
    pub fn after_response(&mut self, status: u16, follow_redirects: bool, location: Option<&str>) -> (r: NextStep)
        ensures
            (r, final(self).model()) == after_response_spec(old(self).model(), status, follow_redirects, opt_ref_view(location)),
    {
        if !(300 <= status && status <= 399) || !follow_redirects {
            return NextStep::ReadBody;
        }
        let decision = decide_redirect(&self.url, location, self.redirects);
        match decision {
            RedirectDecision::Follow { next, strip } => {
                let ghost p = self.model();
                if strip {
                    let removed = strip_sensitive(&mut self.headers, &self.secret_names);
                    self.stripped = self.stripped || removed;
                }
                if 301 <= status && status <= 303 && self.method != HttpMethod::Get && self.method != HttpMethod::Head {
                    self.method = HttpMethod::Get;
                    self.body = None;
                    let mut drop: Vec<String> = Vec::new();
                    drop.push(owned("content-length"));
                    drop.push(owned("content-type"));
                    drop.push(owned("transfer-encoding"));
                    proof {
                        assert(names_view(drop@) =~= body_header_names());
                    }
                    remove_headers(&mut self.headers, &drop);
                }
                self.url = next;
                self.redirects = self.redirects + 1;
                NextStep::Resend
            },
            RedirectDecision::TooMany => NextStep::Fail(ErrorKind::TooManyRedirects),
            RedirectDecision::Downgrade => NextStep::Fail(ErrorKind::RedirectDowngrade),
            RedirectDecision::InvalidTarget => NextStep::Fail(ErrorKind::InvalidUrl),
            RedirectDecision::NotRedirect => NextStep::EmptyBody,
        }
    }
}

/// Add a chunk of body, keeping at most `MAX_BODY_BYTES`; says whether the body is full.
pub fn append_chunk(body: &mut Vec<u8>, chunk: &[u8]) -> (full: bool)
    ensures
        full == (old(body)@.len() >= MAX_BODY_BYTES),
        full ==> final(body)@ == old(body)@,
        !full ==> final(body)@ == old(body)@ + chunk@.take(
            if chunk@.len() < MAX_BODY_BYTES - old(body)@.len() { chunk@.len() as int } else { MAX_BODY_BYTES - old(body)@.len() },
        ),
{
    if body.len() >= MAX_BODY_BYTES {
        return true;
    }
    let room = MAX_BODY_BYTES - body.len();
    let take = if chunk.len() < room {
        chunk.len()
    } else {
        room
    };
    let ghost start = body@;
    let mut i: usize = 0;
    while i < take
        invariant
            i <= take,
            take <= chunk.len(),
            body@ == start + chunk@.take(i as int),
        decreases take - i,
    {
        body.push(chunk[i]);
        i = i + 1;
        assert(body@ =~= start + chunk@.take(i as int));
    }
    false
}

proof fn lemma_keep_excludes(hs: Seq<HeaderView>, drop: Seq<Seq<char>>)
    ensures
        forall|k: int| 0 <= k < keep_headers(hs, drop).len() ==> !drop.contains(#[trigger] keep_headers(hs, drop)[k].0),
    decreases hs.len(),
{
    if hs.len() > 0 {
        let p = hs.drop_last();
        lemma_keep_excludes(p, drop);
        let kp = keep_headers(p, drop);
        assert forall|k: int| 0 <= k < keep_headers(hs, drop).len() implies !drop.contains(#[trigger] keep_headers(hs, drop)[k].0) by {
            if k < kp.len() {
                assert(keep_headers(hs, drop)[k] == kp[k]);
            }
        }
    }
}

/// A check follows at most `MAX_REDIRECTS` redirects: each followed hop counts one more, and
/// none is followed once the limit is reached.
pub proof fn lemma_hop_limit(p: PlanView, status: u16, follow_redirects: bool, location: Option<Seq<char>>)
    ensures
        ({
            let (step, q) = after_response_spec(p, status, follow_redirects, location);
            step == NextStep::Resend ==> p.5 < MAX_REDIRECTS && q.5 == p.5 + 1
        }),
{
}

/// After a redirect to another host or scheme, no credential header and no secret header is
/// sent.
pub proof fn lemma_cross_origin_hop_sends_no_credentials(p: PlanView, status: u16, location: Option<Seq<char>>)
    ensures
        ({
            let (step, q) = after_response_spec(p, status, true, location);
            step == NextStep::Resend && (!same_host_spec(p.0.2, q.0.2) || p.0.1 != q.0.1) ==> forall|i: int|
                0 <= i < q.3.len() ==> !(credential_names() + p.4).contains(#[trigger] q.3[i].0)
        }),
{
    let (step, q) = after_response_spec(p, status, true, location);
    if step == NextStep::Resend && (!same_host_spec(p.0.2, q.0.2) || p.0.1 != q.0.1) {
        let drop = credential_names() + p.4;
        let kept = keep_headers(p.3, drop);
        lemma_keep_excludes(p.3, drop);
        if rewrites_to_get(status, p.1) {
            lemma_keep_len(kept, body_header_names());
            assert forall|i: int| 0 <= i < q.3.len() implies !drop.contains(#[trigger] q.3[i].0) by {
                assert(kept.contains(q.3[i]));
                let j = choose|j: int| 0 <= j < kept.len() && kept[j] == q.3[i];
                assert(!drop.contains(kept[j].0));
            }
        }
    }
}

} // verus!
