//! Toast copy. Never includes expected/actual values, headers, or the body preview.
use vstd::prelude::*;

use crate::domain::assertion::AssertionResult;
use crate::domain::check::CheckEvidence;
use crate::domain::error::{user_message_spec, ErrorKind, MessageArgs};
use crate::text::{byte_len, decimal, decimal_chars, extend_chars, extend_str, finish, owned, str_chars};
use vstd::string::*;

verus! {

/// Omit `+k more` when this many names already fit in `DIGEST_BODY_MAX`.
pub const DIGEST_NAME_CAP: usize = 3;

pub const DIGEST_BODY_MAX: usize = 60;

pub fn down_title(name: &str) -> (r: String)
    ensures
        r@ == name@,
{
    owned(name)
}

pub fn recovered_title(name: &str) -> (r: String)
    ensures
        r@ == name@,
{
    owned(name)
}

/// Largest whole unit: seconds, minutes, hours or days.
pub open spec fn duration_text(duration_ms: u64) -> Seq<char> {
    let secs = (duration_ms / 1000) as nat;
    if secs < 60 {
        decimal(secs) + "s"@
    } else if secs < 3600 {
        decimal(secs / 60) + "m"@
    } else if secs < 86400 {
        decimal(secs / 3600) + "h"@
    } else {
        decimal(secs / 86400) + "d"@
    }
}

pub fn format_duration(duration_ms: u64) -> (r: String)
    ensures
        r@ == duration_text(duration_ms),
{
    let secs = duration_ms / 1000;
    let (n, unit) = if secs < 60 {
        (secs, "s")
    } else if secs < 3600 {
        (secs / 60, "m")
    } else if secs < 86400 {
        (secs / 3600, "h")
    } else {
        (secs / 86400, "d")
    };
    let mut out = decimal_chars(n);
    extend_str(&mut out, unit);
    finish(out)
}

/// The latency label when it needs no rounding: `{ms}ms` under a second, `{s}s` on a whole
/// second. Other latencies are shown with one decimal of seconds, which is rounded in floating
/// point by the caller; for those this returns `None`.
pub fn format_latency_exact(ms: u32) -> (r: Option<String>)
    ensures
        ms < 1000 ==> (r matches Some(s) && s@ == decimal(ms as nat) + "ms"@),
        ms >= 1000 && ms % 1000 == 0 ==> (r matches Some(s) && s@ == decimal((ms / 1000) as nat) + "s"@),
        ms >= 1000 && ms % 1000 != 0 ==> r is None,
{
    if ms < 1000 {
        let mut out = decimal_chars(ms as u64);
        extend_str(&mut out, "ms");
        Some(finish(out))
    } else if ms % 1000 == 0 {
        let mut out = decimal_chars((ms / 1000) as u64);
        extend_str(&mut out, "s");
        Some(finish(out))
    } else {
        None
    }
}

pub fn recovered_body(duration_ms: u64) -> (r: String)
    ensures
        r@ == "Recovered · down "@ + duration_text(duration_ms),
{
    let mut out = str_chars("Recovered · down ");
    extend_str(&mut out, format_duration(duration_ms).as_str());
    finish(out)
}

pub fn digest_title(n: usize) -> (r: String)
    ensures
        r@ == decimal(n as nat) + " services down"@,
{
    let mut out = decimal_chars(n as u64);
    extend_str(&mut out, " services down");
    finish(out)
}

/// UTF-8 length of a string with these characters, as `str::len` reports it.

/// How many leading names the digest shows, continuing from `shown` names using `used` bytes.
pub open spec fn digest_count(lens: Seq<nat>, shown: nat, used: nat) -> nat
    decreases lens.len() - shown,
{
    if shown >= lens.len() || shown >= DIGEST_NAME_CAP {
        shown
    } else {
        let extra = if shown == 0 {
            lens[shown as int]
        } else {
            2 + lens[shown as int]
        };
        if used + extra > DIGEST_BODY_MAX && shown > 0 {
            shown
        } else {
            digest_count(lens, shown + 1, used + extra)
        }
    }
}

/// `parts` joined with `sep`.
pub open spec fn join(parts: Seq<Seq<char>>, sep: Seq<char>) -> Seq<char>
    decreases parts.len(),
{
    if parts.len() == 0 {
        Seq::empty()
    } else if parts.len() == 1 {
        parts[0]
    } else {
        join(parts.drop_last(), sep) + sep + parts.last()
    }
}

pub open spec fn strings_view(parts: Seq<String>) -> Seq<Seq<char>> {
    parts.map_values(|s: String| s@)
}

/// The parts with `sep` between each two, as `[String]::join` writes them.
pub fn join_strings(parts: &Vec<String>, sep: &str) -> (r: String)
    ensures
        r@ == join(strings_view(parts@), sep@),
{
    let ghost pv = strings_view(parts@);
    let mut out: Vec<char> = Vec::new();
    let mut i: usize = 0;
    while i < parts.len()
        invariant
            i <= parts.len(),
            pv == strings_view(parts@),
            out@ == join(pv.take(i as int), sep@),
        decreases parts.len() - i,
    {
        proof {
            assert(pv.take(i + 1).drop_last() =~= pv.take(i as int));
            assert(pv.take(i + 1).last() == parts@[i as int]@);
            if i == 0 {
                assert(pv.take(1) =~= seq![parts@[0]@]);
            }
        }
        if i > 0 {
            extend_str(&mut out, sep);
        }
        extend_str(&mut out, parts[i].as_str());
        i = i + 1;
    }
    proof {
        assert(pv.take(i as int) =~= pv);
    }
    finish(out)
}

pub open spec fn digest_body_spec(names: Seq<Seq<char>>) -> Seq<char> {
    if names.len() == 0 {
        Seq::empty()
    } else {
        let k = digest_count(names.map_values(|n: Seq<char>| byte_len(n)), 0, 0);
        let shown = join(names.take(k as int), ", "@);
        if names.len() == k {
            shown
        } else {
            shown + ", +"@ + decimal((names.len() - k) as nat) + " more"@
        }
    }
}

proof fn lemma_digest_count_bounds(lens: Seq<nat>, shown: nat, used: nat)
    requires
        shown <= lens.len(),
    ensures
        shown <= digest_count(lens, shown, used) <= lens.len(),
    decreases lens.len() - shown,
{
    if shown < lens.len() && shown < DIGEST_NAME_CAP {
        let extra = if shown == 0 {
            lens[shown as int]
        } else {
            2 + lens[shown as int]
        };
        if !(used + extra > DIGEST_BODY_MAX && shown > 0) {
            lemma_digest_count_bounds(lens, shown + 1, used + extra);
        }
    }
}

proof fn lemma_digest_shows_first(lens: Seq<nat>)
    requires
        lens.len() > 0,
    ensures
        1 <= digest_count(lens, 0, 0) <= lens.len(),
{
    lemma_digest_count_bounds(lens, 1, lens[0]);
}

/// The character views of string slices.
pub open spec fn str_views(s: Seq<&str>) -> Seq<Seq<char>> {
    s.map_values(|n: &str| n@)
}

/// `{name1}, {name2}, +{k} more`: drop `+k` when at most three names fit about 60 characters.
pub fn digest_body(names: &[&str]) -> (r: String)
    ensures
        r@ == digest_body_spec(str_views(names@)),
{
    if names.len() == 0 {
        return String::new();
    }
    let ghost views = str_views(names@);
    let ghost lens = views.map_values(|n: Seq<char>| byte_len(n));
    let mut out: Vec<char> = Vec::new();
    let mut shown: usize = 0;
    let mut used: u128 = 0;
    while shown < names.len()
        invariant_except_break
            views == str_views(names@),
            lens == views.map_values(|n: Seq<char>| byte_len(n)),
            shown <= names.len(),
            shown <= DIGEST_NAME_CAP,
            used <= DIGEST_BODY_MAX || shown == 1,
            shown == 0 ==> used == 0,
            used <= usize::MAX,
            digest_count(lens, 0, 0) == digest_count(lens, shown as nat, used as nat),
            out@ == join(views.take(shown as int), ", "@),
        ensures
            views == str_views(names@),
            lens == views.map_values(|n: Seq<char>| byte_len(n)),
            shown <= names.len(),
            digest_count(lens, 0, 0) == shown,
            out@ == join(views.take(shown as int), ", "@),
        decreases names.len() - shown,
    {
        if shown >= DIGEST_NAME_CAP {
            break;
        }
        let name: &str = names[shown];
        let len = name.len() as u128;
        let extra: u128 = if shown == 0 {
            len
        } else {
            2 + len
        };
        if used + extra > DIGEST_BODY_MAX as u128 && shown > 0 {
            break;
        }
        if shown > 0 {
            extend_str(&mut out, ", ");
        }
        extend_str(&mut out, name);
        proof {
            assert(views.take(shown + 1).drop_last() =~= views.take(shown as int));
            assert(views.take(shown + 1).last() == name@);
            if shown == 0 {
                assert(views.take(1) =~= seq![name@]);
            }
        }
        assert(lens[shown as int] == len);
        assert(shown == 0 ==> used == 0);
        assert(used + extra <= usize::MAX);
        used = used + extra;
        shown = shown + 1;
    }
    proof {
        lemma_digest_shows_first(lens);
        assert(views.take(shown as int) =~= views.take(shown as int));
    }
    let remaining = names.len() - shown;
    if remaining == 0 {
        finish(out)
    } else {
        extend_str(&mut out, ", +");
        let digits = decimal_chars(remaining as u64);
        extend_chars(&mut out, &digits);
        extend_str(&mut out, " more");
        finish(out)
    }
}


pub open spec fn http_suffix(http_status: Option<u16>) -> Seq<char> {
    match http_status {
        Some(code) => " · HTTP "@ + decimal(code as nat),
        None => Seq::empty(),
    }
}

pub open spec fn failed_results(results: Seq<AssertionResult>) -> Seq<AssertionResult> {
    results.filter(|r: AssertionResult| !r.ok)
}

/// `{path} failed`, `{n} assertions failed` or `Assertion failed`, then ` · HTTP {code}`.
pub open spec fn assertion_body_spec(ev: CheckEvidence) -> Seq<char> {
    let fails = failed_results(ev.assertion_results@);
    let suffix = http_suffix(ev.http_status);
    if fails.len() == 1 {
        fails[0].path@ + " failed"@ + suffix
    } else if fails.len() > 1 {
        decimal(fails.len()) + " assertions failed"@ + suffix
    } else {
        "Assertion failed"@ + suffix
    }
}

pub open spec fn with_http_spec(prefix: Seq<char>, http_status: Option<u16>) -> Seq<char> {
    prefix + http_suffix(http_status)
}

pub open spec fn timeout_args(timeout_ms: u32) -> MessageArgs<'static> {
    MessageArgs {
        timeout_ms: Some(timeout_ms),
        http_status: None,
        path: None,
        expected: None,
        actual: None,
        latency_ms: None,
        max_latency_ms: None,
        secret_key: None,
    }
}

/// Toast body for a Down. `latency_label` is the formatted latency of the check, when it has one.
pub open spec fn down_body_spec(ev: CheckEvidence, timeout_ms: u32, latency_label: Option<Seq<char>>) -> Seq<char> {
    match ev.error_kind {
        Some(ErrorKind::UnexpectedStatus) => "HTTP "@ + decimal(
            match ev.http_status {
                Some(c) => c as nat,
                None => 0,
            },
        ) + match latency_label {
            Some(l) => " · "@ + l,
            None => Seq::empty(),
        },
        Some(ErrorKind::Timeout) => user_message_spec(ErrorKind::Timeout, timeout_args(timeout_ms)),
        Some(ErrorKind::Dns) => "Couldn't resolve host"@,
        Some(ErrorKind::TlsExpired) => "TLS: certificate expired"@,
        Some(ErrorKind::TlsUntrusted) => "TLS: certificate untrusted"@,
        Some(ErrorKind::TlsHostname) => "TLS: hostname mismatch"@,
        Some(ErrorKind::TlsOther) => "TLS handshake failed"@,
        Some(ErrorKind::Refused) => "Connection refused"@,
        Some(ErrorKind::Reset) => "Connection reset"@,
        Some(ErrorKind::Unreachable) => "Network unreachable"@,
        Some(ErrorKind::TooManyRedirects) => "Too many redirects"@,
        Some(ErrorKind::RedirectDowngrade) => "Redirect would drop HTTPS"@,
        Some(ErrorKind::BodyParse) => with_http_spec("Response is not JSON"@, ev.http_status),
        Some(ErrorKind::Assertion) => assertion_body_spec(ev),
        Some(ErrorKind::InvalidUrl) => "Invalid URL"@,
        Some(ErrorKind::MissingSecret) => match ev.error {
            Some(e) => if e@.len() > 0 {
                e@
            } else {
                "Secret header is not set"@
            },
            None => "Secret header is not set"@,
        },
        Some(ErrorKind::Slow) => match ev.error {
            Some(e) => e@,
            None => "Check is slow"@,
        },
        _ => "Check failed"@,
    }
}

fn push_http_suffix(out: &mut Vec<char>, http_status: Option<u16>)
    ensures
        final(out)@ == old(out)@ + http_suffix(http_status),
{
    match http_status {
        Some(code) => {
            extend_str(out, " · HTTP ");
            let digits = decimal_chars(code as u64);
            extend_chars(out, &digits);
        },
        None => {
            assert(old(out)@ + Seq::<char>::empty() =~= old(out)@);
        },
    }
}

fn with_http(prefix: &str, http_status: Option<u16>) -> (r: String)
    ensures
        r@ == with_http_spec(prefix@, http_status),
{
    let mut out = str_chars(prefix);
    push_http_suffix(&mut out, http_status);
    finish(out)
}

fn assertion_body(evidence: &CheckEvidence) -> (r: String)
    ensures
        r@ == assertion_body_spec(*evidence),
{
    let results = &evidence.assertion_results;
    let ghost pred = |r: AssertionResult| !r.ok;
    let mut count: usize = 0;
    let mut first: usize = 0;
    let mut i: usize = 0;
    while i < results.len()
        invariant
            i <= results.len(),
            pred == (|r: AssertionResult| !r.ok),
            count == results@.take(i as int).filter(pred).len(),
            count > 0 ==> first < i && !results@[first as int].ok && results@.take(i as int).filter(pred)[0]
                == results@[first as int],
        decreases results.len() - i,
    {
        proof {
            reveal(Seq::filter);
            let t = results@.take(i + 1);
            assert(t.drop_last() =~= results@.take(i as int));
            assert(t.last() == results@[i as int]);
            broadcast use vstd::seq_lib::group_filter_ensures;
        }
        if !results[i].ok {
            if count == 0 {
                first = i;
                proof {
                    assert(results@.take(i as int).filter(pred).len() == 0);
                    assert(results@.take(i + 1).filter(pred) =~= seq![results@[i as int]]);
                }
            } else {
                proof {
                    let t = results@.take(i + 1);
                    assert(t.filter(pred) == t.drop_last().filter(pred).push(t.last()));
                    assert(t.filter(pred)[0] == t.drop_last().filter(pred)[0]);
                }
            }
            count = count + 1;
        }
        i = i + 1;
    }
    proof {
        assert(results@.take(results@.len() as int) =~= results@);
    }
    let mut out: Vec<char> = Vec::new();
    if count == 1 {
        extend_str(&mut out, results[first].path.as_str());
        extend_str(&mut out, " failed");
    } else if count > 1 {
        let digits = decimal_chars(count as u64);
        extend_chars(&mut out, &digits);
        extend_str(&mut out, " assertions failed");
    } else {
        extend_str(&mut out, "Assertion failed");
    }
    push_http_suffix(&mut out, evidence.http_status);
    assert(out@ =~= assertion_body_spec(*evidence));
    finish(out)
}

/// Toast body. Never includes expected/actual, headers, or the body preview.
/// `latency_label` is the check's formatted latency (`format_latency`), present exactly when the
/// check has a latency.
pub fn down_body(evidence: &CheckEvidence, timeout_ms: u32, latency_label: Option<&str>) -> (r: String)
    requires
        latency_label is Some == evidence.latency_ms is Some,
    ensures
        r@ == down_body_spec(
            *evidence,
            timeout_ms,
            match latency_label {
                Some(l) => Some(l@),
                None => None,
            },
        ),
{
    match evidence.error_kind {
        Some(ErrorKind::UnexpectedStatus) => {
            let code: u16 = match evidence.http_status {
                Some(c) => c,
                None => 0,
            };
            let mut out = str_chars("HTTP ");
            let digits = decimal_chars(code as u64);
            extend_chars(&mut out, &digits);
            match latency_label {
                Some(l) => {
                    extend_str(&mut out, " · ");
                    extend_str(&mut out, l);
                },
                None => {},
            }
            assert(out@ =~= down_body_spec(
                *evidence,
                timeout_ms,
                match latency_label {
                    Some(l) => Some(l@),
                    None => None,
                },
            ));
            finish(out)
        },
        Some(ErrorKind::Timeout) => {
            let args = MessageArgs {
                timeout_ms: Some(timeout_ms),
                http_status: None,
                path: None,
                expected: None,
                actual: None,
                latency_ms: None,
                max_latency_ms: None,
                secret_key: None,
            };
            ErrorKind::Timeout.user_message(&args)
        },
        Some(ErrorKind::Dns) => owned("Couldn't resolve host"),
        Some(ErrorKind::TlsExpired) => owned("TLS: certificate expired"),
        Some(ErrorKind::TlsUntrusted) => owned("TLS: certificate untrusted"),
        Some(ErrorKind::TlsHostname) => owned("TLS: hostname mismatch"),
        Some(ErrorKind::TlsOther) => owned("TLS handshake failed"),
        Some(ErrorKind::Refused) => owned("Connection refused"),
        Some(ErrorKind::Reset) => owned("Connection reset"),
        Some(ErrorKind::Unreachable) => owned("Network unreachable"),
        Some(ErrorKind::TooManyRedirects) => owned("Too many redirects"),
        Some(ErrorKind::RedirectDowngrade) => owned("Redirect would drop HTTPS"),
        Some(ErrorKind::BodyParse) => with_http("Response is not JSON", evidence.http_status),
        Some(ErrorKind::Assertion) => assertion_body(evidence),
        Some(ErrorKind::InvalidUrl) => owned("Invalid URL"),
        Some(ErrorKind::MissingSecret) => match &evidence.error {
            Some(e) => {
                if e.as_str().is_empty() {
                    owned("Secret header is not set")
                } else {
                    e.clone()
                }
            },
            None => owned("Secret header is not set"),
        },
        Some(ErrorKind::Slow) => match &evidence.error {
            Some(e) => e.clone(),
            None => owned("Check is slow"),
        },
        _ => owned("Check failed"),
    }
}

/// The path and verdict of each assertion result: all of a result that a toast may show.
pub open spec fn result_outline(rs: Seq<AssertionResult>) -> Seq<(Seq<char>, bool)> {
    rs.map_values(|r: AssertionResult| (r.path@, r.ok))
}

proof fn lemma_failed_outline(a: Seq<AssertionResult>, b: Seq<AssertionResult>)
    requires
        result_outline(a) == result_outline(b),
    ensures
        failed_results(a).len() == failed_results(b).len(),
        forall|k: int| 0 <= k < failed_results(a).len() ==> (#[trigger] failed_results(a)[k]).path@ == failed_results(b)[k].path@,
    decreases a.len(),
{
    reveal(Seq::filter);
    assert(a.len() == result_outline(a).len());
    assert(b.len() == result_outline(b).len());
    if a.len() > 0 {
        let n = a.len() - 1;
        assert(result_outline(a.drop_last()) =~= result_outline(a).drop_last());
        assert(result_outline(b.drop_last()) =~= result_outline(b).drop_last());
        lemma_failed_outline(a.drop_last(), b.drop_last());
        assert(result_outline(a)[n] == result_outline(b)[n]);
        assert(a.last().ok == b.last().ok && a.last().path@ == b.last().path@);
        let fa = failed_results(a.drop_last());
        let fb = failed_results(b.drop_last());
        if !a.last().ok {
            assert(failed_results(a) == fa.push(a.last()));
            assert(failed_results(b) == fb.push(b.last()));
            assert forall|k: int| 0 <= k < failed_results(a).len() implies (#[trigger] failed_results(a)[k]).path@ == failed_results(b)[k].path@ by {
                if k < fa.len() {
                    assert(failed_results(a)[k] == fa[k]);
                    assert(failed_results(b)[k] == fb[k]);
                }
            }
        } else {
            assert(failed_results(a) == fa);
            assert(failed_results(b) == fb);
        }
    }
}

/// A Down toast never shows a body preview or an assertion's expected or actual value: two
/// checks that agree on the error kind, the status, the error text and the paths and verdicts
/// of their assertions give the same toast body.
pub proof fn lemma_down_body_ignores_values(e1: CheckEvidence, e2: CheckEvidence, timeout_ms: u32, latency_label: Option<Seq<char>>)
    requires
        e1.error_kind == e2.error_kind,
        e1.http_status == e2.http_status,
        crate::eval::opt_string_view(e1.error) == crate::eval::opt_string_view(e2.error),
        result_outline(e1.assertion_results@) == result_outline(e2.assertion_results@),
    ensures
        down_body_spec(e1, timeout_ms, latency_label) == down_body_spec(e2, timeout_ms, latency_label),
{
    lemma_failed_outline(e1.assertion_results@, e2.assertion_results@);
    let f1 = failed_results(e1.assertion_results@);
    let f2 = failed_results(e2.assertion_results@);
    if f1.len() == 1 {
        assert(f1[0].path@ == f2[0].path@);
    }
    assert(assertion_body_spec(e1) == assertion_body_spec(e2));
}
} // verus!
