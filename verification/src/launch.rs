//! Launch flags (`--paused`, `--demo`) and the demo fixtures.
use vstd::prelude::*;

use crate::domain::assertion::{opt_json, AssertOp, Assertion};
use crate::domain::json::{Json, JsonValue};
use crate::domain::service::{opt_view, ExpectedStatus, HttpMethod, Service};
use crate::domain::settings::{DEFAULT_INTERVAL_SEC, DEFAULT_TIMEOUT_MS};
use crate::text::{owned, str_eq};

verus! {

#[derive(Debug, Clone, Copy, PartialEq, Eq, Structural)]
pub struct LaunchFlags {
    pub paused: bool,
    pub demo: bool,
}

impl Default for LaunchFlags {
    fn default() -> (r: Self)
        ensures
            r == (LaunchFlags { paused: false, demo: false }),
    {
        LaunchFlags { paused: false, demo: false }
    }
}

pub open spec fn has_arg(args: Seq<&str>, flag: Seq<char>) -> bool {
    exists|i: int| 0 <= i < args.len() && (#[trigger] args[i])@ == flag
}

impl LaunchFlags {
    /// `--paused` and `--demo` anywhere among the arguments; others are ignored.
    pub fn from_args(args: &[&str]) -> (r: Self)
        ensures
            r.paused == has_arg(args@, "--paused"@),
            r.demo == has_arg(args@, "--demo"@),
    {
        let mut flags = LaunchFlags { paused: false, demo: false };
        let mut i: usize = 0;
        proof {
            reveal_strlit("--paused");
            reveal_strlit("--demo");
            assert("--paused"@.len() == 8);
            assert("--demo"@.len() == 6);
        }
        while i < args.len()
            invariant
                i <= args.len(),
                "--paused"@ != "--demo"@,
                flags.paused == exists|k: int| 0 <= k < i && (#[trigger] args@[k])@ == "--paused"@,
                flags.demo == exists|k: int| 0 <= k < i && (#[trigger] args@[k])@ == "--demo"@,
            decreases args.len() - i,
        {
            let arg: &str = args[i];
            if str_eq(arg, "--paused") {
                flags.paused = true;
            } else if str_eq(arg, "--demo") {
                flags.demo = true;
            }
            i = i + 1;
        }
        flags
    }
}

/// Every service paused, nothing else changed.
pub fn pause_all(services: &mut Vec<Service>)
    ensures
        final(services)@.len() == old(services)@.len(),
        forall|i: int| 0 <= i < old(services)@.len() ==> (#[trigger] final(services)@[i]) == (Service { paused: true, ..old(services)@[i] }),
{
    let ghost orig = services@;
    let mut out: Vec<Service> = Vec::new();
    while services.len() > 0
        invariant
            services@.len() <= orig.len(),
            out@.len() == orig.len() - services@.len(),
            services@ == orig.skip(out@.len() as int),
            forall|i: int| 0 <= i < out@.len() ==> (#[trigger] out@[i]) == (Service { paused: true, ..orig[i] }),
        decreases services.len(),
    {
        let ghost k = out@.len() as int;
        let mut s = services.remove(0);
        assert(s == orig[k]);
        s.paused = true;
        out.push(s);
        assert(services@ =~= orig.skip(k + 1));
    }
    *services = out;
}

/// Two services that stand for the same check: same id or same URL.
pub open spec fn clashes(a: Service, b: Service) -> bool {
    a.id@ == b.id@ || a.url@ == b.url@
}

pub open spec fn clashes_any(acc: Seq<Service>, s: Service) -> bool {
    exists|i: int| 0 <= i < acc.len() && clashes(#[trigger] acc[i], s)
}

/// `existing` followed by the demo services that clash with nothing before them.
pub open spec fn merge_spec(existing: Seq<Service>, demo: Seq<Service>) -> Seq<Service>
    decreases demo.len(),
{
    if demo.len() == 0 {
        existing
    } else {
        let acc = merge_spec(existing, demo.drop_last());
        if clashes_any(acc, demo.last()) {
            acc
        } else {
            acc.push(demo.last())
        }
    }
}

fn clashes_exec(acc: &Vec<Service>, s: &Service) -> (r: bool)
    ensures
        r == clashes_any(acc@, *s),
{
    let mut i: usize = 0;
    while i < acc.len()
        invariant
            i <= acc.len(),
            forall|k: int| 0 <= k < i ==> !clashes(#[trigger] acc@[k], *s),
        decreases acc.len() - i,
    {
        if str_eq(acc[i].id.as_str(), s.id.as_str()) || str_eq(acc[i].url.as_str(), s.url.as_str()) {
            assert(clashes(acc@[i as int], *s));
            return true;
        }
        i = i + 1;
    }
    false
}

/// Add the demo services that are not already there, by id or by URL.
pub fn merge_demo(existing: Vec<Service>, demo: Vec<Service>) -> (r: Vec<Service>)
    ensures
        r@ == merge_spec(existing@, demo@),
{
    let ghost d = demo@;
    let mut acc = existing;
    let mut rest = demo;
    proof {
        assert(d.take(0) =~= Seq::<Service>::empty());
        assert(rest@ =~= d.skip(0));
    }
    while rest.len() > 0
        invariant
            rest@.len() <= d.len(),
            rest@ == d.skip(d.len() - rest@.len()),
            acc@ == merge_spec(existing@, d.take(d.len() - rest@.len())),
        decreases rest.len(),
    {
        let ghost k = d.len() - rest@.len();
        let s = rest.remove(0);
        proof {
            assert(s == d[k]);
            assert(d.take(k + 1).drop_last() =~= d.take(k));
            assert(d.take(k + 1).last() == d[k]);
            assert(rest@ =~= d.skip(k + 1));
        }
        if !clashes_exec(&acc, &s) {
            acc.push(s);
        }
    }
    proof {
        assert(d.take(d.len() as int) =~= d);
    }
    acc
}

/// Merging only ever appends: the earlier result is a prefix of the later one.
proof fn lemma_merge_grows(existing: Seq<Service>, demo: Seq<Service>, k: int)
    requires
        0 <= k <= demo.len(),
    ensures
        merge_spec(existing, demo.take(k)).len() <= merge_spec(existing, demo).len(),
        forall|i: int| 0 <= i < merge_spec(existing, demo.take(k)).len() ==> merge_spec(existing, demo)[i]
            == #[trigger] merge_spec(existing, demo.take(k))[i],
    decreases demo.len() - k,
{
    if k == demo.len() {
        assert(demo.take(k) =~= demo);
    } else {
        lemma_merge_grows(existing, demo, k + 1);
        assert(demo.take(k + 1).drop_last() =~= demo.take(k));
        let small = merge_spec(existing, demo.take(k));
        let big = merge_spec(existing, demo.take(k + 1));
        assert forall|i: int| 0 <= i < small.len() implies big[i] == #[trigger] small[i] by {
        }
        assert forall|i: int| 0 <= i < small.len() implies merge_spec(existing, demo)[i] == #[trigger] small[i] by {
            assert(big[i] == small[i]);
            assert(merge_spec(existing, demo)[i] == big[i]);
        }
    }
}

/// After a merge, every demo service clashes with some service of the result.
proof fn lemma_merge_covers(existing: Seq<Service>, demo: Seq<Service>, j: int)
    requires
        0 <= j < demo.len(),
    ensures
        clashes_any(merge_spec(existing, demo), demo[j]),
{
    let r = merge_spec(existing, demo);
    let before = merge_spec(existing, demo.take(j));
    let after = merge_spec(existing, demo.take(j + 1));
    assert(demo.take(j + 1).drop_last() =~= demo.take(j));
    assert(demo.take(j + 1).last() == demo[j]);
    lemma_merge_grows(existing, demo, j + 1);
    if clashes_any(before, demo[j]) {
        let i = choose|i: int| 0 <= i < before.len() && clashes(#[trigger] before[i], demo[j]);
        assert(after == before);
        assert(r[i] == after[i]);
    } else {
        assert(after == before.push(demo[j]));
        let i = before.len() as int;
        assert(r[i] == after[i]);
        assert(clashes(r[i], demo[j]));
    }
}

/// Merging into a list that already covers every demo service changes nothing.
proof fn lemma_merge_covered(base: Seq<Service>, demo: Seq<Service>)
    requires
        forall|j: int| 0 <= j < demo.len() ==> clashes_any(base, #[trigger] demo[j]),
    ensures
        merge_spec(base, demo) == base,
    decreases demo.len(),
{
    if demo.len() > 0 {
        assert forall|j: int| 0 <= j < demo.drop_last().len() implies clashes_any(base, #[trigger] demo.drop_last()[j]) by {
            assert(demo.drop_last()[j] == demo[j]);
        }
        lemma_merge_covered(base, demo.drop_last());
        assert(clashes_any(base, demo[demo.len() - 1]));
    }
}

/// Merging the same demo set twice gives the result of merging it once.
pub proof fn lemma_merge_demo_idempotent(existing: Seq<Service>, demo: Seq<Service>)
    ensures
        merge_spec(merge_spec(existing, demo), demo) == merge_spec(existing, demo),
{
    let r = merge_spec(existing, demo);
    assert forall|j: int| 0 <= j < demo.len() implies clashes_any(r, #[trigger] demo[j]) by {
        lemma_merge_covers(existing, demo, j);
    }
    lemma_merge_covered(r, demo);
}

/// Services already present are kept as they are, in front.
pub proof fn lemma_merge_keeps_existing(existing: Seq<Service>, demo: Seq<Service>)
    ensures
        merge_spec(existing, demo).len() >= existing.len(),
        forall|i: int| 0 <= i < existing.len() ==> #[trigger] merge_spec(existing, demo)[i] == existing[i],
{
    lemma_merge_grows(existing, demo, 0);
    assert(demo.take(0) =~= Seq::<Service>::empty());
}

/// An `Equals` assertion on `path` with `value`.
pub open spec fn equals_assertion(a: Assertion, path: Seq<char>, value: Json) -> bool {
    a.path@ == path && a.op == AssertOp::Equals && opt_json(a.value) == Some(value)
}

/// A demo row: a `GET` every minute, expecting 2xx, notifying, following redirects.
pub open spec fn is_harbor_row(
    s: Service,
    id: Seq<char>,
    name: Seq<char>,
    url: Seq<char>,
    now: i64,
    max_latency_ms: Option<u32>,
    action_url: Option<Seq<char>>,
    always_alert: bool,
    group: Option<Seq<char>>,
) -> bool {
    &&& s.id@ == id
    &&& s.name@ == name
    &&& s.url@ == url
    &&& s.method == HttpMethod::Get
    &&& s.headers@.len() == 0
    &&& s.body is None
    &&& s.interval_sec == DEFAULT_INTERVAL_SEC
    &&& s.timeout_ms == DEFAULT_TIMEOUT_MS
    &&& s.expected_status == ExpectedStatus::TwoXx
    &&& s.max_latency_ms == max_latency_ms
    &&& opt_view(s.action_url) == action_url
    &&& s.notify
    &&& s.always_alert == always_alert
    &&& !s.paused
    &&& s.follow_redirects
    &&& s.fail_threshold is None
    &&& opt_view(s.group) == group
    &&& s.created_at == now
    &&& s.updated_at == now
}

struct HarborExtra {
    max_latency_ms: Option<u32>,
    action_url: Option<String>,
    always_alert: bool,
    group: Option<String>,
}

fn equals(path: &str, value: JsonValue) -> (r: Assertion)
    ensures
        equals_assertion(r, path@, value@),
{
    Assertion { path: owned(path), op: AssertOp::Equals, value: Some(value) }
}

fn text(s: &str) -> (r: JsonValue)
    ensures
        r@ == Json::Text(s@),
{
    JsonValue::Text(owned(s))
}

fn harbor(id: &str, name: &str, url: &str, assertions: Vec<Assertion>, now: i64, extra: Option<HarborExtra>) -> (r: Service)
    ensures
        r.assertions == assertions,
        match extra {
            Some(e) => is_harbor_row(r, id@, name@, url@, now, e.max_latency_ms, opt_view(e.action_url), e.always_alert, opt_view(e.group)),
            None => is_harbor_row(r, id@, name@, url@, now, None, None, false, None),
        },
{
    let extra = match extra {
        Some(e) => e,
        None => HarborExtra { max_latency_ms: None, action_url: None, always_alert: false, group: None },
    };
    Service {
        id: owned(id),
        name: owned(name),
        url: owned(url),
        method: HttpMethod::Get,
        headers: Vec::new(),
        body: None,
        interval_sec: DEFAULT_INTERVAL_SEC,
        timeout_ms: DEFAULT_TIMEOUT_MS,
        expected_status: ExpectedStatus::TwoXx,
        assertions,
        max_latency_ms: extra.max_latency_ms,
        action_url: extra.action_url,
        notify: true,
        always_alert: extra.always_alert,
        paused: false,
        follow_redirects: true,
        fail_threshold: None,
        group: extra.group,
        created_at: now,
        updated_at: now,
    }
}

/// The seven demo services of the Harbor fixture, created at `now`.
pub fn harbor_services(now: i64) -> (r: Vec<Service>)
    ensures
        r@.len() == 7,
        is_harbor_row(r@[0], "01JABCDEF0000000000000API"@, "API"@, "https://api.harbor.dev/health"@, now, None, None, false, None),
        is_harbor_row(r@[1], "01JABCDEF0000000000000WEB"@, "Web"@, "https://app.harbor.dev/api/healthz"@, now, None, None, false, None),
        is_harbor_row(r@[2], "01JABCDEF0000000000000WRK"@, "Worker"@, "https://worker.harbor.dev/health"@, now, None, None, false, None),
        is_harbor_row(r@[3], "01JABCDEF0000000000000ATH"@, "Auth"@, "https://auth.harbor.dev/health"@, now, None, None, false, None),
        is_harbor_row(r@[4], "01JABCDEF0000000000000PAY"@, "Payments API"@, "https://pay.harbor.dev/health"@, now, Some(800u32),
            Some("https://grafana.harbor.dev/d/pay"@), true, Some("prod"@)),
        is_harbor_row(r@[5], "01JABCDEF0000000000000DOC"@, "Docs"@, "https://docs.harbor.dev/health"@, now, None, None, false, None),
        is_harbor_row(r@[6], "01JABCDEF0000000000000NAS"@, "NAS"@, "https://nas.home.arpa/api/v2.0/system/info"@, now, None, None, false,
            Some("home"@)),
        r@[0].assertions@.len() == 1 && equals_assertion(r@[0].assertions@[0], "status"@, Json::Text("ok"@)),
        r@[1].assertions@.len() == 1 && equals_assertion(r@[1].assertions@[0], "ok"@, Json::Bool(true)),
        r@[2].assertions@.len() == 1 && equals_assertion(r@[2].assertions@[0], "status"@, Json::Text("ok"@)),
        r@[3].assertions@.len() == 1 && equals_assertion(r@[3].assertions@[0], "status"@, Json::Text("ok"@)),
        r@[4].assertions@.len() == 2 && equals_assertion(r@[4].assertions@[0], "status"@, Json::Text("ok"@))
            && equals_assertion(r@[4].assertions@[1], "errors.length"@, Json::Number("0"@)),
        r@[5].assertions@.len() == 1 && equals_assertion(r@[5].assertions@[0], "ok"@, Json::Bool(true)),
        r@[6].assertions@.len() == 1 && equals_assertion(r@[6].assertions@[0], "healthy"@, Json::Bool(true)),
{
    let mut out: Vec<Service> = Vec::new();
    let a0 = vec![equals("status", text("ok"))];
    out.push(harbor("01JABCDEF0000000000000API", "API", "https://api.harbor.dev/health", a0, now, None));
    let a1 = vec![equals("ok", JsonValue::Bool(true))];
    out.push(harbor("01JABCDEF0000000000000WEB", "Web", "https://app.harbor.dev/api/healthz", a1, now, None));
    let a2 = vec![equals("status", text("ok"))];
    out.push(harbor("01JABCDEF0000000000000WRK", "Worker", "https://worker.harbor.dev/health", a2, now, None));
    let a3 = vec![equals("status", text("ok"))];
    out.push(harbor("01JABCDEF0000000000000ATH", "Auth", "https://auth.harbor.dev/health", a3, now, None));
    let a4 = vec![equals("status", text("ok")), equals("errors.length", JsonValue::Number(owned("0")))];
    let pay = HarborExtra {
        max_latency_ms: Some(800),
        action_url: Some(owned("https://grafana.harbor.dev/d/pay")),
        always_alert: true,
        group: Some(owned("prod")),
    };
    out.push(harbor("01JABCDEF0000000000000PAY", "Payments API", "https://pay.harbor.dev/health", a4, now, Some(pay)));
    let a5 = vec![equals("ok", JsonValue::Bool(true))];
    out.push(harbor("01JABCDEF0000000000000DOC", "Docs", "https://docs.harbor.dev/health", a5, now, None));
    let a6 = vec![equals("healthy", JsonValue::Bool(true))];
    let nas = HarborExtra { max_latency_ms: None, action_url: None, always_alert: false, group: Some(owned("home")) };
    out.push(harbor("01JABCDEF0000000000000NAS", "NAS", "https://nas.home.arpa/api/v2.0/system/info", a6, now, Some(nas)));
    out
}

} // verus!
