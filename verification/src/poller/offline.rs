//! Offline detection: when checks on several hosts fail the way a dead network fails, the
//! machine is offline and failures are not blamed on the services. Times are milliseconds since
//! the Unix epoch (a wall clock, which keeps counting while the machine sleeps).
use vstd::prelude::*;

use crate::domain::error::ErrorKind;
use crate::poller::client::{url_parse_result, ParsedUrl};
use crate::text::{ascii_lowercase, lower_seq, owned, str_eq};

verus! {

pub const OFFLINE_WINDOW_MS: i64 = 90000;
pub const WAKE_GRACE_MS: i64 = 15000;
pub const RESUME_SETTLE_MS: i64 = 2000;

/// Failures that a missing network produces.
pub open spec fn offline_signal(kind: ErrorKind) -> bool {
    kind == ErrorKind::Unreachable || kind == ErrorKind::Dns || kind == ErrorKind::Timeout
}

pub fn is_offline_signal(kind: ErrorKind) -> (r: bool)
    ensures
        r == offline_signal(kind),
{
    match kind {
        ErrorKind::Unreachable | ErrorKind::Dns | ErrorKind::Timeout => true,
        _ => false,
    }
}

/// Failures of a network interface that is not ready yet (shortly after wake).
pub fn is_transport_error(kind: ErrorKind) -> (r: bool)
    ensures
        r == (kind == ErrorKind::Timeout || kind == ErrorKind::Dns || kind == ErrorKind::Unreachable
            || kind == ErrorKind::Refused || kind == ErrorKind::Reset),
{
    match kind {
        ErrorKind::Timeout | ErrorKind::Dns | ErrorKind::Unreachable | ErrorKind::Refused | ErrorKind::Reset => true,
        _ => false,
    }
}

/// Overdue: more than two intervals past the due time.
pub open spec fn overdue_spec(now: i64, next_due: i64, interval_ms: u64) -> bool {
    let limit = if 2 * interval_ms > u64::MAX { u64::MAX as int } else { 2 * interval_ms };
    limit <= i64::MAX && now - next_due > limit
}

pub fn is_overdue(now: i64, next_due: i64, interval_ms: u64) -> (r: bool)
    ensures
        r == overdue_spec(now, next_due, interval_ms),
{
    let limit: u64 = if interval_ms > u64::MAX / 2 { u64::MAX } else { interval_ms * 2 };
    if limit > i64::MAX as u64 {
        return false;
    }
    (now as i128) - (next_due as i128) > limit as i128
}

/// The first 15 seconds after a wake.
pub fn in_wake_grace(now: i64, wake_at: i64) -> (r: bool)
    ensures
        r == (now - wake_at < WAKE_GRACE_MS),
{
    (now as i128) - (wake_at as i128) < WAKE_GRACE_MS as i128
}

/// The host of a check URL, in lower case.
pub fn host_of(url: &str) -> (r: Option<String>)
    ensures
        match url_parse_result(url@) {
            Some(u) => match u.2 {
                Some(h) => r matches Some(x) && x@ == lower_seq(h),
                None => r is None,
            },
            None => r is None,
        },
{
    match ParsedUrl::parse(url) {
        Some(u) => match u.host_str() {
            Some(h) => Some(ascii_lowercase(h)),
            None => None,
        },
        None => None,
    }
}

#[derive(Debug, Clone, Copy, PartialEq, Eq, Structural)]
pub enum OfflineTransition {
    NoChange,
    Entered,
    Exited { entered_at: i64 },
}

struct HostFail {
    host: String,
    at: i64,
}

/// Offline after failures on at least two distinct hosts within 90 s, with at least two
/// unpaused services. Any response (healthy or slow) exits, and blocks re-entry until the
/// failures before it age out.
pub struct OfflineDetector {
    offline: bool,
    entered_at: Option<i64>,
    last_success: Option<i64>,
    failures: Vec<HostFail>,
}

/// Model of the detector.
pub struct OfflineState {
    pub offline: bool,
    pub entered_at: Option<i64>,
    pub last_success: Option<i64>,
    pub failures: Seq<(Seq<char>, i64)>,
}

/// A failure still counts: within the window and after the last success.
pub open spec fn counts(f: (Seq<char>, i64), now: i64, last_success: Option<i64>) -> bool {
    now - f.1 <= OFFLINE_WINDOW_MS && match last_success {
        Some(s) => f.1 > s,
        None => true,
    }
}

pub open spec fn prune_spec(fs: Seq<(Seq<char>, i64)>, now: i64, last_success: Option<i64>) -> Seq<(Seq<char>, i64)>
    decreases fs.len(),
{
    if fs.len() == 0 {
        Seq::empty()
    } else {
        let k = prune_spec(fs.drop_last(), now, last_success);
        if counts(fs.last(), now, last_success) {
            k.push(fs.last())
        } else {
            k
        }
    }
}

/// At least two different hosts among the failures.
pub open spec fn two_hosts(fs: Seq<(Seq<char>, i64)>) -> bool {
    exists|i: int, j: int| 0 <= i < fs.len() && 0 <= j < fs.len() && (#[trigger] fs[i]).0 != (#[trigger] fs[j]).0
}

pub open spec fn recent_success_spec(last_success: Option<i64>, now: i64) -> bool {
    match last_success {
        Some(s) => now - s <= OFFLINE_WINDOW_MS,
        None => false,
    }
}

/// The failures on record after a check without a response: a failure of an offline kind on a
/// known host is added.
pub open spec fn recorded_failures(fs: Seq<(Seq<char>, i64)>, host: Option<Seq<char>>, kind: Option<ErrorKind>, now: i64) -> Seq<(Seq<char>, i64)> {
    match (host, kind) {
        (Some(h), Some(k)) => if offline_signal(k) { fs.push((h, now)) } else { fs },
        _ => fs,
    }
}

/// The detector after one check, and what changed.
pub open spec fn observe_spec(st: OfflineState, host: Option<Seq<char>>, kind: Option<ErrorKind>, reached: bool, unpaused: nat, now: i64) -> (OfflineState, OfflineTransition) {
    if reached {
        let fs = prune_spec(st.failures, now, Some(now));
        if !st.offline {
            (OfflineState { last_success: Some(now), failures: fs, ..st }, OfflineTransition::NoChange)
        } else {
            (
                OfflineState { offline: false, entered_at: None, last_success: Some(now), failures: fs },
                OfflineTransition::Exited { entered_at: match st.entered_at { Some(t) => t, None => now } },
            )
        }
    } else {
        let added = recorded_failures(st.failures, host, kind, now);
        let fs = prune_spec(added, now, st.last_success);
        if !st.offline && unpaused >= 2 && two_hosts(fs) && !recent_success_spec(st.last_success, now) {
            (OfflineState { offline: true, entered_at: Some(now), failures: fs, ..st }, OfflineTransition::Entered)
        } else {
            (OfflineState { failures: fs, ..st }, OfflineTransition::NoChange)
        }
    }
}

spec fn fail_model(f: HostFail) -> (Seq<char>, i64) {
    (f.host@, f.at)
}

impl OfflineDetector {
    pub closed spec fn model(&self) -> OfflineState {
        OfflineState {
            offline: self.offline,
            entered_at: self.entered_at,
            last_success: self.last_success,
            failures: self.failures@.map_values(|f: HostFail| fail_model(f)),
        }
    }

    pub fn new() -> (r: Self)
        ensures
            !r.model().offline,
            r.model().entered_at is None,
            r.model().last_success is None,
            r.model().failures == Seq::<(Seq<char>, i64)>::empty(),
    {
        let r = OfflineDetector { offline: false, entered_at: None, last_success: None, failures: Vec::new() };
        assert(r.model().failures =~= Seq::<(Seq<char>, i64)>::empty());
        r
    }

    pub fn is_offline(&self) -> (r: bool)
        ensures
            r == self.model().offline,
    {
        self.offline
    }

    pub fn entered_at(&self) -> (r: Option<i64>)
        ensures
            r == self.model().entered_at,
    {
        self.entered_at
    }

    fn prune(&mut self, now: i64)
        ensures
            final(self).model() == (OfflineState {
                failures: prune_spec(old(self).model().failures, now, old(self).model().last_success),
                ..old(self).model()
            }),
    {
        let ghost fs = self.model().failures;
        let mut kept: Vec<HostFail> = Vec::new();
        let mut i: usize = 0;
        proof {
            assert(kept@.map_values(|f: HostFail| fail_model(f)) =~= prune_spec(fs.take(0), now, self.last_success));
        }
        while i < self.failures.len()
            invariant
                i <= self.failures.len(),
                fs == self.failures@.map_values(|f: HostFail| fail_model(f)),
                kept@.map_values(|f: HostFail| fail_model(f)) == prune_spec(fs.take(i as int), now, self.last_success),
            decreases self.failures.len() - i,
        {
            proof {
                assert(fs.take(i + 1).drop_last() =~= fs.take(i as int));
                assert(fs.take(i + 1).last() == fs[i as int]);
            }
            let f = &self.failures[i];
            let in_window = (now as i128) - (f.at as i128) <= OFFLINE_WINDOW_MS as i128;
            let after_success = match self.last_success {
                Some(s) => f.at > s,
                None => true,
            };
            if in_window && after_success {
                let ghost before = kept@.map_values(|f: HostFail| fail_model(f));
                kept.push(HostFail { host: owned(f.host.as_str()), at: f.at });
                proof {
                    assert(kept@.map_values(|f: HostFail| fail_model(f)) =~= before.push(fs[i as int]));
                }
            }
            i = i + 1;
        }
        proof {
            assert(fs.take(i as int) =~= fs);
        }
        self.failures = kept;
    }

    fn two_hosts_exec(&self) -> (r: bool)
        ensures
            r == two_hosts(self.model().failures),
    {
        let ghost fs = self.model().failures;
        if self.failures.len() == 0 {
            return false;
        }
        let mut i: usize = 1;
        while i < self.failures.len()
            invariant
                1 <= i <= self.failures.len(),
                fs == self.model().failures,
                forall|k: int| 0 <= k < i ==> (#[trigger] fs[k]).0 == fs[0].0,
            decreases self.failures.len() - i,
        {
            if !str_eq(self.failures[i].host.as_str(), self.failures[0].host.as_str()) {
                assert(fs[i as int].0 != fs[0].0);
                return true;
            }
            i = i + 1;
        }
        proof {
            assert forall|a: int, b: int| 0 <= a < fs.len() && 0 <= b < fs.len() implies (#[trigger] fs[a]).0 == (#[trigger] fs[b]).0 by {
                assert(fs[a].0 == fs[0].0);
                assert(fs[b].0 == fs[0].0);
            }
        }
        false
    }

    /// Record one finished check: `reached` when a response came back (healthy or slow),
    /// else the failure's host and kind.
    pub fn observe(&mut self, host: Option<&str>, kind: Option<ErrorKind>, reached: bool, unpaused_services: usize, now: i64) -> (r: OfflineTransition)
        ensures
            (final(self).model(), r) == observe_spec(old(self).model(), crate::poller::client::opt_ref_view(host), kind, reached, unpaused_services as nat, now),
    {
        if reached {
            self.last_success = Some(now);
            self.prune(now);
            if !self.offline {
                return OfflineTransition::NoChange;
            }
            self.offline = false;
            let entered_at = match self.entered_at {
                Some(t) => t,
                None => now,
            };
            self.entered_at = None;
            return OfflineTransition::Exited { entered_at };
        }
        match (host, kind) {
            (Some(h), Some(k)) => {
                if is_offline_signal(k) {
                    let ghost before = self.model().failures;
                    self.failures.push(HostFail { host: owned(h), at: now });
                    proof {
                        assert(self.model().failures =~= before.push((h@, now)));
                    }
                }
            },
            _ => {},
        }
        self.prune(now);
        let recent = match self.last_success {
            Some(s) => (now as i128) - (s as i128) <= OFFLINE_WINDOW_MS as i128,
            None => false,
        };
        if !self.offline && unpaused_services >= 2 && self.two_hosts_exec() && !recent {
            self.offline = true;
            self.entered_at = Some(now);
            return OfflineTransition::Entered;
        }
        OfflineTransition::NoChange
    }
}

/// With fewer than two unpaused services the machine never goes offline.
pub proof fn lemma_single_service_never_offline(st: OfflineState, host: Option<Seq<char>>, kind: Option<ErrorKind>, reached: bool, unpaused: nat, now: i64)
    requires
        unpaused < 2,
    ensures
        observe_spec(st, host, kind, reached, unpaused, now).1 != OfflineTransition::Entered,
{
}

/// A response always ends an offline spell, and reports when it began.
pub proof fn lemma_reach_exits(st: OfflineState, host: Option<Seq<char>>, kind: Option<ErrorKind>, unpaused: nat, now: i64)
    ensures
        !observe_spec(st, host, kind, true, unpaused, now).0.offline,
        st.offline ==> observe_spec(st, host, kind, true, unpaused, now).1 is Exited,
{
}

/// While a success is recent (within 90 s), the machine does not go offline: one host that
/// still answers keeps Pulse online.
pub proof fn lemma_recent_success_blocks_entry(st: OfflineState, host: Option<Seq<char>>, kind: Option<ErrorKind>, unpaused: nat, now: i64)
    requires
        recent_success_spec(st.last_success, now),
    ensures
        observe_spec(st, host, kind, false, unpaused, now).1 != OfflineTransition::Entered,
{
}

/// Failures on a single host never take the machine offline.
pub proof fn lemma_one_host_not_offline(st: OfflineState, h: Seq<char>, kind: Option<ErrorKind>, unpaused: nat, now: i64)
    requires
        forall|i: int| 0 <= i < st.failures.len() ==> (#[trigger] st.failures[i]).0 == h,
    ensures
        observe_spec(st, Some(h), kind, false, unpaused, now).1 != OfflineTransition::Entered,
{
    let added = match kind {
        Some(k) => if offline_signal(k) { st.failures.push((h, now)) } else { st.failures },
        None => st.failures,
    };
    assert forall|i: int| 0 <= i < added.len() implies (#[trigger] added[i]).0 == h by {
        if i < st.failures.len() {
            assert(added[i] == st.failures[i]);
        }
    }
    lemma_prune_subset(added, now, st.last_success);
    let fs = prune_spec(added, now, st.last_success);
    assert forall|i: int, j: int| 0 <= i < fs.len() && 0 <= j < fs.len() implies (#[trigger] fs[i]).0 == (#[trigger] fs[j]).0 by {
        assert(added.contains(fs[i]));
        assert(added.contains(fs[j]));
    }
}

proof fn lemma_prune_members(fs: Seq<(Seq<char>, i64)>, now: i64, last_success: Option<i64>)
    ensures
        forall|x: (Seq<char>, i64)| #[trigger] prune_spec(fs, now, last_success).contains(x) <==> (fs.contains(x) && counts(x, now, last_success)),
    decreases fs.len(),
{
    if fs.len() > 0 {
        let p = fs.drop_last();
        lemma_prune_members(p, now, last_success);
        let k = prune_spec(p, now, last_success);
        let r = prune_spec(fs, now, last_success);
        assert forall|x: (Seq<char>, i64)| r.contains(x) <==> (fs.contains(x) && counts(x, now, last_success)) by {
            assert(fs == p.push(fs.last()));
            if counts(fs.last(), now, last_success) {
                assert(r == k.push(fs.last()));
                if r.contains(x) {
                    let i = choose|i: int| 0 <= i < r.len() && r[i] == x;
                    if i < k.len() {
                        assert(k[i] == x);
                        assert(k.contains(x));
                    }
                }
                if k.contains(x) {
                    let i = choose|i: int| 0 <= i < k.len() && k[i] == x;
                    assert(r[i] == x);
                }
                if x == fs.last() {
                    assert(r[r.len() - 1] == x);
                }
            }
            if fs.contains(x) {
                let i = choose|i: int| 0 <= i < fs.len() && fs[i] == x;
                if i < p.len() {
                    assert(p[i] == x);
                    assert(p.contains(x));
                }
            }
            if p.contains(x) {
                let i = choose|i: int| 0 <= i < p.len() && p[i] == x;
                assert(fs[i] == x);
            }
        }
    }
}

/// A check with a response ends an offline spell and reports when it began; otherwise nothing
/// changes that is reported. The machine is online afterwards either way.
pub proof fn lemma_reach_transition(st: OfflineState, host: Option<Seq<char>>, kind: Option<ErrorKind>, unpaused: nat, now: i64)
    ensures
        ({
            let (next, t) = observe_spec(st, host, kind, true, unpaused, now);
            &&& !next.offline
            &&& next.last_success == Some(now)
            &&& t == (if st.offline {
                OfflineTransition::Exited { entered_at: match st.entered_at { Some(e) => e, None => now } }
            } else {
                OfflineTransition::NoChange
            })
        }),
{
}

/// A check without a response only enters offline or changes nothing. It enters exactly when the
/// machine was online, at least two services are unpaused, no success is recent, and two failures
/// that still count (of an offline kind, within 90 s, after the last success) are on distinct
/// hosts.
pub proof fn lemma_entry_condition(st: OfflineState, host: Option<Seq<char>>, kind: Option<ErrorKind>, unpaused: nat, now: i64)
    ensures
        ({
            let t = observe_spec(st, host, kind, false, unpaused, now).1;
            let added = recorded_failures(st.failures, host, kind, now);
            &&& (t == OfflineTransition::Entered || t == OfflineTransition::NoChange)
            &&& (t == OfflineTransition::Entered <==> (!st.offline && unpaused >= 2
                && !recent_success_spec(st.last_success, now)
                && exists|a: (Seq<char>, i64), b: (Seq<char>, i64)|
                    #![trigger added.contains(a), added.contains(b)]
                    added.contains(a) && added.contains(b) && counts(a, now, st.last_success)
                        && counts(b, now, st.last_success) && a.0 != b.0))
        }),
{
    let added = recorded_failures(st.failures, host, kind, now);
    let fs = prune_spec(added, now, st.last_success);
    lemma_prune_members(added, now, st.last_success);
    if two_hosts(fs) {
        let (i, j) = choose|i: int, j: int| 0 <= i < fs.len() && 0 <= j < fs.len() && (#[trigger] fs[i]).0 != (#[trigger] fs[j]).0;
        assert(fs.contains(fs[i]) && fs.contains(fs[j]));
        assert(added.contains(fs[i]) && added.contains(fs[j]));
    }
    if exists|a: (Seq<char>, i64), b: (Seq<char>, i64)|
        #![trigger added.contains(a), added.contains(b)]
        added.contains(a) && added.contains(b) && counts(a, now, st.last_success)
            && counts(b, now, st.last_success) && a.0 != b.0 {
        let (a, b) = choose|a: (Seq<char>, i64), b: (Seq<char>, i64)|
            #![trigger added.contains(a), added.contains(b)]
            added.contains(a) && added.contains(b) && counts(a, now, st.last_success)
                && counts(b, now, st.last_success) && a.0 != b.0;
        assert(fs.contains(a) && fs.contains(b));
        let i = choose|i: int| 0 <= i < fs.len() && fs[i] == a;
        let j = choose|j: int| 0 <= j < fs.len() && fs[j] == b;
        assert(fs[i].0 != fs[j].0);
        assert(two_hosts(fs));
    }
}

proof fn lemma_prune_subset(fs: Seq<(Seq<char>, i64)>, now: i64, last_success: Option<i64>)
    ensures
        forall|i: int| 0 <= i < prune_spec(fs, now, last_success).len() ==> fs.contains(#[trigger] prune_spec(fs, now, last_success)[i]),
    decreases fs.len(),
{
    if fs.len() > 0 {
        let p = fs.drop_last();
        lemma_prune_subset(p, now, last_success);
        let k = prune_spec(p, now, last_success);
        assert forall|i: int| 0 <= i < prune_spec(fs, now, last_success).len() implies fs.contains(#[trigger] prune_spec(fs, now, last_success)[i]) by {
            if i < k.len() {
                assert(p.contains(k[i]));
                let j = choose|j: int| 0 <= j < p.len() && p[j] == k[i];
                assert(fs[j] == p[j]);
            } else {
                assert(fs[fs.len() - 1] == fs.last());
            }
        }
    }
}

} // verus!
