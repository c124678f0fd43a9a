//! Notification policy, payloads and grouping.
pub mod copy;
pub mod os;
pub mod quiet;
use vstd::prelude::*;

use crate::domain::check::CheckEvidence;
use crate::notify::copy::{
    digest_body, digest_body_spec, digest_title, down_body, down_body_spec, down_title,
    duration_text, recovered_body, recovered_title, str_views,
};
use crate::text::{decimal, owned, str_eq};

verus! {

/// Inputs to `notify_enabled()` / quiet-hours enqueue.
#[derive(Debug, Clone, Copy, PartialEq, Eq, Structural)]
pub struct NotifyPolicy {
    pub notifications: bool,
    pub service_notify: bool,
    pub always_alert: bool,
    pub in_quiet_hours: bool,
    pub snoozed: bool,
    pub keychain_identity_changed: bool,
}

pub open spec fn notify_enabled_spec(p: NotifyPolicy) -> bool {
    p.notifications && p.service_notify && (p.always_alert || !p.in_quiet_hours) && !p.snoozed
        && !p.keychain_identity_changed
}

pub open spec fn should_queue_spec(p: NotifyPolicy) -> bool {
    p.notifications && p.service_notify && p.in_quiet_hours && !p.always_alert && !p.snoozed
        && !p.keychain_identity_changed
}

impl Default for NotifyPolicy {
    /// Everything on, not quiet, not snoozed.
    fn default() -> (r: Self)
        ensures
            r.notifications && r.service_notify && !r.always_alert && !r.in_quiet_hours
                && !r.snoozed && !r.keychain_identity_changed,
    {
        NotifyPolicy {
            notifications: true,
            service_notify: true,
            always_alert: false,
            in_quiet_hours: false,
            snoozed: false,
            keychain_identity_changed: false,
        }
    }
}

impl NotifyPolicy {
    /// `notifications && service.notify && (alwaysAlert || !quiet) && !snoozed && !keychainIdentityChanged`
    pub fn notify_enabled(&self) -> (r: bool)
        ensures
            r == notify_enabled_spec(*self),
    {
        self.notifications && self.service_notify && (self.always_alert || !self.in_quiet_hours)
            && !self.snoozed && !self.keychain_identity_changed
    }

    /// Would have toasted if not for the quiet window. Snooze / identity miss never enqueue.
    pub fn should_queue(&self) -> (r: bool)
        ensures
            r == should_queue_spec(*self),
    {
        self.notifications && self.service_notify && self.in_quiet_hours && !self.always_alert
            && !self.snoozed && !self.keychain_identity_changed
    }
}

#[derive(Debug, Clone, Copy, PartialEq, Eq, Structural)]
pub enum Emit {
    Down,
    Recovered { duration_ms: u64 },
}

#[derive(Debug, Clone, Copy, PartialEq, Eq, Structural)]
pub enum QueueOp {
    NoOp,
    Enqueue,
    Dequeue,
}

/// A toast is never both shown and queued, and a queued one is only queued in a quiet window.
pub proof fn lemma_notify_or_queue_exclusive(p: NotifyPolicy)
    ensures
        !(notify_enabled_spec(p) && should_queue_spec(p)),
        should_queue_spec(p) ==> p.in_quiet_hours,
        (p.snoozed || p.keychain_identity_changed) ==> !notify_enabled_spec(p) && !should_queue_spec(p),
{
}


#[derive(Debug, PartialEq, Eq)]
pub enum Notification {
    Down { service_id: String, title: String, body: String },
    Recovered { service_id: String, title: String, body: String },
    Digest { service_ids: Vec<String>, title: String, body: String },
}

/// Where notifications go. The application's notifier shows them on the desktop.
pub trait Notifier {
    fn notify(&mut self, notification: Notification);
}

/// Keeps every notification, in order.
#[derive(Debug, Default)]
pub struct RecordingNotifier {
    pub events: Vec<Notification>,
}

impl Notifier for RecordingNotifier {
    fn notify(&mut self, notification: Notification)
        ensures
            final(self).events@ == old(self).events@.push(notification),
    {
        self.events.push(notification);
    }
}

impl RecordingNotifier {
    /// Record one notification at the end.
    pub fn record(&mut self, notification: Notification)
        ensures
            final(self).events@ == old(self).events@.push(notification),
    {
        self.events.push(notification);
    }
}

/// Drops every notification.
#[derive(Debug, Default, Clone, Copy)]
pub struct NoopNotifier;

impl Notifier for NoopNotifier {
    fn notify(&mut self, notification: Notification) {
    }
}

pub open spec fn string_views(v: Seq<String>) -> Seq<Seq<char>> {
    v.map_values(|s: String| s@)
}

pub open spec fn pair_ids(v: Seq<(&str, &str)>) -> Seq<Seq<char>> {
    v.map_values(|p: (&str, &str)| p.0@)
}

pub open spec fn pair_names(v: Seq<(&str, &str)>) -> Seq<Seq<char>> {
    v.map_values(|p: (&str, &str)| p.1@)
}

pub open spec fn down_ids(v: Seq<Notification>) -> Seq<Seq<char>> {
    v.map_values(|n: Notification| down_id(n))
}

pub open spec fn down_title_of(n: Notification) -> Seq<char> {
    match n {
        Notification::Down { title, .. } => title@,
        _ => Seq::empty(),
    }
}

pub open spec fn down_titles(v: Seq<Notification>) -> Seq<Seq<char>> {
    v.map_values(|n: Notification| down_title_of(n))
}

impl Notification {
    /// A Down toast for one service. `latency_label` is the formatted latency, present exactly
    /// when the evidence has one.
    pub fn down(
        service_id: String,
        name: &str,
        evidence: &CheckEvidence,
        timeout_ms: u32,
        latency_label: Option<&str>,
    ) -> (r: Self)
        requires
            latency_label is Some == evidence.latency_ms is Some,
        ensures
            r matches Notification::Down { service_id: id, title, body } && id == service_id
                && title@ == name@ && body@ == down_body_spec(
                *evidence,
                timeout_ms,
                match latency_label {
                    Some(l) => Some(l@),
                    None => None,
                },
            ),
    {
        Notification::Down {
            service_id,
            title: down_title(name),
            body: down_body(evidence, timeout_ms, latency_label),
        }
    }

    pub fn recovered(service_id: String, name: &str, duration_ms: u64) -> (r: Self)
        ensures
            r matches Notification::Recovered { service_id: id, title, body } && id == service_id
                && title@ == name@ && body@ == "Recovered · down "@ + duration_text(duration_ms),
    {
        Notification::Recovered {
            service_id,
            title: recovered_title(name),
            body: recovered_body(duration_ms),
        }
    }

    /// One toast for several Downs: ids in order, `"{n} services down"`, and the names.
    pub fn digest(names: &[(&str, &str)]) -> (r: Self)
        ensures
            r matches Notification::Digest { service_ids, title, body } && string_views(service_ids@)
                == pair_ids(names@) && title@ == decimal(names@.len()) + " services down"@ && body@
                == digest_body_spec(pair_names(names@)),
    {
        let mut service_ids: Vec<String> = Vec::new();
        let mut titles: Vec<&str> = Vec::new();
        let mut i: usize = 0;
        while i < names.len()
            invariant
                i <= names.len(),
                string_views(service_ids@) == pair_ids(names@.take(i as int)),
                str_views(titles@) == pair_names(names@.take(i as int)),
            decreases names.len() - i,
        {
            let ghost prev_ids = service_ids@;
            let ghost prev_titles = titles@;
            service_ids.push(owned(names[i].0));
            titles.push(names[i].1);
            proof {
                assert(string_views(service_ids@) =~= string_views(prev_ids).push(names@[i as int].0@));
                assert(pair_ids(names@.take(i + 1)) =~= pair_ids(names@.take(i as int)).push(names@[i as int].0@));
                assert(str_views(titles@) =~= str_views(prev_titles).push(names@[i as int].1@));
                assert(pair_names(names@.take(i + 1)) =~= pair_names(names@.take(i as int)).push(names@[i as int].1@));
            }
            i = i + 1;
            assert(string_views(service_ids@) =~= pair_ids(names@.take(i as int)));
            assert(str_views(titles@) =~= pair_names(names@.take(i as int)));
        }
        assert(names@.take(names.len() as int) =~= names@);
        Notification::Digest {
            service_ids,
            title: digest_title(names.len()),
            body: digest_body(titles.as_slice()),
        }
    }

    /// The service of a single-service toast. A digest has none.
    pub fn service_id(&self) -> (r: Option<&str>)
        ensures
            match *self {
                Notification::Down { service_id, .. } => r matches Some(s) && s@ == service_id@,
                Notification::Recovered { service_id, .. } => r matches Some(s) && s@
                    == service_id@,
                Notification::Digest { .. } => r is None,
            },
    {
        match self {
            Notification::Down { service_id, .. } => Some(service_id.as_str()),
            Notification::Recovered { service_id, .. } => Some(service_id.as_str()),
            Notification::Digest { .. } => None,
        }
    }
}

pub const DOWN_GROUP_WINDOW_MS: i64 = 2_000;

/// Holds immediate Down toasts for 2s so a burst collapses to a digest.
#[derive(Debug)]
pub struct DownGrouper {
    pending: Vec<Notification>,
    window_start: Option<i64>,
}

/// Kind and service id of a notification, for contracts.
pub open spec fn is_down(n: Notification) -> bool {
    n is Down
}

pub open spec fn down_id(n: Notification) -> Seq<char> {
    match n {
        Notification::Down { service_id, .. } => service_id@,
        _ => Seq::empty(),
    }
}

/// Pending Downs other than the given service's.
pub open spec fn drop_down_for(pending: Seq<Notification>, id: Seq<char>) -> Seq<Notification> {
    pending.filter(|n: Notification| !(n is Down && down_id(n) == id))
}

/// A recovery cancels its service's waiting Down: none of the Downs left waiting is for that
/// service, and every other waiting toast stays.
pub proof fn lemma_recovery_cancels_pending_down(pending: Seq<Notification>, id: Seq<char>)
    ensures
        forall|i: int| 0 <= i < drop_down_for(pending, id).len() ==> !((#[trigger] drop_down_for(pending, id)[i]) is Down
            && down_id(drop_down_for(pending, id)[i]) == id),
        forall|n: Notification| pending.contains(n) && !(n is Down && down_id(n) == id) ==> #[trigger] drop_down_for(pending, id).contains(n),
{
    broadcast use vstd::seq_lib::group_filter_ensures;
    let pred = |n: Notification| !(n is Down && down_id(n) == id);
    assert forall|n: Notification| pending.contains(n) && !(n is Down && down_id(n) == id) implies #[trigger] drop_down_for(pending, id).contains(n) by {
        let i = choose|i: int| 0 <= i < pending.len() && pending[i] == n;
        pending.lemma_filter_contains(pred, i);
    }
    assert forall|i: int| 0 <= i < drop_down_for(pending, id).len() implies !((#[trigger] drop_down_for(pending, id)[i]) is Down
        && down_id(drop_down_for(pending, id)[i]) == id) by {
        assert(pred(pending.filter(pred)[i]));
    }
}

/// What a flush hands out: nothing, the one pending Down, or one digest of all of them.
pub open spec fn flushed(pending: Seq<Notification>, out: Seq<Notification>) -> bool {
    if pending.len() <= 1 {
        out == pending
    } else {
        &&& out.len() == 1
        &&& out[0] matches Notification::Digest { service_ids, title, body }
        &&& string_views(service_ids@) == down_ids(pending)
        &&& title@ == decimal(pending.len()) + " services down"@
        &&& body@ == digest_body_spec(down_titles(pending))
    }
}

pub open spec fn window_elapsed(start: i64, now: i64) -> int {
    now - start
}

impl DownGrouper {
    pub closed spec fn pending_view(&self) -> Seq<Notification> {
        self.pending@
    }

    pub closed spec fn window_view(&self) -> Option<i64> {
        self.window_start
    }

    /// Only Downs wait, and they wait only while a window is open.
    pub open spec fn wf(&self) -> bool {
        &&& forall|i: int| 0 <= i < self.pending_view().len() ==> is_down(#[trigger] self.pending_view()[i])
        &&& self.pending_view().len() > 0 ==> self.window_view() is Some
    }

    pub fn new() -> (r: Self)
        ensures
            r.wf(),
            r.pending_view() == Seq::<Notification>::empty(),
            r.window_view() is None,
    {
        DownGrouper { pending: Vec::new(), window_start: None }
    }

    /// Buffer a Down, or pass Recovered/Digest through. Returns the toasts that are ready now.
    pub fn push(&mut self, notification: Notification, now: i64) -> (ready: Vec<Notification>)
        requires
            old(self).wf(),
        ensures
            final(self).wf(),
            match notification {
                Notification::Down { .. } => {
                    let expired = old(self).window_view() matches Some(start)
                        && window_elapsed(start, now) > DOWN_GROUP_WINDOW_MS;
                    if expired {
                        &&& flushed(old(self).pending_view(), ready@)
                        &&& final(self).pending_view() == seq![notification]
                        &&& final(self).window_view() == Some(now)
                    } else {
                        &&& ready@.len() == 0
                        &&& final(self).pending_view() == old(self).pending_view().push(notification)
                        &&& final(self).window_view() == (match old(self).window_view() {
                            Some(s) => Some(s),
                            None => Some(now),
                        })
                    }
                },
                Notification::Recovered { service_id, .. } => {
                    &&& ready@ == seq![notification]
                    &&& final(self).pending_view() == drop_down_for(old(self).pending_view(), service_id@)
                    &&& final(self).window_view() == (if final(self).pending_view().len() == 0 {
                        None
                    } else {
                        old(self).window_view()
                    })
                },
                Notification::Digest { .. } => {
                    &&& ready@ == seq![notification]
                    &&& final(self).pending_view() == old(self).pending_view()
                    &&& final(self).window_view() == old(self).window_view()
                },
            },
    {
        match notification {
            Notification::Down { .. } => {
                let mut ready: Vec<Notification> = Vec::new();
                let expired = match self.window_start {
                    Some(start) => now as i128 - start as i128 > DOWN_GROUP_WINDOW_MS as i128,
                    None => false,
                };
                if expired {
                    ready = self.take_ready();
                }
                if self.window_start.is_none() {
                    self.window_start = Some(now);
                }
                self.pending.push(notification);
                proof {
                    if expired {
                        assert(self.pending@ =~= seq![notification]);
                    }
                }
                ready
            },
            Notification::Recovered { ref service_id, .. } => {
                self.drop_pending_down(service_id.as_str());
                if self.pending.len() == 0 {
                    self.window_start = None;
                }
                let mut ready: Vec<Notification> = Vec::new();
                ready.push(notification);
                assert(ready@ =~= seq![notification]);
                ready
            },
            Notification::Digest { .. } => {
                let mut ready: Vec<Notification> = Vec::new();
                ready.push(notification);
                assert(ready@ =~= seq![notification]);
                ready
            },
        }
    }

    /// Flush once the window is at least 2s old.
    pub fn poll(&mut self, now: i64) -> (ready: Vec<Notification>)
        requires
            old(self).wf(),
        ensures
            final(self).wf(),
            if old(self).window_view() matches Some(start) && window_elapsed(start, now)
                >= DOWN_GROUP_WINDOW_MS {
                &&& flushed(old(self).pending_view(), ready@)
                &&& final(self).pending_view().len() == 0
                &&& final(self).window_view() is None
            } else {
                &&& ready@.len() == 0
                &&& final(self).pending_view() == old(self).pending_view()
                &&& final(self).window_view() == old(self).window_view()
            },
    {
        let due = match self.window_start {
            Some(start) => now as i128 - start as i128 >= DOWN_GROUP_WINDOW_MS as i128,
            None => false,
        };
        if due {
            self.take_ready()
        } else {
            Vec::new()
        }
    }

    fn drop_pending_down(&mut self, id: &str)
        requires
            old(self).wf(),
        ensures
            final(self).pending@ == drop_down_for(old(self).pending@, id@),
            final(self).window_start == old(self).window_start,
            forall|i: int| 0 <= i < final(self).pending@.len() ==> is_down(#[trigger] final(self).pending@[i]),
    {
        let ghost pred = |n: Notification| !(n is Down && down_id(n) == id@);
        let ghost waiting = self.pending@;
        let mut rest: Vec<Notification> = Vec::new();
        std::mem::swap(&mut rest, &mut self.pending);
        let mut kept: Vec<Notification> = Vec::new();
        assert forall|i: int| 0 <= i < waiting.len() implies is_down(#[trigger] waiting[i]) by {
            assert(is_down(old(self).pending_view()[i]));
        }
        assert(waiting.skip(0) =~= waiting);
        assert(waiting.take(0).filter(pred) =~= Seq::<Notification>::empty()) by {
            reveal(Seq::filter);
        }
        while rest.len() > 0
            invariant
                pred == (|n: Notification| !(n is Down && down_id(n) == id@)),
                rest.len() <= waiting.len(),
                rest@ == waiting.skip(waiting.len() - rest.len()),
                kept@ == waiting.take(waiting.len() - rest.len()).filter(pred),
                forall|i: int| 0 <= i < waiting.len() ==> is_down(#[trigger] waiting[i]),
            decreases rest.len(),
        {
            let ghost i = waiting.len() - rest.len();
            let n = rest.remove(0);
            assert(n == waiting[i]);
            let keep = match &n {
                Notification::Down { service_id, .. } => !str_eq(service_id.as_str(), id),
                _ => true,
            };
            assert(keep == pred(n));
            if keep {
                kept.push(n);
            }
            proof {
                reveal(Seq::filter);
                let t = waiting.take(i + 1);
                assert(t.drop_last() =~= waiting.take(i));
                assert(t.last() == waiting[i]);
                assert(rest@ =~= waiting.skip(i + 1));
                assert(kept@ =~= t.filter(pred));
            }
        }
        assert(waiting.take(waiting.len() as int) =~= waiting);
        self.pending = kept;
        proof {
            broadcast use vstd::seq_lib::group_filter_ensures;
            assert forall|i: int| 0 <= i < self.pending@.len() implies is_down(#[trigger] self.pending@[i]) by {
                let x = self.pending@[i];
                assert(waiting.filter(pred).contains(x));
                waiting.lemma_filter_contains_rev(pred, x);
            }
        }
    }

    fn take_ready(&mut self) -> (ready: Vec<Notification>)
        requires
            old(self).wf(),
        ensures
            flushed(old(self).pending@, ready@),
            final(self).pending@.len() == 0,
            final(self).window_start is None,
    {
        self.window_start = None;
        let mut pending: Vec<Notification> = Vec::new();
        std::mem::swap(&mut pending, &mut self.pending);
        if pending.len() <= 1 {
            return pending;
        }
        assert forall|k: int| 0 <= k < pending@.len() implies is_down(#[trigger] pending@[k]) by {
            assert(is_down(old(self).pending_view()[k]));
        }
        let n = pending.len();
        let mut service_ids: Vec<String> = Vec::new();
        let mut titles: Vec<&str> = Vec::new();
        let mut i: usize = 0;
        while i < pending.len()
            invariant
                i <= pending.len(),
                n == pending.len(),
                forall|k: int| 0 <= k < pending@.len() ==> is_down(#[trigger] pending@[k]),
                string_views(service_ids@) == down_ids(pending@.take(i as int)),
                str_views(titles@) == down_titles(pending@.take(i as int)),
            decreases pending.len() - i,
        {
            let ghost prev_ids = service_ids@;
            let ghost prev_titles = titles@;
            match &pending[i] {
                Notification::Down { service_id, title, .. } => {
                    service_ids.push(service_id.clone());
                    titles.push(title.as_str());
                },
                _ => {
                    assert(is_down(pending@[i as int]));
                },
            }
            proof {
                assert(string_views(service_ids@) =~= string_views(prev_ids).push(down_id(pending@[i as int])));
                assert(down_ids(pending@.take(i + 1)) =~= down_ids(pending@.take(i as int)).push(down_id(pending@[i as int])));
                assert(str_views(titles@) =~= str_views(prev_titles).push(down_title_of(pending@[i as int])));
                assert(down_titles(pending@.take(i + 1)) =~= down_titles(pending@.take(i as int)).push(down_title_of(pending@[i as int])));
            }
            i = i + 1;
            assert(string_views(service_ids@) =~= down_ids(pending@.take(i as int)));
            assert(str_views(titles@) =~= down_titles(pending@.take(i as int)));
        }
        assert(pending@.take(n as int) =~= pending@);
        let digest = Notification::Digest {
            service_ids,
            title: digest_title(n),
            body: digest_body(titles.as_slice()),
        };
        let mut ready: Vec<Notification> = Vec::new();
        ready.push(digest);
        ready
    }
}
} // verus!
