//! Quiet hours: the window test and the queue of services that went down inside it.
use vstd::prelude::*;

use crate::domain::settings::{hhmm_minutes, hhmm_to_minutes, QuietHours};
use crate::notify::QueueOp;
use crate::text::str_eq;

verus! {

#[derive(Debug)]
pub struct QueuedDown {
    pub service_id: String,
    pub name: String,
    pub title: String,
    pub body: String,
}

impl Clone for QueuedDown {
    fn clone(&self) -> (r: Self)
        ensures
            r == *self,
    {
        QueuedDown {
            service_id: self.service_id.clone(),
            name: self.name.clone(),
            title: self.title.clone(),
            body: self.body.clone(),
        }
    }
}

/// Services that entered Down during this quiet window and are still Down.
/// Membership is the queue, not the current worst-of.
#[derive(Debug)]
pub struct QuietQueue {
    entries: Vec<QueuedDown>,
}

pub open spec fn ids_distinct(entries: Seq<QueuedDown>) -> bool {
    forall|i: int, j: int| 0 <= i < j < entries.len() ==> entries[i].service_id@ != entries[j].service_id@
}

pub open spec fn has_id(entries: Seq<QueuedDown>, id: Seq<char>) -> bool {
    exists|i: int| 0 <= i < entries.len() && #[trigger] entries[i].service_id@ == id
}

pub open spec fn without_id(entries: Seq<QueuedDown>, id: Seq<char>) -> Seq<QueuedDown> {
    entries.filter(|e: QueuedDown| e.service_id@ != id)
}

impl View for QuietQueue {
    type V = Seq<QueuedDown>;

    closed spec fn view(&self) -> Seq<QueuedDown> {
        self.entries@
    }
}

impl QuietQueue {
    /// No service id is queued twice.
    pub open spec fn wf(&self) -> bool {
        ids_distinct(self@)
    }

    pub fn new() -> (r: Self)
        ensures
            r@ == Seq::<QueuedDown>::empty(),
            r.wf(),
    {
        QuietQueue { entries: Vec::new() }
    }

    pub fn apply(&mut self, op: QueueOp, entry: QueuedDown)
        requires
            old(self).wf(),
        ensures
            final(self).wf(),
            op == QueueOp::NoOp ==> final(self)@ == old(self)@,
            op == QueueOp::Enqueue ==> final(self)@ == (if has_id(old(self)@, entry.service_id@) {
                old(self)@
            } else {
                old(self)@.push(entry)
            }),
            op == QueueOp::Dequeue ==> final(self)@ == without_id(old(self)@, entry.service_id@),
    {
        match op {
            QueueOp::NoOp => {},
            QueueOp::Enqueue => self.enter(entry),
            QueueOp::Dequeue => self.recover(entry.service_id.as_str()),
        }
    }

    /// Queue `entry` unless its service is already queued.
    pub fn enter(&mut self, entry: QueuedDown)
        requires
            old(self).wf(),
        ensures
            final(self).wf(),
            final(self)@ == (if has_id(old(self)@, entry.service_id@) {
                old(self)@
            } else {
                old(self)@.push(entry)
            }),
    {
        if !self.contains(entry.service_id.as_str()) {
            self.entries.push(entry);
        }
    }

    /// Drop the service from the queue (a Down that recovered inside the window cancels out).
    #[verifier::loop_isolation(false)]
    pub fn recover(&mut self, service_id: &str)
        requires
            old(self).wf(),
        ensures
            final(self).wf(),
            final(self)@ == without_id(old(self)@, service_id@),
            !has_id(final(self)@, service_id@),
    {
        let ghost pred = |e: QueuedDown| e.service_id@ != service_id@;
        let ghost old_entries = self.entries@;
        let mut kept: Vec<QueuedDown> = Vec::new();
        let mut i: usize = 0;
        while i < self.entries.len()
            invariant
                i <= self.entries.len(),
                self.entries@ == old_entries,
                kept@ == old_entries.take(i as int).filter(pred),
            decreases self.entries.len() - i,
        {
            proof {
                reveal(Seq::filter);
                assert(old_entries.take(i + 1).drop_last() =~= old_entries.take(i as int));
            }
            let ghost before = kept@;
            let same = str_eq(self.entries[i].service_id.as_str(), service_id);
            assert(same == !pred(old_entries[i as int]));
            if !same {
                let c = self.entries[i].clone();
                assert(c == old_entries[i as int]);
                kept.push(c);
            }
            assert(before == old_entries.take(i + 1).drop_last().filter(pred));
            proof {
                let t = old_entries.take(i + 1);
                assert(t.last() == old_entries[i as int]);
                assert(t.filter(pred) == (if pred(t.last()) {
                    t.drop_last().filter(pred).push(t.last())
                } else {
                    t.drop_last().filter(pred)
                }));
                assert(kept@ =~= t.filter(pred));
            }
            i = i + 1;
        }
        assert(old_entries.take(old_entries.len() as int) =~= old_entries);
        self.entries = kept;
        proof {
            broadcast use vstd::seq_lib::group_filter_ensures;
            assert forall|a: int, b: int| 0 <= a < b < self.entries@.len() implies self.entries@[a].service_id@
                != self.entries@[b].service_id@ by {
                lemma_filter_preserves_distinct(old_entries, pred, a, b);
            }
            assert forall|k: int| 0 <= k < self.entries@.len() implies #[trigger] self.entries@[k].service_id@ != service_id@ by {
                assert(pred(self.entries@[k]));
            }
        }
    }

    pub fn contains(&self, service_id: &str) -> (r: bool)
        ensures
            r == has_id(self@, service_id@),
    {
        let mut i: usize = 0;
        while i < self.entries.len()
            invariant
                i <= self.entries.len(),
                forall|k: int| 0 <= k < i ==> #[trigger] self.entries@[k].service_id@ != service_id@,
            decreases self.entries.len() - i,
        {
            if str_eq(self.entries[i].service_id.as_str(), service_id) {
                return true;
            }
            i = i + 1;
        }
        false
    }

    pub fn members(&self) -> (r: &[QueuedDown])
        ensures
            r@ == self@,
    {
        self.entries.as_slice()
    }

    pub fn is_empty(&self) -> (r: bool)
        ensures
            r == (self@.len() == 0),
    {
        self.entries.len() == 0
    }

    pub fn len(&self) -> (r: usize)
        ensures
            r == self@.len(),
    {
        self.entries.len()
    }
}

proof fn lemma_filter_preserves_distinct(s: Seq<QueuedDown>, pred: spec_fn(QueuedDown) -> bool, a: int, b: int)
    requires
        forall|i: int, j: int| 0 <= i < j < s.len() ==> s[i].service_id@ != s[j].service_id@,
        0 <= a < b < s.filter(pred).len(),
    ensures
        s.filter(pred)[a].service_id@ != s.filter(pred)[b].service_id@,
    decreases s.len(),
{
    reveal(Seq::filter);
    broadcast use vstd::seq_lib::group_filter_ensures;
    let sub = s.drop_last().filter(pred);
    if pred(s.last()) {
        if b < sub.len() {
            lemma_filter_preserves_distinct(s.drop_last(), pred, a, b);
        } else {
            // `b` is the kept last element; `a` came from an earlier position.
            let x = s.filter(pred)[a];
            assert(sub[a] == x);
            assert(sub.contains(x));
            s.drop_last().lemma_filter_contains_rev(pred, x);
            let k = choose|k: int| 0 <= k < s.drop_last().len() && s.drop_last()[k] == x;
            assert(s.drop_last()[k] == s[k]);
            assert(s.filter(pred)[b] == s[s.len() - 1]);
        }
    } else {
        lemma_filter_preserves_distinct(s.drop_last(), pred, a, b);
    }
}

/// A local wall-clock minute: weekday counted from Sunday = 0, minutes after midnight.
#[derive(Debug, Clone, Copy, PartialEq, Eq, Structural)]
pub struct LocalMinute {
    pub weekday: u8,
    pub minute_of_day: u32,
}

pub open spec fn day_selected(days: Seq<u8>, day: int) -> bool {
    exists|i: int| 0 <= i < days.len() && days[i] == day
}

/// `days` names the day the window starts. Overnight `[start, next day's end)` continues even
/// when the next day is unchecked (Friday 22:00 through Saturday 08:00).
pub open spec fn in_window_spec(hours: QuietHours, local: LocalMinute) -> bool {
    match (hhmm_minutes(hours.start@), hhmm_minutes(hours.end@)) {
        (Some(start), Some(end)) => {
            let day = local.weekday as int;
            let yesterday = (day + 6) % 7;
            let t = local.minute_of_day as nat;
            if hours.days@.len() == 0 {
                false
            } else if start < end {
                day_selected(hours.days@, day) && start <= t && t < end
            } else {
                (day_selected(hours.days@, day) && t >= start) || (day_selected(
                    hours.days@,
                    yesterday,
                ) && t < end)
            }
        },
        _ => false,
    }
}

fn day_in(days: &Vec<u8>, day: u8) -> (r: bool)
    ensures
        r == day_selected(days@, day as int),
{
    let mut i: usize = 0;
    while i < days.len()
        invariant
            i <= days.len(),
            forall|k: int| 0 <= k < i ==> days@[k] != day,
        decreases days.len() - i,
    {
        if days[i] == day {
            return true;
        }
        i = i + 1;
    }
    false
}

/// Is `local` inside the quiet window?
pub fn in_quiet_window(hours: &QuietHours, local: LocalMinute) -> (r: bool)
    requires
        local.weekday < 7,
    ensures
        r == in_window_spec(*hours, local),
{
    let start = match hhmm_to_minutes(hours.start.as_str()) {
        Some(m) => m,
        None => {
            return false;
        },
    };
    let end = match hhmm_to_minutes(hours.end.as_str()) {
        Some(m) => m,
        None => {
            return false;
        },
    };
    if hours.days.len() == 0 {
        return false;
    }
    let weekday = local.weekday;
    let yesterday = (weekday + 6) % 7;
    let time = local.minute_of_day;
    if start < end {
        day_in(&hours.days, weekday) && time >= start && time < end
    } else {
        (day_in(&hours.days, weekday) && time >= start) || (day_in(&hours.days, yesterday) && time
            < end)
    }
}

/// An overnight window started on a selected day covers the next morning up to `end`, whether or
/// not the next day is selected.
pub proof fn lemma_overnight_spills_into_next_morning(hours: QuietHours, start_day: u8, minute: u32)
    requires
        start_day < 7,
        hhmm_minutes(hours.start@) is Some,
        hhmm_minutes(hours.end@) is Some,
        hhmm_minutes(hours.start@).unwrap() >= hhmm_minutes(hours.end@).unwrap(),
        day_selected(hours.days@, start_day as int),
        minute < hhmm_minutes(hours.end@).unwrap(),
    ensures
        in_window_spec(hours, LocalMinute { weekday: ((start_day + 1) % 7) as u8, minute_of_day: minute }),
{
}

/// A same-day window never spills: quiet implies the day itself is selected and the time is
/// within `[start, end)`.
pub proof fn lemma_same_day_window_does_not_spill(hours: QuietHours, local: LocalMinute)
    requires
        hhmm_minutes(hours.start@) is Some,
        hhmm_minutes(hours.end@) is Some,
        hhmm_minutes(hours.start@).unwrap() < hhmm_minutes(hours.end@).unwrap(),
        in_window_spec(hours, local),
    ensures
        day_selected(hours.days@, local.weekday as int),
        hhmm_minutes(hours.start@).unwrap() <= local.minute_of_day < hhmm_minutes(hours.end@).unwrap(),
{
}

/// With no days selected it is never quiet.
pub proof fn lemma_no_days_never_quiet(hours: QuietHours, local: LocalMinute)
    requires
        hours.days@.len() == 0,
    ensures
        !in_window_spec(hours, local),
{
}

/// A same-day window is quiet at every minute from its start up to its end on a selected day,
/// whatever the day before.
pub proof fn lemma_same_day_window_covers_selected_day(hours: QuietHours, local: LocalMinute)
    requires
        hhmm_minutes(hours.start@) is Some,
        hhmm_minutes(hours.end@) is Some,
        hhmm_minutes(hours.start@).unwrap() < hhmm_minutes(hours.end@).unwrap(),
        day_selected(hours.days@, local.weekday as int),
        hhmm_minutes(hours.start@).unwrap() <= local.minute_of_day < hhmm_minutes(hours.end@).unwrap(),
    ensures
        in_window_spec(hours, local),
{
}

} // verus!
