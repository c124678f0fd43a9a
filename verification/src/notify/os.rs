//! What the OS notification layer decides: which service a click opens, when to ask for
//! permission, and the focus links a notification launches.
use vstd::prelude::*;

use crate::eval::path::find_char;
use crate::notify::Notification;
use crate::text::{owned, starts_with_spec, str_chars, str_starts_with, string_from_chars, sub_chars};

verus! {

pub const DEFAULT_SOUND: &'static str = "default";

/// Link that a notification opens on Windows: `pulse:focus?id=...`.
pub const FOCUS_LAUNCH: &'static str = "pulse:focus";

#[derive(Debug, Clone)]
pub struct FocusServicePayload {
    pub id: Option<String>,
}

/// The service a notification is about; a digest is about several and names none.
pub fn last_notified_service_id(notification: &Notification) -> (r: Option<String>)
    ensures
        match *notification {
            Notification::Down { service_id, .. } => r matches Some(x) && x@ == service_id@,
            Notification::Recovered { service_id, .. } => r matches Some(x) && x@ == service_id@,
            Notification::Digest { .. } => r is None,
        },
{
    match notification.service_id() {
        Some(id) => Some(owned(id)),
        None => None,
    }
}

/// Ask the OS for permission once per process, on the first save with notifications on.
pub fn should_request_permission(notify_enabled: bool, asked: &mut bool) -> (r: bool)
    ensures
        r == (notify_enabled && !*old(asked)),
        *final(asked) == (*old(asked) || notify_enabled),
{
    if !notify_enabled {
        return false;
    }
    let was = *asked;
    *asked = true;
    !was
}

/// Click, permission and sound state shared by the notifiers.
#[derive(Debug, Clone)]
pub struct NotifyHub {
    pub last_id: Option<String>,
    pub asked_permission: bool,
    pub sound: bool,
}

impl NotifyHub {
    pub fn new(sound: bool) -> (r: Self)
        ensures
            r.last_id is None,
            !r.asked_permission,
            r.sound == sound,
    {
        NotifyHub { last_id: None, asked_permission: false, sound }
    }

    pub fn set_sound(&mut self, sound: bool)
        ensures
            final(self).sound == sound,
            final(self).asked_permission == old(self).asked_permission,
            final(self).last_id == old(self).last_id,
    {
        self.sound = sound;
    }

    pub fn sound(&self) -> (r: bool)
        ensures
            r == self.sound,
    {
        self.sound
    }

    pub fn last_id(&self) -> (r: Option<String>)
        ensures
            crate::domain::service::opt_view(r) == crate::domain::service::opt_view(self.last_id),
    {
        crate::domain::service::copy_opt(&self.last_id)
    }

    /// Remember the service of the notification just shown, for a click on it.
    pub fn remember(&mut self, notification: &Notification)
        ensures
            match *notification {
                Notification::Down { service_id, .. } => final(self).last_id matches Some(x) && x@ == service_id@,
                Notification::Recovered { service_id, .. } => final(self).last_id matches Some(x) && x@ == service_id@,
                Notification::Digest { .. } => final(self).last_id is None,
            },
            final(self).sound == old(self).sound,
            final(self).asked_permission == old(self).asked_permission,
    {
        self.last_id = last_notified_service_id(notification);
    }

    pub fn should_request_permission(&mut self, notify_enabled: bool) -> (r: bool)
        ensures
            r == (notify_enabled && !old(self).asked_permission),
            final(self).asked_permission == (old(self).asked_permission || notify_enabled),
            final(self).sound == old(self).sound,
            final(self).last_id == old(self).last_id,
    {
        should_request_permission(notify_enabled, &mut self.asked_permission)
    }
}

/// The value of the first `id=` parameter among the `&`-separated pairs from `i` on.
pub open spec fn id_param(q: Seq<char>, i: nat) -> Option<Seq<char>>
    decreases q.len() - i,
{
    if i > q.len() {
        None
    } else {
        let end = match find_char(q, i, '&') {
            Some(j) => j,
            None => q.len(),
        };
        let pair = q.subrange(i as int, end as int);
        if starts_with_spec(pair, "id="@) {
            Some(pair.subrange(3, pair.len() as int))
        } else if end < q.len() && end >= i {
            id_param(q, end + 1)
        } else {
            None
        }
    }
}

/// `pulse:focus`, `pulse:focus?id=...` or `pulse://focus?id=...`: `Some(Some(id))` opens that
/// service, `Some(None)` only shows the popover, `None` is not a focus link.
pub open spec fn focus_spec(arg: Seq<char>) -> Option<Option<Seq<char>>> {
    let rest = if starts_with_spec(arg, "pulse:focus"@) {
        Some(arg.subrange(11, arg.len() as int))
    } else if starts_with_spec(arg, "pulse://focus"@) {
        Some(arg.subrange(13, arg.len() as int))
    } else {
        None
    };
    match rest {
        None => None,
        Some(r) => if r.len() == 0 {
            Some(None)
        } else if r[0] != '?' {
            None
        } else {
            match id_param(r.subrange(1, r.len() as int), 0) {
                Some(id) => if id.len() == 0 { Some(None) } else { Some(Some(id)) },
                None => Some(None),
            }
        },
    }
}

proof fn lemma_find_char_bounds(s: Seq<char>, i: nat, q: char)
    requires
        i <= s.len(),
    ensures
        find_char(s, i, q) matches Some(j) ==> i <= j < s.len() && s[j as int] == q
            && forall|k: int| i <= k < j ==> s[k] != q,
        find_char(s, i, q) is None ==> forall|k: int| i <= k < s.len() ==> s[k] != q,
    decreases s.len() - i,
{
    if i < s.len() && s[i as int] != q {
        lemma_find_char_bounds(s, i + 1, q);
    }
}

pub open spec fn opt_opt_view(o: Option<Option<String>>) -> Option<Option<Seq<char>>> {
    match o {
        None => None,
        Some(None) => Some(None),
        Some(Some(s)) => Some(Some(s@)),
    }
}

pub fn parse_focus_arg(arg: &str) -> (r: Option<Option<String>>)
    ensures
        opt_opt_view(r) == focus_spec(arg@),
{
    proof {
        reveal_strlit("pulse:focus");
        reveal_strlit("pulse://focus");
        reveal_strlit("id=");
    }
    let cs = str_chars(arg);
    let start: usize = if str_starts_with(arg, "pulse:focus") {
        11
    } else if str_starts_with(arg, "pulse://focus") {
        13
    } else {
        return None;
    };
    let rest = sub_chars(&cs, start, cs.len());
    if rest.len() == 0 {
        return Some(None);
    }
    if rest[0] != '?' {
        return None;
    }
    let q = sub_chars(&rest, 1, rest.len());
    let ghost qv = q@;
    let mut i: usize = 0;
    proof {
        assert(rest@ =~= arg@.subrange(start as int, arg@.len() as int));
        assert(qv =~= rest@.subrange(1, rest@.len() as int));
    }
    while i <= q.len()
        invariant
            i <= q.len() + 1,
            qv == q@,
            focus_spec(arg@) == (match id_param(qv, 0) {
                Some(id) => if id.len() == 0 { Some(None) } else { Some(Some(id)) },
                None => Some(None::<Seq<char>>),
            }),
            id_param(qv, 0) == id_param(qv, i as nat),
        decreases q.len() + 1 - i,
    {
        proof {
            lemma_find_char_bounds(qv, i as nat, '&');
            reveal_strlit("id=");
        }
        let mut end = i;
        while end < q.len() && q[end] != '&'
            invariant
                i <= end <= q.len(),
                forall|k: int| i <= k < end ==> q@[k] != '&',
            decreases q.len() - end,
        {
            end = end + 1;
        }
        proof {
            assert(end == (match find_char(qv, i as nat, '&') { Some(j) => j, None => qv.len() }));
        }
        let pair = sub_chars(&q, i, end);
        if pair.len() >= 3 && pair[0] == 'i' && pair[1] == 'd' && pair[2] == '=' {
            proof {
                assert(pair@.subrange(0, 3) =~= "id="@);
            }
            let id = sub_chars(&pair, 3, pair.len());
            if id.len() == 0 {
                return Some(None);
            }
            return Some(Some(string_from_chars(id.as_slice())));
        }
        proof {
            if starts_with_spec(pair@, "id="@) {
                assert("id="@.len() == 3);
                assert(pair@.subrange(0, 3) == "id="@);
                assert(pair@.subrange(0, 3)[0] == pair@[0]);
                assert(pair@.subrange(0, 3)[1] == pair@[1]);
                assert(pair@.subrange(0, 3)[2] == pair@[2]);
                assert(pair@[0] == 'i' && pair@[1] == 'd' && pair@[2] == '=');
            }
        }
        if end >= q.len() {
            return Some(None);
        }
        i = end + 1;
    }
    Some(None)
}

/// The first argument that is a focus link.
pub open spec fn focus_args_spec(args: Seq<&str>) -> Option<Option<Seq<char>>>
    decreases args.len(),
{
    if args.len() == 0 {
        None
    } else {
        match focus_spec(args[0]@) {
            Some(x) => Some(x),
            None => focus_args_spec(args.drop_first()),
        }
    }
}

pub fn parse_focus_args(args: &[&str]) -> (r: Option<Option<String>>)
    ensures
        opt_opt_view(r) == focus_args_spec(args@),
{
    let mut i: usize = 0;
    proof {
        assert(args@.subrange(0, args@.len() as int) =~= args@);
    }
    while i < args.len()
        invariant
            i <= args.len(),
            focus_args_spec(args@) == focus_args_spec(args@.subrange(i as int, args@.len() as int)),
        decreases args.len() - i,
    {
        proof {
            assert(args@.subrange(i as int, args@.len() as int).drop_first() =~= args@.subrange(i + 1, args@.len() as int));
        }
        let arg: &str = args[i];
        match parse_focus_arg(arg) {
            Some(x) => {
                return Some(x);
            },
            None => {},
        }
        i = i + 1;
    }
    None
}

} // verus!
