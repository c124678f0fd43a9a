//! Launch at login, the global hotkey, and the one-shot launch prompt.
use vstd::prelude::*;

use crate::domain::service::opt_view;

verus! {

/// The hotkey kept after trying to register `candidate`: it when registration worked, else the
/// previous one, so a bad hotkey never leaves none.
pub fn commit_hotkey(previous: Option<String>, candidate: String, registered: bool) -> (r: Option<String>)
    ensures
        r == (if registered { Some(candidate) } else { previous }),
{
    if registered {
        Some(candidate)
    } else {
        previous
    }
}

/// Whether the launch-at-login question is waiting to be shown.
#[derive(Debug, Clone, Copy, PartialEq, Eq, Structural)]
pub struct LaunchPromptLatch {
    pub pending: bool,
}

impl LaunchPromptLatch {
    pub fn new() -> (r: Self)
        ensures
            !r.pending,
    {
        LaunchPromptLatch { pending: false }
    }
}

/// Show the question on the next look.
pub fn arm_launch_prompt(latch: &mut LaunchPromptLatch)
    ensures
        final(latch).pending,
{
    latch.pending = true;
}

/// Whether the question is waiting; taking it clears it.
pub fn take_pending_launch_prompt(latch: &mut LaunchPromptLatch) -> (r: bool)
    ensures
        r == old(latch).pending,
        !final(latch).pending,
{
    let r = latch.pending;
    latch.pending = false;
    r
}

/// The id sent to the detail window.
#[derive(Debug, Clone)]
pub struct DetailId {
    pub id: String,
}

pub const DETAIL_LABEL: &'static str = "detail";

/// A detail request names a service only with a non-empty id.
pub fn detail_id(payload: Option<DetailId>) -> (r: Option<String>)
    ensures
        opt_view(r) == (match payload {
            Some(d) => if d.id@.len() > 0 { Some(d.id@) } else { None },
            None => None,
        }),
{
    match payload {
        Some(d) => {
            if crate::text::str_chars(d.id.as_str()).len() > 0 {
                Some(d.id)
            } else {
                None
            }
        },
        None => None,
    }
}

/// The window the editor opens for: a service id, or none for a new service.
#[derive(Debug, Clone)]
pub struct EditorTarget {
    pub id: Option<String>,
}

pub const EDITOR_LABEL: &'static str = "editor";

/// Windows that come and go on demand (the popover is not one of them).
pub open spec fn utility_labels() -> Seq<Seq<char>> {
    seq!["editor"@, "detail"@, "settings"@]
}

pub fn utility_labels_list() -> (r: Vec<&'static str>)
    ensures
        r@.map_values(|s: &str| s@) == utility_labels(),
{
    let v = vec!["editor", "detail", "settings"];
    assert(v@.map_values(|s: &str| s@) =~= utility_labels());
    v
}

pub fn is_utility_label(label: &str) -> (r: bool)
    ensures
        r == utility_labels().contains(label@),
{
    let r = crate::text::str_eq(label, "editor") || crate::text::str_eq(label, "detail") || crate::text::str_eq(label, "settings");
    proof {
        if r {
            if label@ == "editor"@ {
                assert(utility_labels()[0] == label@);
            } else if label@ == "detail"@ {
                assert(utility_labels()[1] == label@);
            } else {
                assert(utility_labels()[2] == label@);
            }
        } else {
            assert forall|i: int| 0 <= i < utility_labels().len() implies utility_labels()[i] != label@ by {
            }
        }
    }
    r
}

} // verus!
