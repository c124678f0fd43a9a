//! The service that "Test now" checks: an unsaved editor draft made runnable.
use vstd::prelude::*;

use crate::domain::service::{
    copy_assertions, copy_opt, copy_status, is_mask, mask_spec, opt_view, DraftHeader,
    HeaderSpec, HttpMethod, Service, ServiceDraft, ServiceModel, MIN_INTERVAL_SEC,
};
use crate::domain::service::{assertions_model, headers_model, status_model};
use crate::store::export::now_millis;
use crate::text::{owned, str_chars};

verus! {

/// How a draft header is held while testing: a secret never carries its value here; a plain
/// header carries its text, empty when there is none.
pub open spec fn tested_header(h: DraftHeader) -> (Seq<char>, bool, Option<Seq<char>>) {
    (h.key@, h.secret, if h.secret {
        None
    } else {
        Some(
            match h.value {
                Some(v) => v@,
                None => Seq::empty(),
            },
        )
    })
}

pub open spec fn tested_headers(hs: Seq<DraftHeader>) -> Seq<(Seq<char>, bool, Option<Seq<char>>)> {
    hs.map_values(|h: DraftHeader| tested_header(h))
}

/// The service a draft is tested as, at time `now`: unnamed and unsaved parts get `"draft"`, the
/// interval is raised to the minimum, the timeout is held to 0.5–60 s, a body is kept only for
/// `POST`, redirects are followed unless the draft says otherwise, and it is not paused.
pub open spec fn draft_service_spec(d: ServiceDraft, now: i64) -> ServiceModel {
    ServiceModel {
        id: match d.id {
            Some(i) => i@,
            None => "draft"@,
        },
        name: if d.name@.len() == 0 { "draft"@ } else { d.name@ },
        url: d.url@,
        method: d.method,
        headers: tested_headers(d.headers@),
        body: if d.method == HttpMethod::Post { opt_view(d.body) } else { None },
        interval_sec: if d.interval_sec < MIN_INTERVAL_SEC { MIN_INTERVAL_SEC } else { d.interval_sec },
        timeout_ms: if d.timeout_ms < 500 { 500 } else if d.timeout_ms > 60000 { 60000 } else { d.timeout_ms },
        expected_status: status_model(d.expected_status),
        assertions: assertions_model(d.assertions@),
        max_latency_ms: d.max_latency_ms,
        action_url: opt_view(d.action_url),
        notify: d.notify,
        always_alert: d.always_alert,
        paused: false,
        follow_redirects: match d.follow_redirects {
            Some(f) => f,
            None => true,
        },
        fail_threshold: d.fail_threshold,
        group: opt_view(d.group),
        created_at: now,
        updated_at: now,
    }
}

/// The draft as a service at time `now`.
pub fn service_from_draft_at(draft: &ServiceDraft, now: i64) -> (r: Service)
    ensures
        crate::domain::service::service_model(r) == draft_service_spec(*draft, now),
{
    let mut headers: Vec<HeaderSpec> = Vec::new();
    let mut i: usize = 0;
    while i < draft.headers.len()
        invariant
            i <= draft.headers.len(),
            headers_model(headers@) == tested_headers(draft.headers@.take(i as int)),
        decreases draft.headers.len() - i,
    {
        let h = &draft.headers[i];
        let value = if h.secret {
            None
        } else {
            match &h.value {
                Some(v) => Some(owned(v.as_str())),
                None => Some(String::new()),
            }
        };
        let ghost before = headers@;
        headers.push(HeaderSpec { key: owned(h.key.as_str()), secret: h.secret, value });
        proof {
            assert(headers_model(headers@) =~= headers_model(before).push(tested_header(draft.headers@[i as int])));
            assert(tested_headers(draft.headers@.take(i + 1)) =~= tested_headers(draft.headers@.take(i as int)).push(
                tested_header(draft.headers@[i as int]),
            ));
        }
        i = i + 1;
    }
    proof {
        assert(draft.headers@.take(i as int) =~= draft.headers@);
    }
    let id = match &draft.id {
        Some(i) => owned(i.as_str()),
        None => owned("draft"),
    };
    let name = if str_chars(draft.name.as_str()).len() == 0 {
        owned("draft")
    } else {
        owned(draft.name.as_str())
    };
    let body = if draft.method == HttpMethod::Post {
        copy_opt(&draft.body)
    } else {
        None
    };
    let interval_sec = if draft.interval_sec < MIN_INTERVAL_SEC { MIN_INTERVAL_SEC } else { draft.interval_sec };
    let timeout_ms = if draft.timeout_ms < 500 {
        500
    } else if draft.timeout_ms > 60000 {
        60000
    } else {
        draft.timeout_ms
    };
    let follow_redirects = match draft.follow_redirects {
        Some(f) => f,
        None => true,
    };
    Service {
        id,
        name,
        url: owned(draft.url.as_str()),
        method: draft.method,
        headers,
        body,
        interval_sec,
        timeout_ms,
        expected_status: copy_status(&draft.expected_status),
        assertions: copy_assertions(&draft.assertions),
        max_latency_ms: draft.max_latency_ms,
        action_url: copy_opt(&draft.action_url),
        notify: draft.notify,
        always_alert: draft.always_alert,
        paused: false,
        follow_redirects,
        fail_threshold: draft.fail_threshold,
        group: copy_opt(&draft.group),
        created_at: now,
        updated_at: now,
    }
}

/// The draft as a service now.
pub fn service_from_draft(draft: &ServiceDraft) -> (r: Service)
    ensures
        exists|now: i64| crate::domain::service::service_model(r) == draft_service_spec(*draft, now),
{
    let now = now_millis();
    service_from_draft_at(draft, now)
}

/// Does a header of the draft hold exactly the UI mask?
pub open spec fn draft_has_mask_spec(hs: Seq<DraftHeader>) -> bool {
    exists|i: int| 0 <= i < hs.len() && ((#[trigger] hs[i]).value matches Some(v) && v@ == mask_spec())
}

pub fn draft_has_mask(draft: &ServiceDraft) -> (r: bool)
    ensures
        r == draft_has_mask_spec(draft.headers@),
{
    let mut i: usize = 0;
    while i < draft.headers.len()
        invariant
            i <= draft.headers.len(),
            forall|k: int| 0 <= k < i ==> !((#[trigger] draft.headers@[k]).value matches Some(v) && v@ == mask_spec()),
        decreases draft.headers.len() - i,
    {
        if let Some(v) = &draft.headers[i].value {
            if is_mask(v.as_str()) {
                return true;
            }
        }
        i = i + 1;
    }
    false
}

} // verus!
