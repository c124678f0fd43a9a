//! Secret headers: where their values come from, what is stored in the OS keychain, and the
//! short-lived grants that let a window reveal one. The keychain itself is reached by the
//! application; these are the decisions around each read and write.
use vstd::prelude::*;

use crate::domain::error::ValidationError;
use crate::domain::service::{
    denylisted, is_mask, is_mask_like, is_redacted_header, mask_spec, opt_view, DraftHeader, Header, HeaderSpec, Service,
    SECRET_MASK,
};
use crate::notify::copy::{join, join_strings, strings_view};
use crate::text::{
    ascii_lowercase, bool_text, byte_len, debug_quoted, eq_ignore_ascii_case, eq_ignore_case_spec, extend_bool, extend_str,
    finish, lower_seq, owned, starts_with_spec, str_chars, str_debug_result, str_eq,
};

verus! {

pub const KEYCHAIN_SERVICE: &'static str = "dev.pulsebar.app";
pub const REVEAL_TTL_MS: u64 = 5000;

/// Keychain account of a secret header: `{service_id}/{header_key in lower case}`.
pub fn account(service_id: &str, header_key: &str) -> (r: String)
    ensures
        r@ == service_id@ + "/"@ + lower_seq(header_key@),
{
    let lower = ascii_lowercase(header_key);
    let mut out: Vec<char> = str_chars(service_id);
    crate::text::extend_str(&mut out, "/");
    crate::text::extend_str(&mut out, lower.as_str());
    crate::text::finish(out)
}

#[derive(Debug, Clone, PartialEq, Eq)]
pub enum SecretError {
    NotFound(String),
    IdentityChanged(String),
    Backend { key: String, message: String },
    MaskValue,
}

impl SecretError {
    /// The header the error is about.
    pub fn key(&self) -> (r: Option<&str>)
        ensures
            match self {
                SecretError::NotFound(k) => r matches Some(x) && x@ == k@,
                SecretError::IdentityChanged(k) => r matches Some(x) && x@ == k@,
                SecretError::Backend { key, .. } => r matches Some(x) && x@ == key@,
                SecretError::MaskValue => r is None,
            },
    {
        match self {
            SecretError::NotFound(k) => Some(k.as_str()),
            SecretError::IdentityChanged(k) => Some(k.as_str()),
            SecretError::Backend { key, .. } => Some(key.as_str()),
            SecretError::MaskValue => None,
        }
    }

    /// The message shown for this error.
    pub fn message(&self) -> (r: String)
        ensures
            self matches SecretError::NotFound(k) ==> r@ == "secret header `"@ + k@ + "` is not set"@,
            self matches SecretError::IdentityChanged(k) ==> r@ == "keychain identity changed; re-enter secret header `"@ + k@ + "`"@,
            self matches SecretError::Backend { key, .. } ==> r@ == "could not store secret header `"@ + key@ + "` in the OS keychain"@,
            self is MaskValue ==> r@ == "refusing to store the UI mask as a secret"@,
    {
        match self {
            SecretError::NotFound(k) => quoted("secret header `", k.as_str(), "` is not set"),
            SecretError::IdentityChanged(k) => quoted("keychain identity changed; re-enter secret header `", k.as_str(), "`"),
            SecretError::Backend { key, .. } => quoted("could not store secret header `", key.as_str(), "` in the OS keychain"),
            SecretError::MaskValue => owned("refusing to store the UI mask as a secret"),
        }
    }
}

fn quoted(a: &str, k: &str, b: &str) -> (r: String)
    ensures
        r@ == a@ + k@ + b@,
{
    let mut out: Vec<char> = str_chars(a);
    crate::text::extend_str(&mut out, k);
    crate::text::extend_str(&mut out, b);
    crate::text::finish(out)
}

/// A value may be stored in the keychain unless it starts with the UI mask.
pub fn check_storable(value: &str) -> (r: Result<(), SecretError>)
    ensures
        r is Err <==> starts_with_spec(value@, mask_spec()),
        r matches Err(e) ==> e == SecretError::MaskValue,
{
    if is_mask_like(value) {
        Err(SecretError::MaskValue)
    } else {
        Ok(())
    }
}

/// A secret header that has no value anywhere.
#[derive(Debug, Clone, PartialEq, Eq)]
pub struct MissingSecret {
    pub key: String,
    pub identity_changed: bool,
}

impl MissingSecret {
    pub fn message(&self) -> (r: String)
        ensures
            r@ == "Secret header "@ + self.key@ + " is not set"@,
    {
        quoted("Secret header ", self.key.as_str(), " is not set")
    }
}

/// A header to resolve: its key, whether it is secret, a value typed in the editor (if any),
/// and whether the user cleared the secret.
pub struct ResolveHeader<'a> {
    pub key: &'a str,
    pub secret: bool,
    pub value: Option<&'a str>,
    pub clear: bool,
}

#[derive(Clone, PartialEq, Eq)]
pub struct ResolvedHeader {
    pub key: String,
    pub value: String,
    pub secret: bool,
}

#[derive(Clone, PartialEq, Eq)]
pub struct ResolvedHeaders(pub Vec<ResolvedHeader>);

/// Index of the first header named `key` up to ASCII case.
pub open spec fn first_named(hs: Seq<ResolvedHeader>, key: Seq<char>) -> Option<int>
    decreases hs.len(),
{
    if hs.len() == 0 {
        None
    } else {
        match first_named(hs.drop_last(), key) {
            Some(i) => Some(i),
            None => if eq_ignore_case_spec(hs.last().key@, key) {
                Some(hs.len() - 1)
            } else {
                None
            },
        }
    }
}

proof fn lemma_first_named(hs: Seq<ResolvedHeader>, key: Seq<char>, i: int)
    requires
        0 <= i < hs.len(),
        first_named(hs.take(i), key) is None,
        eq_ignore_case_spec(hs[i].key@, key),
    ensures
        first_named(hs, key) == Some(i),
    decreases hs.len(),
{
    if hs.len() == i + 1 {
        assert(hs.drop_last() =~= hs.take(i));
    } else {
        assert(hs.drop_last().take(i) =~= hs.take(i));
        lemma_first_named(hs.drop_last(), key, i);
    }
}

/// A resolved header as logs show it: the value masked when it is secret or a credential.
pub open spec fn resolved_debug(h: ResolvedHeader) -> Seq<char> {
    "ResolvedHeader { key: "@ + str_debug_result(h.key@) + ", value: "@ + str_debug_result(
        if h.secret || denylisted(lower_seq(h.key@)) { mask_spec() } else { h.value@ },
    ) + ", secret: "@ + bool_text(h.secret) + " }"@
}

pub open spec fn resolved_debugs(hs: Seq<ResolvedHeader>) -> Seq<Seq<char>> {
    hs.map_values(|h: ResolvedHeader| resolved_debug(h))
}

impl ResolvedHeader {
    pub fn debug_text(&self) -> (r: String)
        ensures
            r@ == resolved_debug(*self),
    {
        proof {
            reveal_strlit("••••••••");
            assert(SECRET_MASK@ =~= mask_spec());
        }
        let value = if self.secret || is_redacted_header(self.key.as_str()) {
            SECRET_MASK
        } else {
            self.value.as_str()
        };
        let mut out: Vec<char> = str_chars("ResolvedHeader { key: ");
        extend_str(&mut out, debug_quoted(self.key.as_str()).as_str());
        extend_str(&mut out, ", value: ");
        extend_str(&mut out, debug_quoted(value).as_str());
        extend_str(&mut out, ", secret: ");
        extend_bool(&mut out, self.secret);
        extend_str(&mut out, " }");
        finish(out)
    }
}

impl ResolvedHeaders {
    /// The headers as logs show them, each value masked when it is secret or a credential.
    pub fn debug_text(&self) -> (r: String)
        ensures
            r@ == "ResolvedHeaders(["@ + join(resolved_debugs(self.0@), ", "@) + "])"@,
    {
        let mut parts: Vec<String> = Vec::new();
        let mut i: usize = 0;
        while i < self.0.len()
            invariant
                i <= self.0.len(),
                strings_view(parts@) == resolved_debugs(self.0@.take(i as int)),
            decreases self.0.len() - i,
        {
            let ghost before = parts@;
            parts.push(self.0[i].debug_text());
            proof {
                assert(strings_view(parts@) =~= strings_view(before).push(resolved_debug(self.0@[i as int])));
                assert(resolved_debugs(self.0@.take(i + 1)) =~= resolved_debugs(self.0@.take(i as int)).push(
                    resolved_debug(self.0@[i as int]),
                ));
            }
            i = i + 1;
        }
        proof {
            assert(self.0@.take(i as int) =~= self.0@);
        }
        let mut out: Vec<char> = str_chars("ResolvedHeaders([");
        extend_str(&mut out, join_strings(&parts, ", ").as_str());
        extend_str(&mut out, "])");
        finish(out)
    }
}

impl ResolvedHeaders {
    pub fn items(&self) -> (r: &Vec<ResolvedHeader>)
        ensures
            r@ == self.0@,
    {
        &self.0
    }

    pub fn into_vec(self) -> (r: Vec<ResolvedHeader>)
        ensures
            r@ == self.0@,
    {
        self.0
    }

    /// The value of the first header named `key`, up to ASCII case.
    pub fn get(&self, key: &str) -> (r: Option<&str>)
        ensures
            match first_named(self.0@, key@) {
                Some(i) => r matches Some(v) && v@ == self.0@[i].value@,
                None => r is None,
            },
    {
        let mut i: usize = 0;
        while i < self.0.len()
            invariant
                i <= self.0.len(),
                first_named(self.0@.take(i as int), key@) is None,
            decreases self.0.len() - i,
        {
            proof {
                assert(self.0@.take(i + 1).drop_last() =~= self.0@.take(i as int));
            }
            if eq_ignore_ascii_case(self.0[i].key.as_str(), key) {
                proof {
                    lemma_first_named(self.0@, key@, i as int);
                }
                return Some(self.0[i].value.as_str());
            }
            i = i + 1;
        }
        proof {
            assert(self.0@.take(i as int) =~= self.0@);
        }
        None
    }
}

/// How one header gets its value.
pub enum HeaderResolution {
    /// Known without the keychain.
    Resolved(ResolvedHeader),
    /// A secret without a value: the check cannot run.
    Missing(MissingSecret),
    /// Read the keychain entry of this service and header, then call `settle_stored`.
    ReadStored,
}

/// The first step for one header: a plain header sends its value; a cleared secret is missing;
/// a secret typed in the editor (and not the mask) is used as typed; otherwise the keychain is
/// read, which needs a saved service.
pub fn resolve_header(header: &ResolveHeader, service_id: Option<&str>) -> (r: HeaderResolution)
    ensures
        !header.secret ==> (r matches HeaderResolution::Resolved(h) && h.key@ == header.key@ && !h.secret
            && h.value@ == (match header.value { Some(v) => v@, None => Seq::empty() })),
        header.secret && header.clear ==> (r matches HeaderResolution::Missing(m) && m.key@ == header.key@ && !m.identity_changed),
        header.secret && !header.clear ==> (match header.value {
            Some(v) if !starts_with_spec(v@, mask_spec()) => r matches HeaderResolution::Resolved(h) && h.key@ == header.key@
                && h.secret && h.value@ == v@,
            _ => if service_id is None {
                r matches HeaderResolution::Missing(m) && m.key@ == header.key@ && !m.identity_changed
            } else {
                r is ReadStored
            },
        }),
{
    if !header.secret {
        let value = match header.value {
            Some(v) => owned(v),
            None => String::new(),
        };
        return HeaderResolution::Resolved(ResolvedHeader { key: owned(header.key), value, secret: false });
    }
    if header.clear {
        return HeaderResolution::Missing(MissingSecret { key: owned(header.key), identity_changed: false });
    }
    if let Some(value) = header.value {
        if !is_mask_like(value) {
            return HeaderResolution::Resolved(ResolvedHeader { key: owned(header.key), value: owned(value), secret: true });
        }
    }
    if service_id.is_none() {
        return HeaderResolution::Missing(MissingSecret { key: owned(header.key), identity_changed: false });
    }
    HeaderResolution::ReadStored
}

/// The header once its keychain entry has been read: the stored value, unless it is the
/// mask; a missing entry or a changed keychain identity names the header that is missing.
pub fn settle_stored(header: &ResolveHeader, read: Result<String, SecretError>) -> (r: Result<ResolvedHeader, MissingSecret>)
    ensures
        match read {
            Ok(v) => if v@ == mask_spec() {
                r matches Err(m) && m.key@ == header.key@ && !m.identity_changed
            } else {
                r matches Ok(h) && h.key@ == header.key@ && h.value@ == v@ && h.secret
            },
            Err(SecretError::IdentityChanged(k)) => r matches Err(m) && m.key@ == k@ && m.identity_changed,
            Err(SecretError::NotFound(k)) => r matches Err(m) && m.key@ == k@ && !m.identity_changed,
            Err(SecretError::Backend { key, .. }) => r matches Err(m) && m.key@ == key@ && !m.identity_changed,
            Err(SecretError::MaskValue) => r matches Err(m) && m.key@ == header.key@ && !m.identity_changed,
        },
{
    match read {
        Ok(value) => {
            if !is_mask(value.as_str()) {
                Ok(ResolvedHeader { key: owned(header.key), value, secret: true })
            } else {
                Err(MissingSecret { key: owned(header.key), identity_changed: false })
            }
        },
        Err(SecretError::IdentityChanged(key)) => Err(MissingSecret { key, identity_changed: true }),
        Err(SecretError::NotFound(key)) => Err(MissingSecret { key, identity_changed: false }),
        Err(other) => {
            let key = match other.key() {
                Some(k) => owned(k),
                None => owned(header.key),
            };
            Err(MissingSecret { key, identity_changed: false })
        },
    }
}

/// The header shown in the UI: a secret shows the mask when a value is stored and nothing
/// otherwise; a plain header shows its value.
pub fn header_for_ui(spec: &HeaderSpec, stored: bool) -> (r: Header)
    ensures
        r.key@ == spec.key@,
        r.secret == spec.secret,
        spec.secret ==> r.has_value == stored && r.value@ == (if stored { mask_spec() } else { Seq::<char>::empty() }),
        !spec.secret ==> r.value@ == (match spec.value { Some(v) => v@, None => Seq::empty() })
            && r.has_value == (match spec.value { Some(v) => v@.len() > 0, None => false }),
{
    proof {
        reveal_strlit("••••••••");
        assert(SECRET_MASK@ =~= mask_spec());
    }
    if spec.secret {
        Header {
            key: owned(spec.key.as_str()),
            value: if stored { owned(SECRET_MASK) } else { String::new() },
            secret: true,
            has_value: stored,
        }
    } else {
        let (value, has_value) = match &spec.value {
            Some(v) => (owned(v.as_str()), str_chars(v.as_str()).len() > 0),
            None => (String::new(), false),
        };
        Header { key: owned(spec.key.as_str()), value, secret: false, has_value }
    }
}

/// The first refusal among draft headers: a key of 1 to 128 bytes, no key twice up to ASCII
/// case, and a value (other than the mask) of at most 8192 bytes.
pub open spec fn draft_check(d: Seq<DraftHeader>) -> Result<(), crate::domain::error::Refusal>
    decreases d.len(),
{
    if d.len() == 0 {
        Ok(())
    } else {
        let prefix = d.drop_last();
        let h = d.last();
        match draft_check(prefix) {
            Err(e) => Err(e),
            Ok(()) => if byte_len(h.key@) == 0 || byte_len(h.key@) > crate::domain::service::MAX_HEADER_KEY_BYTES {
                Err(crate::domain::error::Refusal::HeaderKey)
            } else if exists|i: int| 0 <= i < prefix.len() && eq_ignore_case_spec((#[trigger] prefix[i]).key@, h.key@) {
                Err(crate::domain::error::Refusal::DuplicateHeader(h.key@))
            } else if h.value matches Some(v) && v@ != mask_spec() && byte_len(v@) > crate::domain::service::MAX_HEADER_VALUE_BYTES {
                Err(crate::domain::error::Refusal::HeaderValue)
            } else {
                Ok(())
            },
        }
    }
}

/// One draft header on its own: a key of 1 to 128 bytes, and a value (other than the mask) of
/// at most 8192 bytes.
pub open spec fn draft_header_ok(h: DraftHeader) -> bool {
    &&& 0 < byte_len(h.key@) <= crate::domain::service::MAX_HEADER_KEY_BYTES
    &&& !(h.value matches Some(v) && v@ != mask_spec() && byte_len(v@) > crate::domain::service::MAX_HEADER_VALUE_BYTES)
}

/// The draft check passes exactly when every header is fine on its own and no two keys are
/// equal up to ASCII case.
pub proof fn lemma_draft_check_iff(d: Seq<DraftHeader>)
    ensures
        draft_check(d) is Ok <==> (
            (forall|i: int| 0 <= i < d.len() ==> draft_header_ok(#[trigger] d[i]))
            && (forall|i: int, j: int| 0 <= i < j < d.len() ==> !eq_ignore_case_spec(#[trigger] d[i].key@, #[trigger] d[j].key@))
        ),
    decreases d.len(),
{
    if d.len() > 0 {
        let p = d.drop_last();
        lemma_draft_check_iff(p);
        let n = d.len() - 1;
        if draft_check(d) is Ok {
            assert forall|i: int| 0 <= i < d.len() implies draft_header_ok(#[trigger] d[i]) by {
                if i < n {
                    assert(p[i] == d[i]);
                }
            }
            assert forall|i: int, j: int| 0 <= i < j < d.len() implies !eq_ignore_case_spec(#[trigger] d[i].key@, #[trigger] d[j].key@) by {
                assert(p[i] == d[i]);
                if j < n {
                    assert(p[j] == d[j]);
                } else {
                    assert(!eq_ignore_case_spec(p[i].key@, d.last().key@));
                }
            }
        }
        if (forall|i: int| 0 <= i < d.len() ==> draft_header_ok(#[trigger] d[i]))
            && (forall|i: int, j: int| 0 <= i < j < d.len() ==> !eq_ignore_case_spec(#[trigger] d[i].key@, #[trigger] d[j].key@)) {
            assert forall|i: int| 0 <= i < p.len() implies draft_header_ok(#[trigger] p[i]) by {
                assert(p[i] == d[i]);
            }
            assert forall|i: int, j: int| 0 <= i < j < p.len() implies !eq_ignore_case_spec(#[trigger] p[i].key@, #[trigger] p[j].key@) by {
                assert(p[i] == d[i] && p[j] == d[j]);
            }
            assert(draft_header_ok(d[n]));
            assert forall|i: int| 0 <= i < p.len() implies !eq_ignore_case_spec((#[trigger] p[i]).key@, d.last().key@) by {
                assert(p[i] == d[i]);
                assert(!eq_ignore_case_spec(d[i].key@, d[n].key@));
            }
        }
    }
}

proof fn lemma_draft_prefix(d: Seq<DraftHeader>, n: int)
    requires
        0 <= n <= d.len(),
        draft_check(d.take(n)) is Err,
    ensures
        draft_check(d) == draft_check(d.take(n)),
    decreases d.len(),
{
    if n == d.len() {
        assert(d.take(n) =~= d);
    } else {
        assert(d.drop_last().take(n) =~= d.take(n));
        lemma_draft_prefix(d.drop_last(), n);
    }
}

pub fn validate_draft_headers(draft: &Vec<DraftHeader>) -> (r: Result<(), ValidationError>)
    ensures
        crate::domain::error::outcome_view(r) == draft_check(draft@),
{
    let mut i: usize = 0;
    while i < draft.len()
        invariant
            i <= draft.len(),
            draft_check(draft@.take(i as int)) is Ok,
        decreases draft.len() - i,
    {
        let ghost prefix = draft@.take(i as int);
        proof {
            assert(draft@.take(i + 1).drop_last() =~= prefix);
            assert(draft@.take(i + 1).last() == draft@[i as int]);
        }
        let h = &draft[i];
        let klen = h.key.as_str().len();
        if klen == 0 || klen > crate::domain::service::MAX_HEADER_KEY_BYTES {
            proof {
                lemma_draft_prefix(draft@, i + 1);
            }
            return Err(ValidationError::HeaderKey);
        }
        let mut j: usize = 0;
        while j < i
            invariant
                j <= i,
                i < draft.len(),
                prefix == draft@.take(i as int),
                draft_check(prefix) is Ok,
                draft@.take(i + 1).drop_last() == prefix,
                draft@.take(i + 1).last() == draft@[i as int],
                !(byte_len(draft@[i as int].key@) == 0 || byte_len(draft@[i as int].key@) > crate::domain::service::MAX_HEADER_KEY_BYTES),
                forall|k: int| 0 <= k < j ==> !eq_ignore_case_spec((#[trigger] prefix[k]).key@, draft@[i as int].key@),
            decreases i - j,
        {
            assert(prefix[j as int] == draft@[j as int]);
            if eq_ignore_ascii_case(draft[j].key.as_str(), draft[i].key.as_str()) {
                proof {
                    assert(eq_ignore_case_spec(prefix[j as int].key@, draft@[i as int].key@));
                    assert(draft_check(draft@.take(i + 1)) is Err);
                    lemma_draft_prefix(draft@, i + 1);
                }
                return Err(ValidationError::DuplicateHeader(owned(draft[i].key.as_str())));
            }
            j = j + 1;
        }
        if let Some(v) = &h.value {
            if !is_mask(v.as_str()) && v.as_str().len() > crate::domain::service::MAX_HEADER_VALUE_BYTES {
                proof {
                    lemma_draft_prefix(draft@, i + 1);
                }
                return Err(ValidationError::HeaderValue);
            }
        }
        i = i + 1;
    }
    proof {
        assert(draft@.take(i as int) =~= draft@);
    }
    Ok(())
}

/// A keychain change that saving a draft makes.
#[derive(Debug, Clone, PartialEq, Eq)]
pub enum KeychainOp {
    Write { key: String, value: String },
    Remove { key: String },
}

/// The keychain changes and stored headers of saving `draft`, in the order they happen. Secret
/// values go to the keychain and never into the stored header; a plain header that holds the
/// mask is refused (the changes before it still happen); secrets that were removed or renamed
/// away are deleted at the end.
pub struct PersistPlan {
    pub ops: Vec<KeychainOp>,
    pub outcome: Result<Vec<HeaderSpec>, SecretError>,
}

pub open spec fn op_model(op: KeychainOp) -> (bool, Seq<char>, Seq<char>) {
    match op {
        KeychainOp::Write { key, value } => (true, key@, value@),
        KeychainOp::Remove { key } => (false, key@, Seq::empty()),
    }
}

pub open spec fn ops_model(ops: Seq<KeychainOp>) -> Seq<(bool, Seq<char>, Seq<char>)> {
    ops.map_values(|o: KeychainOp| op_model(o))
}

/// The changes and stored header for one draft header; `None` for a plain header holding the mask.
pub open spec fn persist_step(h: DraftHeader) -> Option<(Seq<(bool, Seq<char>, Seq<char>)>, (Seq<char>, bool, Option<Seq<char>>))> {
    if h.secret {
        let ops = if h.clear {
            seq![(false, h.key@, Seq::<char>::empty())]
        } else {
            match h.value {
                Some(v) => if !starts_with_spec(v@, mask_spec()) {
                    seq![(true, h.key@, v@)]
                } else {
                    Seq::empty()
                },
                None => Seq::empty(),
            }
        };
        Some((ops, (h.key@, true, None)))
    } else {
        let value = match h.value { Some(v) => v@, None => Seq::<char>::empty() };
        if starts_with_spec(value, mask_spec()) {
            None
        } else {
            Some((Seq::empty(), (h.key@, false, Some(value))))
        }
    }
}

/// Changes and stored headers for the drafts, stopping at a refused header.
pub open spec fn persist_fold(d: Seq<DraftHeader>) -> (Seq<(bool, Seq<char>, Seq<char>)>, Option<Seq<(Seq<char>, bool, Option<Seq<char>>)>>)
    decreases d.len(),
{
    if d.len() == 0 {
        (Seq::empty(), Some(Seq::empty()))
    } else {
        let (ops, stored) = persist_fold(d.drop_last());
        match stored {
            None => (ops, None),
            Some(hs) => match persist_step(d.last()) {
                None => (ops, None),
                Some((more, h)) => (ops + more, Some(hs.push(h))),
            },
        }
    }
}

/// Saving a draft never stores a secret value: every secret header it keeps has no value.
pub proof fn lemma_saved_secrets_hold_no_value(d: Seq<DraftHeader>)
    ensures
        persist_fold(d).1 matches Some(hs) ==> forall|i: int| 0 <= i < hs.len() && (#[trigger] hs[i]).1 ==> hs[i].2 is None,
    decreases d.len(),
{
    if d.len() > 0 {
        lemma_saved_secrets_hold_no_value(d.drop_last());
    }
}

/// Previous secret keys that no secret draft header keeps, up to ASCII case.
pub open spec fn dropped_keys(previous: Seq<Seq<char>>, d: Seq<DraftHeader>) -> Seq<Seq<char>>
    decreases previous.len(),
{
    if previous.len() == 0 {
        Seq::empty()
    } else {
        let rest = dropped_keys(previous.drop_last(), d);
        let k = previous.last();
        if exists|i: int| 0 <= i < d.len() && (#[trigger] d[i]).secret && eq_ignore_case_spec(d[i].key@, k) {
            rest
        } else {
            rest.push(k)
        }
    }
}

pub open spec fn deletes(keys: Seq<Seq<char>>) -> Seq<(bool, Seq<char>, Seq<char>)> {
    keys.map_values(|k: Seq<char>| (false, k, Seq::<char>::empty()))
}

proof fn lemma_persist_prefix(d: Seq<DraftHeader>, n: int)
    requires
        0 <= n <= d.len(),
        persist_fold(d.take(n)).1 is None,
    ensures
        persist_fold(d) == persist_fold(d.take(n)),
    decreases d.len(),
{
    if n == d.len() {
        assert(d.take(n) =~= d);
    } else {
        assert(d.drop_last().take(n) =~= d.take(n));
        lemma_persist_prefix(d.drop_last(), n);
    }
}

/// `r` is the plan of saving `draft` over a service that had the secret keys `previous`.
pub open spec fn is_persist_plan(draft: Seq<DraftHeader>, previous: Seq<String>, r: PersistPlan) -> bool {
    match persist_fold(draft).1 {
        Some(hs) => r.outcome matches Ok(v) && crate::domain::service::headers_model(v@) == hs
            && ops_model(r.ops@) == persist_fold(draft).0 + deletes(dropped_keys(crate::poller::request::names_view(previous), draft)),
        None => r.outcome == Err::<Vec<HeaderSpec>, SecretError>(SecretError::MaskValue)
            && ops_model(r.ops@) == persist_fold(draft).0,
    }
}

/// Plan the keychain changes of saving `draft` over a service that had `previous` secret keys.
pub fn persist_plan(draft: &Vec<DraftHeader>, previous: &Vec<String>) -> (r: PersistPlan)
    ensures
        is_persist_plan(draft@, previous@, r),
{
    let mut ops: Vec<KeychainOp> = Vec::new();
    let mut stored: Vec<HeaderSpec> = Vec::new();
    let mut i: usize = 0;
    proof {
        assert(ops_model(ops@) =~= Seq::<(bool, Seq<char>, Seq<char>)>::empty());
        assert(crate::domain::service::headers_model(stored@) =~= Seq::<(Seq<char>, bool, Option<Seq<char>>)>::empty());
        assert(draft@.take(0) =~= Seq::<DraftHeader>::empty());
    }
    while i < draft.len()
        invariant
            i <= draft.len(),
            persist_fold(draft@.take(i as int)).1 == Some(crate::domain::service::headers_model(stored@)),
            persist_fold(draft@.take(i as int)).0 == ops_model(ops@),
        decreases draft.len() - i,
    {
        proof {
            assert(draft@.take(i + 1).drop_last() =~= draft@.take(i as int));
            assert(draft@.take(i + 1).last() == draft@[i as int]);
        }
        let h = &draft[i];
        let ghost ops_before = ops@;
        let ghost stored_before = stored@;
        if h.secret {
            if h.clear {
                ops.push(KeychainOp::Remove { key: owned(h.key.as_str()) });
            } else if let Some(v) = &h.value {
                if !is_mask_like(v.as_str()) {
                    ops.push(KeychainOp::Write { key: owned(h.key.as_str()), value: owned(v.as_str()) });
                }
            }
            stored.push(HeaderSpec { key: owned(h.key.as_str()), secret: true, value: None });
        } else {
            let value = match &h.value {
                Some(v) => owned(v.as_str()),
                None => String::new(),
            };
            if is_mask_like(value.as_str()) {
                proof {
                    lemma_persist_prefix(draft@, i + 1);
                }
                return PersistPlan { ops, outcome: Err(SecretError::MaskValue) };
            }
            stored.push(HeaderSpec { key: owned(h.key.as_str()), secret: false, value: Some(value) });
        }
        proof {
            let step = persist_step(draft@[i as int]).unwrap();
            assert(ops_model(ops@) =~= ops_model(ops_before) + step.0);
            assert(crate::domain::service::headers_model(stored@) =~= crate::domain::service::headers_model(stored_before).push(step.1));
        }
        i = i + 1;
    }
    proof {
        assert(draft@.take(i as int) =~= draft@);
    }
    let ghost pv = crate::poller::request::names_view(previous@);
    let ghost base = ops@;
    let mut k: usize = 0;
    proof {
        assert(deletes(dropped_keys(pv.take(0), draft@)) =~= Seq::<(bool, Seq<char>, Seq<char>)>::empty());
        assert(ops_model(base) + Seq::<(bool, Seq<char>, Seq<char>)>::empty() =~= ops_model(base));
    }
    while k < previous.len()
        invariant
            k <= previous.len(),
            pv == crate::poller::request::names_view(previous@),
            ops_model(ops@) == ops_model(base) + deletes(dropped_keys(pv.take(k as int), draft@)),
        decreases previous.len() - k,
    {
        let old_key = previous[k].as_str();
        let mut present = false;
        let mut j: usize = 0;
        while j < draft.len()
            invariant
                j <= draft.len(),
                present == exists|m: int| 0 <= m < j && (#[trigger] draft@[m]).secret && eq_ignore_case_spec(draft@[m].key@, old_key@),
            decreases draft.len() - j,
        {
            if draft[j].secret && eq_ignore_ascii_case(draft[j].key.as_str(), old_key) {
                present = true;
            }
            j = j + 1;
        }
        let ghost before = ops@;
        if !present {
            ops.push(KeychainOp::Remove { key: owned(old_key) });
        }
        proof {
            assert(pv.take(k + 1).drop_last() =~= pv.take(k as int));
            assert(pv.take(k + 1).last() == old_key@);
            if !present {
                assert(deletes(dropped_keys(pv.take(k + 1), draft@)) =~= deletes(dropped_keys(pv.take(k as int), draft@)).push((false, old_key@, Seq::<char>::empty())));
                assert(ops_model(ops@) =~= ops_model(before).push((false, old_key@, Seq::<char>::empty())));
            }
        }
        k = k + 1;
    }
    proof {
        assert(pv.take(k as int) =~= pv);
    }
    PersistPlan { ops, outcome: Ok(stored) }
}

/// Saving draft headers: a draft that fails the draft check is refused with no keychain change
/// planned; otherwise the plan of `persist_plan`.
pub fn persist_draft_headers(draft: &Vec<DraftHeader>, previous: &Vec<String>) -> (r: Result<PersistPlan, ValidationError>)
    ensures
        r is Err <==> draft_check(draft@) is Err,
        r matches Err(e) ==> Err::<(), crate::domain::error::Refusal>(crate::domain::error::refusal(e)) == draft_check(draft@),
        r matches Ok(p) ==> is_persist_plan(draft@, previous@, p),
{
    match validate_draft_headers(draft) {
        Err(e) => Err(e),
        Ok(()) => Ok(persist_plan(draft, previous)),
    }
}

#[derive(Debug, Clone, PartialEq, Eq)]
pub struct BeginRevealResponse {
    pub token: String,
    pub ttl_ms: u64,
}

#[derive(Debug, Clone, PartialEq, Eq)]
pub enum RevealError {
    ForbiddenWindow,
    InvalidToken,
    MissingSecret(String),
    NotFound,
    Store(String),
}

/// Position of the first service with id `id`.
pub open spec fn first_service_with_id(services: Seq<Service>, id: Seq<char>) -> Option<int>
    decreases services.len(),
{
    if services.len() == 0 {
        None
    } else {
        match first_service_with_id(services.drop_last(), id) {
            Some(i) => Some(i),
            None => if services.last().id@ == id { Some(services.len() - 1) } else { None },
        }
    }
}

pub open spec fn has_secret_named(headers: Seq<HeaderSpec>, key: Seq<char>) -> bool {
    exists|j: int| 0 <= j < headers.len() && (#[trigger] headers[j]).secret && eq_ignore_case_spec(headers[j].key@, key)
}

/// A secret may be revealed only for a secret header (any ASCII case) of a saved service.
pub fn secret_header_exists(services: &[Service], service_id: &str, header_key: &str) -> (r: Result<(), RevealError>)
    ensures
        r is Ok <==> (match first_service_with_id(services@, service_id@) {
            Some(i) => has_secret_named(services@[i].headers@, header_key@),
            None => false,
        }),
        r matches Err(e) ==> e == RevealError::NotFound,
{
    let mut i: usize = 0;
    while i < services.len()
        invariant
            i <= services.len(),
            first_service_with_id(services@.take(i as int), service_id@) is None,
        decreases services.len() - i,
    {
        proof {
            assert(services@.take(i + 1).drop_last() =~= services@.take(i as int));
        }
        if str_eq(services[i].id.as_str(), service_id) {
            proof {
                lemma_first_service_prefix(services@, service_id@, i as int);
            }
            let headers = &services[i].headers;
            let mut j: usize = 0;
            while j < headers.len()
                invariant
                    j <= headers.len(),
                    i < services.len(),
                    headers@ == services@[i as int].headers@,
                    first_service_with_id(services@, service_id@) == Some(i as int),
                    forall|k: int| 0 <= k < j ==> !((#[trigger] headers@[k]).secret && eq_ignore_case_spec(headers@[k].key@, header_key@)),
                decreases headers.len() - j,
            {
                if headers[j].secret && eq_ignore_ascii_case(headers[j].key.as_str(), header_key) {
                    proof {
                        assert(headers@[j as int].secret && eq_ignore_case_spec(headers@[j as int].key@, header_key@));
                    }
                    return Ok(());
                }
                j = j + 1;
            }
            return Err(RevealError::NotFound);
        }
        i = i + 1;
    }
    proof {
        assert(services@.take(i as int) =~= services@);
    }
    Err(RevealError::NotFound)
}

proof fn lemma_first_service_prefix(services: Seq<Service>, id: Seq<char>, i: int)
    requires
        0 <= i < services.len(),
        first_service_with_id(services.take(i), id) is None,
        services[i].id@ == id,
    ensures
        first_service_with_id(services, id) == Some(i),
    decreases services.len(),
{
    if i == services.len() - 1 {
        assert(services.drop_last() =~= services.take(i));
    } else {
        assert(services.drop_last().take(i) =~= services.take(i));
        lemma_first_service_prefix(services.drop_last(), id, i);
    }
}

/// Only the detail and editor windows may reveal a secret.
pub fn ensure_reveal_window(label: &str) -> (r: Result<(), RevealError>)
    ensures
        r is Ok <==> (label@ == "detail"@ || label@ == "editor"@),
        r matches Err(e) ==> e == RevealError::ForbiddenWindow,
{
    if str_eq(label, "detail") || str_eq(label, "editor") {
        Ok(())
    } else {
        Err(RevealError::ForbiddenWindow)
    }
}

/// Calls `ulid::Ulid::new` and writes the id out: 26 characters of Crockford base32, from the
/// clock and a random source.
#[verifier::external_body]
pub(crate) fn new_ulid() -> (r: String)
    ensures
        r@.len() == 26,
{
    ulid::Ulid::new().to_string()
}

struct RevealSession {
    token: String,
    service_id: String,
    header_key: String,
    expires_at: u64,
}

/// Grants to reveal one secret header, each bound to a service and a header, valid for
/// `REVEAL_TTL_MS` and used once. Times are milliseconds on a monotonic clock.
pub struct RevealRegistry {
    sessions: Vec<RevealSession>,
}

/// Model of a grant: token, service, header key (lower case), expiry.
pub type Grant = (Seq<char>, Seq<char>, Seq<char>, u64);

spec fn grant_of(s: RevealSession) -> Grant {
    (s.token@, s.service_id@, s.header_key@, s.expires_at)
}

spec fn grants_of(s: Seq<RevealSession>) -> Seq<Grant> {
    s.map_values(|x: RevealSession| grant_of(x))
}

pub open spec fn tokens_distinct(grants: Seq<Grant>) -> bool {
    forall|i: int, j: int| 0 <= i < grants.len() && 0 <= j < grants.len() && i != j ==> (#[trigger] grants[i]).0 != (#[trigger] grants[j]).0
}

/// Whether a grant survives: still valid at `now` (when a time is given) and not for `drop`.
pub open spec fn survives(g: Grant, now: Option<u64>, drop: Option<Seq<char>>) -> bool {
    (match now { Some(t) => g.3 > t, None => true }) && drop != Some(g.0)
}

/// The grants that survive, in order.
pub open spec fn keep_grants(gs: Seq<Grant>, now: Option<u64>, drop: Option<Seq<char>>) -> Seq<Grant>
    decreases gs.len(),
{
    if gs.len() == 0 {
        Seq::empty()
    } else {
        let k = keep_grants(gs.drop_last(), now, drop);
        if survives(gs.last(), now, drop) {
            k.push(gs.last())
        } else {
            k
        }
    }
}

proof fn lemma_keep_grants(gs: Seq<Grant>, now: Option<u64>, drop: Option<Seq<char>>)
    requires
        tokens_distinct(gs),
    ensures
        tokens_distinct(keep_grants(gs, now, drop)),
        forall|g: Grant|
            #![trigger keep_grants(gs, now, drop).contains(g)]
            #![trigger gs.contains(g)]
            keep_grants(gs, now, drop).contains(g) <==> (gs.contains(g) && survives(g, now, drop)),
    decreases gs.len(),
{
    if gs.len() > 0 {
        let p = gs.drop_last();
        assert(tokens_distinct(p)) by {
            assert forall|i: int, j: int| 0 <= i < p.len() && 0 <= j < p.len() && i != j implies (#[trigger] p[i]).0 != (#[trigger] p[j]).0 by {
                assert(p[i] == gs[i] && p[j] == gs[j]);
            }
        }
        lemma_keep_grants(p, now, drop);
        let k = keep_grants(p, now, drop);
        let last = gs.last();
        assert forall|g: Grant| gs.contains(g) <==> (p.contains(g) || g == last) by {
            if gs.contains(g) {
                let i = choose|i: int| 0 <= i < gs.len() && gs[i] == g;
                if i < p.len() {
                    assert(p[i] == g);
                }
            }
            if p.contains(g) {
                let i = choose|i: int| 0 <= i < p.len() && p[i] == g;
                assert(gs[i] == g);
            }
            if g == last {
                assert(gs[gs.len() - 1] == g);
            }
        }
        if survives(last, now, drop) {
            let k2 = k.push(last);
            assert forall|g: Grant| k2.contains(g) <==> (k.contains(g) || g == last) by {
                if k2.contains(g) {
                    let i = choose|i: int| 0 <= i < k2.len() && k2[i] == g;
                    if i < k.len() {
                        assert(k[i] == g);
                    }
                }
                if k.contains(g) {
                    let i = choose|i: int| 0 <= i < k.len() && k[i] == g;
                    assert(k2[i] == g);
                }
                if g == last {
                    assert(k2[k.len() as int] == g);
                }
            }
            assert forall|i: int| 0 <= i < k.len() implies (#[trigger] k[i]).0 != last.0 by {
                assert(k.contains(k[i]));
                assert(p.contains(k[i]));
                let j = choose|j: int| 0 <= j < p.len() && p[j] == k[i];
                assert(gs[j] == k[i]);
                assert(gs[gs.len() - 1] == last);
            }
            assert forall|i: int, j: int| 0 <= i < k2.len() && 0 <= j < k2.len() && i != j implies (#[trigger] k2[i]).0 != (#[trigger] k2[j]).0 by {
                if i < k.len() && j < k.len() {
                    assert(k2[i] == k[i] && k2[j] == k[j]);
                } else if i < k.len() {
                    assert(k2[i] == k[i] && k2[j] == last);
                } else {
                    assert(k2[j] == k[j] && k2[i] == last);
                }
            }
        }
    }
}

impl RevealRegistry {
    pub closed spec fn grants(&self) -> Seq<Grant> {
        grants_of(self.sessions@)
    }

    pub closed spec fn wf(&self) -> bool {
        tokens_distinct(self.grants())
    }

    pub fn new() -> (r: Self)
        ensures
            r.wf(),
            r.grants() == Seq::<Grant>::empty(),
    {
        let r = RevealRegistry { sessions: Vec::new() };
        assert(r.grants() =~= Seq::<Grant>::empty());
        r
    }

    /// Keep only the grants that survive.
    fn retain(&mut self, now: Option<u64>, drop: Option<&str>)
        requires
            old(self).wf(),
        ensures
            final(self).wf(),
            final(self).grants() == keep_grants(old(self).grants(), now, opt_ref(drop)),
    {
        let ghost gs = self.grants();
        let mut kept: Vec<RevealSession> = Vec::new();
        let mut i: usize = 0;
        proof {
            assert(grants_of(kept@) =~= keep_grants(gs.take(0), now, opt_ref(drop)));
        }
        while i < self.sessions.len()
            invariant
                i <= self.sessions.len(),
                gs == grants_of(self.sessions@),
                grants_of(kept@) == keep_grants(gs.take(i as int), now, opt_ref(drop)),
            decreases self.sessions.len() - i,
        {
            proof {
                assert(gs.take(i + 1).drop_last() =~= gs.take(i as int));
                assert(gs.take(i + 1).last() == gs[i as int]);
            }
            let s = &self.sessions[i];
            let alive = match now {
                Some(t) => s.expires_at > t,
                None => true,
            };
            let dropped = match drop {
                Some(d) => str_eq(s.token.as_str(), d),
                None => false,
            };
            if alive && !dropped {
                let ghost before = kept@;
                kept.push(RevealSession {
                    token: owned(s.token.as_str()),
                    service_id: owned(s.service_id.as_str()),
                    header_key: owned(s.header_key.as_str()),
                    expires_at: s.expires_at,
                });
                proof {
                    assert(grants_of(kept@) =~= grants_of(before).push(gs[i as int]));
                }
            }
            i = i + 1;
        }
        proof {
            assert(gs.take(i as int) =~= gs);
            lemma_keep_grants(gs, now, opt_ref(drop));
        }
        self.sessions = kept;
    }

    /// A new grant for `header_key` of `service_id`, valid until `now + REVEAL_TTL_MS`.
    /// Expired grants are dropped first.
    pub fn begin(&mut self, service_id: &str, header_key: &str, now: u64) -> (r: BeginRevealResponse)
        requires
            old(self).wf(),
            now + REVEAL_TTL_MS <= u64::MAX,
        ensures
            final(self).wf(),
            r.ttl_ms == REVEAL_TTL_MS,
            r.token@.len() == 26,
            final(self).grants() == keep_grants(keep_grants(old(self).grants(), Some(now), None), None, Some(r.token@))
                .push((r.token@, service_id@, lower_seq(header_key@), (now + REVEAL_TTL_MS) as u64)),
    {
        self.retain(Some(now), None);
        let token = new_ulid();
        let ghost prev = self.grants();
        self.retain(None, Some(token.as_str()));
        let ghost before = self.grants();
        proof {
            lemma_keep_grants(prev, None, Some(token@));
        }
        let session = RevealSession {
            token: owned(token.as_str()),
            service_id: owned(service_id),
            header_key: ascii_lowercase(header_key),
            expires_at: now + REVEAL_TTL_MS,
        };
        self.sessions.push(session);
        proof {
            let g = self.grants();
            assert(g =~= before.push(grant_of(self.sessions@[self.sessions@.len() - 1])));
            assert forall|i: int| 0 <= i < before.len() implies (#[trigger] before[i]).0 != token@ by {
                assert(before.contains(before[i]));
            }
            assert forall|i: int, j: int| 0 <= i < g.len() && 0 <= j < g.len() && i != j implies (#[trigger] g[i]).0 != (#[trigger] g[j]).0 by {
                if i < before.len() && j < before.len() {
                    assert(g[i] == before[i] && g[j] == before[j]);
                } else if i < before.len() {
                    assert(g[i] == before[i]);
                } else {
                    assert(g[j] == before[j]);
                }
            }
        }
        BeginRevealResponse { token, ttl_ms: REVEAL_TTL_MS }
    }

    /// Whether `token` may reveal `header_key` of `service_id` at `now`. Expired grants are
    /// dropped; a grant bound elsewhere is refused but kept.
    pub fn reveal_check(&mut self, token: &str, service_id: &str, header_key: &str, now: u64) -> (r: Result<(), RevealError>)
        requires
            old(self).wf(),
        ensures
            final(self).wf(),
            final(self).grants() == keep_grants(old(self).grants(), Some(now), None),
            r is Ok <==> valid_grant(old(self).grants(), token@, service_id@, header_key@, now),
            r matches Err(e) ==> e == RevealError::InvalidToken,
    {
        self.retain(Some(now), None);
        proof {
            lemma_keep_grants(old(self).grants(), Some(now), None);
        }
        let ghost gs = self.grants();
        let mut i: usize = 0;
        while i < self.sessions.len()
            invariant
                i <= self.sessions.len(),
                gs == self.grants(),
                gs == keep_grants(old(self).grants(), Some(now), None),
                tokens_distinct(gs),
                forall|g: Grant| #[trigger] gs.contains(g) <==> (old(self).grants().contains(g) && g.3 > now),
                forall|k: int| 0 <= k < i ==> (#[trigger] gs[k]).0 != token@,
            decreases self.sessions.len() - i,
        {
            if str_eq(self.sessions[i].token.as_str(), token) {
                let s = &self.sessions[i];
                let ok = str_eq(s.service_id.as_str(), service_id) && eq_ignore_ascii_case(s.header_key.as_str(), header_key);
                proof {
                    assert(gs[i as int] == grant_of(self.sessions@[i as int]));
                    assert(gs.contains(gs[i as int]));
                    if valid_grant(old(self).grants(), token@, service_id@, header_key@, now) {
                        let g = choose|g: Grant| old(self).grants().contains(g) && g.0 == token@ && g.3 > now
                            && g.1 == service_id@ && eq_ignore_case_spec(g.2, header_key@);
                        assert(gs.contains(g));
                        let j = choose|j: int| 0 <= j < gs.len() && gs[j] == g;
                        assert(j == i as int);
                    }
                }
                if ok {
                    return Ok(());
                }
                return Err(RevealError::InvalidToken);
            }
            i = i + 1;
        }
        proof {
            if valid_grant(old(self).grants(), token@, service_id@, header_key@, now) {
                let g = choose|g: Grant| old(self).grants().contains(g) && g.0 == token@ && g.3 > now
                    && g.1 == service_id@ && eq_ignore_case_spec(g.2, header_key@);
                assert(gs.contains(g));
                let j = choose|j: int| 0 <= j < gs.len() && gs[j] == g;
                assert(gs[j].0 != token@);
            }
        }
        Err(RevealError::InvalidToken)
    }

    /// After a granted read of the keychain: a value uses up the grant; a missing value names
    /// the header; another failure is reported as is.
    pub fn reveal_finish(&mut self, token: &str, read: Result<String, SecretError>) -> (r: Result<String, RevealError>)
        requires
            old(self).wf(),
        ensures
            final(self).wf(),
            match read {
                Ok(v) => r matches Ok(x) && x@ == v@ && final(self).grants() == keep_grants(old(self).grants(), None, Some(token@)),
                Err(SecretError::NotFound(k)) => r matches Err(RevealError::MissingSecret(x)) && x@ == k@ && final(self).grants() == old(self).grants(),
                Err(SecretError::IdentityChanged(k)) => r matches Err(RevealError::MissingSecret(x)) && x@ == k@ && final(self).grants() == old(self).grants(),
                Err(_) => r is Err && final(self).grants() == old(self).grants(),
            },
    {
        match read {
            Ok(value) => {
                self.retain(None, Some(token));
                Ok(value)
            },
            Err(SecretError::NotFound(k)) => Err(RevealError::MissingSecret(k)),
            Err(SecretError::IdentityChanged(k)) => Err(RevealError::MissingSecret(k)),
            Err(e) => Err(RevealError::Store(e.message())),
        }
    }

    /// Withdraw a grant.
    pub fn end(&mut self, token: &str)
        requires
            old(self).wf(),
        ensures
            final(self).wf(),
            final(self).grants() == keep_grants(old(self).grants(), None, Some(token@)),
    {
        self.retain(None, Some(token));
    }
}

pub open spec fn opt_ref(o: Option<&str>) -> Option<Seq<char>> {
    match o {
        Some(s) => Some(s@),
        None => None,
    }
}

/// A grant for `token`, valid at `now`, bound to this service and header.
pub open spec fn valid_grant(grants: Seq<Grant>, token: Seq<char>, service_id: Seq<char>, header_key: Seq<char>, now: u64) -> bool {
    exists|g: Grant| grants.contains(g) && g.0 == token && g.3 > now && g.1 == service_id && eq_ignore_case_spec(g.2, header_key)
}

/// A grant is used once: after its value is revealed, the token no longer reveals anything.
pub proof fn lemma_reveal_is_single_use(grants: Seq<Grant>, token: Seq<char>, service_id: Seq<char>, header_key: Seq<char>, now: u64)
    requires
        tokens_distinct(grants),
    ensures
        !valid_grant(keep_grants(grants, None, Some(token)), token, service_id, header_key, now),
{
    lemma_keep_grants(grants, None, Some(token));
    let kept = keep_grants(grants, None, Some(token));
    if valid_grant(kept, token, service_id, header_key, now) {
        let g = choose|g: Grant| kept.contains(g) && g.0 == token && g.3 > now && g.1 == service_id && eq_ignore_case_spec(g.2, header_key);
        assert(survives(g, None, Some(token)));
    }
}

/// Withdrawing or expiring grants never makes a token valid.
pub proof fn lemma_expired_grant_refused(grants: Seq<Grant>, token: Seq<char>, service_id: Seq<char>, header_key: Seq<char>, issued: u64, now: u64)
    requires
        tokens_distinct(grants),
        grants.contains((token, service_id, lower_seq(header_key), issued)),
        issued <= now,
    ensures
        !valid_grant(grants, token, service_id, header_key, now),
{
    if valid_grant(grants, token, service_id, header_key, now) {
        let g = choose|g: Grant| grants.contains(g) && g.0 == token && g.3 > now && g.1 == service_id && eq_ignore_case_spec(g.2, header_key);
        let i = choose|i: int| 0 <= i < grants.len() && grants[i] == g;
        let j = choose|j: int| 0 <= j < grants.len() && grants[j] == (token, service_id, lower_seq(header_key), issued);
        assert(i == j);
    }
}

} // verus!
