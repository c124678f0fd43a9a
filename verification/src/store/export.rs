//! Export and import of services and settings: what a file holds, how an import merges into
//! the current services, and what the user is asked before importing.
use vstd::prelude::*;

use crate::domain::assertion::Assertion;
use crate::domain::error::{outcome_view, refusal, Refusal, ValidationError};
use crate::domain::service::{
    copy_assertions, copy_opt, copy_status, headers_model, lemma_services_check_models, model_check, models_check,
    opt_view, service_model, status_model,
    DraftHeader, ExpectedStatus, HeaderModel, HeaderSpec, HttpMethod, Service, ServiceModel,
};
use crate::domain::settings::{AppSettings, QuietHours, Theme};
use crate::notify::copy::{join, join_strings, strings_view};
use crate::poller::client::{opt_ref_view, url_parse_result, ParsedUrl};
use crate::store::migrate::StoreError;
use crate::store::secrets::new_ulid;
use crate::text::{decimal, decimal_chars, extend_chars, extend_str, finish, owned, str_chars, trim, trim_spec};

verus! {

pub const DEFAULT_EXPORT_FILENAME: &'static str = "pulse-services.json";
pub const SECRETS_EXPORT_FILENAME: &'static str = "pulse-services.SECRETS.json";
pub const EXPORT_SCHEMA_VERSION: u32 = 1;

/// Settings as they travel in an export file.
#[derive(Debug, Clone)]
pub struct ExportSettings {
    pub launch_at_login: bool,
    pub hotkey: Option<String>,
    pub theme: Theme,
    pub default_interval: u32,
    pub default_timeout_ms: u32,
    pub fail_threshold: u32,
    pub notifications: bool,
    pub sound: bool,
    pub quiet_hours: Option<QuietHours>,
}

/// A service as it travels in an export file.
#[derive(Clone)]
pub struct ExportService {
    pub id: Option<String>,
    pub name: String,
    pub url: String,
    pub method: HttpMethod,
    pub headers: Vec<HeaderSpec>,
    pub body: Option<String>,
    pub interval_sec: u32,
    pub timeout_ms: u32,
    pub expected_status: ExpectedStatus,
    pub assertions: Vec<Assertion>,
    pub max_latency_ms: Option<u32>,
    pub action_url: Option<String>,
    pub notify: bool,
    pub always_alert: bool,
    pub paused: bool,
    pub follow_redirects: bool,
    pub fail_threshold: Option<u32>,
    pub group: Option<String>,
}

/// An export file. `exported_at` is in milliseconds since the Unix epoch.
#[derive(Clone)]
pub struct ExportFile {
    pub schema_version: u32,
    pub exported_at: Option<i64>,
    pub include_secrets: Option<bool>,
    pub settings: Option<ExportSettings>,
    pub services: Vec<ExportService>,
}

#[derive(Debug, Clone, Copy, PartialEq, Eq, Structural)]
pub struct ImportOutcome {
    pub added: u32,
    pub updated: u32,
}

/// What the user is shown before an import: one `(name, host)` per service.
#[derive(Debug, Clone, PartialEq, Eq)]
pub struct ImportPreview {
    pub filename: String,
    pub entries: Vec<(String, String)>,
    pub has_secret_values: bool,
}

/// The file name an export is saved under; a file with secrets says so in its name.
pub fn export_filename(include_secrets: bool) -> (r: &'static str)
    ensures
        r@ == (if include_secrets { "pulse-services.SECRETS.json"@ } else { "pulse-services.json"@ }),
{
    if include_secrets {
        SECRETS_EXPORT_FILENAME
    } else {
        DEFAULT_EXPORT_FILENAME
    }
}

pub open spec fn entries_view(e: Seq<(String, String)>) -> Seq<(Seq<char>, Seq<char>)> {
    e.map_values(|p: (String, String)| (p.0@, p.1@))
}

pub open spec fn entry_line(e: (Seq<char>, Seq<char>)) -> Seq<char> {
    e.0 + " \u{2014} "@ + e.1
}

pub open spec fn entry_lines(e: Seq<(Seq<char>, Seq<char>)>) -> Seq<Seq<char>> {
    e.map_values(|x: (Seq<char>, Seq<char>)| entry_line(x))
}

/// The lines of the import question: the count and file, a blank line and one line per
/// service, then a keychain note when secrets come along.
pub open spec fn confirm_lines(filename: Seq<char>, entries: Seq<(Seq<char>, Seq<char>)>, secrets_note: bool) -> Seq<Seq<char>> {
    let n = entries.len();
    let noun = if n == 1 { "service"@ } else { "services"@ };
    let head = seq!["Import "@ + decimal(n) + " "@ + noun + " from "@ + filename + "?"@];
    let body = if n > 0 { seq![Seq::<char>::empty()] + entry_lines(entries) } else { Seq::empty() };
    let note = if secrets_note {
        seq![Seq::<char>::empty(), "This file contains secret header values. They will be stored in your OS keychain."@]
    } else {
        Seq::empty()
    };
    head + body + note
}

/// The question asked before an import.
pub fn confirm_message(preview: &ImportPreview, include_secrets: bool) -> (r: String)
    ensures
        r@ == join(confirm_lines(preview.filename@, entries_view(preview.entries@), include_secrets && preview.has_secret_values), "\n"@),
{
    let n = preview.entries.len();
    let mut first: Vec<char> = Vec::new();
    extend_str(&mut first, "Import ");
    let digits = decimal_chars(n as u64);
    extend_chars(&mut first, &digits);
    extend_str(&mut first, " ");
    if n == 1 {
        extend_str(&mut first, "service");
    } else {
        extend_str(&mut first, "services");
    }
    extend_str(&mut first, " from ");
    extend_str(&mut first, preview.filename.as_str());
    extend_str(&mut first, "?");
    let mut lines: Vec<String> = Vec::new();
    lines.push(finish(first));
    let ghost ev = entries_view(preview.entries@);
    let ghost head = strings_view(lines@);
    if n > 0 {
        lines.push(String::new());
        let mut i: usize = 0;
        while i < n
            invariant
                i <= n,
                n == preview.entries@.len(),
                ev == entries_view(preview.entries@),
                strings_view(lines@) == head + seq![Seq::<char>::empty()] + entry_lines(ev.take(i as int)),
            decreases n - i,
        {
            let mut line: Vec<char> = Vec::new();
            extend_str(&mut line, preview.entries[i].0.as_str());
            extend_str(&mut line, " \u{2014} ");
            extend_str(&mut line, preview.entries[i].1.as_str());
            let ghost before = strings_view(lines@);
            lines.push(finish(line));
            proof {
                assert(entry_lines(ev.take(i + 1)) =~= entry_lines(ev.take(i as int)).push(entry_line(ev[i as int])));
                assert(strings_view(lines@) =~= before.push(entry_line(ev[i as int])));
            }
            i = i + 1;
        }
        proof {
            assert(ev.take(n as int) =~= ev);
        }
    }
    let ghost mid = strings_view(lines@);
    if include_secrets && preview.has_secret_values {
        lines.push(String::new());
        lines.push(owned("This file contains secret header values. They will be stored in your OS keychain."));
        proof {
            assert(strings_view(lines@) =~= mid + seq![Seq::<char>::empty(), "This file contains secret header values. They will be stored in your OS keychain."@]);
        }
    }
    proof {
        let lines_spec = confirm_lines(preview.filename@, ev, include_secrets && preview.has_secret_values);
        assert(strings_view(lines@) =~= lines_spec);
    }
    join_strings(&lines, "\n")
}

/// A secret header with a non-empty value.
pub open spec fn has_secret_value(h: HeaderSpec) -> bool {
    h.secret && (h.value matches Some(v) && v@.len() > 0)
}

pub open spec fn service_has_secret(s: ExportService) -> bool {
    exists|j: int| 0 <= j < s.headers@.len() && has_secret_value(#[trigger] s.headers@[j])
}

/// Whether any service of the file carries a secret header value.
pub open spec fn has_secret_values_spec(services: Seq<ExportService>) -> bool {
    exists|i: int| 0 <= i < services.len() && service_has_secret(#[trigger] services[i])
}

pub fn has_secret_values(file: &ExportFile) -> (r: bool)
    ensures
        r == has_secret_values_spec(file.services@),
{
    let mut i: usize = 0;
    while i < file.services.len()
        invariant
            i <= file.services.len(),
            forall|k: int| 0 <= k < i ==> !service_has_secret(#[trigger] file.services@[k]),
        decreases file.services.len() - i,
    {
        let s = &file.services[i];
        let mut j: usize = 0;
        while j < s.headers.len()
            invariant
                j <= s.headers.len(),
                i < file.services.len(),
                *s == file.services@[i as int],
                forall|k: int| 0 <= k < i ==> !service_has_secret(#[trigger] file.services@[k]),
                forall|k: int| 0 <= k < j ==> !has_secret_value(#[trigger] s.headers@[k]),
            decreases s.headers.len() - j,
        {
            let h = &s.headers[j];
            if h.secret {
                if let Some(v) = &h.value {
                    if str_chars(v.as_str()).len() > 0 {
                        assert(has_secret_value(s.headers@[j as int]));
                        assert(service_has_secret(file.services@[i as int]));
                        return true;
                    }
                }
            }
            j = j + 1;
        }
        assert(!service_has_secret(file.services@[i as int]));
        i = i + 1;
    }
    false
}

/// Secret values may only be imported when the user asked for it.
pub fn reject_secrets_without_flag(file: &ExportFile, include_secrets: bool) -> (r: Result<(), StoreError>)
    ensures
        r is Err <==> (!include_secrets && has_secret_values_spec(file.services@)),
        r matches Err(e) ==> e == StoreError::SecretsWithoutFlag,
{
    if !include_secrets && has_secret_values(file) {
        Err(StoreError::SecretsWithoutFlag)
    } else {
        Ok(())
    }
}

/// The host of a URL, or the URL itself when it has none.
pub open spec fn host_of_spec(url: Seq<char>) -> Seq<char> {
    match url_parse_result(url) {
        Some(u) => match u.2 {
            Some(h) => h,
            None => url,
        },
        None => url,
    }
}

pub fn host_of(url: &str) -> (r: String)
    ensures
        r@ == host_of_spec(url@),
{
    match ParsedUrl::parse(url) {
        Some(u) => match u.host_str() {
            Some(h) => owned(h),
            None => owned(url),
        },
        None => owned(url),
    }
}

/// The id an imported service asks for: its id without surrounding whitespace, when not blank.
pub open spec fn incoming_id_spec(s: ExportService) -> Option<Seq<char>> {
    match s.id {
        Some(i) => if trim_spec(i@).len() > 0 { Some(trim_spec(i@)) } else { None },
        None => None,
    }
}

/// A stored header: secret values never stay in the configuration.
pub open spec fn stored_header(h: HeaderModel) -> HeaderModel {
    (h.0, h.1, if h.1 { None } else { h.2 })
}

pub open spec fn stored_headers(hs: Seq<HeaderModel>) -> Seq<HeaderModel> {
    hs.map_values(|h: HeaderModel| stored_header(h))
}

/// The service an import makes of `e`, under `id`.
pub open spec fn imported_model(e: ExportService, id: Seq<char>, created_at: i64, now: i64) -> ServiceModel {
    ServiceModel {
        id,
        name: e.name@,
        url: e.url@,
        method: e.method,
        headers: stored_headers(headers_model(e.headers@)),
        body: opt_view(e.body),
        interval_sec: e.interval_sec,
        timeout_ms: e.timeout_ms,
        expected_status: status_model(e.expected_status),
        assertions: crate::domain::service::assertions_model(e.assertions@),
        max_latency_ms: e.max_latency_ms,
        action_url: opt_view(e.action_url),
        notify: e.notify,
        always_alert: e.always_alert,
        paused: e.paused,
        follow_redirects: e.follow_redirects,
        fail_threshold: e.fail_threshold,
        group: opt_view(e.group),
        created_at,
        updated_at: now,
    }
}

/// Draft headers as an import hands them to the keychain: value as given, nothing cleared.
pub open spec fn import_drafts(hs: Seq<HeaderModel>) -> Seq<(Seq<char>, Option<Seq<char>>, bool, bool)> {
    hs.map_values(|h: HeaderModel| (h.0, h.2, h.1, false))
}

pub open spec fn drafts_model(d: Seq<DraftHeader>) -> Seq<(Seq<char>, Option<Seq<char>>, bool, bool)> {
    d.map_values(|h: DraftHeader| (h.key@, opt_view(h.value), h.secret, h.clear))
}

impl ExportService {
    pub fn incoming_id(&self) -> (r: Option<String>)
        ensures
            opt_view(r) == incoming_id_spec(*self),
    {
        match &self.id {
            Some(i) => {
                let t = trim(i.as_str());
                if str_chars(t.as_str()).len() > 0 {
                    Some(t)
                } else {
                    None
                }
            },
            None => None,
        }
    }

    /// The service this entry becomes, with secret values left out.
    pub fn to_service(&self, id: String, created_at: i64, now: i64) -> (r: Service)
        ensures
            service_model(r) == imported_model(*self, id@, created_at, now),
    {
        let mut headers: Vec<HeaderSpec> = Vec::new();
        let mut i: usize = 0;
        while i < self.headers.len()
            invariant
                i <= self.headers.len(),
                headers_model(headers@) == stored_headers(headers_model(self.headers@.take(i as int))),
            decreases self.headers.len() - i,
        {
            let h = &self.headers[i];
            let value = if h.secret {
                None
            } else {
                copy_opt(&h.value)
            };
            let ghost before = headers@;
            headers.push(HeaderSpec { key: owned(h.key.as_str()), secret: h.secret, value });
            proof {
                assert(headers_model(headers@) =~= headers_model(before).push(stored_header(crate::domain::service::header_model(self.headers@[i as int]))));
                assert(stored_headers(headers_model(self.headers@.take(i + 1))) =~= stored_headers(headers_model(self.headers@.take(i as int))).push(stored_header(crate::domain::service::header_model(self.headers@[i as int]))));
            }
            i = i + 1;
        }
        proof {
            assert(self.headers@.take(i as int) =~= self.headers@);
        }
        Service {
            id,
            name: owned(self.name.as_str()),
            url: owned(self.url.as_str()),
            method: self.method,
            headers,
            body: copy_opt(&self.body),
            interval_sec: self.interval_sec,
            timeout_ms: self.timeout_ms,
            expected_status: copy_status(&self.expected_status),
            assertions: copy_assertions(&self.assertions),
            max_latency_ms: self.max_latency_ms,
            action_url: copy_opt(&self.action_url),
            notify: self.notify,
            always_alert: self.always_alert,
            paused: self.paused,
            follow_redirects: self.follow_redirects,
            fail_threshold: self.fail_threshold,
            group: copy_opt(&self.group),
            created_at,
            updated_at: now,
        }
    }

    /// The headers as drafts for the keychain step of an import.
    pub fn draft_headers(&self) -> (r: Vec<DraftHeader>)
        ensures
            drafts_model(r@) == import_drafts(headers_model(self.headers@)),
    {
        let mut out: Vec<DraftHeader> = Vec::new();
        let mut i: usize = 0;
        while i < self.headers.len()
            invariant
                i <= self.headers.len(),
                drafts_model(out@) == import_drafts(headers_model(self.headers@.take(i as int))),
            decreases self.headers.len() - i,
        {
            let h = &self.headers[i];
            let ghost before = out@;
            out.push(DraftHeader { key: owned(h.key.as_str()), value: copy_opt(&h.value), secret: h.secret, clear: false });
            proof {
                assert(drafts_model(out@) =~= drafts_model(before).push((h.key@, opt_view(h.value), h.secret, false)));
                assert(import_drafts(headers_model(self.headers@.take(i + 1))) =~= import_drafts(headers_model(self.headers@.take(i as int))).push((h.key@, opt_view(h.value), h.secret, false)));
            }
            i = i + 1;
        }
        proof {
            assert(self.headers@.take(i as int) =~= self.headers@);
        }
        out
    }
}


impl ExportSettings {
    /// Put the exported settings in place; the fields an export does not carry are kept.
    pub fn apply_to(&self, settings: &mut AppSettings)
        ensures
            final(settings).launch_at_login == self.launch_at_login,
            opt_view(final(settings).hotkey) == opt_view(self.hotkey),
            final(settings).theme == self.theme,
            final(settings).default_interval == self.default_interval,
            final(settings).default_timeout_ms == self.default_timeout_ms,
            final(settings).fail_threshold == self.fail_threshold,
            final(settings).notifications == self.notifications,
            final(settings).sound == self.sound,
            crate::domain::settings::opt_quiet_model(final(settings).quiet_hours) == crate::domain::settings::opt_quiet_model(self.quiet_hours),
            final(settings).last_export_at == old(settings).last_export_at,
            final(settings).asked_launch_at_login == old(settings).asked_launch_at_login,
    {
        settings.launch_at_login = self.launch_at_login;
        settings.hotkey = copy_opt(&self.hotkey);
        settings.theme = self.theme;
        settings.default_interval = self.default_interval;
        settings.default_timeout_ms = self.default_timeout_ms;
        settings.fail_threshold = self.fail_threshold;
        settings.notifications = self.notifications;
        settings.sound = self.sound;
        settings.quiet_hours = crate::domain::settings::copy_quiet(&self.quiet_hours);
    }

    /// The exported part of `settings`.
    pub fn from_settings(settings: &AppSettings) -> (r: ExportSettings)
        ensures
            r.launch_at_login == settings.launch_at_login,
            opt_view(r.hotkey) == opt_view(settings.hotkey),
            r.theme == settings.theme,
            r.default_interval == settings.default_interval,
            r.default_timeout_ms == settings.default_timeout_ms,
            r.fail_threshold == settings.fail_threshold,
            r.notifications == settings.notifications,
            r.sound == settings.sound,
            crate::domain::settings::opt_quiet_model(r.quiet_hours) == crate::domain::settings::opt_quiet_model(settings.quiet_hours),
    {
        ExportSettings {
            launch_at_login: settings.launch_at_login,
            hotkey: copy_opt(&settings.hotkey),
            theme: settings.theme,
            default_interval: settings.default_interval,
            default_timeout_ms: settings.default_timeout_ms,
            fail_threshold: settings.fail_threshold,
            notifications: settings.notifications,
            sound: settings.sound,
            quiet_hours: crate::domain::settings::copy_quiet(&settings.quiet_hours),
        }
    }
}

/// The exported value of header `i`: a secret travels only when secrets are included, and then
/// as read from the keychain (`stored`); a plain header travels as stored.
pub open spec fn exported_header(h: HeaderModel, include_secrets: bool, stored: Option<Seq<char>>) -> HeaderModel {
    (h.0, h.1, if h.1 { if include_secrets { stored } else { None } } else { h.2 })
}

pub open spec fn export_model_matches(r: ExportService, s: Service, include_secrets: bool, stored: Seq<Option<String>>) -> bool {
    &&& opt_view(r.id) == Some(s.id@)
    &&& r.name@ == s.name@
    &&& r.url@ == s.url@
    &&& r.method == s.method
    &&& r.headers@.len() == s.headers@.len()
    &&& forall|i: int| 0 <= i < s.headers@.len() ==> crate::domain::service::header_model(#[trigger] r.headers@[i])
        == exported_header(crate::domain::service::header_model(s.headers@[i]), include_secrets, opt_view(stored[i]))
    &&& opt_view(r.body) == opt_view(s.body)
    &&& r.interval_sec == s.interval_sec
    &&& r.timeout_ms == s.timeout_ms
    &&& status_model(r.expected_status) == status_model(s.expected_status)
    &&& crate::domain::service::assertions_model(r.assertions@) == crate::domain::service::assertions_model(s.assertions@)
    &&& r.max_latency_ms == s.max_latency_ms
    &&& opt_view(r.action_url) == opt_view(s.action_url)
    &&& r.notify == s.notify
    &&& r.always_alert == s.always_alert
    &&& r.paused == s.paused
    &&& r.follow_redirects == s.follow_redirects
    &&& r.fail_threshold == s.fail_threshold
    &&& opt_view(r.group) == opt_view(s.group)
}

/// An export without secrets carries no secret value.
pub proof fn lemma_export_without_secrets_holds_no_secret_value(r: ExportService, s: Service, stored: Seq<Option<String>>)
    requires
        export_model_matches(r, s, false, stored),
    ensures
        forall|i: int| 0 <= i < r.headers@.len() && (#[trigger] r.headers@[i]).secret ==> r.headers@[i].value is None,
{
    assert forall|i: int| 0 <= i < r.headers@.len() && (#[trigger] r.headers@[i]).secret implies r.headers@[i].value is None by {
        assert(crate::domain::service::header_model(r.headers@[i]) == exported_header(
            crate::domain::service::header_model(s.headers@[i]),
            false,
            opt_view(stored[i]),
        ));
    }
}

/// A service as it is exported. `stored[i]` is the keychain value of header `i` (read only for
/// secret headers when secrets are included; `None` when there is none).
pub fn export_service(service: &Service, include_secrets: bool, stored: &Vec<Option<String>>) -> (r: ExportService)
    requires
        stored@.len() == service.headers@.len(),
    ensures
        export_model_matches(r, *service, include_secrets, stored@),
{
    let mut headers: Vec<HeaderSpec> = Vec::new();
    let mut i: usize = 0;
    while i < service.headers.len()
        invariant
            i <= service.headers.len(),
            stored@.len() == service.headers@.len(),
            headers@.len() == i,
            forall|k: int| 0 <= k < i ==> crate::domain::service::header_model(#[trigger] headers@[k])
                == exported_header(crate::domain::service::header_model(service.headers@[k]), include_secrets, opt_view(stored@[k])),
        decreases service.headers.len() - i,
    {
        let h = &service.headers[i];
        let value = if h.secret {
            if include_secrets {
                copy_opt(&stored[i])
            } else {
                None
            }
        } else {
            copy_opt(&h.value)
        };
        headers.push(HeaderSpec { key: owned(h.key.as_str()), secret: h.secret, value });
        i = i + 1;
    }
    ExportService {
        id: Some(owned(service.id.as_str())),
        name: owned(service.name.as_str()),
        url: owned(service.url.as_str()),
        method: service.method,
        headers,
        body: copy_opt(&service.body),
        interval_sec: service.interval_sec,
        timeout_ms: service.timeout_ms,
        expected_status: copy_status(&service.expected_status),
        assertions: copy_assertions(&service.assertions),
        max_latency_ms: service.max_latency_ms,
        action_url: copy_opt(&service.action_url),
        notify: service.notify,
        always_alert: service.always_alert,
        paused: service.paused,
        follow_redirects: service.follow_redirects,
        fail_threshold: service.fail_threshold,
        group: copy_opt(&service.group),
    }
}


/// The keychain step that an imported service still needs: its position, its headers as
/// drafts, and the secret keys it had before.
pub struct SecretWrite {
    pub index: usize,
    pub drafts: Vec<DraftHeader>,
    pub previous: Vec<String>,
}

/// The services after an import, the keychain steps, and how many were added and updated.
pub struct PreparedImport {
    pub services: Vec<Service>,
    pub secret_writes: Vec<SecretWrite>,
    pub added: u32,
    pub updated: u32,
}

pub type WriteModel = (int, Seq<(Seq<char>, Option<Seq<char>>, bool, bool)>, Seq<Seq<char>>);

pub open spec fn write_model(w: SecretWrite) -> WriteModel {
    (w.index as int, drafts_model(w.drafts@), crate::poller::request::names_view(w.previous@))
}

pub open spec fn writes_model(w: Seq<SecretWrite>) -> Seq<WriteModel> {
    w.map_values(|x: SecretWrite| write_model(x))
}

pub struct ImportModel {
    pub services: Seq<ServiceModel>,
    pub writes: Seq<WriteModel>,
    pub added: nat,
    pub updated: nat,
}

/// First position of a service with this id.
pub open spec fn find_id(ss: Seq<ServiceModel>, id: Seq<char>) -> Option<int>
    decreases ss.len(),
{
    if ss.len() == 0 {
        None
    } else {
        match find_id(ss.drop_last(), id) {
            Some(i) => Some(i),
            None => if ss.last().id == id { Some(ss.len() - 1) } else { None },
        }
    }
}

/// Keys of the secret headers, in order.
pub open spec fn secret_keys(hs: Seq<HeaderModel>) -> Seq<Seq<char>>
    decreases hs.len(),
{
    if hs.len() == 0 {
        Seq::empty()
    } else if hs.last().1 {
        secret_keys(hs.drop_last()).push(hs.last().0)
    } else {
        secret_keys(hs.drop_last())
    }
}

/// One imported service: it replaces the service with its id, keeping that service's id and
/// creation time, or it is added (under `fresh` when it has no id); it must be valid.
pub open spec fn import_step(acc: ImportModel, e: ExportService, fresh: Seq<char>, now: i64) -> Result<ImportModel, Refusal> {
    let target = match incoming_id_spec(e) {
        Some(iid) => match find_id(acc.services, iid) {
            Some(i) => (Some(i), acc.services[i].id, acc.services[i].created_at, secret_keys(acc.services[i].headers)),
            None => (None::<int>, iid, now, Seq::<Seq<char>>::empty()),
        },
        None => (None::<int>, fresh, now, Seq::<Seq<char>>::empty()),
    };
    let svc = imported_model(e, target.1, target.2, now);
    let drafts = import_drafts(headers_model(e.headers@));
    match model_check(svc) {
        Err(r) => Err(r),
        Ok(()) => match target.0 {
            Some(i) => Ok(ImportModel {
                services: acc.services.update(i, svc),
                writes: acc.writes.push((i, drafts, target.3)),
                added: acc.added,
                updated: acc.updated + 1,
            }),
            None => Ok(ImportModel {
                services: acc.services.push(svc),
                writes: acc.writes.push((acc.services.len() as int, drafts, target.3)),
                added: acc.added + 1,
                updated: acc.updated,
            }),
        },
    }
}

/// The import of `incoming` over `existing`, in file order; the first invalid service stops it.
pub open spec fn import_fold(existing: Seq<ServiceModel>, incoming: Seq<ExportService>, fresh: Seq<Seq<char>>, now: i64) -> Result<ImportModel, Refusal>
    decreases incoming.len(),
{
    if incoming.len() == 0 {
        Ok(ImportModel { services: existing, writes: Seq::empty(), added: 0, updated: 0 })
    } else {
        match import_fold(existing, incoming.drop_last(), fresh, now) {
            Err(r) => Err(r),
            Ok(acc) => import_step(acc, incoming.last(), fresh[incoming.len() - 1], now),
        }
    }
}

/// Importing a service's own export (without secrets) into a configuration that holds it
/// gives back the same service, with only its update time moved to the time of the import.
/// (An id with whitespace around it is trimmed on import, so such a service is not matched.)
pub proof fn lemma_reimport_own_export(
    s: Service,
    e: ExportService,
    stored: Seq<Option<String>>,
    existing: Seq<ServiceModel>,
    i: int,
    fresh: Seq<Seq<char>>,
    now: i64,
)
    requires
        model_check(service_model(s)) is Ok,
        trim_spec(s.id@) == s.id@,
        0 <= i < existing.len(),
        existing[i] == service_model(s),
        find_id(existing, s.id@) == Some(i),
        export_model_matches(e, s, false, stored),
    ensures
        import_fold(existing, seq![e], fresh, now) matches Ok(m) && m.services == existing.update(
            i,
            ServiceModel { updated_at: now, ..service_model(s) },
        ) && m.added == 0 && m.updated == 1,
{
    let sm = service_model(s);
    crate::domain::service::lemma_valid_service_holds_no_secret_value(sm);
    crate::text::lemma_byte_len_empty(s.id@);
    assert(incoming_id_spec(e) == Some(s.id@));
    let hs = stored_headers(headers_model(e.headers@));
    assert(hs.len() == sm.headers.len());
    assert forall|k: int| 0 <= k < hs.len() implies hs[k] == sm.headers[k] by {
        assert(crate::domain::service::header_model(e.headers@[k]) == exported_header(
            crate::domain::service::header_model(s.headers@[k]),
            false,
            opt_view(stored[k]),
        ));
    }
    assert(hs =~= sm.headers);
    let svc = imported_model(e, existing[i].id, existing[i].created_at, now);
    assert(svc == ServiceModel { updated_at: now, ..sm });
    assert(model_check(svc) == model_check(sm));
    let one = seq![e];
    assert(one.drop_last() =~= Seq::<ExportService>::empty());
    assert(one.last() == e);
    let base = ImportModel { services: existing, writes: Seq::empty(), added: 0, updated: 0 };
    assert(import_fold(existing, one.drop_last(), fresh, now) == Ok::<ImportModel, Refusal>(base));
    let stepped = import_step(base, e, fresh[0], now);
    assert(stepped matches Ok(m) && m.services == existing.update(i, svc) && m.added == 0 && m.updated == 1);
    assert(import_fold(existing, one, fresh, now) == stepped);
}

proof fn lemma_import_prefix(existing: Seq<ServiceModel>, incoming: Seq<ExportService>, fresh: Seq<Seq<char>>, now: i64, n: int)
    requires
        0 <= n <= incoming.len(),
        import_fold(existing, incoming.take(n), fresh, now) is Err,
    ensures
        import_fold(existing, incoming, fresh, now) == import_fold(existing, incoming.take(n), fresh, now),
    decreases incoming.len(),
{
    if n == incoming.len() {
        assert(incoming.take(n) =~= incoming);
    } else {
        assert(incoming.drop_last().take(n) =~= incoming.take(n));
        lemma_import_prefix(existing, incoming.drop_last(), fresh, now, n);
    }
}

proof fn lemma_find_id_bounds(ss: Seq<ServiceModel>, id: Seq<char>)
    ensures
        find_id(ss, id) matches Some(i) ==> 0 <= i < ss.len(),
    decreases ss.len(),
{
    if ss.len() > 0 {
        lemma_find_id_bounds(ss.drop_last(), id);
    }
}

proof fn lemma_import_counts(existing: Seq<ServiceModel>, incoming: Seq<ExportService>, fresh: Seq<Seq<char>>, now: i64)
    ensures
        import_fold(existing, incoming, fresh, now) matches Ok(m) ==> m.added + m.updated == incoming.len()
            && m.services.len() == existing.len() + m.added && m.writes.len() == incoming.len(),
    decreases incoming.len(),
{
    if incoming.len() > 0 {
        lemma_import_counts(existing, incoming.drop_last(), fresh, now);
        match import_fold(existing, incoming.drop_last(), fresh, now) {
            Ok(acc) => {
                match incoming_id_spec(incoming.last()) {
                    Some(iid) => lemma_find_id_bounds(acc.services, iid),
                    None => {},
                }
            },
            Err(_) => {},
        }
    }
}

pub open spec fn import_matches(r: Result<PreparedImport, ValidationError>, existing: Seq<Service>, incoming: Seq<ExportService>, fresh: Seq<Seq<char>>, now: i64) -> bool {
    match import_fold(crate::domain::service::services_model(existing), incoming, fresh, now) {
        Ok(m) => r matches Ok(p) && crate::domain::service::services_model(p.services@) == m.services
            && writes_model(p.secret_writes@) == m.writes && p.added == m.added && p.updated == m.updated,
        Err(e) => r matches Err(x) && refusal(x) == e,
    }
}

fn find_service(services: &Vec<Service>, id: &str) -> (r: Option<usize>)
    ensures
        match r {
            Some(i) => find_id(crate::domain::service::services_model(services@), id@) == Some(i as int) && i < services@.len(),
            None => find_id(crate::domain::service::services_model(services@), id@) is None,
        },
{
    let ghost m = crate::domain::service::services_model(services@);
    let mut i: usize = 0;
    while i < services.len()
        invariant
            i <= services.len(),
            m == crate::domain::service::services_model(services@),
            find_id(m.take(i as int), id@) is None,
        decreases services.len() - i,
    {
        proof {
            assert(m.take(i + 1).drop_last() =~= m.take(i as int));
        }
        if crate::text::str_eq(services[i].id.as_str(), id) {
            proof {
                lemma_find_id_prefix(m, id@, i as int);
            }
            return Some(i);
        }
        i = i + 1;
    }
    proof {
        assert(m.take(i as int) =~= m);
    }
    None
}

proof fn lemma_find_id_prefix(m: Seq<ServiceModel>, id: Seq<char>, i: int)
    requires
        0 <= i < m.len(),
        find_id(m.take(i), id) is None,
        m[i].id == id,
    ensures
        find_id(m, id) == Some(i),
    decreases m.len(),
{
    if m.len() == i + 1 {
        assert(m.drop_last() =~= m.take(i));
    } else {
        assert(m.drop_last().take(i) =~= m.take(i));
        lemma_find_id_prefix(m.drop_last(), id, i);
    }
}

fn secret_keys_of(headers: &Vec<HeaderSpec>) -> (r: Vec<String>)
    ensures
        crate::poller::request::names_view(r@) == secret_keys(headers_model(headers@)),
{
    let ghost hm = headers_model(headers@);
    let mut out: Vec<String> = Vec::new();
    let mut i: usize = 0;
    while i < headers.len()
        invariant
            i <= headers.len(),
            hm == headers_model(headers@),
            crate::poller::request::names_view(out@) == secret_keys(hm.take(i as int)),
        decreases headers.len() - i,
    {
        proof {
            assert(hm.take(i + 1).drop_last() =~= hm.take(i as int));
        }
        if headers[i].secret {
            let ghost before = out@;
            out.push(owned(headers[i].key.as_str()));
            proof {
                assert(crate::poller::request::names_view(out@) =~= crate::poller::request::names_view(before).push(headers@[i as int].key@));
            }
        }
        i = i + 1;
    }
    proof {
        assert(hm.take(i as int) =~= hm);
    }
    out
}

/// Merge `incoming` into `existing` at time `now`, naming new services without an id
/// `fresh_ids[k]` (`k` being the position in the file).
pub fn prepare_import_at(existing: &Vec<Service>, incoming: &Vec<ExportService>, now: i64, fresh_ids: &Vec<String>) -> (r: Result<PreparedImport, ValidationError>)
    requires
        fresh_ids@.len() == incoming@.len(),
        existing@.len() + incoming@.len() <= usize::MAX,
        incoming@.len() <= u32::MAX,
    ensures
        import_matches(r, existing@, incoming@, strings_view(fresh_ids@), now),
{
    let ghost fresh = strings_view(fresh_ids@);
    let ghost em = crate::domain::service::services_model(existing@);
    let mut services: Vec<Service> = Vec::new();
    let mut j: usize = 0;
    while j < existing.len()
        invariant
            j <= existing.len(),
            crate::domain::service::services_model(services@) == crate::domain::service::services_model(existing@.take(j as int)),
        decreases existing.len() - j,
    {
        let ghost before = services@;
        services.push(crate::domain::service::copy_service(&existing[j]));
        proof {
            assert(crate::domain::service::services_model(services@) =~= crate::domain::service::services_model(before).push(service_model(existing@[j as int])));
            assert(crate::domain::service::services_model(existing@.take(j + 1)) =~= crate::domain::service::services_model(existing@.take(j as int)).push(service_model(existing@[j as int])));
        }
        j = j + 1;
    }
    proof {
        assert(existing@.take(j as int) =~= existing@);
        assert(incoming@.take(0) =~= Seq::<ExportService>::empty());
    }
    let mut writes: Vec<SecretWrite> = Vec::new();
    let mut added: u32 = 0;
    let mut updated: u32 = 0;
    let mut k: usize = 0;
    proof {
        assert(writes_model(writes@) =~= Seq::<WriteModel>::empty());
    }
    while k < incoming.len()
        invariant
            k <= incoming.len(),
            fresh_ids@.len() == incoming@.len(),
            fresh == strings_view(fresh_ids@),
            em == crate::domain::service::services_model(existing@),
            existing@.len() + incoming@.len() <= usize::MAX,
            incoming@.len() <= u32::MAX,
            import_fold(em, incoming@.take(k as int), fresh, now) == Ok::<ImportModel, Refusal>(ImportModel {
                services: crate::domain::service::services_model(services@),
                writes: writes_model(writes@),
                added: added as nat,
                updated: updated as nat,
            }),
        decreases incoming.len() - k,
    {
        proof {
            assert(incoming@.take(k + 1).drop_last() =~= incoming@.take(k as int));
            assert(incoming@.take(k + 1).last() == incoming@[k as int]);
            lemma_import_counts(em, incoming@.take(k as int), fresh, now);
        }
        let e = &incoming[k];
        let ghost sm = crate::domain::service::services_model(services@);
        let ghost acc = ImportModel { services: sm, writes: writes_model(writes@), added: added as nat, updated: updated as nat };
        proof {
            assert(import_fold(em, incoming@.take(k + 1), fresh, now) == import_step(acc, incoming@[k as int], fresh[k as int], now));
        }
        let (index, id, created_at, previous) = match e.incoming_id() {
            Some(iid) => match find_service(&services, iid.as_str()) {
                Some(i) => {
                    proof {
                        assert(sm[i as int] == service_model(services@[i as int]));
                    }
                    (Some(i), owned(services[i].id.as_str()), services[i].created_at, secret_keys_of(&services[i].headers))
                },
                None => (None, iid, now, Vec::new()),
            },
            None => (None, owned(fresh_ids[k].as_str()), now, Vec::new()),
        };
        proof {
            if index is None {
                assert(crate::poller::request::names_view(previous@) =~= Seq::<Seq<char>>::empty());
            }
        }
        let service = e.to_service(id, created_at, now);
        match service.validate() {
            Err(err) => {
                proof {
                    lemma_import_prefix(em, incoming@, fresh, now, k + 1);
                }
                return Err(err);
            },
            Ok(()) => {},
        }
        let drafts = e.draft_headers();
        proof {
            assert(fresh[k as int] == fresh_ids@[k as int]@);
        }
        let ghost svc_m = service_model(service);
        let ghost ws = writes_model(writes@);
        match index {
            Some(i) => {
                services.set(i, service);
                writes.push(SecretWrite { index: i, drafts, previous });
                updated = updated + 1;
                proof {
                    assert(crate::domain::service::services_model(services@) =~= sm.update(i as int, svc_m));
                }
            },
            None => {
                let index = services.len();
                services.push(service);
                writes.push(SecretWrite { index, drafts, previous });
                added = added + 1;
                proof {
                    assert(crate::domain::service::services_model(services@) =~= sm.push(svc_m));
                }
            },
        }
        proof {
            assert(writes_model(writes@) =~= ws.push(write_model(writes@[writes@.len() - 1])));
            let st = import_step(acc, incoming@[k as int], fresh[k as int], now);
            assert(st is Ok);
            assert(st->Ok_0.services == crate::domain::service::services_model(services@));
            assert(st->Ok_0.writes == writes_model(writes@));
            assert(st->Ok_0.added == added);
            assert(st->Ok_0.updated == updated);
        }
        k = k + 1;
    }
    proof {
        assert(incoming@.take(k as int) =~= incoming@);
    }
    Ok(PreparedImport { services, secret_writes: writes, added, updated })
}

/// Calls `std::time::SystemTime::now` and gives its distance from the Unix epoch in whole
/// milliseconds: `Ok` for a time at or after the epoch, `Err` for one before it. The clock is
/// the machine's, so nothing is promised of the value.
#[verifier::external_body]
fn clock_since_epoch_ms() -> (r: Result<u128, u128>) {
    match std::time::SystemTime::now().duration_since(std::time::UNIX_EPOCH) {
        Ok(d) => Ok(d.as_millis()),
        Err(e) => Err(e.duration().as_millis()),
    }
}

/// Signed milliseconds since the Unix epoch for a clock reading, saturated to `i64`.
pub open spec fn epoch_ms_spec(reading: Result<u128, u128>) -> i64 {
    match reading {
        Ok(ms) => if ms <= i64::MAX { ms as i64 } else { i64::MAX },
        Err(ms) => if ms <= i64::MAX { (0 - ms) as i64 } else { i64::MIN },
    }
}

fn epoch_ms(reading: Result<u128, u128>) -> (r: i64)
    ensures
        r == epoch_ms_spec(reading),
{
    match reading {
        Ok(ms) => if ms <= i64::MAX as u128 { ms as i64 } else { i64::MAX },
        Err(ms) => if ms <= i64::MAX as u128 { 0 - (ms as i64) } else { i64::MIN },
    }
}

/// Milliseconds since the Unix epoch now, negative before 1970.
pub(crate) fn now_millis() -> (r: i64) {
    epoch_ms(clock_since_epoch_ms())
}

/// Merge an import into `existing` now; services without an id get a fresh ULID.
pub fn prepare_import(existing: &Vec<Service>, file: &ExportFile) -> (r: Result<PreparedImport, ValidationError>)
    requires
        existing@.len() + file.services@.len() <= usize::MAX,
        file.services@.len() <= u32::MAX,
    ensures
        exists|now: i64, fresh: Seq<Seq<char>>| fresh.len() == file.services@.len()
            && (forall|k: int| 0 <= k < fresh.len() && incoming_id_spec(#[trigger] file.services@[k]) is None
                ==> fresh[k].len() == 26)
            && import_matches(r, existing@, file.services@, fresh, now),
{
    let now = now_millis();
    let mut fresh_ids: Vec<String> = Vec::new();
    let mut k: usize = 0;
    while k < file.services.len()
        invariant
            k <= file.services.len(),
            fresh_ids@.len() == k,
            forall|i: int| 0 <= i < k && incoming_id_spec(#[trigger] file.services@[i]) is None
                ==> fresh_ids@[i]@.len() == 26,
        decreases file.services.len() - k,
    {
        if file.services[k].incoming_id().is_some() {
            fresh_ids.push(String::new());
        } else {
            fresh_ids.push(new_ulid());
        }
        k = k + 1;
    }
    let r = prepare_import_at(existing, &file.services, now, &fresh_ids);
    assert(import_matches(r, existing@, file.services@, strings_view(fresh_ids@), now));
    assert(forall|i: int| 0 <= i < file.services@.len() && incoming_id_spec(#[trigger] file.services@[i]) is None
        ==> strings_view(fresh_ids@)[i].len() == 26);
    r
}


/// What the preview shows for each service of the file: its name and its host.
pub open spec fn preview_entries(services: Seq<ExportService>) -> Seq<(Seq<char>, Seq<char>)> {
    services.map_values(|e: ExportService| (e.name@, host_of_spec(e.url@)))
}

/// Check an export file as an import into an empty configuration would, and describe it.
pub fn preview_import(file: &ExportFile, filename: &str, include_secrets: bool) -> (r: Result<ImportPreview, StoreError>)
    requires
        file.services@.len() <= u32::MAX,
    ensures
        (!include_secrets && has_secret_values_spec(file.services@)) ==> r == Err::<ImportPreview, StoreError>(StoreError::SecretsWithoutFlag),
        !(!include_secrets && has_secret_values_spec(file.services@)) ==> exists|now: i64, fresh: Seq<Seq<char>>|
            #![trigger import_fold(Seq::empty(), file.services@, fresh, now)]
            fresh.len() == file.services@.len() && match import_fold(Seq::empty(), file.services@, fresh, now) {
                Err(e) => r matches Err(StoreError::Validation(x)) && refusal(x) == e,
                Ok(m) => match models_check(m.services) {
                    Err(e) => r matches Err(StoreError::Validation(x)) && refusal(x) == e,
                    Ok(()) => r is Ok,
                },
            },
        r matches Ok(p) ==> p.filename@ == filename@ && entries_view(p.entries@) == preview_entries(file.services@)
            && p.has_secret_values == has_secret_values_spec(file.services@),
{
    match reject_secrets_without_flag(file, include_secrets) {
        Err(e) => {
            return Err(e);
        },
        Ok(()) => {},
    }
    let empty: Vec<Service> = Vec::new();
    let prepared = prepare_import(&empty, file);
    let ghost w = choose|now: i64, fresh: Seq<Seq<char>>| fresh.len() == file.services@.len()
        && import_matches(prepared, empty@, file.services@, fresh, now);
    proof {
        assert(crate::domain::service::services_model(empty@) =~= Seq::<ServiceModel>::empty());
    }
    let prepared = match prepared {
        Ok(p) => p,
        Err(e) => {
            proof {
                assert(fresh_ok(w.1, file.services@.len()) && matches_err(file.services@, w.1, w.0, e));
            }
            return Err(StoreError::Validation(e));
        },
    };
    proof {
        lemma_services_check_models(prepared.services@);
    }
    match Service::validate_list(prepared.services.as_slice()) {
        Err(e) => {
            proof {
                assert(fresh_ok(w.1, file.services@.len()) && fold_checked(file.services@, w.1, w.0, Err(refusal(e))));
            }
            return Err(StoreError::Validation(e));
        },
        Ok(()) => {},
    }
    let mut entries: Vec<(String, String)> = Vec::new();
    let mut i: usize = 0;
    while i < file.services.len()
        invariant
            i <= file.services.len(),
            entries_view(entries@) == preview_entries(file.services@).take(i as int),
        decreases file.services.len() - i,
    {
        let e = &file.services[i];
        let ghost before = entries@;
        entries.push((owned(e.name.as_str()), host_of(e.url.as_str())));
        proof {
            assert(entries_view(entries@) =~= entries_view(before).push((e.name@, host_of_spec(e.url@))));
            assert(preview_entries(file.services@).take(i + 1) =~= preview_entries(file.services@).take(i as int).push((e.name@, host_of_spec(e.url@))));
        }
        i = i + 1;
    }
    proof {
        assert(preview_entries(file.services@).take(i as int) =~= preview_entries(file.services@));
        assert(fresh_ok(w.1, file.services@.len()) && fold_checked(file.services@, w.1, w.0, Ok(())));
    }
    Ok(ImportPreview { filename: owned(filename), entries, has_secret_values: has_secret_values(file) })
}

spec fn fresh_ok(fresh: Seq<Seq<char>>, n: nat) -> bool {
    fresh.len() == n
}

spec fn matches_err(services: Seq<ExportService>, fresh: Seq<Seq<char>>, now: i64, e: ValidationError) -> bool {
    import_fold(Seq::empty(), services, fresh, now) == Err::<ImportModel, Refusal>(refusal(e))
}

spec fn fold_checked(services: Seq<ExportService>, fresh: Seq<Seq<char>>, now: i64, c: Result<(), Refusal>) -> bool {
    import_fold(Seq::empty(), services, fresh, now) matches Ok(m) && models_check(m.services) == c
}

} // verus!
