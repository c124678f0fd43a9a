//! App-wide settings and quiet hours.
use vstd::prelude::*;

use crate::domain::error::{outcome_view, Refusal, ValidationError};
use crate::domain::service::{MAX_INTERVAL_SEC, MIN_INTERVAL_SEC};
use crate::text::{byte_len, owned, str_chars, trim, trim_spec};

verus! {

pub const DEFAULT_INTERVAL_SEC: u32 = 60;
pub const DEFAULT_TIMEOUT_MS: u32 = 10000;
pub const DEFAULT_HOTKEY: &'static str = "CommandOrControl+Shift+U";
pub const MAX_HOTKEY_BYTES: usize = 64;

/// Settings help shown next to the offline detection rule.
pub const MIXED_REACHABILITY_HELP: &'static str = "If any check succeeds, Pulse assumes the network is up. A homelab box that still answers will keep Pulse online even if the public internet is gone.";

#[derive(Debug, Clone, Copy, PartialEq, Eq, Structural)]
pub enum Theme {
    System,
    Dark,
    Light,
}

impl Default for Theme {
    fn default() -> (r: Self)
        ensures
            r == Theme::System,
    {
        Theme::System
    }
}

/// Application settings. `last_export_at` is in milliseconds since the Unix epoch.
#[derive(Debug, Clone)]
pub struct AppSettings {
    pub launch_at_login: bool,
    pub hotkey: Option<String>,
    pub theme: Theme,
    pub default_interval: u32,
    pub default_timeout_ms: u32,
    pub fail_threshold: u32,
    pub notifications: bool,
    pub sound: bool,
    pub quiet_hours: Option<QuietHours>,
    pub last_export_at: Option<i64>,
    pub asked_launch_at_login: bool,
}

impl Default for AppSettings {
    fn default() -> (r: Self)
        ensures
            !r.launch_at_login,
            r.hotkey is None,
            r.theme == Theme::System,
            r.default_interval == DEFAULT_INTERVAL_SEC,
            r.default_timeout_ms == DEFAULT_TIMEOUT_MS,
            r.fail_threshold == crate::poller::state_machine::DEFAULT_FAIL_THRESHOLD,
            r.notifications,
            r.sound,
            r.quiet_hours is None,
            r.last_export_at is None,
            !r.asked_launch_at_login,
    {
        AppSettings {
            launch_at_login: false,
            hotkey: None,
            theme: Theme::System,
            default_interval: DEFAULT_INTERVAL_SEC,
            default_timeout_ms: DEFAULT_TIMEOUT_MS,
            fail_threshold: crate::poller::state_machine::DEFAULT_FAIL_THRESHOLD,
            notifications: true,
            sound: true,
            quiet_hours: None,
            last_export_at: None,
            asked_launch_at_login: false,
        }
    }
}

/// The rules on settings, in the order they are checked.
pub open spec fn settings_check(s: AppSettings) -> Result<(), Refusal> {
    if s.default_interval < MIN_INTERVAL_SEC {
        Err(Refusal::IntervalTooSmall { min: MIN_INTERVAL_SEC, got: s.default_interval })
    } else if s.default_interval > MAX_INTERVAL_SEC {
        Err(Refusal::IntervalTooLarge { max: MAX_INTERVAL_SEC, got: s.default_interval })
    } else if !(500 <= s.default_timeout_ms <= 60000) {
        Err(Refusal::TimeoutMs { got: s.default_timeout_ms })
    } else if !(1 <= s.fail_threshold <= 10) {
        Err(Refusal::FailThreshold { got: s.fail_threshold })
    } else if s.hotkey matches Some(h) && byte_len(h@) > MAX_HOTKEY_BYTES {
        Err(Refusal::Hotkey)
    } else if s.quiet_hours matches Some(q) && !quiet_hours_valid(q) {
        Err(Refusal::QuietHours)
    } else {
        Ok(())
    }
}

impl AppSettings {
    pub fn validate(&self) -> (r: Result<(), ValidationError>)
        ensures
            outcome_view(r) == settings_check(*self),
    {
        if self.default_interval < MIN_INTERVAL_SEC {
            return Err(ValidationError::IntervalTooSmall { min: MIN_INTERVAL_SEC, got: self.default_interval });
        }
        if self.default_interval > MAX_INTERVAL_SEC {
            return Err(ValidationError::IntervalTooLarge { max: MAX_INTERVAL_SEC, got: self.default_interval });
        }
        if !(500 <= self.default_timeout_ms && self.default_timeout_ms <= 60000) {
            return Err(ValidationError::TimeoutMs { got: self.default_timeout_ms });
        }
        if !(1 <= self.fail_threshold && self.fail_threshold <= 10) {
            return Err(ValidationError::FailThreshold { got: self.fail_threshold });
        }
        if let Some(hotkey) = &self.hotkey {
            if hotkey.as_str().len() > MAX_HOTKEY_BYTES {
                return Err(ValidationError::Hotkey);
            }
        }
        if let Some(quiet_hours) = &self.quiet_hours {
            if let Err(e) = quiet_hours.validate() {
                return Err(e);
            }
        }
        Ok(())
    }
}

pub open spec fn default_hotkey_spec() -> Seq<char> {
    "CommandOrControl+Shift+U"@
}

/// The global hotkey: the configured one, trimmed, or the default when none or blank.
pub open spec fn resolved_hotkey_spec(hotkey: Option<Seq<char>>) -> Seq<char> {
    match hotkey {
        Some(h) => if trim_spec(h).len() == 0 {
            default_hotkey_spec()
        } else {
            trim_spec(h)
        },
        None => default_hotkey_spec(),
    }
}

pub fn resolved_hotkey(settings: &AppSettings) -> (r: String)
    ensures
        r@ == resolved_hotkey_spec(crate::domain::service::opt_view(settings.hotkey)),
{
    match &settings.hotkey {
        Some(h) => {
            let t = trim(h.as_str());
            if str_chars(t.as_str()).len() == 0 {
                owned(DEFAULT_HOTKEY)
            } else {
                t
            }
        },
        None => owned(DEFAULT_HOTKEY),
    }
}

#[derive(Debug, Clone, Copy, PartialEq, Eq, Structural)]
pub enum LaunchPromptAction {
    Skip,
    MarkAsked,
    Ask,
}

pub open spec fn launch_prompt_spec(s: AppSettings) -> LaunchPromptAction {
    if s.asked_launch_at_login {
        LaunchPromptAction::Skip
    } else if s.launch_at_login {
        LaunchPromptAction::MarkAsked
    } else {
        LaunchPromptAction::Ask
    }
}

pub open spec fn answered_spec(s: AppSettings, enable: bool) -> AppSettings {
    AppSettings { asked_launch_at_login: true, launch_at_login: s.launch_at_login || enable, ..s }
}

/// One prompt after the first service is saved; turning the option on yourself counts as the
/// answer.
pub fn launch_prompt_action(settings: &AppSettings) -> (r: LaunchPromptAction)
    ensures
        r == launch_prompt_spec(*settings),
{
    if settings.asked_launch_at_login {
        LaunchPromptAction::Skip
    } else if settings.launch_at_login {
        LaunchPromptAction::MarkAsked
    } else {
        LaunchPromptAction::Ask
    }
}

/// Record the answer to the launch prompt.
pub fn apply_launch_prompt(settings: &mut AppSettings, enable: bool)
    ensures
        *final(settings) == answered_spec(*old(settings), enable),
{
    settings.asked_launch_at_login = true;
    if enable {
        settings.launch_at_login = true;
    }
}

/// Once answered, the launch prompt is skipped from then on, whatever the answer; declining
/// leaves launch at login off, accepting turns it on.
pub proof fn lemma_launch_prompt_asks_once(s: AppSettings, enable: bool)
    ensures
        launch_prompt_spec(answered_spec(s, enable)) == LaunchPromptAction::Skip,
        answered_spec(s, enable).launch_at_login == (s.launch_at_login || enable),
        launch_prompt_spec(answered_spec(answered_spec(s, enable), enable)) == LaunchPromptAction::Skip,
{
}

/// Weekday numbers count from Sunday = 0.
#[derive(Debug, Clone)]
pub struct QuietHours {
    pub start: String,
    pub end: String,
    pub days: Vec<u8>,
}

pub open spec fn is_digit(c: char) -> bool {
    '0' <= c && c <= '9'
}

pub open spec fn digit_value(c: char) -> nat {
    ((c as u32) - ('0' as u32)) as nat
}

/// A two-character unsigned field as `str::parse` reads it: two digits, or `+` and a digit.
pub open spec fn two_char_field(c0: char, c1: char) -> Option<nat> {
    if is_digit(c0) && is_digit(c1) {
        Some(digit_value(c0) * 10 + digit_value(c1))
    } else if c0 == '+' && is_digit(c1) {
        Some(digit_value(c1))
    } else {
        None
    }
}

/// `HH:MM` as minutes after midnight, when it names a valid wall-clock time.
pub open spec fn hhmm_minutes(s: Seq<char>) -> Option<nat> {
    if s.len() != 5 || s[2] != ':' {
        None
    } else {
        match (two_char_field(s[0], s[1]), two_char_field(s[3], s[4])) {
            (Some(h), Some(m)) => if h <= 23 && m <= 59 {
                Some(h * 60 + m)
            } else {
                None
            },
            _ => None,
        }
    }
}

fn digit_val(c: char) -> (r: u32)
    requires
        is_digit(c),
    ensures
        r == digit_value(c),
        r <= 9,
{
    (c as u32) - ('0' as u32)
}

fn field(c0: char, c1: char) -> (r: Option<u32>)
    ensures
        r matches Some(n) ==> two_char_field(c0, c1) == Some(n as nat) && n <= 99,
        r is None ==> two_char_field(c0, c1) is None,
{
    if '0' <= c0 && c0 <= '9' && '0' <= c1 && c1 <= '9' {
        Some(digit_val(c0) * 10 + digit_val(c1))
    } else if c0 == '+' && '0' <= c1 && c1 <= '9' {
        Some(digit_val(c1))
    } else {
        None
    }
}

/// Minutes after midnight of an `HH:MM` string, or `None` when it is not a valid time.
pub fn hhmm_to_minutes(value: &str) -> (r: Option<u32>)
    ensures
        r matches Some(n) ==> hhmm_minutes(value@) == Some(n as nat),
        r is None ==> hhmm_minutes(value@) is None,
{
    let cs = str_chars(value);
    if cs.len() != 5 || cs[2] != ':' {
        return None;
    }
    match (field(cs[0], cs[1]), field(cs[3], cs[4])) {
        (Some(h), Some(m)) => {
            if h <= 23 && m <= 59 {
                Some(h * 60 + m)
            } else {
                None
            }
        },
        _ => None,
    }
}

/// `HH:MM` with hour 00–23 and minute 00–59.
pub fn valid_hhmm(value: &str) -> (r: bool)
    ensures
        r == hhmm_minutes(value@) is Some,
{
    hhmm_to_minutes(value).is_some()
}

/// Days are 0..=6, at most seven of them, no repeats.
pub open spec fn valid_days(days: Seq<u8>) -> bool {
    &&& days.len() <= 7
    &&& forall|i: int| 0 <= i < days.len() ==> days[i] <= 6
    &&& forall|i: int, j: int| 0 <= i < j < days.len() ==> days[i] != days[j]
}

pub open spec fn quiet_hours_valid(q: QuietHours) -> bool {
    &&& hhmm_minutes(q.start@) is Some
    &&& hhmm_minutes(q.end@) is Some
    &&& valid_days(q.days@)
}

pub open spec fn quiet_model(q: QuietHours) -> (Seq<char>, Seq<char>, Seq<u8>) {
    (q.start@, q.end@, q.days@)
}

pub open spec fn opt_quiet_model(q: Option<QuietHours>) -> Option<(Seq<char>, Seq<char>, Seq<u8>)> {
    match q {
        Some(x) => Some(quiet_model(x)),
        None => None,
    }
}

/// A copy of `q`.
pub fn copy_quiet(q: &Option<QuietHours>) -> (r: Option<QuietHours>)
    ensures
        opt_quiet_model(r) == opt_quiet_model(*q),
{
    match q {
        Some(x) => {
            let mut days: Vec<u8> = Vec::new();
            let mut i: usize = 0;
            while i < x.days.len()
                invariant
                    i <= x.days.len(),
                    days@ == x.days@.take(i as int),
                decreases x.days.len() - i,
            {
                days.push(x.days[i]);
                i = i + 1;
                assert(days@ =~= x.days@.take(i as int));
            }
            assert(x.days@.take(i as int) =~= x.days@);
            Some(QuietHours { start: owned(x.start.as_str()), end: owned(x.end.as_str()), days })
        },
        None => None,
    }
}

impl QuietHours {
    /// Weekdays 22:00–08:00. Overnight Friday continues into Saturday morning.
    pub fn weekdays_overnight() -> (r: Self)
        ensures
            r.start@ == "22:00"@,
            r.end@ == "08:00"@,
            r.days@ == seq![1u8, 2, 3, 4, 5],
    {
        let mut days: Vec<u8> = Vec::new();
        days.push(1);
        days.push(2);
        days.push(3);
        days.push(4);
        days.push(5);
        assert(days@ =~= seq![1u8, 2, 3, 4, 5]);
        QuietHours { start: owned("22:00"), end: owned("08:00"), days }
    }

    /// Valid `HH:MM` start and end, and distinct days 0..=6.
    pub fn validate(&self) -> (r: Result<(), ValidationError>)
        ensures
            r is Ok <==> quiet_hours_valid(*self),
            r matches Err(e) ==> e == ValidationError::QuietHours,
    {
        if self.check() {
            Ok(())
        } else {
            Err(ValidationError::QuietHours)
        }
    }

    fn check(&self) -> (r: bool)
        ensures
            r == quiet_hours_valid(*self),
    {
        if !valid_hhmm(self.start.as_str()) || !valid_hhmm(self.end.as_str()) {
            return false;
        }
        if self.days.len() > 7 {
            return false;
        }
        let mut seen: Vec<bool> = Vec::new();
        let mut k: usize = 0;
        while k < 7
            invariant
                k <= 7,
                seen.len() == k,
                forall|d: int| 0 <= d < k ==> !seen[d],
            decreases 7 - k,
        {
            seen.push(false);
            k = k + 1;
        }
        let mut i: usize = 0;
        while i < self.days.len()
            invariant
                i <= self.days.len(),
                self.days.len() <= 7,
                seen.len() == 7,
                forall|a: int| 0 <= a < i ==> self.days@[a] <= 6,
                forall|a: int, b: int| 0 <= a < b < i ==> self.days@[a] != self.days@[b],
                forall|d: int| 0 <= d < 7 ==> (seen[d] <==> exists|a: int| 0 <= a < i && self.days@[a] == d),
            decreases self.days.len() - i,
        {
            let day = self.days[i];
            if day > 6 {
                return false;
            }
            if seen[day as usize] {
                return false;
            }
            seen.set(day as usize, true);
            i = i + 1;
        }
        true
    }
}

} // verus!
