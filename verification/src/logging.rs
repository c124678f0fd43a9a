//! Log hygiene: credentials are masked before a line is written, and the log level is read
//! from `PULSE_LOG`.
use vstd::prelude::*;

use crate::domain::service::{mask_spec, SECRET_MASK};
use crate::text::{
    ascii_lowercase, eq_ignore_case_spec, extend_chars, extend_str, finish, is_whitespace, lower_chars, lower_seq,
    occurs_at, occurs_at_exec, str_chars, str_eq, sub_chars, whitespace_result,
};

verus! {

pub const MAX_LOG_BYTES: u64 = 2097152;
pub const MAX_LOG_FILES: u32 = 3;

#[derive(Debug, Clone, Copy, PartialEq, Eq, Structural)]
pub enum LogLevel {
    Off,
    Error,
    Warn,
    Info,
    Debug,
    Trace,
}

/// The level that `PULSE_LOG` names (ignoring ASCII case); `info` when unset or unknown.
pub open spec fn level_spec(raw: Option<Seq<char>>) -> LogLevel {
    match raw {
        None => LogLevel::Info,
        Some(r) => {
            let l = lower_seq(r);
            if l == "trace"@ {
                LogLevel::Trace
            } else if l == "debug"@ {
                LogLevel::Debug
            } else if l == "warn"@ {
                LogLevel::Warn
            } else if l == "error"@ {
                LogLevel::Error
            } else if l == "off"@ {
                LogLevel::Off
            } else {
                LogLevel::Info
            }
        },
    }
}

pub fn pulse_log_level(raw: Option<&str>) -> (r: LogLevel)
    ensures
        r == level_spec(crate::poller::client::opt_ref_view(raw)),
{
    match raw {
        None => LogLevel::Info,
        Some(r) => {
            let l = ascii_lowercase(r);
            let l = l.as_str();
            if str_eq(l, "trace") {
                LogLevel::Trace
            } else if str_eq(l, "debug") {
                LogLevel::Debug
            } else if str_eq(l, "warn") {
                LogLevel::Warn
            } else if str_eq(l, "error") {
                LogLevel::Error
            } else if str_eq(l, "off") {
                LogLevel::Off
            } else {
                LogLevel::Info
            }
        },
    }
}

/// Characters that end a secret token.
pub open spec fn token_stop(c: char) -> bool {
    whitespace_result(c) || c == '"' || c == '\'' || c == ','
}

/// Length of the token starting at `i`.
pub open spec fn token_len(s: Seq<char>, i: int) -> nat
    decreases s.len() - i,
{
    if 0 <= i < s.len() && !token_stop(s[i]) {
        1 + token_len(s, i + 1)
    } else {
        0
    }
}

/// Spaces and tabs starting at `i`.
pub open spec fn blank_len(s: Seq<char>, i: int) -> nat
    decreases s.len() - i,
{
    if 0 <= i < s.len() && (s[i] == ' ' || s[i] == '\t') {
        1 + blank_len(s, i + 1)
    } else {
        0
    }
}

/// Whitespace starting at `i`.
pub open spec fn space_len(s: Seq<char>, i: int) -> nat
    decreases s.len() - i,
{
    if 0 <= i < s.len() && whitespace_result(s[i]) {
        1 + space_len(s, i + 1)
    } else {
        0
    }
}

/// A `Bearer ` prefix (7 characters kept) or a JWT `eyJ` prefix (3 kept) at `i`.
pub open spec fn secret_prefix_spec(s: Seq<char>, i: int) -> Option<nat> {
    if occurs_at(lower_seq(s), "bearer "@, i) {
        Some(7)
    } else if occurs_at(s, "eyJ"@, i) || occurs_at(lower_seq(s), "eyj"@, i) {
        Some(3)
    } else {
        None
    }
}

pub open spec fn header_names() -> Seq<Seq<char>> {
    seq!["authorization"@, "proxy-authorization"@, "cookie"@, "set-cookie"@, "x-api-key"@, "x-auth-token"@]
}

/// `name` then blanks then `:` or `=` at `i` in `l`: the offset of the value (after more blanks).
pub open spec fn assignment_with(l: Seq<char>, i: int, name: Seq<char>) -> Option<nat> {
    if occurs_at(l, name, i) {
        let ws = blank_len(l, i + name.len());
        let j = i + name.len() + ws;
        if j < l.len() && (l[j] == ':' || l[j] == '=') {
            Some((name.len() + ws + 1 + blank_len(l, j + 1)) as nat)
        } else {
            None
        }
    } else {
        None
    }
}

/// The first credential header name assigned at `i` in the lower-cased text.
pub open spec fn assignment_from(l: Seq<char>, i: int, k: nat) -> Option<nat>
    decreases header_names().len() - k,
{
    if k >= header_names().len() {
        None
    } else {
        match assignment_with(l, i, header_names()[k as int]) {
            Some(v) => Some(v),
            None => assignment_from(l, i, k + 1),
        }
    }
}

/// Length of a header value at `i`: one token, or `Bearer` and the token after it.
pub open spec fn header_value_len(s: Seq<char>, i: int) -> nat {
    let first = token_len(s, i);
    let pad = space_len(s, i + first);
    let next = i + first + pad;
    if eq_ignore_case_spec(s.subrange(i, i + first), "bearer"@) && next < s.len() {
        first + pad + token_len(s, next)
    } else {
        first
    }
}

/// The masked text from position `i` on: after `Bearer ` or `eyJ` the token becomes `***`; the
/// value assigned to a credential header becomes the UI mask; everything else is kept.
pub open spec fn redact_from(s: Seq<char>, i: int) -> Seq<char>
    decreases s.len() - i,
{
    if i < 0 || i >= s.len() {
        Seq::empty()
    } else {
        match secret_prefix_spec(s, i) {
            Some(keep) => {
                let next = i + keep + token_len(s, i + keep);
                if next <= s.len() {
                    s.subrange(i, i + keep) + "***"@ + redact_from(s, next)
                } else {
                    Seq::empty()
                }
            },
            None => match assignment_from(lower_seq(s), i, 0) {
                Some(v) => {
                    let next = i + v + header_value_len(s, i + v);
                    if i < next <= s.len() {
                        s.subrange(i, i + v) + mask_spec() + redact_from(s, next)
                    } else {
                        Seq::empty()
                    }
                },
                None => seq![s[i]] + redact_from(s, i + 1),
            },
        }
    }
}

proof fn lemma_token_len(s: Seq<char>, i: int)
    requires
        0 <= i <= s.len(),
    ensures
        i + token_len(s, i) <= s.len(),
        forall|k: int| i <= k < i + token_len(s, i) ==> !token_stop(#[trigger] s[k]),
        i + token_len(s, i) < s.len() ==> token_stop(s[i + token_len(s, i)]),
    decreases s.len() - i,
{
    if i < s.len() && !token_stop(s[i]) {
        lemma_token_len(s, i + 1);
    }
}

proof fn lemma_blank_len(s: Seq<char>, i: int)
    requires
        0 <= i <= s.len(),
    ensures
        i + blank_len(s, i) <= s.len(),
        i + blank_len(s, i) < s.len() ==> !(s[i + blank_len(s, i)] == ' ' || s[i + blank_len(s, i)] == '\t'),
        forall|k: int| i <= k < i + blank_len(s, i) ==> (#[trigger] s[k] == ' ' || s[k] == '\t'),
    decreases s.len() - i,
{
    if i < s.len() && (s[i] == ' ' || s[i] == '\t') {
        lemma_blank_len(s, i + 1);
    }
}

proof fn lemma_space_len(s: Seq<char>, i: int)
    requires
        0 <= i <= s.len(),
    ensures
        i + space_len(s, i) <= s.len(),
        i + space_len(s, i) < s.len() ==> !whitespace_result(s[i + space_len(s, i)]),
        forall|k: int| i <= k < i + space_len(s, i) ==> whitespace_result(#[trigger] s[k]),
    decreases s.len() - i,
{
    if i < s.len() && whitespace_result(s[i]) {
        lemma_space_len(s, i + 1);
    }
}

fn token_len_exec(s: &Vec<char>, i: usize) -> (r: usize)
    requires
        i <= s.len(),
    ensures
        r == token_len(s@, i as int),
        i + r <= s.len(),
{
    proof {
        lemma_token_len(s@, i as int);
    }
    let mut j = i;
    while j < s.len() && !(is_whitespace(s[j]) || s[j] == '"' || s[j] == '\'' || s[j] == ',')
        invariant
            i <= j <= s.len(),
            token_len(s@, i as int) == (j - i) + token_len(s@, j as int),
        decreases s.len() - j,
    {
        j = j + 1;
    }
    j - i
}

fn blank_len_exec(s: &Vec<char>, i: usize) -> (r: usize)
    requires
        i <= s.len(),
    ensures
        r == blank_len(s@, i as int),
        i + r <= s.len(),
{
    let mut j = i;
    while j < s.len() && (s[j] == ' ' || s[j] == '\t')
        invariant
            i <= j <= s.len(),
            blank_len(s@, i as int) == (j - i) + blank_len(s@, j as int),
        decreases s.len() - j,
    {
        j = j + 1;
    }
    j - i
}

fn space_len_exec(s: &Vec<char>, i: usize) -> (r: usize)
    requires
        i <= s.len(),
    ensures
        r == space_len(s@, i as int),
        i + r <= s.len(),
{
    let mut j = i;
    while j < s.len() && is_whitespace(s[j])
        invariant
            i <= j <= s.len(),
            space_len(s@, i as int) == (j - i) + space_len(s@, j as int),
        decreases s.len() - j,
    {
        j = j + 1;
    }
    j - i
}

fn assignment_with_exec(l: &Vec<char>, i: usize, name: &str) -> (r: Option<usize>)
    requires
        i <= l.len(),
    ensures
        match assignment_with(l@, i as int, name@) {
            Some(v) => r == Some(v as usize) && i + v <= l.len(),
            None => r is None,
        },
{
    let n = str_chars(name);
    if !occurs_at_exec(l, &n, i) {
        return None;
    }
    let ws = blank_len_exec(l, i + n.len());
    let j = i + n.len() + ws;
    if j < l.len() && (l[j] == ':' || l[j] == '=') {
        let more = blank_len_exec(l, j + 1);
        Some(n.len() + ws + 1 + more)
    } else {
        None
    }
}

fn assignment_exec(l: &Vec<char>, i: usize) -> (r: Option<usize>)
    requires
        i <= l.len(),
    ensures
        match assignment_from(l@, i as int, 0) {
            Some(v) => r == Some(v as usize) && i + v <= l.len(),
            None => r is None,
        },
{
    proof {
        reveal_with_fuel(assignment_from, 7);
    }
    match assignment_with_exec(l, i, "authorization") {
        Some(v) => {
            return Some(v);
        },
        None => {},
    }
    match assignment_with_exec(l, i, "proxy-authorization") {
        Some(v) => {
            return Some(v);
        },
        None => {},
    }
    match assignment_with_exec(l, i, "cookie") {
        Some(v) => {
            return Some(v);
        },
        None => {},
    }
    match assignment_with_exec(l, i, "set-cookie") {
        Some(v) => {
            return Some(v);
        },
        None => {},
    }
    match assignment_with_exec(l, i, "x-api-key") {
        Some(v) => {
            return Some(v);
        },
        None => {},
    }
    assignment_with_exec(l, i, "x-auth-token")
}

fn header_value_len_exec(s: &Vec<char>, i: usize) -> (r: usize)
    requires
        i <= s.len(),
    ensures
        r == header_value_len(s@, i as int),
        i + r <= s.len(),
{
    let first = token_len_exec(s, i);
    let pad = space_len_exec(s, i + first);
    let next = i + first + pad;
    let token = sub_chars(s, i, i + first);
    let lower = lower_chars(&token);
    let b = str_chars("bearer");
    proof {
        reveal_strlit("bearer");
        assert("bearer"@ =~= seq!['b', 'e', 'a', 'r', 'e', 'r']);
        assert(lower_seq("bearer"@) =~= "bearer"@);
    }
    if crate::text::chars_eq(&lower, &b) && next < s.len() {
        let rest = token_len_exec(s, next);
        first + pad + rest
    } else {
        first
    }
}

/// Mask credentials in a log line.
pub fn redact(input: &str) -> (r: String)
    ensures
        r@ == redact_from(input@, 0),
{
    let s = str_chars(input);
    let l = lower_chars(&s);
    let bearer = str_chars("bearer ");
    let ej = str_chars("eyJ");
    let ejl = str_chars("eyj");
    let mut out: Vec<char> = Vec::new();
    let mut i: usize = 0;
    while i < s.len()
        invariant
            i <= s.len(),
            s@ == input@,
            l@ == lower_seq(s@),
            bearer@ == "bearer "@,
            ej@ == "eyJ"@,
            ejl@ == "eyj"@,
            out@ + redact_from(s@, i as int) == redact_from(s@, 0),
        decreases s.len() - i,
    {
        let ghost before = out@;
        let keep: usize = if occurs_at_exec(&l, &bearer, i) {
            7
        } else if occurs_at_exec(&s, &ej, i) || occurs_at_exec(&l, &ejl, i) {
            3
        } else {
            0
        };
        if keep > 0 {
            proof {
                reveal_strlit("bearer ");
                reveal_strlit("eyJ");
                reveal_strlit("eyj");
            }
            let kept = sub_chars(&s, i, i + keep);
            extend_chars(&mut out, &kept);
            extend_str(&mut out, "***");
            let t = token_len_exec(&s, i + keep);
            let next = i + keep + t;
            proof {
                assert(out@ == before + s@.subrange(i as int, i + keep) + "***"@);
                assert(out@ + redact_from(s@, next as int) =~= before + redact_from(s@, i as int));
            }
            i = next;
        } else {
            match assignment_exec(&l, i) {
                Some(v) => {
                    let kept = sub_chars(&s, i, i + v);
                    extend_chars(&mut out, &kept);
                    extend_str(&mut out, SECRET_MASK);
                    let h = header_value_len_exec(&s, i + v);
                    let next = i + v + h;
                    proof {
                        reveal_strlit("••••••••");
                        assert(SECRET_MASK@ =~= mask_spec());
                        assert(v > 0) by {
                            lemma_assignment_positive(l@, i as int, 0);
                        }
                        assert(out@ + redact_from(s@, next as int) =~= before + redact_from(s@, i as int));
                    }
                    i = next;
                },
                None => {
                    out.push(s[i]);
                    proof {
                        assert(out@ + redact_from(s@, i + 1) =~= before + redact_from(s@, i as int));
                    }
                    i = i + 1;
                },
            }
        }
    }
    proof {
        assert(out@ + redact_from(s@, i as int) =~= out@);
    }
    finish(out)
}

proof fn lemma_assignment_positive(l: Seq<char>, i: int, k: nat)
    ensures
        assignment_from(l, i, k) matches Some(v) ==> v > 0,
    decreases header_names().len() - k,
{
    if k < header_names().len() {
        lemma_assignment_positive(l, i, k + 1);
    }
}

} // verus!
