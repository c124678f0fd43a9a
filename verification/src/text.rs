//! Character-level string helpers used by the copy, parsing and redaction code.
use vstd::prelude::*;
use vstd::string::*;

verus! {

/// The characters of `s`, in order.
pub fn str_chars(s: &str) -> (r: Vec<char>)
    ensures
        r@ == s@,
{
    broadcast use vstd::string::group_string_axioms;
    let mut out: Vec<char> = Vec::new();
    for c in it: s.chars()
        invariant
            out@ == it.seq().take(it.index() as int),
    {
        out.push(c);
    }
    out
}

/// Calls `String::from_iter` on the characters: a string made of `cs`, in order.
#[verifier::external_body]
pub(crate) fn string_from_chars(cs: &[char]) -> (r: String)
    ensures
        r@ == cs@,
{
    String::from_iter(cs.iter())
}

/// A fresh copy of `s`.
pub fn owned(s: &str) -> (r: String)
    ensures
        r@ == s@,
{
    String::from_str(s)
}

/// `a` followed by `b`.
pub fn concat_str(a: &str, b: &str) -> (r: String)
    ensures
        r@ == a@ + b@,
{
    let mut r = String::from_str(a);
    r.append(b);
    r
}

pub open spec fn digit_char(d: nat) -> char {
    if d == 0 { '0' }
    else if d == 1 { '1' }
    else if d == 2 { '2' }
    else if d == 3 { '3' }
    else if d == 4 { '4' }
    else if d == 5 { '5' }
    else if d == 6 { '6' }
    else if d == 7 { '7' }
    else if d == 8 { '8' }
    else { '9' }
}

/// Decimal representation of `n`, without sign or leading zeros.
pub open spec fn decimal(n: nat) -> Seq<char>
    decreases n,
{
    if n < 10 {
        seq![digit_char(n)]
    } else {
        decimal(n / 10).push(digit_char(n % 10))
    }
}

fn digit_of(d: u64) -> (c: char)
    requires
        d < 10,
    ensures
        c == digit_char(d as nat),
{
    if d == 0 { '0' }
    else if d == 1 { '1' }
    else if d == 2 { '2' }
    else if d == 3 { '3' }
    else if d == 4 { '4' }
    else if d == 5 { '5' }
    else if d == 6 { '6' }
    else if d == 7 { '7' }
    else if d == 8 { '8' }
    else { '9' }
}

/// Decimal digits of `n`.
pub fn decimal_chars(n: u64) -> (r: Vec<char>)
    ensures
        r@ == decimal(n as nat),
    decreases n,
{
    if n < 10 {
        let mut v: Vec<char> = Vec::new();
        v.push(digit_of(n));
        v
    } else {
        let mut v = decimal_chars(n / 10);
        v.push(digit_of(n % 10));
        v
    }
}

/// `n` written in decimal, as `format!("{n}")` does.
pub fn decimal_string(n: u64) -> (r: String)
    ensures
        r@ == decimal(n as nat),
{
    let v = decimal_chars(n);
    string_from_chars(v.as_slice())
}

pub open spec fn lower_char(c: char) -> char {
    if 'A' <= c && c <= 'Z' {
        ((c as u32) + 32) as char
    } else {
        c
    }
}

/// ASCII lower-casing, non-ASCII untouched.
pub open spec fn lower_seq(s: Seq<char>) -> Seq<char> {
    Seq::new(s.len(), |i: int| lower_char(s[i]))
}

pub fn to_lower_char(c: char) -> (r: char)
    ensures
        r == lower_char(c),
{
    if 'A' <= c && c <= 'Z' {
        let code: u8 = (c as u32 + 32) as u8;
        code as char
    } else {
        c
    }
}

pub fn lower_chars(s: &Vec<char>) -> (r: Vec<char>)
    ensures
        r@ == lower_seq(s@),
{
    let mut r: Vec<char> = Vec::new();
    let mut i: usize = 0;
    while i < s.len()
        invariant
            i <= s.len(),
            r@ == lower_seq(s@.subrange(0, i as int)),
        decreases s.len() - i,
    {
        r.push(to_lower_char(s[i]));
        i = i + 1;
        assert(lower_seq(s@.subrange(0, i as int)) =~= lower_seq(s@.subrange(0, (i - 1) as int)).push(lower_char(s@[i - 1])));
    }
    assert(s@.subrange(0, s.len() as int) =~= s@);
    r
}

/// ASCII lower-cased copy of `s`, as `str::to_ascii_lowercase` returns.
pub fn ascii_lowercase(s: &str) -> (r: String)
    ensures
        r@ == lower_seq(s@),
{
    let cs = str_chars(s);
    let l = lower_chars(&cs);
    string_from_chars(l.as_slice())
}

/// Equal up to ASCII case.
pub open spec fn eq_ignore_case_spec(a: Seq<char>, b: Seq<char>) -> bool {
    lower_seq(a) == lower_seq(b)
}

pub fn chars_eq_ignore_case(a: &Vec<char>, b: &Vec<char>) -> (r: bool)
    ensures
        r == eq_ignore_case_spec(a@, b@),
{
    if a.len() != b.len() {
        assert(lower_seq(a@).len() != lower_seq(b@).len());
        return false;
    }
    let mut i: usize = 0;
    while i < a.len()
        invariant
            i <= a.len(),
            a.len() == b.len(),
            forall|j: int| 0 <= j < i ==> lower_char(a@[j]) == lower_char(b@[j]),
        decreases a.len() - i,
    {
        if to_lower_char(a[i]) != to_lower_char(b[i]) {
            assert(lower_seq(a@)[i as int] != lower_seq(b@)[i as int]);
            return false;
        }
        i = i + 1;
    }
    assert(lower_seq(a@) =~= lower_seq(b@));
    true
}

/// `str::eq_ignore_ascii_case`.
pub fn eq_ignore_ascii_case(a: &str, b: &str) -> (r: bool)
    ensures
        r == eq_ignore_case_spec(a@, b@),
{
    let ca = str_chars(a);
    let cb = str_chars(b);
    chars_eq_ignore_case(&ca, &cb)
}

pub fn chars_eq(a: &Vec<char>, b: &Vec<char>) -> (r: bool)
    ensures
        r == (a@ == b@),
{
    if a.len() != b.len() {
        return false;
    }
    let mut i: usize = 0;
    while i < a.len()
        invariant
            i <= a.len(),
            a.len() == b.len(),
            forall|j: int| 0 <= j < i ==> a@[j] == b@[j],
        decreases a.len() - i,
    {
        if a[i] != b[i] {
            return false;
        }
        i = i + 1;
    }
    assert(a@ =~= b@);
    true
}

/// Length in bytes of the UTF-8 text of `s`, as `str::len` returns it.
pub open spec fn byte_len(s: Seq<char>) -> nat {
    (vstd::utf8::encode_utf8(s).len() as usize) as nat
}

/// Every character takes at least one byte.
pub proof fn lemma_byte_len_empty(s: Seq<char>)
    ensures
        vstd::utf8::encode_utf8(s).len() >= s.len(),
        (vstd::utf8::encode_utf8(s).len() == 0) == (s.len() == 0),
    decreases s.len(),
{
    if s.len() > 0 {
        lemma_byte_len_empty(s.drop_first());
        assert(vstd::utf8::encode_scalar(s[0] as u32).len() >= 1);
    }
}

/// `a == b` on strings.
pub fn str_eq(a: &str, b: &str) -> (r: bool)
    ensures
        r == (a@ == b@),
{
    let ca = str_chars(a);
    let cb = str_chars(b);
    chars_eq(&ca, &cb)
}

/// `needle` occurs in `hay` starting at `i`.
pub open spec fn occurs_at(hay: Seq<char>, needle: Seq<char>, i: int) -> bool {
    0 <= i && i + needle.len() <= hay.len() && hay.subrange(i, i + needle.len()) == needle
}

pub open spec fn contains_spec(hay: Seq<char>, needle: Seq<char>) -> bool {
    exists|i: int| occurs_at(hay, needle, i)
}

pub open spec fn starts_with_spec(hay: Seq<char>, prefix: Seq<char>) -> bool {
    occurs_at(hay, prefix, 0)
}

pub fn occurs_at_exec(hay: &Vec<char>, needle: &Vec<char>, i: usize) -> (r: bool)
    ensures
        r == occurs_at(hay@, needle@, i as int),
{
    if i > hay.len() || needle.len() > hay.len() - i {
        return false;
    }
    let mut k: usize = 0;
    while k < needle.len()
        invariant
            k <= needle.len(),
            i + needle.len() <= hay.len(),
            forall|j: int| 0 <= j < k ==> hay@[i + j] == needle@[j],
        decreases needle.len() - k,
    {
        if hay[i + k] != needle[k] {
            assert(hay@.subrange(i as int, i + needle.len())[k as int] != needle@[k as int]);
            return false;
        }
        k = k + 1;
    }
    assert(hay@.subrange(i as int, i + needle.len()) =~= needle@);
    true
}

pub fn starts_with_chars(hay: &Vec<char>, prefix: &Vec<char>) -> (r: bool)
    ensures
        r == starts_with_spec(hay@, prefix@),
{
    occurs_at_exec(hay, prefix, 0)
}

pub fn contains_chars(hay: &Vec<char>, needle: &Vec<char>) -> (r: bool)
    ensures
        r == contains_spec(hay@, needle@),
{
    if needle.len() > hay.len() {
        return false;
    }
    let last = hay.len() - needle.len();
    let mut i: usize = 0;
    loop
        invariant
            i <= last,
            last + needle.len() == hay.len(),
            forall|j: int| 0 <= j < i ==> !occurs_at(hay@, needle@, j),
        ensures
            forall|j: int| 0 <= j <= last ==> !occurs_at(hay@, needle@, j),
        decreases last - i,
    {
        if occurs_at_exec(hay, needle, i) {
            return true;
        }
        if i == last {
            break;
        }
        i = i + 1;
    }
    assert forall|j: int| !occurs_at(hay@, needle@, j) by {
        if 0 <= j && j + needle@.len() <= hay@.len() {
            assert(j <= last);
        }
    }
    false
}

/// `str::contains` for a string needle.
pub fn str_contains(hay: &str, needle: &str) -> (r: bool)
    ensures
        r == contains_spec(hay@, needle@),
{
    let h = str_chars(hay);
    let n = str_chars(needle);
    contains_chars(&h, &n)
}

/// `str::starts_with` for a string prefix.
pub fn str_starts_with(hay: &str, prefix: &str) -> (r: bool)
    ensures
        r == starts_with_spec(hay@, prefix@),
{
    let h = str_chars(hay);
    let p = str_chars(prefix);
    starts_with_chars(&h, &p)
}

/// The chars of `s` in `[from, to)`.
pub fn sub_chars(s: &Vec<char>, from: usize, to: usize) -> (r: Vec<char>)
    requires
        from <= to <= s.len(),
    ensures
        r@ == s@.subrange(from as int, to as int),
{
    let mut r: Vec<char> = Vec::new();
    let mut i = from;
    while i < to
        invariant
            from <= i <= to,
            to <= s.len(),
            r@ == s@.subrange(from as int, i as int),
        decreases to - i,
    {
        r.push(s[i]);
        i = i + 1;
        assert(r@ =~= s@.subrange(from as int, i as int));
    }
    r
}

/// Append all of `b` to `a`.
pub fn extend_chars(a: &mut Vec<char>, b: &Vec<char>)
    ensures
        final(a)@ == old(a)@ + b@,
{
    let mut i: usize = 0;
    while i < b.len()
        invariant
            i <= b.len(),
            a@ == old(a)@ + b@.subrange(0, i as int),
        decreases b.len() - i,
    {
        a.push(b[i]);
        i = i + 1;
        assert(a@ =~= old(a)@ + b@.subrange(0, i as int));
    }
    assert(b@.subrange(0, b.len() as int) =~= b@);
}

} // verus!

verus! {

/// Append the characters of `s` to `a`.
pub fn extend_str(a: &mut Vec<char>, s: &str)
    ensures
        final(a)@ == old(a)@ + s@,
{
    let cs = str_chars(s);
    extend_chars(a, &cs);
}

/// The string made of the characters of `v`.
pub fn finish(v: Vec<char>) -> (r: String)
    ensures
        r@ == v@,
{
    string_from_chars(v.as_slice())
}


/// Whether `c` has the Unicode `White_Space` property, as `char::is_whitespace` says.
pub uninterp spec fn whitespace_result(c: char) -> bool;

/// Calls `char::is_whitespace`; the property table is Unicode's and is only named here.
#[verifier::external_body]
pub(crate) fn is_whitespace(c: char) -> (r: bool)
    ensures
        r == whitespace_result(c),
{
    c.is_whitespace()
}

pub open spec fn trim_start_spec(s: Seq<char>) -> Seq<char>
    decreases s.len(),
{
    if s.len() > 0 && whitespace_result(s[0]) {
        trim_start_spec(s.drop_first())
    } else {
        s
    }
}

pub open spec fn trim_end_spec(s: Seq<char>) -> Seq<char>
    decreases s.len(),
{
    if s.len() > 0 && whitespace_result(s.last()) {
        trim_end_spec(s.drop_last())
    } else {
        s
    }
}

/// `s` without leading and trailing whitespace, as `str::trim` returns it.
pub open spec fn trim_spec(s: Seq<char>) -> Seq<char> {
    trim_end_spec(trim_start_spec(s))
}

/// `str::trim`.
pub fn trim(s: &str) -> (r: String)
    ensures
        r@ == trim_spec(s@),
{
    let cs = str_chars(s);
    let mut i: usize = 0;
    proof {
        assert(cs@.subrange(0, cs@.len() as int) =~= cs@);
    }
    while i < cs.len() && is_whitespace(cs[i])
        invariant
            i <= cs.len(),
            trim_start_spec(cs@) == trim_start_spec(cs@.subrange(i as int, cs@.len() as int)),
        decreases cs.len() - i,
    {
        proof {
            assert(cs@.subrange(i as int, cs@.len() as int).drop_first() =~= cs@.subrange(i + 1, cs@.len() as int));
        }
        i = i + 1;
    }
    let mut j: usize = cs.len();
    proof {
        assert(trim_start_spec(cs@) == cs@.subrange(i as int, j as int));
    }
    while j > i && is_whitespace(cs[j - 1])
        invariant
            i <= j <= cs.len(),
            trim_end_spec(trim_start_spec(cs@)) == trim_end_spec(cs@.subrange(i as int, j as int)),
        decreases j - i,
    {
        proof {
            assert(cs@.subrange(i as int, j as int).drop_last() =~= cs@.subrange(i as int, j - 1));
            assert(cs@.subrange(i as int, j as int).last() == cs@[j - 1]);
        }
        j = j - 1;
    }
    let out = sub_chars(&cs, i, j);
    string_from_chars(out.as_slice())
}

/// What `format!("{:?}", s)` writes for a string: `s` in double quotes, with escapes.
pub uninterp spec fn str_debug_result(s: Seq<char>) -> Seq<char>;

/// Calls `<str as Debug>::fmt` through `format!`: the string in double quotes, with escapes.
#[verifier::external_body]
pub(crate) fn debug_quoted(s: &str) -> (r: String)
    ensures
        r@ == str_debug_result(s@),
{
    format!("{:?}", s)
}

/// `true` or `false`, as a `bool` is written.
pub open spec fn bool_text(b: bool) -> Seq<char> {
    if b {
        "true"@
    } else {
        "false"@
    }
}

pub fn extend_bool(a: &mut Vec<char>, b: bool)
    ensures
        final(a)@ == old(a)@ + bool_text(b),
{
    if b {
        extend_str(a, "true");
    } else {
        extend_str(a, "false");
    }
}

/// An optional string as `Debug` writes it: `Some("…")` or `None`.
pub open spec fn opt_debug(o: Option<Seq<char>>) -> Seq<char> {
    match o {
        Some(v) => "Some("@ + str_debug_result(v) + ")"@,
        None => "None"@,
    }
}

pub fn extend_opt_debug(a: &mut Vec<char>, o: Option<&str>)
    ensures
        final(a)@ == old(a)@ + opt_debug(match o {
            Some(v) => Some(v@),
            None => None,
        }),
{
    match o {
        Some(v) => {
            extend_str(a, "Some(");
            extend_str(a, debug_quoted(v).as_str());
            extend_str(a, ")");
        },
        None => extend_str(a, "None"),
    }
}

} // verus!
