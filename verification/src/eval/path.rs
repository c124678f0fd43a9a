//! Assertion paths: `path := '$' rest | first rest`, with `.name`, `.0`, `[0]` and `["key"]` steps.
use vstd::prelude::*;

use crate::domain::json::{json_clone, member, member_spec, Json, JsonValue};
use crate::domain::settings::{digit_value, is_digit};
use crate::text::{decimal, decimal_string, digit_char, str_chars, str_eq, string_from_chars, sub_chars};

verus! {

#[derive(Debug, Clone, Copy, PartialEq, Eq, Structural)]
pub enum PathError {
    Invalid,
    Missing,
}

#[derive(Debug, Clone, PartialEq, Eq)]
pub enum Segment {
    Ident(String),
    Index(u64),
    Key(String),
}

/// Mathematical model of a path segment.
pub enum Seg {
    Ident(Seq<char>),
    Index(nat),
    Key(Seq<char>),
}

pub open spec fn seg_view(s: Segment) -> Seg {
    match s {
        Segment::Ident(n) => Seg::Ident(n@),
        Segment::Index(n) => Seg::Index(n as nat),
        Segment::Key(k) => Seg::Key(k@),
    }
}

pub open spec fn segs_view(s: Seq<Segment>) -> Seq<Seg> {
    s.map_values(|x: Segment| seg_view(x))
}

pub open spec fn is_ident_start(c: char) -> bool {
    ('A' <= c && c <= 'Z') || ('a' <= c && c <= 'z') || c == '_'
}

pub open spec fn is_ident_char(c: char) -> bool {
    is_ident_start(c) || is_digit(c)
}

pub open spec fn is_quote(c: char) -> bool {
    c == '"' || c == '\''
}

/// First position at or after `i` that is not an identifier character.
pub open spec fn ident_end(s: Seq<char>, i: nat) -> nat
    decreases s.len() - i,
{
    if i < s.len() && is_ident_char(s[i as int]) {
        ident_end(s, i + 1)
    } else {
        i
    }
}

/// First position at or after `i` that is not a digit.
pub open spec fn digits_end(s: Seq<char>, i: nat) -> nat
    decreases s.len() - i,
{
    if i < s.len() && is_digit(s[i as int]) {
        digits_end(s, i + 1)
    } else {
        i
    }
}

/// Value of a run of decimal digits.
pub open spec fn digits_value(d: Seq<char>) -> nat
    decreases d.len(),
{
    if d.len() == 0 {
        0
    } else {
        digits_value(d.drop_last()) * 10 + digit_value(d.last())
    }
}

/// First position at or after `i` holding `q`.
pub open spec fn find_char(s: Seq<char>, i: nat, q: char) -> Option<nat>
    decreases s.len() - i,
{
    if i >= s.len() {
        None
    } else if s[i as int] == q {
        Some(i)
    } else {
        find_char(s, i + 1, q)
    }
}

pub open spec fn parse_ident_spec(s: Seq<char>, i: nat) -> Option<(Seg, nat)> {
    if i < s.len() && is_ident_start(s[i as int]) {
        let e = ident_end(s, i + 1);
        Some((Seg::Ident(s.subrange(i as int, e as int)), e))
    } else {
        None
    }
}

/// Digits that fit a `u64`.
pub open spec fn parse_index_spec(s: Seq<char>, i: nat) -> Option<(Seg, nat)> {
    if i < s.len() && is_digit(s[i as int]) {
        let e = digits_end(s, i + 1);
        let v = digits_value(s.subrange(i as int, e as int));
        if v <= u64::MAX {
            Some((Seg::Index(v), e))
        } else {
            None
        }
    } else {
        None
    }
}

/// A quoted key: the characters up to the matching quote, which is consumed.
pub open spec fn parse_string_spec(s: Seq<char>, i: nat) -> Option<(Seq<char>, nat)> {
    if i < s.len() && is_quote(s[i as int]) {
        match find_char(s, i + 1, s[i as int]) {
            Some(j) => Some((s.subrange(i + 1int, j as int), j + 1)),
            None => None,
        }
    } else {
        None
    }
}

/// `[` then a quoted key or an index, then `]`.
pub open spec fn parse_bracket_spec(s: Seq<char>, i: nat) -> Option<(Seg, nat)> {
    if i < s.len() && s[i as int] == '[' {
        let inner = if i + 1 < s.len() && is_quote(s[i + 1int]) {
            match parse_string_spec(s, i + 1) {
                Some((k, e)) => Some((Seg::Key(k), e)),
                None => None,
            }
        } else {
            parse_index_spec(s, i + 1)
        };
        match inner {
            Some((seg, e)) => if e < s.len() && s[e as int] == ']' {
                Some((seg, e + 1))
            } else {
                None
            },
            None => None,
        }
    } else {
        None
    }
}

pub open spec fn parse_first_spec(s: Seq<char>, i: nat) -> Option<(Seg, nat)> {
    if i < s.len() && s[i as int] == '[' {
        parse_bracket_spec(s, i)
    } else if i < s.len() && is_digit(s[i as int]) {
        parse_index_spec(s, i)
    } else {
        parse_ident_spec(s, i)
    }
}

/// One step after the first: `.index`, `.name` or a bracket.
pub open spec fn parse_step_spec(s: Seq<char>, i: nat) -> Option<(Seg, nat)> {
    if i < s.len() && s[i as int] == '.' {
        if i + 1 < s.len() && is_digit(s[i + 1int]) {
            parse_index_spec(s, i + 1)
        } else {
            parse_ident_spec(s, i + 1)
        }
    } else {
        parse_bracket_spec(s, i)
    }
}

/// Steps up to the end of the input.
pub open spec fn parse_rest_spec(s: Seq<char>, i: nat) -> Option<Seq<Seg>>
    decreases s.len() - i,
{
    if i >= s.len() {
        Some(Seq::empty())
    } else {
        match parse_step_spec(s, i) {
            Some((seg, e)) => if i < e <= s.len() {
                match parse_rest_spec(s, e) {
                    Some(rest) => Some(seq![seg] + rest),
                    None => None,
                }
            } else {
                None
            },
            None => None,
        }
    }
}

/// The segments of a path, or `None` when the path is invalid.
pub open spec fn parse_path_spec(s: Seq<char>) -> Option<Seq<Seg>> {
    if s.len() == 0 {
        None
    } else if s[0] == '$' {
        parse_rest_spec(s, 1)
    } else {
        match parse_first_spec(s, 0) {
            Some((seg, e)) => match parse_rest_spec(s, e) {
                Some(rest) => Some(seq![seg] + rest),
                None => None,
            },
            None => None,
        }
    }
}

proof fn lemma_ident_end(s: Seq<char>, i: nat)
    requires
        i <= s.len(),
    ensures
        i <= ident_end(s, i) <= s.len(),
        forall|k: int| i <= k < ident_end(s, i) ==> is_ident_char(#[trigger] s[k]),
        ident_end(s, i) < s.len() ==> !is_ident_char(s[ident_end(s, i) as int]),
    decreases s.len() - i,
{
    if i < s.len() && is_ident_char(s[i as int]) {
        lemma_ident_end(s, i + 1);
    }
}

proof fn lemma_digits_end(s: Seq<char>, i: nat)
    requires
        i <= s.len(),
    ensures
        i <= digits_end(s, i) <= s.len(),
        digits_end(s, i) < s.len() ==> !is_digit(s[digits_end(s, i) as int]),
        forall|k: int| i <= k < digits_end(s, i) ==> is_digit(#[trigger] s[k]),
    decreases s.len() - i,
{
    if i < s.len() && is_digit(s[i as int]) {
        lemma_digits_end(s, i + 1);
    }
}

proof fn lemma_find_char(s: Seq<char>, i: nat, q: char)
    requires
        i <= s.len(),
    ensures
        match find_char(s, i, q) {
            Some(j) => i <= j < s.len() && s[j as int] == q && forall|k: int| i <= k < j ==> s[k] != q,
            None => forall|k: int| i <= k < s.len() ==> s[k] != q,
        },
    decreases s.len() - i,
{
    if i < s.len() && s[i as int] != q {
        lemma_find_char(s, i + 1, q);
    }
}

/// Every step consumes input.
proof fn lemma_step_advances(s: Seq<char>, i: nat)
    requires
        i < s.len(),
    ensures
        parse_step_spec(s, i) matches Some((seg, e)) ==> i < e <= s.len(),
        parse_first_spec(s, i) matches Some((seg, e)) ==> i < e <= s.len(),
{
    lemma_ident_end(s, i + 1);
    lemma_digits_end(s, i + 1);
    if i + 1 < s.len() {
        lemma_ident_end(s, i + 2);
        lemma_digits_end(s, i + 2);
        lemma_find_char(s, i + 2, s[i + 1int]);
    }
    if i + 1 <= s.len() {
        lemma_find_char(s, i + 1, s[i as int]);
    }
}

/// Cursor over the characters of a path.
struct Parser {
    s: Vec<char>,
    i: usize,
}

impl Parser {
    /// The characters not yet consumed.
    fn rest(&self) -> (r: Vec<char>)
        requires
            self.i <= self.s.len(),
        ensures
            r@ == self.s@.subrange(self.i as int, self.s@.len() as int),
    {
        sub_chars(&self.s, self.i, self.s.len())
    }

    fn peek(&self) -> (r: Option<char>)
        ensures
            r == (if self.i < self.s@.len() {
                Some(self.s@[self.i as int])
            } else {
                None::<char>
            }),
    {
        if self.i < self.s.len() {
            Some(self.s[self.i])
        } else {
            None
        }
    }

    fn bump(&mut self)
        ensures
            final(self).s == old(self).s,
            final(self).i == (if old(self).i < old(self).s@.len() {
                old(self).i + 1
            } else {
                old(self).i as int
            }),
    {
        if self.i < self.s.len() {
            self.i = self.i + 1;
        }
    }

    fn bump_if(&mut self, ch: char) -> (r: bool)
        ensures
            final(self).s == old(self).s,
            r == (old(self).i < old(self).s@.len() && old(self).s@[old(self).i as int] == ch),
            final(self).i == (if r {
                old(self).i + 1
            } else {
                old(self).i as int
            }),
    {
        if self.peek() == Some(ch) {
            self.bump();
            true
        } else {
            false
        }
    }

    fn parse_ident(&mut self) -> (r: Result<Segment, PathError>)
        requires
            old(self).i <= old(self).s@.len(),
        ensures
            final(self).s == old(self).s,
            match parse_ident_spec(old(self).s@, old(self).i as nat) {
                Some((seg, e)) => r matches Ok(x) && seg_view(x) == seg && final(self).i == e,
                None => r == Err::<Segment, PathError>(PathError::Invalid),
            },
    {
        let start = self.i;
        match self.peek() {
            Some(c) => {
                if !(('A' <= c && c <= 'Z') || ('a' <= c && c <= 'z') || c == '_') {
                    return Err(PathError::Invalid);
                }
            },
            None => {
                return Err(PathError::Invalid);
            },
        }
        self.bump();
        proof {
            lemma_ident_end(self.s@, self.i as nat);
        }
        while self.i < self.s.len() && is_ident_char_exec(self.s[self.i])
            invariant
                self.s == old(self).s,
                start < self.i <= self.s@.len(),
                ident_end(self.s@, (start + 1) as nat) == ident_end(self.s@, self.i as nat),
            decreases self.s@.len() - self.i,
        {
            self.i = self.i + 1;
        }
        let name = sub_chars(&self.s, start, self.i);
        Ok(Segment::Ident(string_from_chars(name.as_slice())))
    }

    fn parse_index(&mut self) -> (r: Result<Segment, PathError>)
        requires
            old(self).i <= old(self).s@.len(),
        ensures
            final(self).s == old(self).s,
            match parse_index_spec(old(self).s@, old(self).i as nat) {
                Some((seg, e)) => r matches Ok(x) && seg_view(x) == seg && final(self).i == e,
                None => r == Err::<Segment, PathError>(PathError::Invalid),
            },
    {
        let start = self.i;
        match self.peek() {
            Some(c) => {
                if !('0' <= c && c <= '9') {
                    return Err(PathError::Invalid);
                }
            },
            None => {
                return Err(PathError::Invalid);
            },
        }
        let mut value: Option<u64> = Some(0);
        while self.i < self.s.len() && '0' <= self.s[self.i] && self.s[self.i] <= '9'
            invariant
                self.s == old(self).s,
                start <= self.i <= self.s@.len(),
                start < self.s@.len() && is_digit(self.s@[start as int]),
                forall|k: int| start <= k < self.i ==> is_digit(#[trigger] self.s@[k]),
                digits_end(self.s@, (start + 1) as nat) == digits_end(self.s@, if self.i == start { (start + 1) as nat } else { self.i as nat }),
                value matches Some(v) ==> v == digits_value(self.s@.subrange(start as int, self.i as int)),
                value is None ==> digits_value(self.s@.subrange(start as int, self.i as int)) > u64::MAX,
            decreases self.s@.len() - self.i,
        {
            let d = (self.s[self.i] as u32 - '0' as u32) as u64;
            proof {
                let sub = self.s@.subrange(start as int, self.i + 1);
                assert(sub.drop_last() =~= self.s@.subrange(start as int, self.i as int));
                assert(sub.last() == self.s@[self.i as int]);
            }
            value = match value {
                Some(v) => match v.checked_mul(10) {
                    Some(t) => t.checked_add(d),
                    None => None,
                },
                None => None,
            };
            self.i = self.i + 1;
        }
        proof {
            lemma_digits_end(self.s@, (start + 1) as nat);
        }
        match value {
            Some(v) => Ok(Segment::Index(v)),
            None => Err(PathError::Invalid),
        }
    }

    fn parse_string(&mut self) -> (r: Result<String, PathError>)
        requires
            old(self).i <= old(self).s@.len(),
        ensures
            final(self).s == old(self).s,
            match parse_string_spec(old(self).s@, old(self).i as nat) {
                Some((k, e)) => r matches Ok(x) && x@ == k && final(self).i == e,
                None => r == Err::<String, PathError>(PathError::Invalid),
            },
    {
        let quote = match self.peek() {
            Some(q) => q,
            None => {
                return Err(PathError::Invalid);
            },
        };
        if quote != '"' && quote != '\'' {
            return Err(PathError::Invalid);
        }
        self.bump();
        let start = self.i;
        proof {
            lemma_find_char(self.s@, start as nat, quote);
        }
        loop
            invariant
                self.s == old(self).s,
                start <= self.i <= self.s@.len(),
                start == old(self).i + 1,
                quote == old(self).s@[old(self).i as int],
                find_char(self.s@, start as nat, quote) == find_char(self.s@, self.i as nat, quote),
            ensures
                self.i < self.s@.len(),
                self.s@[self.i as int] == quote,
            decreases self.s@.len() - self.i,
        {
            if self.i >= self.s.len() {
                return Err(PathError::Invalid);
            }
            if self.s[self.i] == quote {
                break;
            }
            self.i = self.i + 1;
        }
        let inner = sub_chars(&self.s, start, self.i);
        self.bump();
        Ok(string_from_chars(inner.as_slice()))
    }

    fn parse_bracket(&mut self) -> (r: Result<Segment, PathError>)
        requires
            old(self).i <= old(self).s@.len(),
        ensures
            final(self).s == old(self).s,
            match parse_bracket_spec(old(self).s@, old(self).i as nat) {
                Some((seg, e)) => r matches Ok(x) && seg_view(x) == seg && final(self).i == e,
                None => r == Err::<Segment, PathError>(PathError::Invalid),
            },
    {
        if !self.bump_if('[') {
            return Err(PathError::Invalid);
        }
        let seg = match self.peek() {
            Some(c) => {
                if c == '"' || c == '\'' {
                    match self.parse_string() {
                        Ok(k) => Segment::Key(k),
                        Err(e) => {
                            return Err(e);
                        },
                    }
                } else {
                    match self.parse_index() {
                        Ok(x) => x,
                        Err(e) => {
                            return Err(e);
                        },
                    }
                }
            },
            None => {
                return Err(PathError::Invalid);
            },
        };
        if !self.bump_if(']') {
            return Err(PathError::Invalid);
        }
        Ok(seg)
    }

    fn parse_first(&mut self) -> (r: Result<Segment, PathError>)
        requires
            old(self).i <= old(self).s@.len(),
        ensures
            final(self).s == old(self).s,
            match parse_first_spec(old(self).s@, old(self).i as nat) {
                Some((seg, e)) => r matches Ok(x) && seg_view(x) == seg && final(self).i == e,
                None => r == Err::<Segment, PathError>(PathError::Invalid),
            },
    {
        match self.peek() {
            Some(c) => {
                if c == '[' {
                    self.parse_bracket()
                } else if '0' <= c && c <= '9' {
                    self.parse_index()
                } else {
                    self.parse_ident()
                }
            },
            None => self.parse_ident(),
        }
    }

    fn parse_step(&mut self) -> (r: Result<Segment, PathError>)
        requires
            old(self).i < old(self).s@.len(),
        ensures
            final(self).s == old(self).s,
            match parse_step_spec(old(self).s@, old(self).i as nat) {
                Some((seg, e)) => r matches Ok(x) && seg_view(x) == seg && final(self).i == e,
                None => r == Err::<Segment, PathError>(PathError::Invalid),
            },
    {
        if self.s[self.i] == '.' {
            self.bump();
            match self.peek() {
                Some(c) => {
                    if '0' <= c && c <= '9' {
                        self.parse_index()
                    } else {
                        self.parse_ident()
                    }
                },
                None => self.parse_ident(),
            }
        } else {
            self.parse_bracket()
        }
    }

    fn parse_rest(&mut self) -> (r: Result<Vec<Segment>, PathError>)
        requires
            old(self).i <= old(self).s@.len(),
        ensures
            final(self).s == old(self).s,
            match parse_rest_spec(old(self).s@, old(self).i as nat) {
                Some(segs) => r matches Ok(v) && segs_view(v@) == segs && final(self).i == old(self).s@.len(),
                None => r == Err::<Vec<Segment>, PathError>(PathError::Invalid),
            },
    {
        let mut segs: Vec<Segment> = Vec::new();
        let ghost i0 = self.i as nat;
        while self.i < self.s.len()
            invariant
                self.s == old(self).s,
                self.i <= self.s@.len(),
                i0 == old(self).i,
                parse_rest_spec(self.s@, i0) == (match parse_rest_spec(self.s@, self.i as nat) {
                    Some(rest) => Some(segs_view(segs@) + rest),
                    None => None,
                }),
            decreases self.s@.len() - self.i,
        {
            let ghost before = self.i as nat;
            proof {
                lemma_step_advances(self.s@, before);
            }
            let seg = match self.parse_step() {
                Ok(x) => x,
                Err(e) => {
                    return Err(e);
                },
            };
            let ghost prev = segs@;
            segs.push(seg);
            proof {
                assert(segs_view(segs@) =~= segs_view(prev).push(seg_view(seg)));
                match parse_rest_spec(self.s@, self.i as nat) {
                    Some(rest) => {
                        assert(segs_view(prev) + (seq![seg_view(seg)] + rest) =~= segs_view(segs@) + rest);
                    },
                    None => {},
                }
            }
        }
        proof {
            assert(segs_view(segs@) + Seq::<Seg>::empty() =~= segs_view(segs@));
        }
        Ok(segs)
    }
}

fn is_ident_char_exec(c: char) -> (r: bool)
    ensures
        r == is_ident_char(c),
{
    ('A' <= c && c <= 'Z') || ('a' <= c && c <= 'z') || c == '_' || ('0' <= c && c <= '9')
}

/// Parse an assertion path into segments.
pub fn parse_path(path: &str) -> (r: Result<Vec<Segment>, PathError>)
    ensures
        match parse_path_spec(path@) {
            Some(segs) => r matches Ok(v) && segs_view(v@) == segs,
            None => r == Err::<Vec<Segment>, PathError>(PathError::Invalid),
        },
{
    let mut parser = Parser { s: str_chars(path), i: 0 };
    if parser.s.len() == 0 {
        return Err(PathError::Invalid);
    }
    if parser.bump_if('$') {
        parser.parse_rest()
    } else {
        proof {
            lemma_step_advances(parser.s@, 0);
        }
        let first = match parser.parse_first() {
            Ok(x) => x,
            Err(e) => {
                return Err(e);
            },
        };
        let rest = match parser.parse_rest() {
            Ok(v) => v,
            Err(e) => {
                return Err(e);
            },
        };
        let mut segs: Vec<Segment> = Vec::new();
        segs.push(first);
        let mut i: usize = 0;
        let mut rest = rest;
        let ghost rest_view = segs_view(rest@);
        proof {
            assert(segs_view(segs@) =~= seq![seg_view(first)]);
        }
        while rest.len() > 0
            invariant
                segs_view(segs@) + segs_view(rest@) == seq![seg_view(first)] + rest_view,
            decreases rest.len(),
        {
            let ghost pv = segs@;
            let ghost rv = rest@;
            let x = rest.remove(0);
            segs.push(x);
            proof {
                assert(segs_view(segs@) =~= segs_view(pv).push(seg_view(x)));
                assert(segs_view(rv) =~= seq![seg_view(x)] + segs_view(rest@));
                assert(segs_view(segs@) + segs_view(rest@) =~= segs_view(pv) + segs_view(rv));
            }
        }
        proof {
            assert(segs_view(segs@) + segs_view(rest@) =~= segs_view(segs@));
        }
        Ok(segs)
    }
}


/// The accessor name that yields the length of an array or a string.
pub open spec fn length_word() -> Seq<char> {
    seq!['l', 'e', 'n', 'g', 't', 'h']
}

pub open spec fn lookup_spec(members: Seq<(Seq<char>, Json)>, key: Seq<char>) -> Result<Json, PathError> {
    match member_spec(members, key) {
        Some(j) => Ok(j),
        None => Err(PathError::Missing),
    }
}

/// One step of resolution. A dotted `length` on an array or a string is its length; on an
/// object it is the member of that name. A bracketed key is always a member.
pub open spec fn step_spec(cur: Json, seg: Seg) -> Result<Json, PathError> {
    match seg {
        Seg::Ident(name) => match cur {
            Json::Array(items) => if name == length_word() {
                Ok(Json::Number(decimal(items.len())))
            } else {
                Err(PathError::Missing)
            },
            Json::Text(t) => if name == length_word() {
                Ok(Json::Number(decimal(t.len())))
            } else {
                Err(PathError::Missing)
            },
            Json::Object(m) => lookup_spec(m, name),
            _ => Err(PathError::Missing),
        },
        Seg::Index(n) => match cur {
            Json::Array(items) => if n < items.len() {
                Ok(items[n as int])
            } else {
                Err(PathError::Missing)
            },
            Json::Object(m) => lookup_spec(m, decimal(n)),
            _ => Err(PathError::Missing),
        },
        Seg::Key(k) => match cur {
            Json::Object(m) => lookup_spec(m, k),
            _ => Err(PathError::Missing),
        },
    }
}

/// Follow `segs` from `cur`; the first failing step decides the error.
pub open spec fn resolve_segs(cur: Json, segs: Seq<Seg>) -> Result<Json, PathError>
    decreases segs.len(),
{
    if segs.len() == 0 {
        Ok(cur)
    } else {
        match step_spec(cur, segs[0]) {
            Ok(next) => resolve_segs(next, segs.drop_first()),
            Err(e) => Err(e),
        }
    }
}

/// What a path names in a document: `Invalid` for a path that does not parse, `Missing` for
/// one that names nothing.
pub open spec fn resolve_path_spec(root: Json, path: Seq<char>) -> Result<Json, PathError> {
    match parse_path_spec(path) {
        Some(segs) => resolve_segs(root, segs),
        None => Err(PathError::Invalid),
    }
}

proof fn lemma_resolve_from(cur: Json, segs: Seq<Seg>, idx: int)
    requires
        0 <= idx < segs.len(),
    ensures
        resolve_segs(cur, segs.subrange(idx, segs.len() as int)) == (match step_spec(cur, segs[idx]) {
            Ok(next) => resolve_segs(next, segs.subrange(idx + 1, segs.len() as int)),
            Err(e) => Err(e),
        }),
{
    let tail = segs.subrange(idx, segs.len() as int);
    assert(tail.drop_first() =~= segs.subrange(idx + 1, segs.len() as int));
}

/// A step either lands inside the current value or computes a new one (a length).
enum Step<'a> {
    Borrow(&'a JsonValue),
    Owned(JsonValue),
}

spec fn step_view(s: Step) -> Json {
    match s {
        Step::Borrow(v) => v@,
        Step::Owned(v) => v@,
    }
}

fn lookup<'a>(members: &'a Vec<(String, JsonValue)>, key: &str) -> (r: Result<Step<'a>, PathError>)
    ensures
        match member_spec(crate::domain::json::object_members(*members), key@) {
            Some(j) => r matches Ok(s) && step_view(s) == j,
            None => r == Err::<Step<'a>, PathError>(PathError::Missing),
        },
{
    match member(members, key) {
        Some(v) => Ok(Step::Borrow(v)),
        None => Err(PathError::Missing),
    }
}

fn step<'a>(cur: &'a JsonValue, seg: &Segment) -> (r: Result<Step<'a>, PathError>)
    ensures
        match step_spec(cur@, seg_view(*seg)) {
            Ok(j) => r matches Ok(s) && step_view(s) == j,
            Err(e) => r == Err::<Step<'a>, PathError>(e),
        },
{
    proof {
        reveal_strlit("length");
        assert("length"@ =~= length_word());
    }
    match seg {
        Segment::Ident(name) => match cur {
            JsonValue::Array(items) => {
                if str_eq(name.as_str(), "length") {
                    Ok(Step::Owned(JsonValue::Number(decimal_string(items.len() as u64))))
                } else {
                    Err(PathError::Missing)
                }
            },
            JsonValue::Text(t) => {
                if str_eq(name.as_str(), "length") {
                    let n = str_chars(t.as_str()).len();
                    Ok(Step::Owned(JsonValue::Number(decimal_string(n as u64))))
                } else {
                    Err(PathError::Missing)
                }
            },
            JsonValue::Object(members) => lookup(members, name.as_str()),
            _ => Err(PathError::Missing),
        },
        Segment::Index(n) => match cur {
            JsonValue::Array(items) => {
                if *n < items.len() as u64 {
                    Ok(Step::Borrow(&items[*n as usize]))
                } else {
                    Err(PathError::Missing)
                }
            },
            JsonValue::Object(members) => {
                let key = decimal_string(*n);
                lookup(members, key.as_str())
            },
            _ => Err(PathError::Missing),
        },
        Segment::Key(k) => match cur {
            JsonValue::Object(members) => lookup(members, k.as_str()),
            _ => Err(PathError::Missing),
        },
    }
}

/// The value that `path` names in `root`.
pub fn resolve_path(root: &JsonValue, path: &str) -> (r: Result<JsonValue, PathError>)
    ensures
        match resolve_path_spec(root@, path@) {
            Ok(j) => r matches Ok(v) && v@ == j,
            Err(e) => r == Err::<JsonValue, PathError>(e),
        },
{
    let segs = match parse_path(path) {
        Ok(s) => s,
        Err(e) => {
            return Err(e);
        },
    };
    let ghost sv = segs_view(segs@);
    let mut idx: usize = 0;
    let mut cur: &JsonValue = root;
    proof {
        assert(sv.subrange(0, sv.len() as int) =~= sv);
    }
    while idx < segs.len()
        invariant
            idx <= segs.len(),
            sv == segs_view(segs@),
            resolve_path_spec(root@, path@) == resolve_segs(root@, sv),
            resolve_segs(root@, sv) == resolve_segs(cur@, sv.subrange(idx as int, sv.len() as int)),
        decreases segs.len() - idx,
    {
        proof {
            lemma_resolve_from(cur@, sv, idx as int);
        }
        match step(cur, &segs[idx]) {
            Ok(Step::Borrow(next)) => {
                cur = next;
                idx = idx + 1;
            },
            Ok(Step::Owned(first_owned)) => {
                idx = idx + 1;
                let mut owned = first_owned;
                while idx < segs.len()
                    invariant
                        idx <= segs.len(),
                        sv == segs_view(segs@),
                        resolve_path_spec(root@, path@) == resolve_segs(root@, sv),
                        resolve_segs(root@, sv) == resolve_segs(owned@, sv.subrange(idx as int, sv.len() as int)),
                    decreases segs.len() - idx,
                {
                    proof {
                        lemma_resolve_from(owned@, sv, idx as int);
                    }
                    match step(&owned, &segs[idx]) {
                        Ok(Step::Borrow(next)) => {
                            owned = json_clone(next);
                        },
                        Ok(Step::Owned(next)) => {
                            owned = next;
                        },
                        Err(e) => {
                            return Err(e);
                        },
                    }
                    idx = idx + 1;
                }
                proof {
                    assert(sv.subrange(idx as int, sv.len() as int) =~= Seq::<Seg>::empty());
                }
                return Ok(owned);
            },
            Err(e) => {
                return Err(e);
            },
        }
    }
    proof {
        assert(sv.subrange(idx as int, sv.len() as int) =~= Seq::<Seg>::empty());
    }
    Ok(json_clone(cur))
}

/// Following an index step on an array gives its element at that position counted from the
/// front; past the end it names nothing.
pub proof fn lemma_index_step_counts_from_front(root: Json, segs: Seq<Seg>, items: Seq<Json>, n: nat)
    requires
        resolve_segs(root, segs) == Ok::<Json, PathError>(Json::Array(items)),
    ensures
        n < items.len() ==> resolve_segs(root, segs.push(Seg::Index(n))) == Ok::<Json, PathError>(items[n as int]),
        n >= items.len() ==> resolve_segs(root, segs.push(Seg::Index(n))) == Err::<Json, PathError>(PathError::Missing),
    decreases segs.len(),
{
    if segs.len() > 0 {
        assert(segs.push(Seg::Index(n)).drop_first() =~= segs.drop_first().push(Seg::Index(n)));
        assert(segs.push(Seg::Index(n))[0] == segs[0]);
        match step_spec(root, segs[0]) {
            Ok(next) => {
                lemma_index_step_counts_from_front(next, segs.drop_first(), items, n);
            },
            Err(e) => {},
        }
    } else {
        let one = segs.push(Seg::Index(n));
        assert(one =~= seq![Seg::Index(n)]);
        assert(one.drop_first() =~= Seq::<Seg>::empty());
        assert(root == Json::Array(items));
        assert(one[0] == Seg::Index(n));
        if n < items.len() {
            assert(step_spec(root, one[0]) == Ok::<Json, PathError>(items[n as int]));
            assert(resolve_segs(items[n as int], one.drop_first()) == Ok::<Json, PathError>(items[n as int]));
        }
    }
}


proof fn lemma_ident_end_ext(s: Seq<char>, t: Seq<char>, i: nat)
    requires
        i <= s.len(),
        t.len() > 0,
        !is_ident_char(t[0]),
    ensures
        ident_end(s + t, i) == ident_end(s, i),
    decreases s.len() - i,
{
    let u = s + t;
    if i < s.len() {
        assert(u[i as int] == s[i as int]);
        if is_ident_char(s[i as int]) {
            lemma_ident_end_ext(s, t, i + 1);
        }
    } else {
        assert(u[i as int] == t[0]);
    }
}

proof fn lemma_digits_end_ext(s: Seq<char>, t: Seq<char>, i: nat)
    requires
        i <= s.len(),
        t.len() > 0,
        !is_digit(t[0]),
    ensures
        digits_end(s + t, i) == digits_end(s, i),
    decreases s.len() - i,
{
    let u = s + t;
    if i < s.len() {
        assert(u[i as int] == s[i as int]);
        if is_digit(s[i as int]) {
            lemma_digits_end_ext(s, t, i + 1);
        }
    } else {
        assert(u[i as int] == t[0]);
    }
}

proof fn lemma_find_char_ext(s: Seq<char>, t: Seq<char>, i: nat, q: char)
    requires
        i <= s.len(),
        find_char(s, i, q) is Some,
    ensures
        find_char(s + t, i, q) == find_char(s, i, q),
    decreases s.len() - i,
{
    let u = s + t;
    if i < s.len() {
        assert(u[i as int] == s[i as int]);
        if s[i as int] != q {
            lemma_find_char_ext(s, t, i + 1, q);
        }
    }
}

/// The scanners at `j` read the same on `s` and on `s` with a step appended after it.
proof fn lemma_scan_ext(s: Seq<char>, t: Seq<char>, j: nat)
    requires
        j <= s.len(),
        t.len() > 0,
        t[0] == '.',
    ensures
        ident_end(s + t, j) == ident_end(s, j),
        digits_end(s + t, j) == digits_end(s, j),
        ident_end(s, j) <= s.len(),
        digits_end(s, j) <= s.len(),
        forall|a: int, b: int| 0 <= a <= b <= s.len() ==> #[trigger] (s + t).subrange(a, b) == s.subrange(a, b),
        forall|k: int| 0 <= k < s.len() ==> #[trigger] (s + t)[k] == s[k],
{
    lemma_ident_end_ext(s, t, j);
    lemma_digits_end_ext(s, t, j);
    lemma_ident_end(s, j);
    lemma_digits_end(s, j);
    assert forall|a: int, b: int| 0 <= a <= b <= s.len() implies #[trigger] (s + t).subrange(a, b) == s.subrange(a, b) by {
        assert((s + t).subrange(a, b) =~= s.subrange(a, b));
    }
}

proof fn lemma_step_ext(s: Seq<char>, t: Seq<char>, i: nat)
    requires
        i < s.len(),
        t.len() > 0,
        t[0] == '.',
    ensures
        parse_step_spec(s, i) is Some ==> parse_step_spec(s + t, i) == parse_step_spec(s, i),
        parse_first_spec(s, i) is Some ==> parse_first_spec(s + t, i) == parse_first_spec(s, i),
{
    let u = s + t;
    lemma_scan_ext(s, t, i + 1);
    lemma_step_advances(s, i);
    if i + 1 <= s.len() {
        if find_char(s, i + 1, s[i as int]) is Some {
            lemma_find_char_ext(s, t, i + 1, s[i as int]);
        }
    }
    if i + 1 < s.len() {
        lemma_scan_ext(s, t, i + 2);
        if find_char(s, i + 2, s[i + 1int]) is Some {
            lemma_find_char_ext(s, t, i + 2, s[i + 1int]);
        }
        lemma_find_char(s, i + 2, s[i + 1int]);
    } else {
        assert(u[i + 1int] == '.');
    }
    lemma_find_char(s, i + 1, s[i as int]);
    lemma_digits_end(s, i + 1);
    lemma_ident_end(s, i + 1);
    if i + 1 < s.len() {
        lemma_digits_end(s, i + 2);
        lemma_ident_end(s, i + 2);
    }
}

proof fn lemma_rest_ext(s: Seq<char>, t: Seq<char>, i: nat)
    requires
        i <= s.len(),
        t.len() > 0,
        t[0] == '.',
        parse_rest_spec(s, i) is Some,
    ensures
        parse_rest_spec(s + t, i) == (match parse_rest_spec(s + t, s.len()) {
            Some(x) => Some(parse_rest_spec(s, i)->0 + x),
            None => None::<Seq<Seg>>,
        }),
    decreases s.len() - i,
{
    let u = s + t;
    if i == s.len() {
        match parse_rest_spec(u, s.len()) {
            Some(x) => {
                assert(Seq::<Seg>::empty() + x =~= x);
            },
            None => {},
        }
    } else {
        lemma_step_ext(s, t, i);
        let (seg, e) = parse_step_spec(s, i)->0;
        lemma_rest_ext(s, t, e);
        match parse_rest_spec(u, s.len()) {
            Some(x) => {
                let rest = parse_rest_spec(s, e)->0;
                assert(seq![seg] + (rest + x) =~= (seq![seg] + rest) + x);
            },
            None => {},
        }
    }
}

proof fn lemma_digit_char(d: nat)
    requires
        d < 10,
    ensures
        is_digit(digit_char(d)),
        digit_value(digit_char(d)) == d,
{
}

/// The decimal text of `n` is all digits and reads back as `n`.
proof fn lemma_decimal_reads_back(n: nat)
    ensures
        decimal(n).len() > 0,
        forall|k: int| 0 <= k < decimal(n).len() ==> is_digit(#[trigger] decimal(n)[k]),
        digits_value(decimal(n)) == n,
    decreases n,
{
    if n < 10 {
        lemma_digit_char(n);
        assert(decimal(n).drop_last() =~= Seq::<char>::empty());
        assert(decimal(n).last() == digit_char(n));
        assert(digits_value(Seq::<char>::empty()) == 0);
        assert(digits_value(decimal(n)) == digits_value(decimal(n).drop_last()) * 10 + digit_value(decimal(n).last()));
    } else {
        lemma_decimal_reads_back(n / 10);
        lemma_digit_char(n % 10);
        let d = decimal(n);
        assert(d == decimal(n / 10).push(digit_char(n % 10)));
        assert(d.drop_last() =~= decimal(n / 10));
        assert(forall|k: int| 0 <= k < decimal(n / 10).len() ==> d[k] == decimal(n / 10)[k]);
        assert(d.last() == digit_char(n % 10));
        assert(digits_value(d) == digits_value(d.drop_last()) * 10 + digit_value(d.last()));
        assert((n / 10) * 10 + n % 10 == n) by (nonlinear_arith);
    }
}

/// The step `.n` on its own parses as the index `n`.
proof fn lemma_dot_index_tail(s: Seq<char>, n: nat)
    requires
        n <= u64::MAX,
    ensures
        parse_rest_spec(s + (seq!['.'] + decimal(n)), s.len()) == Some(seq![Seg::Index(n)]),
{
    let t = seq!['.'] + decimal(n);
    let u = s + t;
    let d = decimal(n);
    lemma_decimal_reads_back(n);
    assert(u.len() == s.len() + 1 + d.len());
    assert(u[s.len() as int] == '.');
    assert forall|k: int| s.len() + 1 <= k < u.len() implies is_digit(#[trigger] u[k]) by {
        assert(u[k] == d[k - s.len() - 1]);
    }
    lemma_digits_end(u, s.len() + 2);
    let e = digits_end(u, s.len() + 2);
    if e < u.len() {
        assert(is_digit(u[e as int]));
    }
    assert(e == u.len());
    assert(u.subrange(s.len() + 1int, u.len() as int) =~= d);
    assert(parse_index_spec(u, s.len() + 1) == Some((Seg::Index(n), u.len())));
    assert(parse_step_spec(u, s.len()) == Some((Seg::Index(n), u.len())));
    assert(parse_rest_spec(u, u.len()) == Some(Seq::<Seg>::empty()));
    assert(seq![Seg::Index(n)] + Seq::<Seg>::empty() =~= seq![Seg::Index(n)]);
}

/// Appending `.n` to a path that parses appends the index step `n`.
pub proof fn lemma_dot_index_appends(p: Seq<char>, n: nat)
    requires
        parse_path_spec(p) is Some,
        n <= u64::MAX,
    ensures
        parse_path_spec(p + (seq!['.'] + decimal(n))) == Some(parse_path_spec(p)->0.push(Seg::Index(n))),
{
    let t = seq!['.'] + decimal(n);
    let u = p + t;
    lemma_dot_index_tail(p, n);
    assert(u[0] == p[0]);
    if p[0] == '$' {
        lemma_rest_ext(p, t, 1);
        assert(parse_rest_spec(p, 1)->0 + seq![Seg::Index(n)] =~= parse_rest_spec(p, 1)->0.push(Seg::Index(n)));
    } else {
        lemma_step_ext(p, t, 0);
        let (seg, e) = parse_first_spec(p, 0)->0;
        lemma_step_advances(p, 0);
        lemma_rest_ext(p, t, e);
        let rest = parse_rest_spec(p, e)->0;
        assert(seq![seg] + (rest + seq![Seg::Index(n)]) =~= (seq![seg] + rest).push(Seg::Index(n)));
    }
}

/// Resolving `p.n` where `p` names an array gives the array's element at position `n`, counted
/// from the front; past the end it names nothing.
pub proof fn lemma_path_index_counts_from_front(root: Json, p: Seq<char>, items: Seq<Json>, n: nat)
    requires
        resolve_path_spec(root, p) == Ok::<Json, PathError>(Json::Array(items)),
        n <= u64::MAX,
    ensures
        n < items.len() ==> resolve_path_spec(root, p + (seq!['.'] + decimal(n))) == Ok::<Json, PathError>(items[n as int]),
        n >= items.len() ==> resolve_path_spec(root, p + (seq!['.'] + decimal(n))) == Err::<Json, PathError>(PathError::Missing),
{
    lemma_dot_index_appends(p, n);
    lemma_index_step_counts_from_front(root, parse_path_spec(p)->0, items, n);
}
} // verus!
