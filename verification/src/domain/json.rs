//! A JSON document as the evaluator reads it. Numbers keep the text that the parser printed,
//! so no floating point is needed to carry them.
use vstd::prelude::*;

verus! {

#[derive(Debug)]
pub enum JsonValue {
    Null,
    Bool(bool),
    /// Decimal text of the number, as `serde_json::Number` displays it.
    Number(String),
    Text(String),
    Array(Vec<JsonValue>),
    /// Members in document order; keys are unique.
    Object(Vec<(String, JsonValue)>),
}

/// Mathematical model of a JSON value.
pub enum Json {
    Null,
    Bool(bool),
    Number(Seq<char>),
    Text(Seq<char>),
    Array(Seq<Json>),
    Object(Seq<(Seq<char>, Json)>),
}

pub open spec fn json_view(v: JsonValue) -> Json
    decreases v,
{
    match v {
        JsonValue::Null => Json::Null,
        JsonValue::Bool(b) => Json::Bool(b),
        JsonValue::Number(n) => Json::Number(n@),
        JsonValue::Text(s) => Json::Text(s@),
        JsonValue::Array(items) => Json::Array(
            Seq::new(items.len() as nat, |i: int| if 0 <= i < items.len() { json_view(items[i]) } else { Json::Null }),
        ),
        JsonValue::Object(members) => Json::Object(
            Seq::new(
                members.len() as nat,
                |i: int| if 0 <= i < members.len() { (members[i].0@, json_view(members[i].1)) } else { (Seq::empty(), Json::Null) },
            ),
        ),
    }
}

impl View for JsonValue {
    type V = Json;

    open spec fn view(&self) -> Json {
        json_view(*self)
    }
}

/// The members of an object, as the model sees them.
pub open spec fn object_members(members: Vec<(String, JsonValue)>) -> Seq<(Seq<char>, Json)> {
    json_view(JsonValue::Object(members))->Object_0
}

/// The value of the first member named `key`.
pub open spec fn member_spec(members: Seq<(Seq<char>, Json)>, key: Seq<char>) -> Option<Json>
    decreases members.len(),
{
    if members.len() == 0 {
        None
    } else if members[0].0 == key {
        Some(members[0].1)
    } else {
        member_spec(members.drop_first(), key)
    }
}

proof fn lemma_member_step(members: Seq<(Seq<char>, Json)>, i: int, key: Seq<char>)
    requires
        0 <= i < members.len(),
    ensures
        member_spec(members.subrange(i, members.len() as int), key) == (if members[i].0 == key {
            Some(members[i].1)
        } else {
            member_spec(members.subrange(i + 1, members.len() as int), key)
        }),
{
    let tail = members.subrange(i, members.len() as int);
    assert(tail.drop_first() =~= members.subrange(i + 1, members.len() as int));
}

/// The member of `members` named `key` (the first one, keys being unique).
pub fn member<'a>(members: &'a Vec<(String, JsonValue)>, key: &str) -> (r: Option<&'a JsonValue>)
    ensures
        match member_spec(object_members(*members), key@) {
            Some(j) => r matches Some(v) && v@ == j,
            None => r is None,
        },
{
    let ghost m = object_members(*members);
    let mut i: usize = 0;
    proof {
        assert(m.subrange(0, m.len() as int) =~= m);
    }
    while i < members.len()
        invariant
            i <= members.len(),
            m == object_members(*members),
            member_spec(m, key@) == member_spec(m.subrange(i as int, m.len() as int), key@),
        decreases members.len() - i,
    {
        proof {
            lemma_member_step(m, i as int, key@);
        }
        if crate::text::str_eq(members[i].0.as_str(), key) {
            return Some(&members[i].1);
        }
        i = i + 1;
    }
    proof {
        assert(m.subrange(i as int, m.len() as int) =~= Seq::<(Seq<char>, Json)>::empty());
    }
    None
}

/// A structurally equal copy.
#[verifier::loop_isolation(false)]
pub fn json_clone(v: &JsonValue) -> (r: JsonValue)
    ensures
        r@ == v@,
    decreases v,
{
    match v {
        JsonValue::Null => JsonValue::Null,
        JsonValue::Bool(b) => JsonValue::Bool(*b),
        JsonValue::Number(n) => JsonValue::Number(n.clone()),
        JsonValue::Text(s) => JsonValue::Text(s.clone()),
        JsonValue::Array(items) => {
            let mut out: Vec<JsonValue> = Vec::new();
            let mut i: usize = 0;
            while i < items.len()
                invariant
                    i <= items.len(),
                    out.len() == i,
                    forall|j: int| 0 <= j < i ==> #[trigger] out[j]@ == items[j]@,
                decreases items.len() - i,
            {
                assert(decreases_to!(*v => v->Array_0));
                assert(decreases_to!(*items => items[i as int]));
                out.push(json_clone(&items[i]));
                i = i + 1;
            }
            let r = JsonValue::Array(out);
            assert(r@ == v@) by {
                assert forall|j: int| 0 <= j < out.len() implies json_view(out[j]) == json_view(items[j]) by {
                    assert(out[j]@ == items[j]@);
                }
                assert(json_view(r)->Array_0 =~= json_view(*v)->Array_0);
            }
            r
        },
        JsonValue::Object(members) => {
            let mut out: Vec<(String, JsonValue)> = Vec::new();
            let mut i: usize = 0;
            while i < members.len()
                invariant
                    i <= members.len(),
                    out.len() == i,
                    forall|j: int| #![trigger out[j]] 0 <= j < i ==> out[j].0@ == members[j].0@ && out[j].1@ == members[j].1@,
                decreases members.len() - i,
            {
                assert(decreases_to!(*v => v->Object_0));
                assert(decreases_to!(*members => members[i as int]));
                assert(decreases_to!(members[i as int] => members[i as int].1));
                let value = json_clone(&members[i].1);
                out.push((members[i].0.clone(), value));
                i = i + 1;
            }
            let r = JsonValue::Object(out);
            assert(r@ == v@) by {
                assert forall|j: int| 0 <= j < out.len() implies out[j].0@ == members[j].0@ && json_view(out[j].1) == json_view(members[j].1) by {
                    assert(out[j].1@ == members[j].1@);
                }
                assert(json_view(r)->Object_0 =~= json_view(*v)->Object_0);
            }
            r
        },
    }
}

impl Clone for JsonValue {
    fn clone(&self) -> (r: Self)
        ensures
            r@ == self@,
    {
        json_clone(self)
    }
}


/// Structural equality: the same model.
#[verifier::loop_isolation(false)]
pub fn json_eq(a: &JsonValue, b: &JsonValue) -> (r: bool)
    ensures
        r == (a@ == b@),
    decreases a,
{
    match (a, b) {
        (JsonValue::Null, JsonValue::Null) => true,
        (JsonValue::Bool(x), JsonValue::Bool(y)) => *x == *y,
        (JsonValue::Number(x), JsonValue::Number(y)) => crate::text::str_eq(x.as_str(), y.as_str()),
        (JsonValue::Text(x), JsonValue::Text(y)) => crate::text::str_eq(x.as_str(), y.as_str()),
        (JsonValue::Array(xs), JsonValue::Array(ys)) => {
            if xs.len() != ys.len() {
                assert(json_view(*a)->Array_0.len() != json_view(*b)->Array_0.len());
                return false;
            }
            let mut i: usize = 0;
            while i < xs.len()
                invariant
                    i <= xs.len(),
                    xs.len() == ys.len(),
                    forall|j: int| 0 <= j < i ==> #[trigger] xs[j]@ == ys[j]@,
                decreases xs.len() - i,
            {
                assert(decreases_to!(*a => a->Array_0));
                assert(decreases_to!(*xs => xs[i as int]));
                if !json_eq(&xs[i], &ys[i]) {
                    assert(json_view(*a)->Array_0[i as int] != json_view(*b)->Array_0[i as int]);
                    return false;
                }
                i = i + 1;
            }
            assert(json_view(*a)->Array_0 =~= json_view(*b)->Array_0) by {
                assert forall|j: int| 0 <= j < xs.len() implies json_view(*a)->Array_0[j] == json_view(*b)->Array_0[j] by {
                    assert(xs[j]@ == ys[j]@);
                }
            }
            true
        },
        (JsonValue::Object(xs), JsonValue::Object(ys)) => {
            if xs.len() != ys.len() {
                assert(json_view(*a)->Object_0.len() != json_view(*b)->Object_0.len());
                return false;
            }
            let mut i: usize = 0;
            while i < xs.len()
                invariant
                    i <= xs.len(),
                    xs.len() == ys.len(),
                    forall|j: int| #![trigger xs[j]] 0 <= j < i ==> xs[j].0@ == ys[j].0@ && xs[j].1@ == ys[j].1@,
                decreases xs.len() - i,
            {
                assert(decreases_to!(*a => a->Object_0));
                assert(decreases_to!(*xs => xs[i as int]));
                assert(decreases_to!(xs[i as int] => xs[i as int].1));
                if !crate::text::str_eq(xs[i].0.as_str(), ys[i].0.as_str()) || !json_eq(&xs[i].1, &ys[i].1) {
                    assert(json_view(*a)->Object_0[i as int] != json_view(*b)->Object_0[i as int]);
                    return false;
                }
                i = i + 1;
            }
            assert(json_view(*a)->Object_0 =~= json_view(*b)->Object_0) by {
                assert forall|j: int| 0 <= j < xs.len() implies json_view(*a)->Object_0[j] == json_view(*b)->Object_0[j] by {
                    assert(xs[j].0@ == ys[j].0@ && xs[j].1@ == ys[j].1@);
                }
            }
            true
        },
        _ => false,
    }
}

impl PartialEq for JsonValue {
    fn eq(&self, other: &Self) -> (r: bool) {
        json_eq(self, other)
    }
}

impl vstd::std_specs::cmp::PartialEqSpecImpl for JsonValue {
    open spec fn obeys_eq_spec() -> bool {
        true
    }

    open spec fn eq_spec(&self, other: &Self) -> bool {
        self@ == other@
    }
}

/// serde_json's document type, carried between the parser and the conversion below.
#[verifier::external_type_specification]
#[verifier::external_body]
pub struct ExSerdeJsonValue(serde_json::Value);

/// Converts serde_json's document into the library's, one variant for one: numbers keep the
/// text that `serde_json::Number` displays; object members come in serde_json's map order.
/// It is the conversion half of `parse_json`, whose contract covers it.
#[verifier::external_body]
fn json_from_serde(v: serde_json::Value) -> JsonValue {
    match v {
        serde_json::Value::Null => JsonValue::Null,
        serde_json::Value::Bool(b) => JsonValue::Bool(b),
        serde_json::Value::Number(n) => JsonValue::Number(n.to_string()),
        serde_json::Value::String(s) => JsonValue::Text(s),
        serde_json::Value::Array(items) => JsonValue::Array(items.into_iter().map(json_from_serde).collect()),
        serde_json::Value::Object(m) => JsonValue::Object(m.into_iter().map(|(k, x)| (k, json_from_serde(x))).collect()),
    }
}

/// Converts the library's document into serde_json's, one variant for one; a number is read
/// back from its text. It is the conversion half of `json_encoded_len`, whose contract covers it.
#[verifier::external_body]
fn serde_from_json(v: &JsonValue) -> serde_json::Value {
    match v {
        JsonValue::Null => serde_json::Value::Null,
        JsonValue::Bool(b) => serde_json::Value::Bool(*b),
        JsonValue::Number(n) => serde_json::from_str(n).unwrap_or(serde_json::Value::Null),
        JsonValue::Text(s) => serde_json::Value::String(s.clone()),
        JsonValue::Array(items) => serde_json::Value::Array(items.iter().map(serde_from_json).collect()),
        JsonValue::Object(m) => serde_json::Value::Object(m.iter().map(|(k, x)| (k.clone(), serde_from_json(x))).collect()),
    }
}

/// What `serde_json::from_slice` makes of `bytes` as a JSON document, or `None` when they are
/// not one.
pub uninterp spec fn json_parse_result(bytes: Seq<u8>) -> Option<Json>;

/// Calls `serde_json::from_slice` on `bytes`: the document they hold, or `None` when they are
/// not JSON. Which inputs are JSON, and the document, are left to serde_json and only named.
#[verifier::external_body]
pub fn parse_json(bytes: &[u8]) -> (r: Option<JsonValue>)
    ensures
        crate::domain::assertion::opt_json(r) == json_parse_result(bytes@),
{
    match serde_json::from_slice::<serde_json::Value>(bytes) {
        Ok(v) => Some(json_from_serde(v)),
        Err(_) => None,
    }
}

/// The length in bytes of `v` written by `serde_json::to_vec` as compact JSON text.
pub uninterp spec fn json_encoded_len_result(v: Json) -> nat;

/// Calls `serde_json::to_vec` on `v` and gives the length of the text. How a value is written
/// is left to serde_json and only named.
#[verifier::external_body]
pub fn json_encoded_len(v: &JsonValue) -> (r: usize)
    ensures
        r == json_encoded_len_result(v@),
{
    match serde_json::to_vec(&serde_from_json(v)) {
        Ok(bytes) => bytes.len(),
        Err(_) => usize::MAX,
    }
}

} // verus!
