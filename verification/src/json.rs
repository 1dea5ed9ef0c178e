//! JSON values as the library reads them: the output of `niri msg --json` and
//! `pw-dump`, parsed by serde_json and read field by field.

use vstd::prelude::*;

use crate::email::ostr;
use crate::text::str_eq;

verus! {

/// serde_json's value type; the library only converts it to `Json`.
#[verifier::external_type_specification]
#[verifier::external_body]
pub struct ExJsonValue(serde_json::Value);

/// A JSON value. A number is kept as its `u64` value, when it has one; an
/// object's entries come in serde_json's map order (sorted by key).
pub enum Json {
    Null,
    Bool(bool),
    Num(Option<u64>),
    Str(String),
    Arr(Vec<Json>),
    Obj(Vec<(String, Json)>),
}

/// A JSON value as plain text and numbers.
pub enum JsonView {
    Null,
    Bool(bool),
    Num(Option<u64>),
    Str(Seq<char>),
    Arr(Seq<JsonView>),
    Obj(Seq<(Seq<char>, JsonView)>),
}

pub open spec fn json_view(j: Json) -> JsonView
    decreases j,
{
    match j {
        Json::Null => JsonView::Null,
        Json::Bool(b) => JsonView::Bool(b),
        Json::Num(n) => JsonView::Num(n),
        Json::Str(s) => JsonView::Str(s@),
        Json::Arr(v) => JsonView::Arr(
            Seq::new(
                v@.len(),
                |i: int|
                    if 0 <= i < v@.len() {
                        json_view(v@[i])
                    } else {
                        JsonView::Null
                    },
            ),
        ),
        Json::Obj(v) => JsonView::Obj(
            Seq::new(
                v@.len(),
                |i: int|
                    if 0 <= i < v@.len() {
                        (v@[i].0@, json_view(v@[i].1))
                    } else {
                        (Seq::empty(), JsonView::Null)
                    },
            ),
        ),
    }
}

impl View for Json {
    type V = JsonView;

    open spec fn view(&self) -> JsonView {
        json_view(*self)
    }
}

/// What `serde_json::from_str::<Value>` makes of a text (`None`: not valid
/// JSON), as a plain value.
pub uninterp spec fn json_of(text: Seq<char>) -> Option<JsonView>;

/// What `serde_json::from_slice::<Value>` makes of bytes (`None`: not valid
/// UTF-8 JSON), as a plain value.
pub uninterp spec fn json_of_bytes(bytes: Seq<u8>) -> Option<JsonView>;

pub open spec fn opt_json(o: Option<Json>) -> Option<JsonView> {
    match o {
        Some(j) => Some(j@),
        None => None,
    }
}

/// Trusted: serde_json's `Value` converted to `Json` one for one (each variant
/// to its namesake, a number to its `as_u64`, array and map entries in order).
/// Nothing is claimed of the result: the claim is made by the parsers below.
#[verifier::external_body]
fn json_from_value(v: serde_json::Value) -> Json {
    match v {
        serde_json::Value::Null => Json::Null,
        serde_json::Value::Bool(b) => Json::Bool(b),
        serde_json::Value::Number(n) => Json::Num(n.as_u64()),
        serde_json::Value::String(s) => Json::Str(s),
        serde_json::Value::Array(a) => Json::Arr(a.into_iter().map(json_from_value).collect()),
        serde_json::Value::Object(o) => Json::Obj(o.into_iter().map(|(k, x)| (k, json_from_value(x))).collect()),
    }
}

/// Trusted: `serde_json::from_str::<serde_json::Value>`, an error mapped to
/// `None`. The contract names the parse as a function of the text alone.
#[verifier::external_body]
pub fn parse_json(text: &str) -> (out: Option<Json>)
    ensures
        opt_json(out) == json_of(text@),
{
    serde_json::from_str::<serde_json::Value>(text).ok().map(json_from_value)
}

/// Trusted: `serde_json::from_slice::<serde_json::Value>`, an error mapped to
/// `None`. The contract names the parse as a function of the bytes alone.
#[verifier::external_body]
pub fn parse_json_bytes(bytes: &[u8]) -> (out: Option<Json>)
    ensures
        opt_json(out) == json_of_bytes(bytes@),
{
    serde_json::from_slice::<serde_json::Value>(bytes).ok().map(json_from_value)
}

/// The index of the first entry with key `k`.
pub open spec fn first_key(es: Seq<(Seq<char>, JsonView)>, k: Seq<char>) -> Option<int>
    decreases es.len(),
{
    if es.len() == 0 {
        None
    } else {
        match first_key(es.drop_last(), k) {
            Some(i) => Some(i),
            None => if es.last().0 == k {
                Some(es.len() - 1)
            } else {
                None
            },
        }
    }
}

/// `value.get(k)`: the entry of an object with key `k` (`None` for a missing
/// key or a value that is not an object).
pub open spec fn jget(v: JsonView, k: Seq<char>) -> Option<JsonView> {
    match v {
        JsonView::Obj(es) => match first_key(es, k) {
            Some(i) => Some(es[i].1),
            None => None,
        },
        _ => None,
    }
}

/// `as_str`, on an optional value.
pub open spec fn jstr(v: Option<JsonView>) -> Option<Seq<char>> {
    match v {
        Some(JsonView::Str(s)) => Some(s),
        _ => None,
    }
}

/// `as_u64`, on an optional value.
pub open spec fn ju64(v: Option<JsonView>) -> Option<u64> {
    match v {
        Some(JsonView::Num(n)) => n,
        _ => None,
    }
}

/// `as_bool`, on an optional value.
pub open spec fn jbool(v: Option<JsonView>) -> Option<bool> {
    match v {
        Some(JsonView::Bool(b)) => Some(b),
        _ => None,
    }
}

proof fn lemma_first_key_prefix(es: Seq<(Seq<char>, JsonView)>, k: Seq<char>, j: int)
    requires
        0 <= j <= es.len(),
        first_key(es.take(j), k) is Some,
    ensures
        first_key(es, k) == first_key(es.take(j), k),
    decreases es.len() - j,
{
    if j < es.len() {
        assert(es.take(j + 1).drop_last() =~= es.take(j));
        lemma_first_key_prefix(es, k, j + 1);
    } else {
        assert(es.take(j) =~= es);
    }
}

proof fn lemma_first_key_none(es: Seq<(Seq<char>, JsonView)>, k: Seq<char>, j: int)
    requires
        0 <= j < es.len(),
        first_key(es.take(j), k) is None,
        es[j].0 != k,
    ensures
        first_key(es.take(j + 1), k) is None,
{
    assert(es.take(j + 1).drop_last() =~= es.take(j));
}

/// The entries of an object as plain values.
pub open spec fn entries_view(v: Seq<(String, Json)>) -> Seq<(Seq<char>, JsonView)> {
    Seq::new(
        v.len(),
        |i: int|
            if 0 <= i < v.len() {
                (v[i].0@, json_view(v[i].1))
            } else {
                (Seq::empty(), JsonView::Null)
            },
    )
}

/// `value.get(key)`.
pub fn get<'a>(v: &'a Json, key: &str) -> (out: Option<&'a Json>)
    ensures
        match out {
            Some(r) => jget(v@, key@) == Some(r@),
            None => jget(v@, key@) is None,
        },
{
    match v {
        Json::Obj(es) => {
            let ghost ents = entries_view(es@);
            proof {
                let x = match v@ {
                    JsonView::Obj(x) => x,
                    _ => Seq::empty(),
                };
                assert(x =~= ents);
                assert(v@ == JsonView::Obj(ents));
                assert(ents.take(0) =~= Seq::<(Seq<char>, JsonView)>::empty());
            }
            let mut i: usize = 0;
            while i < es.len()
                invariant
                    i <= es.len(),
                    ents == entries_view(es@),
                    v@ == JsonView::Obj(ents),
                    first_key(ents.take(i as int), key@) is None,
                decreases es.len() - i,
            {
                proof {
                    assert(ents[i as int] == (es@[i as int].0@, json_view(es@[i as int].1)));
                }
                if str_eq(es[i].0.as_str(), key) {
                    proof {
                        assert(ents.take(i + 1).drop_last() =~= ents.take(i as int));
                        assert(first_key(ents.take(i + 1), key@) == Some(i as int));
                        lemma_first_key_prefix(ents, key@, i + 1);
                    }
                    return Some(&es[i].1);
                }
                proof {
                    lemma_first_key_none(ents, key@, i as int);
                }
                i = i + 1;
            }
            proof {
                assert(ents.take(es.len() as int) =~= ents);
            }
            None
        },
        _ => None,
    }
}

pub open spec fn opt_ref(o: Option<&Json>) -> Option<JsonView> {
    match o {
        Some(j) => Some(j@),
        None => None,
    }
}

/// `as_str`, copied out.
pub fn str_of(o: Option<&Json>) -> (out: Option<String>)
    ensures
        ostr(out) == jstr(opt_ref(o)),
{
    match o {
        Some(Json::Str(s)) => Some(s.clone()),
        _ => None,
    }
}

/// `as_u64`.
pub fn u64_of(o: Option<&Json>) -> (out: Option<u64>)
    ensures
        out == ju64(opt_ref(o)),
{
    match o {
        Some(Json::Num(n)) => *n,
        _ => None,
    }
}

/// `as_bool`.
pub fn bool_of(o: Option<&Json>) -> (out: Option<bool>)
    ensures
        out == jbool(opt_ref(o)),
{
    match o {
        Some(Json::Bool(b)) => Some(*b),
        _ => None,
    }
}

} // verus!
