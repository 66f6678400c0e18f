//! JSON schema cleanup for structured chat requests.
//!
//! An OpenAI-compatible endpoint accepts only part of the JSON-schema
//! vocabulary; before a schema is sent, every unsupported property is removed
//! from it, at every nesting depth. The JSON tree is modelled here with plain
//! values, so the cleanup itself is fully specified.

use vstd::prelude::*;

verus! {

/// A JSON value, as far as schema handling needs it. A number is kept as its
/// literal text, so no value is approximated.
pub enum JsonValue {
    /// `null`.
    Null,
    /// A boolean.
    Bool(bool),
    /// A number, as its literal text.
    Number(String),
    /// A string.
    Text(String),
    /// An array.
    Array(Vec<JsonValue>),
    /// An object, as its fields in order.
    Object(Vec<(String, JsonValue)>),
}

/// The model of a JSON value: the same tree over character sequences.
#[verifier::ext_equal]
pub ghost enum JsonModel {
    /// `null`.
    Null,
    /// A boolean.
    Bool(bool),
    /// A number, as its literal text.
    Number(Seq<char>),
    /// A string.
    Text(Seq<char>),
    /// An array.
    Array(Seq<JsonModel>),
    /// An object, as its fields in order.
    Object(Seq<(Seq<char>, JsonModel)>),
}

/// The models of a list of values.
pub open spec fn json_list_view(els: Seq<JsonValue>) -> Seq<JsonModel>
    decreases els,
    via json_list_view_decreases
{
    // The guard keeps the recursion inside the sequence, where the elements
    // are smaller than the whole list.
    Seq::new(
        els.len(),
        |i: int|
            if 0 <= i < els.len() {
                json_view(&els[i])
            } else {
                JsonModel::Null
            },
    )
}

#[via_fn]
proof fn json_list_view_decreases(els: Seq<JsonValue>) {
    assert forall|i: int| 0 <= i < els.len() implies decreases_to!(els => els[i]) by {
        assert(decreases_to!(els => els[i]));
    }
}

/// The models of an object's fields.
pub open spec fn json_fields_view(fields: Seq<(String, JsonValue)>) -> Seq<(Seq<char>, JsonModel)>
    decreases fields,
    via json_fields_view_decreases
{
    Seq::new(
        fields.len(),
        |i: int|
            if 0 <= i < fields.len() {
                (fields[i].0@, json_view(&fields[i].1))
            } else {
                (Seq::empty(), JsonModel::Null)
            },
    )
}

#[via_fn]
proof fn json_fields_view_decreases(fields: Seq<(String, JsonValue)>) {
    assert forall|i: int| 0 <= i < fields.len() implies decreases_to!(fields => fields[i].1) by {
        assert(decreases_to!(fields => fields[i]));
        assert(decreases_to!(fields[i] => fields[i].1));
    }
}

/// The model of a value: the same tree, with every string as its character
/// sequence.
pub open spec fn json_view(v: &JsonValue) -> JsonModel
    decreases v,
    via json_view_decreases
{
    match v {
        JsonValue::Null => JsonModel::Null,
        JsonValue::Bool(b) => JsonModel::Bool(*b),
        JsonValue::Number(n) => JsonModel::Number(n@),
        JsonValue::Text(t) => JsonModel::Text(t@),
        JsonValue::Array(els) => JsonModel::Array(json_list_view(els@)),
        JsonValue::Object(fields) => JsonModel::Object(json_fields_view(fields@)),
    }
}

#[via_fn]
proof fn json_view_decreases(v: &JsonValue) {
    match v {
        JsonValue::Array(els) => {
            assert(decreases_to!(v => els));
            assert(decreases_to!(els => els@));
        },
        JsonValue::Object(fields) => {
            assert(decreases_to!(v => fields));
            assert(decreases_to!(fields => fields@));
        },
        _ => {},
    }
}

impl View for JsonValue {
    type V = JsonModel;

    open spec fn view(&self) -> JsonModel {
        json_view(self)
    }
}

/// The schema properties that the endpoint does not accept.
pub open spec fn is_unsupported_key(k: Seq<char>) -> bool {
    ||| k == "minLength"@
    ||| k == "maxLength"@
    ||| k == "pattern"@
    ||| k == "format"@
    ||| k == "minimum"@
    ||| k == "maximum"@
    ||| k == "multipleOf"@
    ||| k == "patternProperties"@
    ||| k == "unevaluatedProperties"@
    ||| k == "propertyNames"@
    ||| k == "minProperties"@
    ||| k == "maxProperties"@
    ||| k == "unevaluatedItems"@
    ||| k == "contains"@
    ||| k == "minContains"@
    ||| k == "maxContains"@
    ||| k == "minItems"@
    ||| k == "maxItems"@
    ||| k == "uniqueItems"@
}

/// The predicate that keeps an object field: its key is supported.
pub open spec fn field_kept() -> spec_fn((Seq<char>, JsonModel)) -> bool {
    |f: (Seq<char>, JsonModel)| !is_unsupported_key(f.0)
}

/// A list of JSON trees, each cleaned.
pub open spec fn strip_list(els: Seq<JsonModel>) -> Seq<JsonModel>
    decreases els,
    via strip_list_decreases
{
    Seq::new(
        els.len(),
        |i: int|
            if 0 <= i < els.len() {
                strip_spec(els[i])
            } else {
                JsonModel::Null
            },
    )
}

#[via_fn]
proof fn strip_list_decreases(els: Seq<JsonModel>) {
    assert forall|i: int| 0 <= i < els.len() implies decreases_to!(els => els[i]) by {
        assert(decreases_to!(els => els[i]));
    }
}

/// An object's fields with every value cleaned, keys untouched.
pub open spec fn strip_fields(fields: Seq<(Seq<char>, JsonModel)>) -> Seq<(Seq<char>, JsonModel)>
    decreases fields,
    via strip_fields_decreases
{
    Seq::new(
        fields.len(),
        |i: int|
            if 0 <= i < fields.len() {
                (fields[i].0, strip_spec(fields[i].1))
            } else {
                (Seq::empty(), JsonModel::Null)
            },
    )
}

#[via_fn]
proof fn strip_fields_decreases(fields: Seq<(Seq<char>, JsonModel)>) {
    assert forall|i: int| 0 <= i < fields.len() implies decreases_to!(fields => fields[i].1) by {
        assert(decreases_to!(fields => fields[i]));
        assert(decreases_to!(fields[i] => fields[i].1));
    }
}

/// A JSON tree with every unsupported property removed, at every depth:
/// scalars stay as they are; arrays keep every element, cleaned; objects
/// first have every value cleaned, then drop the unsupported properties.
pub open spec fn strip_spec(v: JsonModel) -> JsonModel
    decreases v,
    via strip_spec_decreases
{
    match v {
        JsonModel::Null => v,
        JsonModel::Bool(_) => v,
        JsonModel::Number(_) => v,
        JsonModel::Text(_) => v,
        JsonModel::Array(els) => JsonModel::Array(strip_list(els)),
        JsonModel::Object(fields) => JsonModel::Object(strip_fields(fields).filter(field_kept())),
    }
}

#[via_fn]
proof fn strip_spec_decreases(v: JsonModel) {
    match v {
        JsonModel::Array(els) => {
            assert(decreases_to!(v => els));
        },
        JsonModel::Object(fields) => {
            assert(decreases_to!(v => fields));
        },
        _ => {},
    }
}

/// Whether two string slices hold the same characters.
pub fn str_eq(a: &str, b: &str) -> (r: bool)
    ensures
        r == (a@ == b@),
{
    let an = a.unicode_len();
    let bn = b.unicode_len();
    if an != bn {
        return false;
    }
    let mut i: usize = 0;
    while i < an
        invariant
            an == a@.len(),
            an == b@.len(),
            i <= an,
            forall|j: int| 0 <= j < i ==> a@[j] == b@[j],
        decreases an - i,
    {
        if a.get_char(i) != b.get_char(i) {
            return false;
        }
        i += 1;
    }
    proof {
        assert(a@ =~= b@);
    }
    true
}

/// Whether this property name is one the endpoint does not accept.
pub fn key_is_unsupported(k: &str) -> (r: bool)
    ensures
        r == is_unsupported_key(k@),
{
    str_eq(k, "minLength") || str_eq(k, "maxLength") || str_eq(k, "pattern") || str_eq(k, "format")
        || str_eq(k, "minimum") || str_eq(k, "maximum") || str_eq(k, "multipleOf") || str_eq(
        k,
        "patternProperties",
    ) || str_eq(k, "unevaluatedProperties") || str_eq(k, "propertyNames") || str_eq(
        k,
        "minProperties",
    ) || str_eq(k, "maxProperties") || str_eq(k, "unevaluatedItems") || str_eq(k, "contains")
        || str_eq(k, "minContains") || str_eq(k, "maxContains") || str_eq(k, "minItems") || str_eq(
        k,
        "maxItems",
    ) || str_eq(k, "uniqueItems")
}

/// Remove every unsupported schema property from the tree, at every depth.
#[verifier::loop_isolation(false)]
pub fn strip_unsupported(v: &JsonValue) -> (r: JsonValue)
    ensures
        r@ == strip_spec(v@),
    decreases v,
{
    match v {
        JsonValue::Null => JsonValue::Null,
        JsonValue::Bool(b) => JsonValue::Bool(*b),
        JsonValue::Number(n) => JsonValue::Number(n.clone()),
        JsonValue::Text(t) => JsonValue::Text(t.clone()),
        JsonValue::Array(els) => {
            let mut out: Vec<JsonValue> = Vec::new();
            let n = els.len();
            let mut i: usize = 0;
            while i < n
                invariant
                    i <= n,
                    out@.len() == i,
                    forall|j: int| 0 <= j < i ==> (#[trigger] out@[j])@ == strip_spec(els@[j]@),
                decreases n - i,
            {
                proof {
                    assert(decreases_to!(v => els));
                    assert(decreases_to!(els => els@));
                    assert(decreases_to!(els@ => els@[i as int]));
                }
                let stripped = strip_unsupported(&els[i]);
                out.push(stripped);
                i += 1;
            }
            let r = JsonValue::Array(out);
            proof {
                assert(json_list_view(r->Array_0@) =~= strip_list(json_list_view(els@)));
                assert(r@ =~= strip_spec(v@));
            }
            r
        },
        JsonValue::Object(fields) => {
            let mut out: Vec<(String, JsonValue)> = Vec::new();
            let n = fields.len();
            let mut i: usize = 0;
            let ghost pred = field_kept();
            while i < n
                invariant
                    i <= n,
                    json_fields_view(out@) == strip_fields(json_fields_view(fields@).take(
                        i as int,
                    )).filter(pred),
                decreases n - i,
            {
                proof {
                    assert(decreases_to!(v => fields));
                    assert(decreases_to!(fields => fields@));
                    assert(decreases_to!(fields@ => fields@[i as int]));
                    assert(decreases_to!(fields@[i as int] => fields@[i as int].1));
                }
                let ghost prev = strip_fields(json_fields_view(fields@).take(i as int));
                let ghost old_out = out@;
                let keep = !key_is_unsupported(fields[i].0.as_str());
                if keep {
                    let stripped = strip_unsupported(&fields[i].1);
                    let key = fields[i].0.clone();
                    out.push((key, stripped));
                }
                i += 1;
                proof {
                    let cur = strip_fields(json_fields_view(fields@).take(i as int));
                    let x = (fields@[i - 1].0@, strip_spec(fields@[i - 1].1@));
                    assert(cur =~= prev.push(x));
                    reveal(Seq::filter);
                    assert(cur.drop_last() =~= prev);
                    assert(cur.last() == x);
                    if keep {
                        assert(json_fields_view(out@) =~= json_fields_view(old_out).push(x));
                        assert(json_fields_view(out@) =~= cur.filter(pred));
                    } else {
                        assert(json_fields_view(out@) =~= cur.filter(pred));
                    }
                }
            }
            let r = JsonValue::Object(out);
            proof {
                assert(json_fields_view(fields@).take(n as int) =~= json_fields_view(fields@));
                assert(json_fields_view(r->Object_0@) == json_fields_view(out@));
                assert(r@ =~= strip_spec(v@));
            }
            r
        },
    }
}

} // verus!
