//! JSON values.
//!
//! [`Json`] holds a JSON document as plain data. Numbers that are integers are
//! held as integers; any other number is carried as the `serde_json` number it
//! came in as. The view of a value, [`JsonView`], is what contracts speak of.

use vstd::prelude::*;

use crate::text;

verus! {

/// `serde_json::Number`, carried through and never looked into.
#[verifier::external_type_specification]
#[verifier::external_body]
pub struct ExNumber(serde_json::Number);

/// The derived `Clone` of `serde_json::Number` gives the same number again.
pub assume_specification[ <serde_json::Number as Clone>::clone ](n: &serde_json::Number) -> (r:
    serde_json::Number)
    ensures
        r == *n,
;

/// A JSON value.
#[derive(Debug, PartialEq)]
pub enum Json {
    Null,
    Bool(bool),
    /// An integer that is not negative.
    Unsigned(u64),
    /// A negative integer.
    Negative(i64),
    /// A number that is no integer.
    Real(serde_json::Number),
    Text(String),
    Array(Vec<Json>),
    /// The fields of an object, each with its name.
    Object(Vec<(String, Json)>),
}

/// What a [`Json`] value means.
pub enum JsonView {
    Null,
    Bool(bool),
    Unsigned(u64),
    Negative(i64),
    Real(serde_json::Number),
    Text(Seq<char>),
    Array(Seq<JsonView>),
    Object(Seq<(Seq<char>, JsonView)>),
}

/// The meaning of `value`.
pub open spec fn json_view(value: Json) -> JsonView
    decreases value,
{
    match value {
        Json::Null => JsonView::Null,
        Json::Bool(b) => JsonView::Bool(b),
        Json::Unsigned(n) => JsonView::Unsigned(n),
        Json::Negative(n) => JsonView::Negative(n),
        Json::Real(n) => JsonView::Real(n),
        Json::Text(s) => JsonView::Text(s@),
        Json::Array(items) => JsonView::Array(
            Seq::new(
                items@.len(),
                |i: int|
                    if 0 <= i < items@.len() {
                        json_view(items@[i])
                    } else {
                        JsonView::Null
                    },
            ),
        ),
        Json::Object(fields) => JsonView::Object(
            Seq::new(
                fields@.len(),
                |i: int|
                    if 0 <= i < fields@.len() {
                        (fields@[i].0@, json_view(fields@[i].1))
                    } else {
                        (Seq::empty(), JsonView::Null)
                    },
            ),
        ),
    }
}

impl View for Json {
    type V = JsonView;

    open spec fn view(&self) -> JsonView {
        json_view(*self)
    }
}

/// The meaning of the fields of an object.
pub open spec fn fields_view(fields: Seq<(String, Json)>) -> Seq<(Seq<char>, JsonView)> {
    Seq::new(fields.len(), |i: int| (fields[i].0@, fields[i].1@))
}

/// The field named `key` among `fields`: the first of that name.
pub open spec fn field_of(fields: Seq<(Seq<char>, JsonView)>, key: Seq<char>) -> Option<JsonView>
    decreases fields.len(),
{
    if fields.len() == 0 {
        None
    } else if fields[0].0 == key {
        Some(fields[0].1)
    } else {
        field_of(fields.drop_first(), key)
    }
}

/// The field named `key` of an object; nothing in any other value.
pub open spec fn get_field(value: JsonView, key: Seq<char>) -> Option<JsonView> {
    match value {
        JsonView::Object(fields) => field_of(fields, key),
        _ => None,
    }
}

/// The text of a field that holds text.
pub open spec fn text_field(value: JsonView, key: Seq<char>) -> Option<Seq<char>> {
    match get_field(value, key) {
        Some(JsonView::Text(t)) => Some(t),
        _ => None,
    }
}

/// `fields` with the field `key` holding `value`: in its place where there is
/// such a field, else behind the others.
pub open spec fn put_field(
    fields: Seq<(Seq<char>, JsonView)>,
    key: Seq<char>,
    value: JsonView,
) -> Seq<(Seq<char>, JsonView)>
    decreases fields.len(),
{
    if fields.len() == 0 {
        seq![(key, value)]
    } else if fields[0].0 == key {
        seq![(key, value)] + fields.drop_first()
    } else {
        seq![fields[0]] + put_field(fields.drop_first(), key, value)
    }
}

/// An object with the field `key` holding `value`; any other value as it is.
pub open spec fn set_field(object: JsonView, key: Seq<char>, value: JsonView) -> JsonView {
    match object {
        JsonView::Object(fields) => JsonView::Object(put_field(fields, key, value)),
        _ => object,
    }
}

/// The text that `serde_json::to_string` writes for a value, where it succeeds.
pub uninterp spec fn json_text(value: JsonView) -> Option<Seq<char>>;

/// `serde_json::Value`, made here only to be handed to the encoder.
#[verifier::external_type_specification]
#[verifier::external_body]
pub struct ExValue(serde_json::Value);

/// Turns a value into a `serde_json::Value`, variant by variant. Nothing is
/// promised of the result, which Verus cannot look into.
#[verifier::external_body]
fn to_value(value: &Json) -> serde_json::Value {
    match value {
        Json::Null => serde_json::Value::Null,
        Json::Bool(b) => serde_json::Value::Bool(*b),
        Json::Unsigned(n) => serde_json::Value::from(*n),
        Json::Negative(n) => serde_json::Value::from(*n),
        Json::Real(n) => serde_json::Value::Number(n.clone()),
        Json::Text(s) => serde_json::Value::String(s.clone()),
        Json::Array(items) => serde_json::Value::Array(items.iter().map(to_value).collect()),
        Json::Object(fields) => serde_json::Value::Object(
            fields.iter().map(|f| (f.0.clone(), to_value(&f.1))).collect(),
        ),
    }
}

/// Calls `serde_json::to_string` on the value turned into a
/// `serde_json::Value`. The text is a function of the value alone, and is named
/// [`json_text`]; how it spells the value out is not stated.
#[verifier::external_body]
pub(crate) fn encode(value: &Json) -> (r: Option<String>)
    ensures
        text::opt_text(r) == json_text(value@),
{
    serde_json::to_string(&to_value(value)).ok()
}

/// Appends a field to the fields of an object under construction.
pub fn push_field(fields: &mut Vec<(String, Json)>, key: &str, value: Json)
    ensures
        fields_view(final(fields)@) == fields_view(old(fields)@).push((key@, value@)),
{
    let ghost before = fields_view(fields@);
    fields.push((key.to_owned(), value));
    assert(fields_view(fields@) =~= before.push((key@, value@)));
}

/// The object with the given fields.
pub fn object(fields: Vec<(String, Json)>) -> (r: Json)
    ensures
        r@ == JsonView::Object(fields_view(fields@)),
{
    let r = Json::Object(fields);
    assert(r@->Object_0 =~= fields_view(fields@));
    r
}

/// The JSON string `s`.
pub fn text_value(s: &str) -> (r: Json)
    ensures
        r@ == JsonView::Text(s@),
{
    Json::Text(s.to_owned())
}

/// The meaning of an optional string as JSON.
pub open spec fn optional_text_view(s: Option<Seq<char>>) -> JsonView {
    match s {
        Some(t) => JsonView::Text(t),
        None => JsonView::Null,
    }
}

impl Json {
    /// The field named `key` of an object.
    pub fn get(&self, key: &str) -> (r: Option<&Json>)
        ensures
            match r {
                Some(value) => get_field(self@, key@) == Some(value@),
                None => get_field(self@, key@) is None,
            },
    {
        match self {
            Json::Object(fields) => {
                let ghost all = fields_view(fields@);
                assert(self@->Object_0 =~= all);
                let mut i: usize = 0;
                assert(all.skip(0) =~= all);
                while i < fields.len()
                    invariant
                        i <= fields.len(),
                        all == fields_view(fields@),
                        self@ == JsonView::Object(all),
                        field_of(all, key@) == field_of(all.skip(i as int), key@),
                    decreases fields.len() - i,
                {
                    if text::same(fields[i].0.as_str(), key) {
                        return Some(&fields[i].1);
                    }
                    assert(all.skip(i as int).drop_first() =~= all.skip(i + 1));
                    i += 1;
                }
                None
            },
            _ => None,
        }
    }

    /// The text of a JSON string.
    pub fn as_str(&self) -> (r: Option<&str>)
        ensures
            text::opt_str(r) == match self@ {
                JsonView::Text(t) => Some(t),
                _ => None,
            },
    {
        match self {
            Json::Text(s) => Some(s.as_str()),
            _ => None,
        }
    }

    /// The value with the field `key` of the object replaced or added. A value
    /// that is no object stays as it is.
    pub fn with_field(self, key: &str, value: Json) -> (r: Json)
        ensures
            r@ == set_field(self@, key@, value@),
    {
        match self {
            Json::Object(fields) => {
                let ghost all = fields_view(fields@);
                let mut fields = fields;
                assert(self@->Object_0 =~= all);
                let mut i: usize = 0;
                assert(all.skip(0) =~= all);
                assert(all.take(0) + put_field(all, key@, value@) =~= put_field(all, key@, value@));
                while i < fields.len()
                    invariant
                        i <= fields.len(),
                        all == fields_view(fields@),
                        self@ == JsonView::Object(all),
                        put_field(all, key@, value@) == all.take(i as int) + put_field(
                            all.skip(i as int),
                            key@,
                            value@,
                        ),
                    decreases fields.len() - i,
                {
                    let ghost tail = all.skip(i as int);
                    assert(tail.drop_first() =~= all.skip(i + 1));
                    if text::same(fields[i].0.as_str(), key) {
                        fields.set(i, (key.to_owned(), value));
                        proof {
                            let now = fields_view(fields@);
                            assert(now =~= all.take(i as int) + (seq![(key@, value@)]
                                + tail.drop_first()));
                        }
                        return object(fields);
                    }
                    assert(all.take(i as int) + (seq![tail[0]] + put_field(
                        tail.drop_first(),
                        key@,
                        value@,
                    )) =~= all.take(i + 1) + put_field(all.skip(i + 1), key@, value@));
                    i += 1;
                }
                assert(all.take(i as int) =~= all);
                push_field(&mut fields, key, value);
                assert(fields_view(fields@) =~= all + seq![(key@, value@)]);
                object(fields)
            },
            other => other,
        }
    }

    /// A copy of the value.
    pub fn duplicate(&self) -> (r: Json)
        ensures
            r@ == self@,
        decreases self,
    {
        match self {
            Json::Null => Json::Null,
            Json::Bool(b) => Json::Bool(*b),
            Json::Unsigned(n) => Json::Unsigned(*n),
            Json::Negative(n) => Json::Negative(*n),
            Json::Real(n) => Json::Real(n.clone()),
            Json::Text(s) => Json::Text(s.clone()),
            Json::Array(items) => {
                let mut out: Vec<Json> = Vec::new();
                let mut i: usize = 0;
                while i < items.len()
                    invariant
                        *self == Json::Array(*items),
                        i <= items.len(),
                        out.len() == i,
                        forall|j: int| 0 <= j < i ==> (#[trigger] out[j])@ == items[j]@,
                    decreases items.len() - i,
                {
                    assert(decreases_to!(self => self->Array_0));
                    assert(decreases_to!(self->Array_0 => self->Array_0[i as int]));
                    out.push(items[i].duplicate());
                    i += 1;
                }
                let r = Json::Array(out);
                assert(r@->Array_0 =~= self@->Array_0);
                r
            },
            Json::Object(fields) => {
                let mut out: Vec<(String, Json)> = Vec::new();
                let mut i: usize = 0;
                while i < fields.len()
                    invariant
                        *self == Json::Object(*fields),
                        i <= fields.len(),
                        out.len() == i,
                        forall|j: int|
                            0 <= j < i ==> (#[trigger] out[j]).0@ == fields[j].0@ && out[j].1@
                                == fields[j].1@,
                    decreases fields.len() - i,
                {
                    assert(decreases_to!(self => self->Object_0));
                    assert(decreases_to!(self->Object_0 => self->Object_0[i as int]));
                    assert(decreases_to!(self->Object_0[i as int] => self->Object_0[i as int].1));
                    out.push((fields[i].0.clone(), fields[i].1.duplicate()));
                    i += 1;
                }
                let r = Json::Object(out);
                assert(r@->Object_0 =~= self@->Object_0);
                r
            },
        }
    }
}

impl Clone for Json {
    /// A copy of the value.
    fn clone(&self) -> (r: Json)
        ensures
            r@ == self@,
    {
        self.duplicate()
    }
}

/// Reading a field that was just set gives back what was set.
pub proof fn law_get_after_set(object: JsonView, key: Seq<char>, value: JsonView)
    requires
        object is Object,
    ensures
        get_field(set_field(object, key, value), key) == Some(value),
{
    lemma_field_of_put(object->Object_0, key, value, key);
}

/// Setting a field leaves the fields of other names as they are.
pub proof fn law_set_keeps_other_fields(
    object: JsonView,
    key: Seq<char>,
    value: JsonView,
    other: Seq<char>,
)
    requires
        key != other,
    ensures
        get_field(set_field(object, key, value), other) == get_field(object, other),
{
    if object is Object {
        lemma_field_of_put(object->Object_0, key, value, other);
    }
}

proof fn lemma_field_of_put(
    fields: Seq<(Seq<char>, JsonView)>,
    key: Seq<char>,
    value: JsonView,
    wanted: Seq<char>,
)
    ensures
        field_of(put_field(fields, key, value), wanted) == if wanted == key {
            Some(value)
        } else {
            field_of(fields, wanted)
        },
    decreases fields.len(),
{
    let after = put_field(fields, key, value);
    if fields.len() == 0 {
        assert(after.drop_first() =~= fields);
    } else if fields[0].0 == key {
        assert(after.drop_first() =~= fields.drop_first());
    } else {
        lemma_field_of_put(fields.drop_first(), key, value, wanted);
        assert(after.drop_first() =~= put_field(fields.drop_first(), key, value));
    }
}

/// A field of an object is the first one of that name, and only an object has fields.
pub proof fn law_the_first_field_of_a_name_counts(
    fields: Seq<(Seq<char>, JsonView)>,
    key: Seq<char>,
    i: int,
)
    requires
        forall|j: int| 0 <= j < i && j < fields.len() ==> (#[trigger] fields[j]).0 != key,
    ensures
        0 <= i < fields.len() && fields[i].0 == key ==> get_field(JsonView::Object(fields), key)
            == Some(fields[i].1),
        i >= fields.len() ==> get_field(JsonView::Object(fields), key) is None,
    decreases fields.len(),
{
    if fields.len() > 0 && i > 0 {
        let rest = fields.drop_first();
        assert(fields[0].0 != key);
        assert forall|j: int| 0 <= j < i - 1 && j < rest.len() implies (#[trigger] rest[j]).0
            != key by {
            assert(rest[j] == fields[j + 1]);
        }
        law_the_first_field_of_a_name_counts(rest, key, i - 1);
    }
}

/// Setting a field replaces the first one of that name in its place, or comes last
/// where there is none; all other fields stay where they are. What is no object stays
/// as it is.
pub proof fn law_setting_a_field_keeps_the_order(
    fields: Seq<(Seq<char>, JsonView)>,
    key: Seq<char>,
    value: JsonView,
    i: int,
)
    requires
        0 <= i <= fields.len(),
        forall|j: int| 0 <= j < i ==> (#[trigger] fields[j]).0 != key,
        i < fields.len() ==> fields[i].0 == key,
    ensures
        i < fields.len() ==> set_field(JsonView::Object(fields), key, value) == JsonView::Object(
            fields.take(i) + seq![(key, value)] + fields.skip(i + 1),
        ),
        i == fields.len() ==> set_field(JsonView::Object(fields), key, value) == JsonView::Object(
            fields + seq![(key, value)],
        ),
    decreases fields.len(),
{
    let wanted = if i < fields.len() {
        fields.take(i) + seq![(key, value)] + fields.skip(i + 1)
    } else {
        fields + seq![(key, value)]
    };
    if fields.len() == 0 {
        assert(put_field(fields, key, value) =~= wanted);
    } else if i == 0 {
        assert(fields.drop_first() =~= fields.skip(1));
        assert(put_field(fields, key, value) =~= wanted);
    } else {
        let rest = fields.drop_first();
        assert(fields[0].0 != key);
        assert forall|j: int| 0 <= j < i - 1 implies (#[trigger] rest[j]).0 != key by {
            assert(rest[j] == fields[j + 1]);
        }
        law_setting_a_field_keeps_the_order(rest, key, value, i - 1);
        assert(fields.take(i) =~= seq![fields[0]] + rest.take(i - 1));
        assert(put_field(fields, key, value) =~= wanted);
    }
}

/// A field of two lists of fields, one behind the other, is that of the first one, or
/// else that of the second.
pub proof fn lemma_field_of_both(
    a: Seq<(Seq<char>, JsonView)>,
    b: Seq<(Seq<char>, JsonView)>,
    key: Seq<char>,
)
    ensures
        field_of(a + b, key) == if field_of(a, key) is Some {
            field_of(a, key)
        } else {
            field_of(b, key)
        },
    decreases a.len(),
{
    if a.len() == 0 {
        assert(a + b =~= b);
    } else {
        lemma_field_of_both(a.drop_first(), b, key);
        assert((a + b).drop_first() =~= a.drop_first() + b);
    }
}

} // verus!
