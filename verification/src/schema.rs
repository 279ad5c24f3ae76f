//! The JSON schemas by which tools describe their parameters.

use vstd::prelude::*;

use crate::json;
use crate::json::{Json, JsonView};

verus! {

/// A parameter of the JSON type `kind`.
pub open spec fn typed_view(kind: Seq<char>, description: Seq<char>) -> JsonView {
    JsonView::Object(
        seq![
            ("type"@, JsonView::Text(kind)),
            ("description"@, JsonView::Text(description)),
        ],
    )
}

/// Texts as a JSON array.
pub open spec fn texts_view(items: Seq<Seq<char>>) -> JsonView {
    JsonView::Array(Seq::new(items.len(), |i: int| JsonView::Text(items[i])))
}

/// A text parameter that is one of `choices`.
pub open spec fn choice_view(choices: Seq<Seq<char>>, description: Seq<char>) -> JsonView {
    JsonView::Object(
        seq![
            ("type"@, JsonView::Text("string"@)),
            ("enum"@, texts_view(choices)),
            ("description"@, JsonView::Text(description)),
        ],
    )
}

/// A parameter that is a list of texts.
pub open spec fn text_list_view(description: Seq<char>) -> JsonView {
    JsonView::Object(
        seq![
            ("type"@, JsonView::Text("array"@)),
            ("items"@, JsonView::Object(seq![("type"@, JsonView::Text("string"@))])),
            ("description"@, JsonView::Text(description)),
        ],
    )
}

/// An object with the given properties.
pub open spec fn object_schema(properties: Seq<(Seq<char>, JsonView)>) -> JsonView {
    JsonView::Object(
        seq![
            ("type"@, JsonView::Text("object"@)),
            ("properties"@, JsonView::Object(properties)),
        ],
    )
}

/// An object with the given properties, of which some are required.
pub open spec fn object_schema_requiring(
    properties: Seq<(Seq<char>, JsonView)>,
    required: Seq<Seq<char>>,
) -> JsonView {
    JsonView::Object(
        seq![
            ("type"@, JsonView::Text("object"@)),
            ("properties"@, JsonView::Object(properties)),
            ("required"@, texts_view(required)),
        ],
    )
}

/// The contents of borrowed texts.
pub open spec fn strs_view(items: Seq<&str>) -> Seq<Seq<char>> {
    Seq::new(items.len(), |i: int| items[i]@)
}

/// Texts as a JSON array.
pub fn texts(items: &[&str]) -> (r: Json)
    ensures
        r@ == texts_view(strs_view(items@)),
{
    let mut out: Vec<Json> = Vec::new();
    let mut i: usize = 0;
    while i < items.len()
        invariant
            i <= items.len(),
            out.len() == i,
            forall|j: int| 0 <= j < i ==> (#[trigger] out[j])@ == JsonView::Text(items[j]@),
        decreases items.len() - i,
    {
        out.push(json::text_value(items[i]));
        i += 1;
    }
    let r = Json::Array(out);
    assert(r@->Array_0 =~= texts_view(strs_view(items@))->Array_0);
    r
}

/// A parameter of the JSON type `kind`.
pub fn typed(kind: &str, description: &str) -> (r: Json)
    ensures
        r@ == typed_view(kind@, description@),
{
    let mut fields: Vec<(String, Json)> = Vec::new();
    json::push_field(&mut fields, "type", json::text_value(kind));
    json::push_field(&mut fields, "description", json::text_value(description));
    assert(json::fields_view(fields@) =~= typed_view(kind@, description@)->Object_0);
    json::object(fields)
}

/// A text parameter that is one of `choices`.
pub fn choice(choices: &[&str], description: &str) -> (r: Json)
    ensures
        r@ == choice_view(strs_view(choices@), description@),
{
    let mut fields: Vec<(String, Json)> = Vec::new();
    json::push_field(&mut fields, "type", json::text_value("string"));
    json::push_field(&mut fields, "enum", texts(choices));
    json::push_field(&mut fields, "description", json::text_value(description));
    assert(json::fields_view(fields@) =~= choice_view(
        strs_view(choices@),
        description@,
    )->Object_0);
    json::object(fields)
}

/// A parameter that is a list of texts.
pub fn text_list(description: &str) -> (r: Json)
    ensures
        r@ == text_list_view(description@),
{
    let mut item: Vec<(String, Json)> = Vec::new();
    json::push_field(&mut item, "type", json::text_value("string"));
    assert(json::fields_view(item@) =~= seq![("type"@, JsonView::Text("string"@))]);
    let mut fields: Vec<(String, Json)> = Vec::new();
    json::push_field(&mut fields, "type", json::text_value("array"));
    json::push_field(&mut fields, "items", json::object(item));
    json::push_field(&mut fields, "description", json::text_value(description));
    assert(json::fields_view(fields@) =~= text_list_view(description@)->Object_0);
    json::object(fields)
}

/// An object with the given properties.
pub fn object(properties: Vec<(String, Json)>) -> (r: Json)
    ensures
        r@ == object_schema(json::fields_view(properties@)),
{
    let ghost names = json::fields_view(properties@);
    let mut fields: Vec<(String, Json)> = Vec::new();
    json::push_field(&mut fields, "type", json::text_value("object"));
    json::push_field(&mut fields, "properties", json::object(properties));
    assert(json::fields_view(fields@) =~= object_schema(names)->Object_0);
    json::object(fields)
}

/// An object with the given properties, of which some are required.
pub fn object_requiring(properties: Vec<(String, Json)>, required: &[&str]) -> (r: Json)
    ensures
        r@ == object_schema_requiring(
            json::fields_view(properties@),
            strs_view(required@),
        ),
{
    let ghost names = json::fields_view(properties@);
    let mut fields: Vec<(String, Json)> = Vec::new();
    json::push_field(&mut fields, "type", json::text_value("object"));
    json::push_field(&mut fields, "properties", json::object(properties));
    json::push_field(&mut fields, "required", texts(required));
    assert(json::fields_view(fields@) =~= object_schema_requiring(
        names,
        strs_view(required@),
    )->Object_0);
    json::object(fields)
}

/// A schema of an object says that it is one, names the properties, and, where some are
/// required, which.
pub proof fn law_what_a_schema_says(
    properties: Seq<(Seq<char>, JsonView)>,
    required: Seq<Seq<char>>,
)
    ensures
        json::get_field(object_schema(properties), "type"@) == Some(JsonView::Text("object"@)),
        json::get_field(object_schema(properties), "properties"@) == Some(
            JsonView::Object(properties),
        ),
        json::get_field(object_schema(properties), "required"@) is None,
        json::get_field(object_schema_requiring(properties, required), "type"@) == Some(
            JsonView::Text("object"@),
        ),
        json::get_field(object_schema_requiring(properties, required), "properties"@) == Some(
            JsonView::Object(properties),
        ),
        json::get_field(object_schema_requiring(properties, required), "required"@) == Some(
            JsonView::Array(Seq::new(required.len(), |i: int| JsonView::Text(required[i]))),
        ),
{
    reveal_strlit("type");
    reveal_strlit("properties");
    reveal_strlit("required");
    assert("type"@.len() == 4 && "properties"@.len() == 10 && "required"@.len() == 8);
    let plain = object_schema(properties)->Object_0;
    let requiring = object_schema_requiring(properties, required)->Object_0;
    json::law_the_first_field_of_a_name_counts(plain, "properties"@, 1);
    json::law_the_first_field_of_a_name_counts(plain, "required"@, 2);
    json::law_the_first_field_of_a_name_counts(requiring, "properties"@, 1);
    json::law_the_first_field_of_a_name_counts(requiring, "required"@, 2);
}

/// A parameter says its type and what it is for, and one with choices names them all.
pub proof fn law_what_a_parameter_says(
    kind: Seq<char>,
    choices: Seq<Seq<char>>,
    description: Seq<char>,
)
    ensures
        json::get_field(typed_view(kind, description), "type"@) == Some(JsonView::Text(kind)),
        json::get_field(typed_view(kind, description), "description"@) == Some(
            JsonView::Text(description),
        ),
        json::get_field(choice_view(choices, description), "type"@) == Some(
            JsonView::Text("string"@),
        ),
        json::get_field(choice_view(choices, description), "enum"@) == Some(
            JsonView::Array(Seq::new(choices.len(), |i: int| JsonView::Text(choices[i]))),
        ),
        json::get_field(choice_view(choices, description), "description"@) == Some(
            JsonView::Text(description),
        ),
        json::get_field(text_list_view(description), "type"@) == Some(JsonView::Text("array"@)),
        json::get_field(text_list_view(description), "description"@) == Some(
            JsonView::Text(description),
        ),
{
    reveal_strlit("type");
    reveal_strlit("enum");
    reveal_strlit("items");
    reveal_strlit("description");
    assert("type"@.len() == 4 && "enum"@.len() == 4 && "items"@.len() == 5);
    assert("description"@.len() == 11 && "type"@[0] != "enum"@[0]);
    let typed = typed_view(kind, description)->Object_0;
    let choice = choice_view(choices, description)->Object_0;
    let list = text_list_view(description)->Object_0;
    json::law_the_first_field_of_a_name_counts(typed, "description"@, 1);
    json::law_the_first_field_of_a_name_counts(choice, "enum"@, 1);
    json::law_the_first_field_of_a_name_counts(choice, "description"@, 2);
    json::law_the_first_field_of_a_name_counts(list, "description"@, 2);
}

} // verus!
