use jcode_tools::json;
use jcode_tools::json::Json;

fn sample() -> Json {
    Json::Object(vec![
        ("a".to_string(), Json::Unsigned(1)),
        ("b".to_string(), json::text_value("two")),
        ("c".to_string(), Json::Array(vec![Json::Null, Json::Bool(true)])),
        (
            "d".to_string(),
            Json::Real(serde_json::Number::from_f64(1.5).unwrap()),
        ),
    ])
}

#[test]
fn a_field_that_was_set_is_read_back() {
    let value = sample().with_field("b", Json::Null);
    assert_eq!(value.get("b"), Some(&Json::Null));
    assert_eq!(value.get("a"), Some(&Json::Unsigned(1)));
    let value = value.with_field("new", json::text_value("x"));
    assert_eq!(value.get("new").unwrap().as_str(), Some("x"));
    assert_eq!(value.get("c"), sample().get("c"));
}

#[test]
fn other_values_have_no_fields() {
    assert_eq!(Json::Unsigned(3).get("a"), None);
    assert_eq!(
        Json::Array(vec![]).with_field("a", Json::Null),
        Json::Array(vec![])
    );
    assert_eq!(sample().get("missing"), None);
    assert_eq!(Json::Null.as_str(), None);
}

#[test]
fn a_copy_is_equal() {
    assert_eq!(sample().duplicate(), sample());
}
