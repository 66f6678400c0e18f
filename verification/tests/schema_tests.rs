use kalosm::schema::{key_is_unsupported, str_eq, strip_unsupported, JsonValue};

fn obj(fields: Vec<(&str, JsonValue)>) -> JsonValue {
    JsonValue::Object(
        fields
            .into_iter()
            .map(|(k, v)| (k.to_string(), v))
            .collect(),
    )
}

fn field_keys(v: &JsonValue) -> Vec<String> {
    match v {
        JsonValue::Object(fields) => fields.iter().map(|f| f.0.clone()).collect(),
        _ => panic!("expected an object"),
    }
}

#[test]
fn unsupported_properties_are_removed_at_every_depth() {
    let schema = obj(vec![
        ("type", JsonValue::Text("object".to_string())),
        ("minLength", JsonValue::Number("3".to_string())),
        (
            "properties",
            obj(vec![
                (
                    "primes",
                    obj(vec![
                        ("type", JsonValue::Text("array".to_string())),
                        ("minItems", JsonValue::Number("5".to_string())),
                        ("maxItems", JsonValue::Number("5".to_string())),
                    ]),
                ),
            ]),
        ),
    ]);
    let cleaned = strip_unsupported(&schema);
    assert_eq!(field_keys(&cleaned), vec!["type", "properties"]);
    match &cleaned {
        JsonValue::Object(fields) => match &fields[1].1 {
            JsonValue::Object(props) => match &props[0].1 {
                JsonValue::Object(inner) => {
                    let keys: Vec<String> = inner.iter().map(|f| f.0.clone()).collect();
                    assert_eq!(keys, vec!["type"]);
                }
                _ => panic!("expected an object"),
            },
            _ => panic!("expected an object"),
        },
        _ => panic!("expected an object"),
    }
}

#[test]
fn arrays_are_cleaned_elementwise() {
    let v = JsonValue::Array(vec![
        obj(vec![("pattern", JsonValue::Text("x".to_string()))]),
        JsonValue::Bool(true),
    ]);
    let cleaned = strip_unsupported(&v);
    match cleaned {
        JsonValue::Array(els) => {
            assert_eq!(field_keys(&els[0]), Vec::<String>::new());
            assert!(matches!(els[1], JsonValue::Bool(true)));
        }
        _ => panic!("expected an array"),
    }
}

#[test]
fn scalars_and_numbers_pass_through() {
    let v = obj(vec![
        ("enum", JsonValue::Array(vec![JsonValue::Number("1.5".to_string())])),
        ("default", JsonValue::Null),
    ]);
    let cleaned = strip_unsupported(&v);
    match &cleaned {
        JsonValue::Object(fields) => {
            assert_eq!(fields.len(), 2);
            match &fields[0].1 {
                JsonValue::Array(els) => match &els[0] {
                    JsonValue::Number(n) => assert_eq!(n, "1.5"),
                    _ => panic!("expected a number"),
                },
                _ => panic!("expected an array"),
            }
        }
        _ => panic!("expected an object"),
    }
}

#[test]
fn key_checks_match_the_property_list() {
    assert!(key_is_unsupported("minLength"));
    assert!(key_is_unsupported("uniqueItems"));
    assert!(!key_is_unsupported("type"));
    assert!(!key_is_unsupported("minlength"));
    assert!(str_eq("abc", "abc"));
    assert!(!str_eq("abc", "abd"));
    assert!(!str_eq("abc", "ab"));
}
