use panrelease::parser::json::JsonString;
use panrelease::parser::{CodecError, FormatCodec};

#[test]
fn test_json_extraction() {
    let input = JsonString::new(r#"{"hola":"world", "hey":{"hello":"world"}, "goodbye":"world."}"#);
    let extracted = input
        .extract("hey.hello")
        .expect("Error extracting value")
        .expect("Value not found");

    assert_eq!("world", extracted);
}

#[test]
fn extract_nested_string_leaf() {
    let doc = JsonString::new(r#"{"a":{"b":"v"}}"#);
    let got = doc.extract("a.b").unwrap().unwrap();
    assert_eq!("v", got);
}

#[test]
fn replace_touches_only_the_leaf_span() {
    let mut doc = JsonString::new(r#"{"a":{"b":"v"}}"#);
    doc.replace("a.b", "v2").unwrap();
    assert_eq!(r#"{"a":{"b":"v2"}}"#, doc.to_string());
}

#[test]
fn replace_with_same_value_is_identity() {
    let original = r#"{"a":{"b":"v"}, "c":[1, true, null]}"#;
    let mut doc = JsonString::new(original);
    let current = doc.extract("a.b").unwrap().unwrap();
    doc.replace("a.b", &current).unwrap();
    assert_eq!(original, doc.to_string());
}

#[test]
fn round_trip_replace_is_span_scoped() {
    let mut doc =
        JsonString::new(r#"{"hola":"world","hey":{"hello":"world"},"goodbye":"world."}"#);
    let got = doc.extract("hey.hello").unwrap().unwrap();
    assert_eq!("world", got);
    doc.replace("hey.hello", "mars").unwrap();
    assert_eq!(
        r#"{"hola":"world","hey":{"hello":"mars"},"goodbye":"world."}"#,
        doc.to_string()
    );
}

#[test]
fn intermediate_non_object_fails_without_panic() {
    let doc = JsonString::new(r#"{"a":{"b":"x"}}"#);
    let err = doc.extract("a.b.c").unwrap_err();
    assert!(matches!(err, CodecError::NotAnObject));
    assert_eq!("Parsed value is not an object", err.message());
}

#[test]
fn missing_key_reports_the_key() {
    let doc = JsonString::new(r#"{"a":"x"}"#);
    let err = doc.extract("b").unwrap_err();
    match err {
        CodecError::KeyNotFound(k) => assert_eq!("b", k),
        other => panic!("unexpected error {:?}", other),
    }
}

#[test]
fn non_string_leaves_cannot_be_extracted() {
    let doc = JsonString::new(r#"{"n":1, "b":true, "z":null, "arr":[1], "obj":{}}"#);
    for path in ["n", "b", "z", "arr", "obj"] {
        let err = doc.extract(path).unwrap_err();
        assert!(matches!(err, CodecError::LeafNotFound(_)), "path {path}");
    }
}

#[test]
fn non_string_leaf_cannot_be_replaced_and_buffer_is_untouched() {
    let original = r#"{"n":1}"#;
    let mut doc = JsonString::new(original);
    assert!(doc.replace("n", "2").is_err());
    assert_eq!(original, doc.to_string());
}

#[test]
fn malformed_document_fails_with_parse_error() {
    let doc = JsonString::new(r#"{"a":"#);
    let err = doc.extract("a").unwrap_err();
    assert!(matches!(err, CodecError::Parse(_)));
    assert_eq!("Error during parsing", err.message());
}

#[test]
fn supported_escapes_stay_raw_in_the_extracted_text() {
    let doc = JsonString::new(r#"{"a":"x\ny \" z\\"}"#);
    let got = doc.extract("a").unwrap().unwrap();
    assert_eq!(r#"x\ny \" z\\"#, got);
}

#[test]
fn unsupported_escape_is_a_parse_error() {
    let doc = JsonString::new(r#"{"a":"x\ty"}"#);
    let err = doc.extract("a").unwrap_err();
    assert!(matches!(err, CodecError::Parse(_)));
}

#[test]
fn duplicate_keys_resolve_to_the_last_value() {
    let doc = JsonString::new(r#"{"a":"one", "a":"two"}"#);
    let got = doc.extract("a").unwrap().unwrap();
    assert_eq!("two", got);
}

#[test]
fn whitespace_and_numbers_are_skipped_correctly() {
    let doc = JsonString::new(
        "{ \"x\" : -1.5e3 ,\n\t\"y\" : [ \"a\" , 2 , false ] ,\r\n \"s\" : \"ok\" }",
    );
    let got = doc.extract("s").unwrap().unwrap();
    assert_eq!("ok", got);
}

#[test]
fn replace_after_replace_follows_the_current_buffer() {
    let mut doc = JsonString::new(r#"{"v":"1.0.0"}"#);
    doc.replace("v", "2.0.0-longer").unwrap();
    doc.replace("v", "3").unwrap();
    assert_eq!(r#"{"v":"3"}"#, doc.to_string());
}
