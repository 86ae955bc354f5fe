//! Writing a value at a place that a path names.

use rlsd::json_path::write_nested_json_no_io;
use serde_json::Value;

fn json(text: &str) -> Value {
    serde_json::from_str(text).unwrap()
}

fn write(document: &str, path: &str, value: &str) -> Option<Value> {
    write_nested_json_no_io(json(document), path, json(value))
}

#[test]
fn a_value_at_a_nested_key_path() {
    assert_eq!(
        write(
            r#"{"key":[{"nestedKey":"oldValue"}]}"#,
            "key[0].nestedKey",
            r#""newValue""#
        ),
        Some(json(r#"{"key":[{"nestedKey":"newValue"}]}"#))
    );
}

#[test]
fn a_value_under_a_name() {
    assert_eq!(
        write(r#"{"a":1,"b":2}"#, "b", "3"),
        Some(json(r#"{"a":1,"b":3}"#))
    );
    assert_eq!(
        write(r#"{"a":1}"#, "b", r#"{"c":true}"#),
        Some(json(r#"{"a":1,"b":{"c":true}}"#))
    );
    assert_eq!(write("null", "a", "1"), Some(json(r#"{"a":1}"#)));
    assert_eq!(write(r#"{}"#, "", "7"), Some(json("7")));
}

#[test]
fn a_value_under_names_joined_by_dots() {
    assert_eq!(
        write(r#"{"a":{"b":{"c":1,"d":2}},"e":3}"#, "a.b.c", "9"),
        Some(json(r#"{"a":{"b":{"c":9,"d":2}},"e":3}"#))
    );
    // Objects that the document lacks are made on the way.
    assert_eq!(
        write(r#"{"e":3}"#, "a.b.c", "9"),
        Some(json(r#"{"a":{"b":{"c":9}},"e":3}"#))
    );
    assert_eq!(
        write(r#"{"a":null}"#, "a.b", "9"),
        Some(json(r#"{"a":{"b":9}}"#))
    );
}

#[test]
fn a_value_in_an_array() {
    assert_eq!(
        write(r#"[10,20,30]"#, "[1]", "21"),
        Some(json(r#"[10,21,30]"#))
    );
    assert_eq!(
        write(r#"[10,20,30]"#, "[0]", "11"),
        Some(json(r#"[11,20,30]"#))
    );
    assert_eq!(
        write(r#"[10,20,30]"#, "[2]", "31"),
        Some(json(r#"[10,20,31]"#))
    );
    assert_eq!(
        write(r#"[{"x":1},{"x":2}]"#, "[1].x", "5"),
        Some(json(r#"[{"x":1},{"x":5}]"#))
    );
    assert_eq!(
        write(r#"{"rows":[[1,2],[3,4]]}"#, "rows[1][0]", "0"),
        Some(json(r#"{"rows":[[1,2],[0,4]]}"#))
    );
    assert_eq!(
        write(r#"{"list":[0,1,2,3,4,5,6,7,8,9,10,11]}"#, "list[11]", "true"),
        Some(json(r#"{"list":[0,1,2,3,4,5,6,7,8,9,10,true]}"#))
    );
}

#[test]
fn an_index_beyond_the_array_adds_the_value() {
    assert_eq!(
        write(r#"[10,20]"#, "[2]", "30"),
        Some(json(r#"[10,20,30]"#))
    );
    assert_eq!(write(r#"[]"#, "[0]", "1"), Some(json(r#"[1]"#)));
    assert_eq!(
        write(r#"{"a":[]}"#, "a[7].name", r#""x""#),
        Some(json(r#"{"a":["x"]}"#))
    );
    assert_eq!(
        write(r#"[1]"#, "[99999999999999999999999999]", "2"),
        Some(json(r#"[1,2]"#))
    );
}

#[test]
fn a_path_that_does_not_fit_the_document() {
    // A name meets what is no object.
    assert_eq!(write("5", "a", "1"), None);
    assert_eq!(write(r#"{"a":[1]}"#, "a.b", "1"), None);
    assert_eq!(write(r#"{"a":"text"}"#, "a.b", "1"), None);
    // An index meets what is no array.
    assert_eq!(write(r#"{"a":1}"#, "[0]", "1"), None);
    assert_eq!(write(r#"{"a":{}}"#, "a[0]", "1"), None);
    assert_eq!(write(r#"{}"#, "a[0]", "1"), None);
    assert_eq!(write("null", "[0]", "1"), None);
    // Brackets without an index in them.
    assert_eq!(write(r#"[1]"#, "[]", "1"), None);
    assert_eq!(write(r#"[1]"#, "[x]", "1"), None);
    assert_eq!(write(r#"[1]"#, "[0", "1"), None);
    assert_eq!(write(r#"[1]"#, "[", "1"), None);
    assert_eq!(write(r#"[1]"#, "[0x]", "1"), None);
}

#[test]
fn names_are_taken_as_they_are() {
    assert_eq!(
        write(r#"{}"#, "Gerät.größe", "1"),
        Some(json(r#"{"Gerät":{"größe":1}}"#))
    );
    assert_eq!(write(r#"{}"#, ".a", "1"), Some(json(r#"{"":{"a":1}}"#)));
    assert_eq!(write(r#"{}"#, "a.", "1"), Some(json(r#"{"a":1}"#)));
}
