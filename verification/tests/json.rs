use vastline::json::{copy_value, get, nested, object_insert, object_remove, str_at, JsonValue};

fn text(s: &str) -> JsonValue {
    JsonValue::Text(s.to_string())
}

fn obj(entries: Vec<(&str, JsonValue)>) -> JsonValue {
    JsonValue::Object(entries.into_iter().map(|(k, v)| (k.to_string(), v)).collect())
}

#[test]
fn get_reads_object_fields_only() {
    let v = obj(vec![("a", text("x")), ("b", JsonValue::Null)]);
    assert_eq!(get(&v, "a"), Some(&text("x")));
    assert_eq!(get(&v, "b"), Some(&JsonValue::Null));
    assert_eq!(get(&v, "c"), None);
    assert_eq!(get(&JsonValue::Array(vec![text("a")]), "a"), None);
    assert_eq!(get(&text("a"), "a"), None);
}

#[test]
fn nested_walks_and_skips_null() {
    let v = obj(vec![("a", obj(vec![("b", text("deep")), ("n", JsonValue::Null)]))]);
    assert_eq!(nested(&v, &["a", "b"]), Some(&text("deep")));
    assert_eq!(nested(&v, &["a", "n"]), None);
    assert_eq!(nested(&v, &["a", "zz"]), None);
    assert_eq!(nested(&v, &[]), Some(&v));
    assert_eq!(nested(&JsonValue::Null, &[]), None);
}

#[test]
fn str_at_only_for_strings() {
    let v = obj(vec![("s", text("hi")), ("n", JsonValue::Number("3".into()))]);
    assert_eq!(str_at(&v, &["s"]), Some("hi"));
    assert_eq!(str_at(&v, &["n"]), None);
    assert_eq!(str_at(&v, &["missing"]), None);
}

#[test]
fn insert_replaces_in_place_or_appends() {
    let mut e = vec![("a".to_string(), text("1")), ("b".to_string(), text("2"))];
    object_insert(&mut e, "a", text("9"));
    assert_eq!(e, vec![("a".to_string(), text("9")), ("b".to_string(), text("2"))]);
    object_insert(&mut e, "c", text("3"));
    assert_eq!(e[2], ("c".to_string(), text("3")));
    assert_eq!(e.len(), 3);
}

#[test]
fn remove_keeps_order() {
    let mut e = vec![
        ("a".to_string(), text("1")),
        ("b".to_string(), text("2")),
        ("c".to_string(), text("3")),
    ];
    object_remove(&mut e, "b");
    assert_eq!(e, vec![("a".to_string(), text("1")), ("c".to_string(), text("3"))]);
    object_remove(&mut e, "zz");
    assert_eq!(e.len(), 2);
}

#[test]
fn copies_are_equal() {
    let v = obj(vec![
        ("a", JsonValue::Array(vec![JsonValue::Bool(true), JsonValue::Number("1.5".into())])),
        ("b", obj(vec![("c", JsonValue::Null)])),
    ]);
    assert_eq!(copy_value(&v), v);
}
