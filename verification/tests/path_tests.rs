use pulse::domain::json::JsonValue;
use pulse::eval::path::{parse_path, resolve_path, PathError, Segment};

fn ident(s: &str) -> Segment {
    Segment::Ident(s.to_string())
}

fn key(s: &str) -> Segment {
    Segment::Key(s.to_string())
}

#[test]
fn grammar_table() {
    assert!(parse_path("$").unwrap().is_empty());
    assert_eq!(parse_path("status").unwrap(), vec![ident("status")]);
    assert_eq!(parse_path("$.status").unwrap(), vec![ident("status")]);
    assert_eq!(
        parse_path("$.data.healthy").unwrap(),
        vec![ident("data"), ident("healthy")]
    );
    assert_eq!(
        parse_path("items.0.id").unwrap(),
        vec![ident("items"), Segment::Index(0), ident("id")]
    );
    assert_eq!(
        parse_path("items[0].id").unwrap(),
        parse_path("items.0.id").unwrap()
    );
    assert_eq!(parse_path("[\"error-code\"]").unwrap(), vec![key("error-code")]);
    assert_eq!(parse_path("$[\"error-code\"]").unwrap(), vec![key("error-code")]);
    assert_eq!(
        parse_path("errors.length").unwrap(),
        vec![ident("errors"), ident("length")]
    );
    assert_eq!(
        parse_path("items[\"0\"].id").unwrap(),
        vec![ident("items"), key("0"), ident("id")]
    );
    assert_eq!(parse_path("error-code"), Err(PathError::Invalid));
}

#[test]
fn reject_bare_hyphenated_and_junk() {
    for path in [
        "error-code",
        "content-type",
        "",
        "$.",
        "$status",
        ".status",
        "items.",
        "items[]",
        "foo.bar-baz",
        "$$",
    ] {
        assert_eq!(parse_path(path), Err(PathError::Invalid), "{path}");
    }
}

fn text(s: &str) -> JsonValue {
    JsonValue::Text(s.to_string())
}

fn num(s: &str) -> JsonValue {
    JsonValue::Number(s.to_string())
}

fn obj(members: Vec<(&str, JsonValue)>) -> JsonValue {
    JsonValue::Object(members.into_iter().map(|(k, v)| (k.to_string(), v)).collect())
}

fn length_root() -> JsonValue {
    obj(vec![
        ("errors", JsonValue::Array(vec![text("a"), text("b")])),
        ("name", text("ab")),
        ("meta", obj(vec![("length", num("9"))])),
        ("length", num("3")),
    ])
}

#[test]
fn length_accessor_vs_field() {
    let root = length_root();
    assert_eq!(resolve_path(&root, "errors.length").unwrap(), num("2"));
    assert_eq!(resolve_path(&root, "name.length").unwrap(), num("2"));
    assert_eq!(resolve_path(&root, "meta.length").unwrap(), num("9"));
    assert_eq!(resolve_path(&root, "meta[\"length\"]").unwrap(), num("9"));
    assert_eq!(resolve_path(&root, "length").unwrap(), num("3"));
    assert_eq!(
        resolve_path(&root, "errors[\"length\"]").unwrap_err(),
        PathError::Missing
    );
}

fn dollar_root() -> JsonValue {
    obj(vec![
        ("status", text("ok")),
        ("items", JsonValue::Array(vec![obj(vec![("id", num("7"))])])),
        ("error-code", num("42")),
    ])
}

#[test]
fn dollar_is_root_and_indexes_match() {
    let root = dollar_root();
    assert_eq!(resolve_path(&root, "$").unwrap(), dollar_root());
    assert_eq!(resolve_path(&root, "status").unwrap(), text("ok"));
    assert_eq!(resolve_path(&root, "$.status").unwrap(), text("ok"));
    assert_eq!(resolve_path(&root, "items.0.id").unwrap(), num("7"));
    assert_eq!(resolve_path(&root, "items[0].id").unwrap(), num("7"));
    assert_eq!(resolve_path(&root, "[\"error-code\"]").unwrap(), num("42"));
    assert_eq!(resolve_path(&root, "$[\"error-code\"]").unwrap(), num("42"));
    assert_eq!(resolve_path(&root, "error-code").unwrap_err(), PathError::Invalid);
    assert_eq!(resolve_path(&root, "items.9.id").unwrap_err(), PathError::Missing);
    let unicode = obj(vec![("café", num("1"))]);
    assert_eq!(resolve_path(&unicode, "[\"café\"]").unwrap(), num("1"));
}

#[test]
fn missing_member_is_missing_and_junk_is_invalid() {
    let root = dollar_root();
    assert_eq!(resolve_path(&root, "$$").unwrap_err(), PathError::Invalid);
    assert_eq!(resolve_path(&root, "nope").unwrap_err(), PathError::Missing);
    assert_eq!(resolve_path(&root, "status.length").unwrap(), num("2"));
}

#[test]
fn numeric_segment_reads_object_member_with_that_name() {
    let root = obj(vec![("items", obj(vec![("0", num("1"))]))]);
    assert_eq!(resolve_path(&root, "items.0").unwrap(), num("1"));
    assert_eq!(resolve_path(&root, "items[\"0\"]").unwrap(), num("1"));
}
