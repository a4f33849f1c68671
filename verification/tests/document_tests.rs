use flapjack::document::{clone_json, split_by_type, Json};

fn s(t: &str) -> Json {
    Json::Str(t.to_string())
}

fn num(n: u64) -> Json {
    Json::Number(serde_json::Number::from(n))
}

fn obj(members: Vec<(&str, Json)>) -> Json {
    Json::Object(members.into_iter().map(|(k, v)| (k.to_string(), v)).collect())
}

fn member<'a>(j: &'a Json, key: &str) -> Option<&'a Json> {
    match j {
        Json::Object(ms) => ms.iter().find(|(k, _)| k == key).map(|(_, v)| v),
        _ => None,
    }
}

#[test]
fn split_string_goes_to_both() {
    let (sp, f) = split_by_type(&s("hello"));
    assert_eq!(sp, s("hello"));
    assert_eq!(f, s("hello"));
}

#[test]
fn split_number_goes_to_filter_only() {
    let (sp, f) = split_by_type(&num(42));
    assert_eq!(sp, Json::Null);
    assert_eq!(f, num(42));
}

#[test]
fn split_bool_goes_to_filter_only() {
    let (sp, f) = split_by_type(&Json::Bool(true));
    assert_eq!(sp, Json::Null);
    assert_eq!(f, Json::Bool(true));
}

#[test]
fn split_null_gives_both_null() {
    let (sp, f) = split_by_type(&Json::Null);
    assert_eq!(sp, Json::Null);
    assert_eq!(f, Json::Null);
}

#[test]
fn split_string_array_joins_for_search() {
    let v = Json::Array(vec![s("red"), s("blue"), s("green")]);
    let (sp, f) = split_by_type(&v);
    assert_eq!(sp, s("red blue green"));
    assert_eq!(f, Json::Array(vec![s("red"), s("blue"), s("green")]));
}

#[test]
fn split_numeric_array_no_search() {
    let v = Json::Array(vec![num(1), num(2), num(3)]);
    let (sp, _f) = split_by_type(&v);
    assert_eq!(sp, Json::Null);
}

#[test]
fn split_object_recurses() {
    let v = obj(vec![("title", s("Laptop")), ("price", num(999))]);
    let (sp, f) = split_by_type(&v);
    assert_eq!(member(&sp, "title"), Some(&s("Laptop")));
    assert_eq!(member(&f, "title"), Some(&s("Laptop")));
    assert!(member(&sp, "price").is_none());
    assert_eq!(member(&f, "price"), Some(&num(999)));
}

#[test]
fn split_object_skips_null_fields() {
    let v = obj(vec![("title", s("Laptop")), ("removed", Json::Null)]);
    let (sp, f) = split_by_type(&v);
    assert!(member(&sp, "removed").is_none());
    assert!(member(&f, "removed").is_none());
}

// -- further cases --

#[test]
fn split_mixed_array_searches_only_its_texts() {
    let v = Json::Array(vec![s("a"), num(1), Json::Null, s("b")]);
    let (sp, f) = split_by_type(&v);
    assert_eq!(sp, s("a b"));
    assert_eq!(f, clone_json(&v));
}

#[test]
fn split_nested_objects() {
    let v = obj(vec![
        ("brand", obj(vec![("name", s("Acme")), ("founded", num(1990))])),
        ("stock", obj(vec![("count", num(3))])),
        ("tags", Json::Array(vec![s("x")])),
    ]);
    let (sp, f) = split_by_type(&v);
    assert_eq!(
        sp,
        obj(vec![
            ("brand", obj(vec![("name", s("Acme"))])),
            ("stock", obj(vec![])),
            ("tags", s("x")),
        ])
    );
    assert_eq!(f, clone_json(&v));
}

#[test]
fn json_term_paths() {
    use_path(b"title\0sgaming", Some(5));
    use_path(b"a\0b\0slaptop", Some(3));
    use_path(b"\0s", Some(0));
    use_path(b"price\0i", None);
    use_path(b"s", None);
    use_path(b"", None);
}

fn use_path(term: &[u8], expected: Option<usize>) {
    assert_eq!(flapjack::document::json_text_path_end(term), expected);
}
