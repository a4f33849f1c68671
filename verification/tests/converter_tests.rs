use flapjack::converter::{
    document_fields, document_id, document_parts, facet_paths, json_to_btree, json_to_tantivy_doc,
    json_value_to_owned, put_json_member, tantivy_parts, text_facet_paths, DocumentConverter,
};
use tantivy::schema::OwnedValue;
use flapjack::document::Json;
use flapjack::error::FlapjackError;
use flapjack::search_schema::build_index_schema;
use flapjack::settings::IndexSettings;

fn s(t: &str) -> Json {
    Json::Str(t.to_string())
}

fn num(n: u64) -> Json {
    Json::Number(serde_json::Number::from(n))
}

fn members(ms: Vec<(&str, Json)>) -> Vec<(String, Json)> {
    ms.into_iter().map(|(k, v)| (k.to_string(), v)).collect()
}

fn obj(ms: Vec<(&str, Json)>) -> Json {
    Json::Object(members(ms))
}

fn names(v: &[&str]) -> Vec<String> {
    v.iter().map(|x| x.to_string()).collect()
}

#[test]
fn document_id_prefers_underscore_id() {
    let d = obj(vec![("objectID", s("b")), ("_id", s("a"))]);
    assert_eq!(document_id(&d), Ok("a".to_string()));
}

#[test]
fn document_id_falls_back_to_object_id() {
    let d = obj(vec![("objectID", s("b")), ("title", s("x"))]);
    assert_eq!(document_id(&d), Ok("b".to_string()));
}

#[test]
fn document_id_that_is_not_text_is_missing() {
    let d = obj(vec![("_id", num(7)), ("objectID", s("b"))]);
    assert_eq!(document_id(&d), Err(FlapjackError::MissingField("objectID".to_string())));
}

#[test]
fn document_id_absent_is_missing() {
    let d = obj(vec![("title", s("x"))]);
    assert_eq!(document_id(&d), Err(FlapjackError::MissingField("objectID".to_string())));
}

#[test]
fn document_id_of_non_object_is_invalid() {
    assert_eq!(
        document_id(&s("x")),
        Err(FlapjackError::InvalidDocument("Expected JSON object".to_string()))
    );
    assert_eq!(
        document_id(&Json::Array(vec![])),
        Err(FlapjackError::InvalidDocument("Expected JSON object".to_string()))
    );
}

#[test]
fn document_fields_drop_the_id_members() {
    let ms = members(vec![("_id", s("a")), ("title", s("x")), ("objectID", s("b")), ("n", num(1))]);
    assert_eq!(document_fields(&ms), members(vec![("title", s("x")), ("n", num(1))]));
}

#[test]
fn document_parts_split_members_and_add_object_id() {
    let d = obj(vec![
        ("objectID", s("1")),
        ("title", s("Red")),
        ("price", num(10)),
        ("tags", Json::Array(vec![s("a"), num(2), s("b")])),
    ]);
    let p = document_parts(&d).ok().unwrap();
    assert_eq!(p.id, "1");
    assert_eq!(p.search, obj(vec![("title", s("Red")), ("tags", s("a b"))]));
    assert_eq!(
        p.filter,
        obj(vec![
            ("title", s("Red")),
            ("price", num(10)),
            ("tags", Json::Array(vec![s("a"), num(2), s("b")])),
            ("objectID", s("1")),
        ])
    );
    assert_eq!(p.facets, names(&["/title/Red"]));
}

#[test]
fn document_parts_refuse_as_document_id_does() {
    assert!(matches!(
        document_parts(&num(3)),
        Err(FlapjackError::InvalidDocument(m)) if m == "Expected JSON object"
    ));
    assert!(matches!(
        document_parts(&obj(vec![("title", s("x"))])),
        Err(FlapjackError::MissingField(m)) if m == "objectID"
    ));
}

#[test]
fn text_facet_paths_of_text_members_only() {
    let ms = members(vec![("brand", s("Acme")), ("price", num(3)), ("color", s("red"))]);
    assert_eq!(text_facet_paths(&ms), names(&["/brand/Acme", "/color/red"]));
}

#[test]
fn facet_paths_only_for_faceted_members() {
    let ms = members(vec![("brand", s("Acme")), ("color", s("red")), ("size", num(4))]);
    assert_eq!(facet_paths(&ms, &names(&["brand", "size"])), names(&["/brand/Acme"]));
}

#[test]
fn facet_paths_parent_of_dotted_attribute_is_faceted() {
    let ms = members(vec![("categories", s("Books")), ("cat", s("x"))]);
    assert_eq!(facet_paths(&ms, &names(&["categories.lvl0"])), names(&["/categories/Books"]));
}

#[test]
fn facet_paths_of_array_text_items() {
    let ms = members(vec![("tags", Json::Array(vec![s("a"), num(1), s("b"), Json::Null]))]);
    assert_eq!(facet_paths(&ms, &names(&["tags"])), names(&["/tags/a", "/tags/b"]));
}

#[test]
fn facet_paths_cut_long_texts_to_1000_bytes() {
    let long = "x".repeat(1500);
    let ms = members(vec![("d", s(&long))]);
    let r = facet_paths(&ms, &names(&["d"]));
    assert_eq!(r, vec![format!("/d/{}", "x".repeat(1000))]);
    let wide = "é".repeat(600);
    let ms = members(vec![("d", s(&wide))]);
    let r = facet_paths(&ms, &names(&["d"]));
    assert_eq!(r, vec![format!("/d/{}", "é".repeat(500))]);
    let short = "y".repeat(1000);
    let ms = members(vec![("d", s(&short))]);
    assert_eq!(facet_paths(&ms, &names(&["d"])), vec![format!("/d/{}", short)]);
}

#[test]
fn json_to_tantivy_doc_holds_id_objects_and_facets() {
    let schema = build_index_schema();
    let f = |n: &str| schema.get_field(n).unwrap();
    let d = obj(vec![("_id", s("9")), ("title", s("Red")), ("brand", s("Acme")), ("price", num(5))]);
    let doc = json_to_tantivy_doc(&d, f("_id"), f("_json_search"), f("_json_filter"), f("_json_exact"), f("_facets"))
        .ok()
        .unwrap();
    assert_eq!(doc.len(), 1 + 3 + 2);
}

#[test]
fn json_to_tantivy_doc_refuses_without_id() {
    let schema = build_index_schema();
    let f = |n: &str| schema.get_field(n).unwrap();
    let d = obj(vec![("title", s("Red"))]);
    let r = json_to_tantivy_doc(&d, f("_id"), f("_json_search"), f("_json_filter"), f("_json_exact"), f("_facets"));
    assert!(matches!(r, Err(FlapjackError::MissingField(m)) if m == "objectID"));
}

#[test]
fn converter_accepts_the_index_schema() {
    let schema = build_index_schema();
    assert!(DocumentConverter::new(&schema).is_ok());
}

#[test]
fn converter_names_the_first_missing_field() {
    let mut b = tantivy::schema::Schema::builder();
    b.add_text_field("_id", tantivy::schema::STRING);
    b.add_facet_field("_facets", tantivy::schema::FacetOptions::default());
    let schema = b.build();
    assert!(matches!(
        DocumentConverter::new(&schema),
        Err(FlapjackError::FieldNotFound(m)) if m == "_json_search"
    ));
}

#[test]
fn to_tantivy_adds_facets_of_faceted_members() {
    let schema = build_index_schema();
    let conv = DocumentConverter::new(&schema).ok().unwrap();
    let ms = members(vec![("brand", s("Acme")), ("color", s("red")), ("tags", Json::Array(vec![s("a"), s("b")]))]);
    let settings = IndexSettings::default_with_facets(names(&["brand", "tags"]));
    let doc = conv.to_tantivy("7", &ms, Some(&settings)).ok().unwrap();
    assert_eq!(doc.len(), 1 + 3 + 3);
    let doc = conv.to_tantivy("7", &ms, None).ok().unwrap();
    assert_eq!(doc.len(), 1 + 3);
}

#[test]
fn put_member_replaces_in_place_or_appends() {
    let mut ms = members(vec![("a", num(1)), ("b", num(2))]);
    put_json_member(&mut ms, "a", s("x"));
    assert_eq!(ms, members(vec![("a", s("x")), ("b", num(2))]));
    put_json_member(&mut ms, "c", s("y"));
    assert_eq!(ms, members(vec![("a", s("x")), ("b", num(2)), ("c", s("y"))]));
}

#[test]
fn tantivy_parts_of_members_with_settings() {
    let ms = members(vec![("title", s("Red")), ("objectID", s("old")), ("brand", s("Acme")), ("n", num(3))]);
    let settings = IndexSettings::default_with_facets(names(&["brand"]));
    let p = tantivy_parts("42", &ms, Some(&settings));
    assert_eq!(p.id, "42");
    assert_eq!(p.search, obj(vec![("title", s("Red")), ("objectID", s("old")), ("brand", s("Acme"))]));
    assert_eq!(
        p.filter,
        obj(vec![("title", s("Red")), ("objectID", s("42")), ("brand", s("Acme")), ("n", num(3))])
    );
    assert_eq!(p.facets, names(&["/brand/Acme"]));
    assert!(tantivy_parts("42", &ms, None).facets.is_empty());
}

fn float(f: f64) -> Json {
    Json::Number(serde_json::Number::from_f64(f).unwrap())
}

fn inum(i: i64) -> Json {
    Json::Number(serde_json::Number::from(i))
}

#[test]
fn json_null_to_owned() {
    let v = json_value_to_owned(&Json::Null).ok().unwrap();
    assert!(matches!(v, OwnedValue::Null));
}

#[test]
fn json_bool_to_owned() {
    let v = json_value_to_owned(&Json::Bool(true)).ok().unwrap();
    assert!(matches!(v, OwnedValue::Bool(true)));
}

#[test]
fn json_int_to_owned() {
    let v = json_value_to_owned(&inum(42)).ok().unwrap();
    assert!(matches!(v, OwnedValue::I64(42)));
}

#[test]
fn json_float_to_owned() {
    let v = json_value_to_owned(&float(3.14)).ok().unwrap();
    match v {
        OwnedValue::F64(f) => assert!((f - 3.14).abs() < 1e-10),
        other => panic!("expected F64, got {:?}", other),
    }
}

#[test]
fn json_string_to_owned() {
    let v = json_value_to_owned(&s("hello")).ok().unwrap();
    assert!(matches!(v, OwnedValue::Str(ref t) if t == "hello"));
}

#[test]
fn json_array_to_owned() {
    let v = json_value_to_owned(&Json::Array(vec![inum(1), s("two")])).ok().unwrap();
    match v {
        OwnedValue::Array(arr) => assert_eq!(arr.len(), 2),
        other => panic!("expected Array, got {:?}", other),
    }
}

#[test]
fn json_object_to_owned() {
    let v = json_value_to_owned(&obj(vec![("a", inum(1))])).ok().unwrap();
    match v {
        OwnedValue::Object(pairs) => {
            assert_eq!(pairs.len(), 1);
            assert!(pairs.contains_key("a"));
        }
        other => panic!("expected Object, got {:?}", other),
    }
}

#[test]
fn json_to_btree_basic() {
    let val = obj(vec![("name", s("Widget")), ("price", inum(10))]);
    let members = json_to_btree(&val).ok().unwrap();
    let get = |k: &str| members.iter().find(|(n, _)| n == k).map(|(_, v)| v);
    assert!(matches!(get("name"), Some(OwnedValue::Str(t)) if t == "Widget"));
    assert!(matches!(get("price"), Some(OwnedValue::I64(10))));
}

#[test]
fn json_to_btree_rejects_non_object() {
    assert!(json_to_btree(&s("string")).is_err());
    assert!(json_to_btree(&inum(42)).is_err());
    assert!(json_to_btree(&Json::Array(vec![inum(1), inum(2)])).is_err());
}

fn first_value<'a>(doc: &'a tantivy::TantivyDocument, field: tantivy::schema::Field) -> &'a OwnedValue {
    doc.get_first(field).unwrap()
}

#[test]
fn to_tantivy_fills_objects_with_values_and_faceted_members_only() {
    let schema = build_index_schema();
    let f = |n: &str| schema.get_field(n).unwrap();
    let conv = DocumentConverter::new(&schema).ok().unwrap();
    let ms = members(vec![("brand", s("Apple")), ("name", s("iPhone")), ("year", inum(2020))]);
    let st = IndexSettings::default_with_facets(names(&["brand"]));
    let doc = conv.to_tantivy("1", &ms, Some(&st)).ok().unwrap();
    assert!(matches!(first_value(&doc, f("_id")), OwnedValue::Str(t) if t == "1"));
    match first_value(&doc, f("_json_filter")) {
        OwnedValue::Object(m) => {
            assert!(matches!(m.get("objectID"), Some(OwnedValue::Str(t)) if t == "1"));
            assert!(matches!(m.get("brand"), Some(OwnedValue::Str(t)) if t == "Apple"));
            assert!(matches!(m.get("year"), Some(OwnedValue::I64(2020))));
        }
        other => panic!("expected an object, got {:?}", other),
    }
    match first_value(&doc, f("_json_search")) {
        OwnedValue::Object(m) => {
            assert!(matches!(m.get("name"), Some(OwnedValue::Str(t)) if t == "iPhone"));
            assert!(m.get("year").is_none());
            assert!(m.get("objectID").is_none());
        }
        other => panic!("expected an object, got {:?}", other),
    }
    let facets: Vec<&OwnedValue> = doc.get_all(f("_facets")).collect();
    assert_eq!(facets.len(), 1);
    assert!(matches!(facets[0], OwnedValue::Facet(x) if *x == tantivy::schema::Facet::from("/brand/Apple")));
}

#[test]
fn json_to_tantivy_doc_filter_holds_the_id() {
    let schema = build_index_schema();
    let f = |n: &str| schema.get_field(n).unwrap();
    let d = obj(vec![("_id", s("9")), ("objectID", s("x")), ("title", s("Red"))]);
    let doc = json_to_tantivy_doc(&d, f("_id"), f("_json_search"), f("_json_filter"), f("_json_exact"), f("_facets"))
        .ok()
        .unwrap();
    match first_value(&doc, f("_json_filter")) {
        OwnedValue::Object(m) => assert!(matches!(m.get("objectID"), Some(OwnedValue::Str(t)) if t == "9")),
        other => panic!("expected an object, got {:?}", other),
    }
    match first_value(&doc, f("_json_exact")) {
        OwnedValue::Object(m) => {
            assert!(m.get("objectID").is_none() && m.get("_id").is_none());
            assert!(matches!(m.get("title"), Some(OwnedValue::Str(t)) if t == "Red"));
        }
        other => panic!("expected an object, got {:?}", other),
    }
}
