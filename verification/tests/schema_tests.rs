use flapjack::error::FlapjackError;
use flapjack::schema::{FieldOptions, FieldType, Schema, SchemaBuilder, TextIndexing};

#[test]
fn field_options_default() {
    let opts = FieldOptions::default();
    assert!(opts.stored);
    assert!(opts.indexed);
    assert!(!opts.fast);
    assert_eq!(opts.text_indexing, TextIndexing::EdgeNgram);
}

#[test]
fn builder_inserts_id_field_at_position_zero() {
    let schema = SchemaBuilder::new().build();
    assert_eq!(schema.fields()[0].name, "_id");
    assert_eq!(schema.fields()[0].field_type, FieldType::Text);
}

#[test]
fn builder_add_field_accessible_by_name() {
    let schema = SchemaBuilder::new()
        .add_field("title", FieldType::Text, FieldOptions::default())
        .build();
    let field = schema.get_field("title");
    assert!(field.is_some());
    assert_eq!(field.unwrap().field_type, FieldType::Text);
}

#[test]
fn builder_multiple_fields() {
    let schema = SchemaBuilder::new()
        .add_field("title", FieldType::Text, FieldOptions::default())
        .add_field("price", FieldType::Float, FieldOptions::default())
        .add_field("count", FieldType::Integer, FieldOptions::default())
        .build();
    assert_eq!(schema.fields().len(), 4);
    assert!(schema.get_field("title").is_some());
    assert!(schema.get_field("price").is_some());
    assert!(schema.get_field("count").is_some());
}

#[test]
fn get_field_missing_returns_none() {
    let schema = SchemaBuilder::new().build();
    assert!(schema.get_field("nonexistent").is_none());
}

#[test]
fn get_field_id_always_present() {
    let schema = SchemaBuilder::new().build();
    assert!(schema.get_field("_id").is_some());
}

#[test]
fn field_types_distinct() {
    assert_ne!(FieldType::Text, FieldType::Integer);
    assert_ne!(FieldType::Float, FieldType::Date);
    assert_ne!(FieldType::Facet, FieldType::Text);
}

#[test]
fn schema_builder_entry_point_starts_empty() {
    let schema = Schema::builder().build();
    assert_eq!(schema.fields().len(), 1);
    assert_eq!(schema.fields()[0].name, "_id");
    assert!(!schema.fields()[0].options.indexed);
}

#[test]
fn last_added_field_of_a_name_wins() {
    let schema = SchemaBuilder::new()
        .add_field("x", FieldType::Text, FieldOptions::default())
        .add_field("x", FieldType::Integer, FieldOptions::default())
        .build();
    assert_eq!(schema.get_field("x").unwrap().field_type, FieldType::Integer);
}

#[test]
fn convenience_builders_set_types_and_options() {
    let schema = SchemaBuilder::new()
        .add_text_field("title")
        .add_filterable_text_field("brand")
        .add_prefix_text_field("name")
        .add_integer_field("stock")
        .add_fast_field("price", FieldType::Float)
        .add_facet_field("category")
        .build();
    assert_eq!(schema.fields().len(), 8);
    let title = schema.get_field("title").unwrap();
    assert_eq!(title.field_type, FieldType::Text);
    assert_eq!(title.options.text_indexing, TextIndexing::Default);
    let ngram = schema.get_field("title_ngram").unwrap();
    assert!(!ngram.options.stored);
    assert_eq!(ngram.options.text_indexing, TextIndexing::EdgeNgram);
    let name = schema.get_field("name").unwrap();
    assert_eq!(name.options.text_indexing, TextIndexing::EdgeNgram);
    let brand = schema.get_field("brand").unwrap();
    assert_eq!(brand.field_type, FieldType::Text);
    let stock = schema.get_field("stock").unwrap();
    assert_eq!(stock.field_type, FieldType::Integer);
    let price = schema.get_field("price").unwrap();
    assert_eq!(price.field_type, FieldType::Float);
    assert!(price.options.fast);
    let category = schema.get_field("category").unwrap();
    assert_eq!(category.field_type, FieldType::Facet);
}

#[test]
fn to_tantivy_has_required_fields() {
    let schema = SchemaBuilder::new().build();
    let tantivy = schema.to_tantivy();
    assert!(tantivy.get_field("_id").is_ok());
    assert!(tantivy.get_field("_json_search").is_ok());
    assert!(tantivy.get_field("_json_filter").is_ok());
    assert!(tantivy.get_field("_json_exact").is_ok());
    assert!(tantivy.get_field("_facets").is_ok());
    assert!(tantivy.get_field("_geo_lat").is_ok());
    assert!(tantivy.get_field("_geo_lng").is_ok());
}

#[test]
fn from_tantivy_returns_empty_schema() {
    let tantivy = tantivy::schema::Schema::builder().build();
    let schema = Schema::from_tantivy(tantivy).unwrap();
    assert!(schema.fields().is_empty());
}

#[test]
fn get_tantivy_field_found() {
    let schema = SchemaBuilder::new().build();
    let tantivy = schema.to_tantivy();
    assert!(schema.get_tantivy_field(&tantivy, "_id").is_ok());
}

#[test]
fn get_tantivy_field_not_found() {
    let schema = SchemaBuilder::new().build();
    let tantivy = schema.to_tantivy();
    assert!(schema.get_tantivy_field(&tantivy, "missing").is_err());
}

#[test]
fn engine_schema_has_exactly_the_index_fields() {
    let tantivy = SchemaBuilder::new().build().to_tantivy();
    let names: Vec<String> = tantivy.fields().map(|(_, e)| e.name().to_string()).collect();
    assert_eq!(
        names,
        vec!["_id", "_json_search", "_json_filter", "_json_exact", "_facets", "_geo_lat", "_geo_lng"]
    );
    let id = tantivy.get_field("_id").unwrap();
    let entry = tantivy.get_field_entry(id);
    assert!(entry.is_stored());
    assert!(entry.is_fast());
    let schema = SchemaBuilder::new().build();
    assert_eq!(
        schema.get_tantivy_field(&tantivy, "title").unwrap_err(),
        FlapjackError::FieldNotFound("title".to_string())
    );
}
