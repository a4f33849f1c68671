//! The search engine's schema: the fields every index is built with, assembled
//! through the engine's schema builder.
use vstd::prelude::*;
use tantivy::schema::{
    FacetOptions, Field, IndexRecordOption, JsonObjectOptions, NumericOptions, Schema as EngineSchema,
    SchemaBuilder as EngineSchemaBuilder, TextFieldIndexing, TextOptions, STRING,
};
use tantivy::TantivyError;

verus! {

// ---------------------------------------------------------------------------
// Outside types
// ---------------------------------------------------------------------------

/// `tantivy::schema::Schema`.
#[verifier::external_type_specification]
#[verifier::external_body]
pub struct ExEngineSchema(EngineSchema);

/// `tantivy::schema::SchemaBuilder`.
#[verifier::external_type_specification]
#[verifier::external_body]
pub struct ExEngineSchemaBuilder(EngineSchemaBuilder);

/// `tantivy::schema::Field`.
#[verifier::external_type_specification]
#[verifier::external_body]
pub struct ExField(Field);

/// `tantivy::TantivyError`.
#[verifier::external_type_specification]
#[verifier::external_body]
pub struct ExTantivyError(TantivyError);

/// `tantivy::schema::TextOptions`.
#[verifier::external_type_specification]
#[verifier::external_body]
pub struct ExTextOptions(TextOptions);

/// `tantivy::schema::TextFieldIndexing`.
#[verifier::external_type_specification]
#[verifier::external_body]
pub struct ExTextFieldIndexing(TextFieldIndexing);

/// `tantivy::schema::JsonObjectOptions`.
#[verifier::external_type_specification]
#[verifier::external_body]
pub struct ExJsonObjectOptions(JsonObjectOptions);

/// `tantivy::schema::FacetOptions`.
#[verifier::external_type_specification]
#[verifier::external_body]
pub struct ExFacetOptions(FacetOptions);

/// `tantivy::schema::NumericOptions`.
#[verifier::external_type_specification]
#[verifier::external_body]
pub struct ExNumericOptions(NumericOptions);

/// The names of the fields a schema builder holds, in the order they were added.
pub uninterp spec fn builder_field_names(b: EngineSchemaBuilder) -> Seq<Seq<char>>;

/// A name the engine accepts for a field: not empty, not starting with `-`.
pub open spec fn valid_field_name(name: Seq<char>) -> bool {
    name.len() > 0 && name[0] != '-'
}

/// The names of the fields of a built schema, in order.
pub uninterp spec fn schema_field_names(s: EngineSchema) -> Seq<Seq<char>>;

/// What a term index records for each occurrence.
#[derive(Debug, Clone, Copy, PartialEq, Eq)]
pub enum RecordOption {
    Basic,
    WithFreqs,
    WithFreqsAndPositions,
}

// ---------------------------------------------------------------------------
// The schema builder
// ---------------------------------------------------------------------------

/// `Schema::builder`: a builder that holds no field.
#[verifier::external_body]
fn new_builder() -> (r: EngineSchemaBuilder)
    ensures
        builder_field_names(r) == Seq::<Seq<char>>::empty(),
{
    EngineSchema::builder()
}

/// `SchemaBuilder::add_text_field`: appends a field of that name (it panics on an
/// empty name, a name starting with `-`, or a name already present).
#[verifier::external_body]
fn add_text_field(b: &mut EngineSchemaBuilder, name: &str, options: TextOptions)
    requires
        valid_field_name(name@),
        !builder_field_names(*old(b)).contains(name@),
    ensures
        builder_field_names(*final(b)) == builder_field_names(*old(b)).push(name@),
{
    b.add_text_field(name, options);
}

/// `SchemaBuilder::add_json_field`: appends a field of that name (it panics on an
/// empty name, a name starting with `-`, or a name already present).
#[verifier::external_body]
fn add_json_field(b: &mut EngineSchemaBuilder, name: &str, options: JsonObjectOptions)
    requires
        valid_field_name(name@),
        !builder_field_names(*old(b)).contains(name@),
    ensures
        builder_field_names(*final(b)) == builder_field_names(*old(b)).push(name@),
{
    b.add_json_field(name, options);
}

/// `SchemaBuilder::add_facet_field`: appends a field of that name (it panics on an
/// empty name, a name starting with `-`, or a name already present).
#[verifier::external_body]
fn add_facet_field(b: &mut EngineSchemaBuilder, name: &str, options: FacetOptions)
    requires
        valid_field_name(name@),
        !builder_field_names(*old(b)).contains(name@),
    ensures
        builder_field_names(*final(b)) == builder_field_names(*old(b)).push(name@),
{
    b.add_facet_field(name, options);
}

/// `SchemaBuilder::add_f64_field`: appends a field of that name (it panics on an
/// empty name, a name starting with `-`, or a name already present).
#[verifier::external_body]
fn add_f64_field(b: &mut EngineSchemaBuilder, name: &str, options: NumericOptions)
    requires
        valid_field_name(name@),
        !builder_field_names(*old(b)).contains(name@),
    ensures
        builder_field_names(*final(b)) == builder_field_names(*old(b)).push(name@),
{
    b.add_f64_field(name, options);
}

/// `SchemaBuilder::build`: the schema has the builder's fields.
#[verifier::external_body]
fn build_schema(b: EngineSchemaBuilder) -> (r: EngineSchema)
    ensures
        schema_field_names(r) == builder_field_names(b),
{
    b.build()
}

/// `Schema::get_field`: found exactly when the schema has a field of that name.
#[verifier::external_body]
pub(crate) fn lookup_field(s: &EngineSchema, name: &str) -> (r: Result<Field, TantivyError>)
    ensures
        r is Ok <==> schema_field_names(*s).contains(name@),
{
    s.get_field(name)
}

// ---------------------------------------------------------------------------
// Field options (opaque: nothing is stated of them)
// ---------------------------------------------------------------------------

/// The constant `tantivy::schema::STRING` (untokenized, indexed text); nothing is
/// stated of the options.
#[verifier::external_body]
fn string_options() -> TextOptions {
    STRING
}

/// `TextOptions::set_stored`; nothing is stated of the options returned.
#[verifier::external_body]
fn text_set_stored(o: TextOptions) -> TextOptions {
    o.set_stored()
}

/// `TextOptions::set_fast` with no tokenizer; nothing is stated of the options returned.
#[verifier::external_body]
fn text_set_fast(o: TextOptions) -> TextOptions {
    o.set_fast(None)
}

/// `TextFieldIndexing::default`; nothing is stated of the result.
#[verifier::external_body]
fn indexing_default() -> TextFieldIndexing {
    TextFieldIndexing::default()
}

/// `TextFieldIndexing::set_tokenizer`; nothing is stated of the result.
#[verifier::external_body]
fn indexing_set_tokenizer(i: TextFieldIndexing, tokenizer: &str) -> TextFieldIndexing {
    i.set_tokenizer(tokenizer)
}

/// `TextFieldIndexing::set_index_option`, with the record option of the same name;
/// nothing is stated of the result.
#[verifier::external_body]
fn indexing_set_record(i: TextFieldIndexing, record: RecordOption) -> TextFieldIndexing {
    i.set_index_option(
        match record {
            RecordOption::Basic => IndexRecordOption::Basic,
            RecordOption::WithFreqs => IndexRecordOption::WithFreqs,
            RecordOption::WithFreqsAndPositions => IndexRecordOption::WithFreqsAndPositions,
        },
    )
}

/// `JsonObjectOptions::default`; nothing is stated of the result.
#[verifier::external_body]
fn json_default() -> JsonObjectOptions {
    JsonObjectOptions::default()
}

/// `JsonObjectOptions::set_stored`; nothing is stated of the result.
#[verifier::external_body]
fn json_set_stored(o: JsonObjectOptions) -> JsonObjectOptions {
    o.set_stored()
}

/// `JsonObjectOptions::set_indexing_options`; nothing is stated of the result.
#[verifier::external_body]
fn json_set_indexing(o: JsonObjectOptions, i: TextFieldIndexing) -> JsonObjectOptions {
    o.set_indexing_options(i)
}

/// `JsonObjectOptions::set_fast` with no tokenizer; nothing is stated of the result.
#[verifier::external_body]
fn json_set_fast(o: JsonObjectOptions) -> JsonObjectOptions {
    o.set_fast(None)
}

/// `FacetOptions::default`; nothing is stated of the result.
#[verifier::external_body]
fn facet_default() -> FacetOptions {
    FacetOptions::default()
}

/// `NumericOptions::default`; nothing is stated of the result.
#[verifier::external_body]
fn numeric_default() -> NumericOptions {
    NumericOptions::default()
}

/// `NumericOptions::set_fast`; nothing is stated of the result.
#[verifier::external_body]
fn numeric_set_fast(o: NumericOptions) -> NumericOptions {
    o.set_fast()
}

/// `NumericOptions::set_stored`; nothing is stated of the result.
#[verifier::external_body]
fn numeric_set_stored(o: NumericOptions) -> NumericOptions {
    o.set_stored()
}

// ---------------------------------------------------------------------------
// The index schema
// ---------------------------------------------------------------------------

/// The fields of every index, in order: the document id, the searchable,
/// filterable and exact-match JSON fields, the facets, and the geo coordinates.
pub open spec fn index_field_names() -> Seq<Seq<char>> {
    seq![
        "_id"@,
        "_json_search"@,
        "_json_filter"@,
        "_json_exact"@,
        "_facets"@,
        "_geo_lat"@,
        "_geo_lng"@,
    ]
}

proof fn reveal_index_field_names()
    ensures
        index_field_names() == seq![
            seq!['_', 'i', 'd'],
            seq!['_', 'j', 's', 'o', 'n', '_', 's', 'e', 'a', 'r', 'c', 'h'],
            seq!['_', 'j', 's', 'o', 'n', '_', 'f', 'i', 'l', 't', 'e', 'r'],
            seq!['_', 'j', 's', 'o', 'n', '_', 'e', 'x', 'a', 'c', 't'],
            seq!['_', 'f', 'a', 'c', 'e', 't', 's'],
            seq!['_', 'g', 'e', 'o', '_', 'l', 'a', 't'],
            seq!['_', 'g', 'e', 'o', '_', 'l', 'n', 'g'],
        ],
{
    reveal_strlit("_id");
    reveal_strlit("_json_search");
    reveal_strlit("_json_filter");
    reveal_strlit("_json_exact");
    reveal_strlit("_facets");
    reveal_strlit("_geo_lat");
    reveal_strlit("_geo_lng");
    assert("_id"@ =~= seq!['_', 'i', 'd']);
    assert("_json_search"@ =~= seq!['_', 'j', 's', 'o', 'n', '_', 's', 'e', 'a', 'r', 'c', 'h']);
    assert("_json_filter"@ =~= seq!['_', 'j', 's', 'o', 'n', '_', 'f', 'i', 'l', 't', 'e', 'r']);
    assert("_json_exact"@ =~= seq!['_', 'j', 's', 'o', 'n', '_', 'e', 'x', 'a', 'c', 't']);
    assert("_facets"@ =~= seq!['_', 'f', 'a', 'c', 'e', 't', 's']);
    assert("_geo_lat"@ =~= seq!['_', 'g', 'e', 'o', '_', 'l', 'a', 't']);
    assert("_geo_lng"@ =~= seq!['_', 'g', 'e', 'o', '_', 'l', 'n', 'g']);
}

/// Build the engine schema of an index.
pub fn build_index_schema() -> (r: EngineSchema)
    ensures
        schema_field_names(r) == index_field_names(),
{
    proof {
        reveal_index_field_names();
    }
    let mut b = new_builder();
    add_text_field(&mut b, "_id", text_set_fast(text_set_stored(string_options())));
    assert(builder_field_names(b) == seq![index_field_names()[0]]);

    let search_indexing = indexing_set_record(
        indexing_set_tokenizer(indexing_default(), "edge_ngram_lower"),
        RecordOption::WithFreqsAndPositions,
    );
    add_json_field(&mut b, "_json_search", json_set_indexing(json_set_stored(json_default()), search_indexing));

    let filter_indexing = indexing_set_record(indexing_set_tokenizer(indexing_default(), "raw"), RecordOption::Basic);
    add_json_field(
        &mut b,
        "_json_filter",
        json_set_fast(json_set_fast(json_set_indexing(json_set_stored(json_default()), filter_indexing))),
    );

    let exact_indexing = indexing_set_record(
        indexing_set_tokenizer(indexing_default(), "simple"),
        RecordOption::WithFreqsAndPositions,
    );
    add_json_field(&mut b, "_json_exact", json_set_indexing(json_default(), exact_indexing));

    add_facet_field(&mut b, "_facets", facet_default());
    add_f64_field(&mut b, "_geo_lat", numeric_set_stored(numeric_set_fast(numeric_default())));
    add_f64_field(&mut b, "_geo_lng", numeric_set_stored(numeric_set_fast(numeric_default())));
    assert(builder_field_names(b) =~= index_field_names());
    build_schema(b)
}

/// Every index schema holds each of its required fields, each name once.
pub proof fn law_index_schema_fields_distinct()
    ensures
        forall|i: int, j: int|
            0 <= i < j < index_field_names().len() ==> index_field_names()[i] != index_field_names()[j],
{
    reveal_index_field_names();
    assert forall|i: int, j: int|
        0 <= i < j < index_field_names().len() implies index_field_names()[i] != index_field_names()[j] by {
        let a = index_field_names()[i];
        let b = index_field_names()[j];
        if a.len() == b.len() {
            assert(a[2] != b[2] || a[6] != b[6] || a[7] != b[7]);
        }
    }
}

} // verus!
