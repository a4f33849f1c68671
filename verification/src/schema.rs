//! Field definitions of an index and the builder that assembles them.
use vstd::prelude::*;
use crate::error::FlapjackError;
use crate::search_schema::{build_index_schema, index_field_names, lookup_field, schema_field_names};
use crate::text::{chars_eq, chars_of};

verus! {

/// The kind of value a field holds.
#[derive(Debug, Clone, Copy, PartialEq, Eq)]
pub enum FieldType {
    Text,
    Integer,
    Float,
    Date,
    Facet,
}

/// How a text field is tokenized for indexing.
#[derive(Debug, Clone, Copy, PartialEq, Eq)]
pub enum TextIndexing {
    Default,
    EdgeNgram,
}

/// Storage and indexing options of a field.
#[derive(Debug, Clone, Copy, PartialEq, Eq)]
pub struct FieldOptions {
    pub stored: bool,
    pub indexed: bool,
    pub fast: bool,
    pub text_indexing: TextIndexing,
}

impl Default for FieldOptions {
    /// Stored and indexed, not fast, edge-n-gram tokenized.
    fn default() -> (r: Self)
        ensures
            r == (FieldOptions {
                stored: true,
                indexed: true,
                fast: false,
                text_indexing: TextIndexing::EdgeNgram,
            }),
    {
        FieldOptions { stored: true, indexed: true, fast: false, text_indexing: TextIndexing::EdgeNgram }
    }
}

/// A named field with its type and options.
#[derive(Debug)]
pub struct FieldDefinition {
    pub name: String,
    pub field_type: FieldType,
    pub options: FieldOptions,
}

/// The abstract content of a field definition.
pub struct FieldDefinitionV {
    pub name: Seq<char>,
    pub field_type: FieldType,
    pub options: FieldOptions,
}

impl View for FieldDefinition {
    type V = FieldDefinitionV;

    open spec fn view(&self) -> FieldDefinitionV {
        FieldDefinitionV { name: self.name@, field_type: self.field_type, options: self.options }
    }
}

impl Clone for FieldDefinition {
    fn clone(&self) -> (r: Self)
        ensures
            r@ == self@,
    {
        FieldDefinition { name: self.name.clone(), field_type: self.field_type, options: self.options }
    }
}

/// The definitions of a sequence of fields.
pub open spec fn defs_view(v: Seq<FieldDefinition>) -> Seq<FieldDefinitionV> {
    v.map_values(|d: FieldDefinition| d@)
}

/// The options of the identifier field: stored, not indexed, not fast, default tokenizer.
pub open spec fn id_options() -> FieldOptions {
    FieldOptions { stored: true, indexed: false, fast: false, text_indexing: TextIndexing::Default }
}

/// The identifier field that every schema starts with.
pub open spec fn id_field() -> FieldDefinitionV {
    FieldDefinitionV { name: "_id"@, field_type: FieldType::Text, options: id_options() }
}

/// Position of the last definition named `name`, if any.
pub open spec fn last_named(defs: Seq<FieldDefinitionV>, name: Seq<char>) -> Option<int>
    decreases defs.len(),
{
    if defs.len() == 0 {
        None
    } else if defs.last().name == name {
        Some(defs.len() - 1)
    } else {
        last_named(defs.drop_last(), name)
    }
}

proof fn lemma_last_named_bounds(defs: Seq<FieldDefinitionV>, name: Seq<char>)
    ensures
        match last_named(defs, name) {
            Some(i) => 0 <= i < defs.len() && defs[i].name == name && forall|j: int|
                i < j < defs.len() ==> #[trigger] defs[j].name != name,
            None => forall|j: int| 0 <= j < defs.len() ==> #[trigger] defs[j].name != name,
        },
    decreases defs.len(),
{
    if defs.len() > 0 {
        let p = defs.drop_last();
        lemma_last_named_bounds(p, name);
        if defs.last().name != name {
            assert forall|j: int| 0 <= j < p.len() implies #[trigger] defs[j].name == p[j].name by {
            }
        }
    }
}

/// The fields of an index; a name that occurs twice refers to its last definition.
#[derive(Debug, Clone)]
pub struct Schema {
    fields: Vec<FieldDefinition>,
}

impl Schema {
    /// The definitions, in order.
    pub closed spec fn defs(&self) -> Seq<FieldDefinitionV> {
        defs_view(self.fields@)
    }

    /// A builder with no field yet.
    pub fn builder() -> (r: SchemaBuilder)
        ensures
            r.defs() == Seq::<FieldDefinitionV>::empty(),
    {
        SchemaBuilder::new()
    }

    /// The definition that the name refers to: the last one with that name.
    pub fn get_field(&self, name: &str) -> (r: Option<&FieldDefinition>)
        ensures
            match last_named(self.defs(), name@) {
                Some(i) => r is Some && r->0@ == self.defs()[i],
                None => r is None,
            },
    {
        proof {
            lemma_last_named_bounds(self.defs(), name@);
        }
        let target = chars_of(name);
        let mut i: usize = self.fields.len();
        while i > 0
            invariant
                i <= self.fields@.len(),
                target@ == name@,
                forall|j: int| i <= j < self.fields@.len() ==> #[trigger] self.defs()[j].name != name@,
            decreases i,
        {
            let nm = chars_of(self.fields[i - 1].name.as_str());
            assert(self.defs()[i - 1] == self.fields@[i - 1]@);
            if chars_eq(nm.as_slice(), target.as_slice()) {
                proof {
                    lemma_last_named_bounds(self.defs(), name@);
                    let k = last_named(self.defs(), name@);
                    assert(self.defs()[i - 1].name == name@);
                    if k is None {
                        assert(self.defs()[i - 1].name != name@);
                    }
                    assert(k is Some);
                    if k->0 > i - 1 {
                        assert(self.defs()[k->0].name != name@);
                    }
                    assert(k->0 == i - 1);
                }
                return Some(&self.fields[i - 1]);
            }
            i = i - 1;
        }
        proof {
            lemma_last_named_bounds(self.defs(), name@);
        }
        None
    }

    /// All definitions, in order.
    pub fn fields(&self) -> (r: &[FieldDefinition])
        ensures
            defs_view(r@) == self.defs(),
    {
        self.fields.as_slice()
    }

    /// The search engine schema an index is built with: the same for every
    /// schema (documents are indexed schemalessly through JSON fields).
    pub fn to_tantivy(&self) -> (r: tantivy::schema::Schema)
        ensures
            schema_field_names(r) == index_field_names(),
    {
        build_index_schema()
    }

    /// The schema read back from a search engine schema: it has no definition.
    pub fn from_tantivy(tantivy_schema: tantivy::schema::Schema) -> (r: Result<Schema, FlapjackError>)
        ensures
            r is Ok,
            r matches Ok(s) && s.defs() == Seq::<FieldDefinitionV>::empty(),
    {
        let _ = tantivy_schema;
        let s = Schema { fields: Vec::new() };
        assert(s.defs() =~= Seq::<FieldDefinitionV>::empty());
        Ok(s)
    }

    /// The engine field of that name, or `FieldNotFound` naming it.
    pub fn get_tantivy_field(&self, tantivy_schema: &tantivy::schema::Schema, name: &str) -> (r: Result<
        tantivy::schema::Field,
        FlapjackError,
    >)
        ensures
            r is Ok <==> schema_field_names(*tantivy_schema).contains(name@),
            r is Err ==> (r matches Err(FlapjackError::FieldNotFound(n)) && n@ == name@),
    {
        match lookup_field(tantivy_schema, name) {
            Ok(field) => Ok(field),
            Err(_) => Err(FlapjackError::FieldNotFound(name.to_string())),
        }
    }
}

/// Assembles a schema field by field.
#[derive(Debug)]
pub struct SchemaBuilder {
    fields: Vec<FieldDefinition>,
}

impl Default for SchemaBuilder {
    fn default() -> (r: Self)
        ensures
            r.defs() == Seq::<FieldDefinitionV>::empty(),
    {
        Self::new()
    }
}

impl SchemaBuilder {
    /// The definitions added so far, in order.
    pub closed spec fn defs(&self) -> Seq<FieldDefinitionV> {
        defs_view(self.fields@)
    }

    /// A builder with no field yet.
    pub fn new() -> (r: SchemaBuilder)
        ensures
            r.defs() == Seq::<FieldDefinitionV>::empty(),
    {
        let r = SchemaBuilder { fields: Vec::new() };
        assert(r.defs() =~= Seq::<FieldDefinitionV>::empty());
        r
    }

    /// Add a field at the end.
    pub fn add_field(self, name: &str, field_type: FieldType, options: FieldOptions) -> (r: SchemaBuilder)
        ensures
            r.defs() == self.defs().push(
                FieldDefinitionV { name: name@, field_type: field_type, options: options },
            ),
    {
        let mut fields = self.fields;
        let ghost before = defs_view(fields@);
        fields.push(FieldDefinition { name: String::from_str(name), field_type, options });
        let r = SchemaBuilder { fields };
        assert(r.defs() =~= before.push(
            FieldDefinitionV { name: name@, field_type: field_type, options: options },
        ));
        r
    }

    /// Add a stored text field with the default tokenizer, and an edge-n-gram
    /// companion named `<name>_ngram` that is indexed but not stored.
    pub fn add_text_field(self, name: &str) -> (r: SchemaBuilder)
        ensures
            r.defs() == self.defs().push(
                FieldDefinitionV {
                    name: name@,
                    field_type: FieldType::Text,
                    options: FieldOptions {
                        stored: true,
                        indexed: true,
                        fast: false,
                        text_indexing: TextIndexing::Default,
                    },
                },
            ).push(
                FieldDefinitionV {
                    name: name@ + "_ngram"@,
                    field_type: FieldType::Text,
                    options: FieldOptions {
                        stored: false,
                        indexed: true,
                        fast: false,
                        text_indexing: TextIndexing::EdgeNgram,
                    },
                },
            ),
    {
        let mut ngram_name = String::from_str(name);
        ngram_name.append("_ngram");
        self.add_field(
            name,
            FieldType::Text,
            FieldOptions { stored: true, indexed: true, fast: false, text_indexing: TextIndexing::Default },
        ).add_field(
            ngram_name.as_str(),
            FieldType::Text,
            FieldOptions { stored: false, indexed: true, fast: false, text_indexing: TextIndexing::EdgeNgram },
        )
    }

    /// Add a stored, indexed text field with the default tokenizer.
    pub fn add_filterable_text_field(self, name: &str) -> (r: SchemaBuilder)
        ensures
            r.defs() == self.defs().push(
                FieldDefinitionV {
                    name: name@,
                    field_type: FieldType::Text,
                    options: FieldOptions {
                        stored: true,
                        indexed: true,
                        fast: false,
                        text_indexing: TextIndexing::Default,
                    },
                },
            ),
    {
        self.add_field(
            name,
            FieldType::Text,
            FieldOptions { stored: true, indexed: true, fast: false, text_indexing: TextIndexing::Default },
        )
    }

    /// Add a stored, indexed text field tokenized into edge n-grams.
    pub fn add_prefix_text_field(self, name: &str) -> (r: SchemaBuilder)
        ensures
            r.defs() == self.defs().push(
                FieldDefinitionV {
                    name: name@,
                    field_type: FieldType::Text,
                    options: FieldOptions {
                        stored: true,
                        indexed: true,
                        fast: false,
                        text_indexing: TextIndexing::EdgeNgram,
                    },
                },
            ),
    {
        self.add_field(
            name,
            FieldType::Text,
            FieldOptions { stored: true, indexed: true, fast: false, text_indexing: TextIndexing::EdgeNgram },
        )
    }

    /// Add an integer field with the default options.
    pub fn add_integer_field(self, name: &str) -> (r: SchemaBuilder)
        ensures
            r.defs() == self.defs().push(
                FieldDefinitionV {
                    name: name@,
                    field_type: FieldType::Integer,
                    options: FieldOptions {
                        stored: true,
                        indexed: true,
                        fast: false,
                        text_indexing: TextIndexing::EdgeNgram,
                    },
                },
            ),
    {
        self.add_field(name, FieldType::Integer, FieldOptions::default())
    }

    /// Add a stored, indexed, fast field of the given type.
    pub fn add_fast_field(self, name: &str, field_type: FieldType) -> (r: SchemaBuilder)
        ensures
            r.defs() == self.defs().push(
                FieldDefinitionV {
                    name: name@,
                    field_type: field_type,
                    options: FieldOptions {
                        stored: true,
                        indexed: true,
                        fast: true,
                        text_indexing: TextIndexing::EdgeNgram,
                    },
                },
            ),
    {
        self.add_field(
            name,
            field_type,
            FieldOptions { stored: true, indexed: true, fast: true, text_indexing: TextIndexing::EdgeNgram },
        )
    }

    /// Add a stored, indexed facet field.
    pub fn add_facet_field(self, name: &str) -> (r: SchemaBuilder)
        ensures
            r.defs() == self.defs().push(
                FieldDefinitionV {
                    name: name@,
                    field_type: FieldType::Facet,
                    options: FieldOptions {
                        stored: true,
                        indexed: true,
                        fast: false,
                        text_indexing: TextIndexing::Default,
                    },
                },
            ),
    {
        self.add_field(
            name,
            FieldType::Facet,
            FieldOptions { stored: true, indexed: true, fast: false, text_indexing: TextIndexing::Default },
        )
    }

    /// The schema: the identifier field `_id` first, then the added fields in order.
    pub fn build(self) -> (r: Schema)
        ensures
            r.defs() == seq![id_field()] + self.defs(),
    {
        let mut fields = self.fields;
        let ghost before = defs_view(fields@);
        proof {
            reveal_strlit("_id");
        }
        fields.insert(
            0,
            FieldDefinition { name: String::from_str("_id"), field_type: FieldType::Text, options: FieldOptions {
                stored: true,
                indexed: false,
                fast: false,
                text_indexing: TextIndexing::Default,
            } },
        );
        let r = Schema { fields };
        assert(r.defs() =~= seq![id_field()] + before);
        r
    }
}

/// Every built schema knows the identifier field, whatever was added: `_id`
/// refers to the first definition unless a later field reuses the name.
pub proof fn law_built_schema_has_id(added: Seq<FieldDefinitionV>)
    ensures
        last_named(seq![id_field()] + added, "_id"@) is Some,
        (forall|j: int| 0 <= j < added.len() ==> #[trigger] added[j].name != "_id"@) ==> last_named(
            seq![id_field()] + added,
            "_id"@,
        ) == Some(0int),
{
    lemma_last_named_bounds(seq![id_field()] + added, "_id"@);
    let all = seq![id_field()] + added;
    assert(all[0].name == "_id"@);
    if forall|j: int| 0 <= j < added.len() ==> #[trigger] added[j].name != "_id"@ {
        match last_named(all, "_id"@) {
            Some(i) => {
                if i > 0 {
                    assert(all[i] == added[i - 1]);
                }
            },
            None => {},
        }
    }
}

/// A field added last is what its name refers to in the built schema.
pub proof fn law_last_added_field_wins(added: Seq<FieldDefinitionV>, d: FieldDefinitionV)
    ensures
        last_named(seq![id_field()] + added.push(d), d.name) == Some((added.len() + 1) as int),
{
    let all = seq![id_field()] + added.push(d);
    assert(all.last() == d);
}

} // verus!
