//! Index settings: defaults, facet attributes and their modifiers, retrievable
//! attributes, distinct counts and embedder configuration changes.
use vstd::prelude::*;
use crate::rules::opt_string_view;
use crate::synonyms::{clone_strings, dedup, strs_view};
use crate::text::{chars_eq, chars_of, has_prefix, starts_with_chars, string_from_chars, words_view};
use crate::document::{json_eq, json_equal, json_member, json_view, lookup, member_spec, members_view, Json, JsonV};
use serde_json::Value;

verus! {

/// Search mode of an index.
#[derive(Debug, Clone, Copy, PartialEq, Eq)]
pub enum IndexMode {
    KeywordSearch,
    NeuralSearch,
}

/// Settings of semantic search.
#[derive(Debug, PartialEq, Eq)]
pub struct SemanticSearchSettings {
    pub event_sources: Option<Vec<String>>,
}

/// How many hits per distinct value are kept: `false` none, `true` one, or a count.
#[derive(Debug, Clone, Copy, PartialEq, Eq)]
pub enum DistinctValue {
    Bool(bool),
    Integer(u32),
}

/// The count a distinct setting stands for.
pub open spec fn distinct_count(d: DistinctValue) -> u32 {
    match d {
        DistinctValue::Bool(false) => 0,
        DistinctValue::Bool(true) => 1,
        DistinctValue::Integer(n) => n,
    }
}

impl DistinctValue {
    /// `false` counts 0, `true` counts 1, an integer counts itself.
    pub fn as_count(&self) -> (r: u32)
        ensures
            r == distinct_count(*self),
    {
        match self {
            DistinctValue::Bool(false) => 0,
            DistinctValue::Bool(true) => 1,
            DistinctValue::Integer(n) => *n,
        }
    }
}

/// A change between two embedder configurations.
#[derive(Debug, PartialEq, Eq)]
pub enum EmbedderChange {
    Added(String),
    Removed(String),
    Modified(String),
}

/// The page size used when settings do not give one.
pub fn default_hits_per_page() -> (r: u32)
    ensures
        r == 20,
{
    20
}

/// Whether a list of strings is empty (such lists are left out when settings are written).
pub fn vec_is_empty(v: &[String]) -> (r: bool)
    ensures
        r == (v@.len() == 0),
{
    v.len() == 0
}

/// The settings of one index.
#[derive(Debug)]
pub struct IndexSettings {
    pub attributes_for_faceting: Vec<String>,
    pub searchable_attributes: Option<Vec<String>>,
    pub ranking: Option<Vec<String>>,
    pub custom_ranking: Option<Vec<String>>,
    pub attributes_to_retrieve: Option<Vec<String>>,
    pub unretrievable_attributes: Option<Vec<String>>,
    pub attributes_to_highlight: Option<Vec<String>>,
    pub attributes_to_snippet: Option<Vec<String>>,
    pub highlight_pre_tag: Option<String>,
    pub highlight_post_tag: Option<String>,
    pub hits_per_page: u32,
    pub min_word_size_for_1_typo: u32,
    pub min_word_size_for_2_typos: u32,
    pub max_values_per_facet: u32,
    pub pagination_limited_to: u32,
    pub exact_on_single_word_query: String,
    pub query_type: String,
    pub remove_words_if_no_results: String,
    pub separators_to_index: String,
    pub alternatives_as_exact: Vec<String>,
    pub optional_words: Vec<String>,
    pub numeric_attributes_to_index: Option<Vec<String>>,
    pub attributes_to_index: Option<Vec<String>>,
    pub version: u32,
    pub synonyms: Option<Value>,
    pub attribute_for_distinct: Option<String>,
    pub distinct: Option<DistinctValue>,
    /// The stop-word removal setting as it was given (`None` when disabled);
    /// kept here, read by the query side.
    pub remove_stop_words: Option<Json>,
    pub query_languages: Vec<String>,
    /// The plural-folding setting as it was given (`None` when disabled); kept
    /// here, read by the query side.
    pub ignore_plurals: Option<Json>,
    /// Embedder configurations by name, each name once.
    pub embedders: Option<Vec<(String, Json)>>,
    pub mode: Option<IndexMode>,
    pub semantic_search: Option<SemanticSearchSettings>,
}

pub open spec fn opt_strs_view(o: Option<Vec<String>>) -> Option<Seq<Seq<char>>> {
    match o {
        Some(v) => Some(strs_view(v@)),
        None => None,
    }
}

/// The default ranking criteria, in order.
pub open spec fn default_ranking() -> Seq<Seq<char>> {
    seq![
        "typo"@,
        "geo"@,
        "words"@,
        "filters"@,
        "proximity"@,
        "attribute"@,
        "exact"@,
        "custom"@,
    ]
}

/// The settings hold the defaults in every field except the faceting attributes.
pub open spec fn has_defaults_besides_facets(s: IndexSettings) -> bool {
    &&& s.searchable_attributes is None
    &&& opt_strs_view(s.ranking) == Some(default_ranking())
    &&& s.custom_ranking is None
    &&& s.attributes_to_retrieve is None
    &&& s.unretrievable_attributes is None
    &&& s.attributes_to_highlight is None
    &&& s.attributes_to_snippet is None
    &&& opt_string_view(s.highlight_pre_tag) == Some("<em>"@)
    &&& opt_string_view(s.highlight_post_tag) == Some("</em>"@)
    &&& s.hits_per_page == 20
    &&& s.min_word_size_for_1_typo == 4
    &&& s.min_word_size_for_2_typos == 8
    &&& s.max_values_per_facet == 100
    &&& s.pagination_limited_to == 1000
    &&& s.exact_on_single_word_query@ == "attribute"@
    &&& s.query_type@ == "prefixLast"@
    &&& s.remove_words_if_no_results@ == "none"@
    &&& s.separators_to_index@ == ""@
    &&& strs_view(s.alternatives_as_exact@) == seq!["ignorePlurals"@, "singleWordSynonym"@]
    &&& s.optional_words@.len() == 0
    &&& s.numeric_attributes_to_index is None
    &&& s.attributes_to_index is None
    &&& s.version == 1
    &&& s.synonyms is None
    &&& s.attribute_for_distinct is None
    &&& s.distinct is None
    &&& s.remove_stop_words is None
    &&& s.query_languages@.len() == 0
    &&& s.ignore_plurals is None
    &&& s.embedders is None
    &&& s.mode is None
    &&& s.semantic_search is None
}

fn strings_of(items: &[&str]) -> (r: Vec<String>)
    ensures
        strs_view(r@) == items@.map_values(|s: &str| s@),
{
    let mut out: Vec<String> = Vec::new();
    let mut i: usize = 0;
    while i < items.len()
        invariant
            i <= items@.len(),
            out@.len() == i,
            forall|k: int| 0 <= k < i ==> #[trigger] out@[k]@ == items@[k]@,
        decreases items@.len() - i,
    {
        out.push(String::from_str(items[i]));
        i = i + 1;
    }
    assert(strs_view(out@) =~= items@.map_values(|s: &str| s@));
    out
}

impl Default for IndexSettings {
    fn default() -> (r: Self)
        ensures
            has_defaults_besides_facets(r),
            r.attributes_for_faceting@.len() == 0,
    {
        let facets: Vec<String> = Vec::new();
        let r = Self::default_with_facets(facets);
        assert(strs_view(r.attributes_for_faceting@).len() == 0);
        r
    }
}

/// `s` with every trailing `)` removed.
pub open spec fn trim_close_parens(s: Seq<char>) -> Seq<char>
    decreases s.len(),
{
    if s.len() > 0 && s.last() == ')' {
        trim_close_parens(s.drop_last())
    } else {
        s
    }
}

/// The attribute named by a faceting entry: the argument of `filterOnly(..)`,
/// `searchable(..)` or `afterDistinct(..)` (every trailing `)` dropped), or the
/// entry itself.
pub open spec fn facet_attribute(attr: Seq<char>) -> Seq<char> {
    if has_prefix(attr, "filterOnly("@) {
        trim_close_parens(attr.skip("filterOnly("@.len() as int))
    } else if has_prefix(attr, "searchable("@) {
        trim_close_parens(attr.skip("searchable("@.len() as int))
    } else if has_prefix(attr, "afterDistinct("@) {
        trim_close_parens(attr.skip("afterDistinct("@.len() as int))
    } else {
        attr
    }
}

fn trim_close_parens_chars(s: &[char], from: usize) -> (r: Vec<char>)
    requires
        from <= s@.len(),
    ensures
        r@ == trim_close_parens(s@.skip(from as int)),
{
    let mut end: usize = s.len();
    assert(s@.subrange(from as int, end as int) =~= s@.skip(from as int));
    while end > from && s[end - 1] == ')'
        invariant
            from <= end <= s@.len(),
            trim_close_parens(s@.skip(from as int)) == trim_close_parens(s@.subrange(from as int, end as int)),
        decreases end,
    {
        assert(s@.subrange(from as int, end as int).drop_last() =~= s@.subrange(from as int, end - 1));
        end = end - 1;
    }
    let mut out: Vec<char> = Vec::new();
    let mut i: usize = from;
    while i < end
        invariant
            from <= i <= end <= s@.len(),
            out@ == s@.subrange(from as int, i as int),
        decreases end - i,
    {
        out.push(s[i]);
        i = i + 1;
        assert(out@ =~= s@.subrange(from as int, i as int));
    }
    out
}

/// The attribute named by a faceting entry.
pub fn parse_facet_modifier(attr: &str) -> (r: String)
    ensures
        r@ == facet_attribute(attr@),
{
    let a = chars_of(attr);
    let p1 = chars_of("filterOnly(");
    let p2 = chars_of("searchable(");
    let p3 = chars_of("afterDistinct(");
    if starts_with_chars(a.as_slice(), p1.as_slice()) {
        let t = trim_close_parens_chars(a.as_slice(), p1.len());
        string_from_chars(t.as_slice())
    } else if starts_with_chars(a.as_slice(), p2.as_slice()) {
        let t = trim_close_parens_chars(a.as_slice(), p2.len());
        string_from_chars(t.as_slice())
    } else if starts_with_chars(a.as_slice(), p3.as_slice()) {
        let t = trim_close_parens_chars(a.as_slice(), p3.len());
        string_from_chars(t.as_slice())
    } else {
        String::from_str(attr)
    }
}

/// The faceting entries' attributes, each once, in order of first appearance.
pub open spec fn facet_names(attrs: Seq<Seq<char>>) -> Seq<Seq<char>> {
    dedup(attrs.map_values(|a: Seq<char>| facet_attribute(a)))
}

/// The faceting entries declared `searchable(..)`.
pub open spec fn searchable_entries(attrs: Seq<Seq<char>>) -> Seq<Seq<char>> {
    attrs.filter(|a: Seq<char>| has_prefix(a, "searchable("@))
}

/// Whether `v` holds `x`.
fn vec_has(v: &Vec<Vec<char>>, x: &[char]) -> (r: bool)
    ensures
        r == words_view(v@).contains(x@),
{
    let mut i: usize = 0;
    while i < v.len()
        invariant
            i <= v@.len(),
            forall|k: int| 0 <= k < i ==> v@[k]@ != x@,
        decreases v@.len() - i,
    {
        if chars_eq(v[i].as_slice(), x) {
            assert(words_view(v@)[i as int] == x@);
            return true;
        }
        i = i + 1;
    }
    proof {
        if words_view(v@).contains(x@) {
            let k = choose|k: int| 0 <= k < words_view(v@).len() && words_view(v@)[k] == x@;
            assert(v@[k]@ == x@);
        }
    }
    false
}

/// Whether `v` holds a string equal to `x`.
pub(crate) fn strings_have(v: &Vec<String>, x: &str) -> (r: bool)
    ensures
        r == strs_view(v@).contains(x@),
{
    let xc = chars_of(x);
    let mut i: usize = 0;
    while i < v.len()
        invariant
            i <= v@.len(),
            xc@ == x@,
            forall|k: int| 0 <= k < i ==> v@[k]@ != x@,
        decreases v@.len() - i,
    {
        let c = chars_of(v[i].as_str());
        if chars_eq(c.as_slice(), xc.as_slice()) {
            assert(strs_view(v@)[i as int] == x@);
            return true;
        }
        i = i + 1;
    }
    proof {
        if strs_view(v@).contains(x@) {
            let k = choose|k: int| 0 <= k < strs_view(v@).len() && strs_view(v@)[k] == x@;
            assert(v@[k]@ == x@);
        }
    }
    false
}

/// The attributes named by entries, each once, in order of first appearance.
fn distinct_facets(attrs: &Vec<String>, only_searchable: bool) -> (r: Vec<String>)
    ensures
        strs_view(r@) == facet_names(
            if only_searchable {
                searchable_entries(strs_view(attrs@))
            } else {
                strs_view(attrs@)
            },
        ),
{
    let ghost src = if only_searchable {
        searchable_entries(strs_view(attrs@))
    } else {
        strs_view(attrs@)
    };
    let ghost pred = |a: Seq<char>| has_prefix(a, "searchable("@);
    let prefix = chars_of("searchable(");
    let mut found: Vec<Vec<char>> = Vec::new();
    let mut out: Vec<String> = Vec::new();
    let mut i: usize = 0;
    let ghost mut taken: Seq<Seq<char>> = seq![];
    proof {
        reveal(Seq::filter);
        assert(strs_view(attrs@).take(0) =~= Seq::<Seq<char>>::empty());
        assert(dedup(taken.map_values(|a: Seq<char>| facet_attribute(a))) =~= Seq::<Seq<char>>::empty());
    }
    while i < attrs.len()
        invariant
            i <= attrs@.len(),
            prefix@ == "searchable("@,
            pred == (|a: Seq<char>| has_prefix(a, "searchable("@)),
            taken == if only_searchable {
                strs_view(attrs@).take(i as int).filter(pred)
            } else {
                strs_view(attrs@).take(i as int)
            },
            words_view(found@) == dedup(taken.map_values(|a: Seq<char>| facet_attribute(a))),
            strs_view(out@) == words_view(found@),
        decreases attrs@.len() - i,
    {
        let ac = chars_of(attrs[i].as_str());
        let ghost av = attrs@[i as int]@;
        assert(strs_view(attrs@)[i as int] == av);
        proof {
            assert(strs_view(attrs@).take(i + 1) =~= strs_view(attrs@).take(i as int).push(av));
            strs_view(attrs@).take(i as int).lemma_filter_push(av, pred);
        }
        let keep = !only_searchable || starts_with_chars(ac.as_slice(), prefix.as_slice());
        if keep {
            let name = parse_facet_modifier(attrs[i].as_str());
            let nc = chars_of(name.as_str());
            let ghost t2 = taken.push(av);
            proof {
                assert(t2.map_values(|a: Seq<char>| facet_attribute(a)) =~= taken.map_values(
                    |a: Seq<char>| facet_attribute(a),
                ).push(facet_attribute(av)));
                let m = taken.map_values(|a: Seq<char>| facet_attribute(a)).push(facet_attribute(av));
                assert(m.drop_last() =~= taken.map_values(|a: Seq<char>| facet_attribute(a)));
            }
            if !vec_has(&found, nc.as_slice()) {
                let ghost before = words_view(found@);
                let ghost before_out = strs_view(out@);
                found.push(nc);
                out.push(name);
                assert(words_view(found@) =~= before.push(facet_attribute(av)));
                assert(strs_view(out@) =~= before_out.push(facet_attribute(av)));
            }
            proof {
                taken = t2;
            }
        }
        i = i + 1;
    }
    proof {
        assert(strs_view(attrs@).take(attrs@.len() as int) =~= strs_view(attrs@));
    }
    out
}

impl IndexSettings {
    /// The default settings with the given faceting entries.
    pub fn default_with_facets(facets: Vec<String>) -> (r: Self)
        ensures
            has_defaults_besides_facets(r),
            strs_view(r.attributes_for_faceting@) == strs_view(facets@),
    {
        let ranking = strings_of(
            &["typo", "geo", "words", "filters", "proximity", "attribute", "exact", "custom"],
        );
        let alternatives = strings_of(&["ignorePlurals", "singleWordSynonym"]);
        proof {
            let items = seq!["typo", "geo", "words", "filters", "proximity", "attribute", "exact", "custom"];
            assert(items.map_values(|s: &str| s@) =~= default_ranking());
        }
        let r = IndexSettings {
            attributes_for_faceting: facets,
            searchable_attributes: None,
            ranking: Some(ranking),
            custom_ranking: None,
            attributes_to_retrieve: None,
            unretrievable_attributes: None,
            attributes_to_highlight: None,
            attributes_to_snippet: None,
            highlight_pre_tag: Some(String::from_str("<em>")),
            highlight_post_tag: Some(String::from_str("</em>")),
            hits_per_page: 20,
            min_word_size_for_1_typo: 4,
            min_word_size_for_2_typos: 8,
            max_values_per_facet: 100,
            pagination_limited_to: 1000,
            exact_on_single_word_query: String::from_str("attribute"),
            query_type: String::from_str("prefixLast"),
            remove_words_if_no_results: String::from_str("none"),
            separators_to_index: String::from_str(""),
            alternatives_as_exact: alternatives,
            optional_words: Vec::new(),
            numeric_attributes_to_index: None,
            attributes_to_index: None,
            version: 1,
            synonyms: None,
            attribute_for_distinct: None,
            distinct: None,
            remove_stop_words: None,
            query_languages: Vec::new(),
            ignore_plurals: None,
            embedders: None,
            mode: None,
            semantic_search: None,
        };
        assert(opt_strs_view(r.ranking) == Some(default_ranking()));
        assert(opt_string_view(r.highlight_pre_tag) == Some("<em>"@));
        assert(strs_view(r.alternatives_as_exact@) == seq!["ignorePlurals"@, "singleWordSynonym"@]);
        assert(r.separators_to_index@ == ""@);
        r
    }

    /// The faceting attributes, modifiers stripped, each once.
    pub fn facet_set(&self) -> (r: Vec<String>)
        ensures
            strs_view(r@) == facet_names(strs_view(self.attributes_for_faceting@)),
    {
        distinct_facets(&self.attributes_for_faceting, false)
    }

    /// The attributes declared `searchable(..)` for faceting, each once.
    pub fn searchable_facet_set(&self) -> (r: Vec<String>)
        ensures
            strs_view(r@) == facet_names(searchable_entries(strs_view(self.attributes_for_faceting@))),
    {
        distinct_facets(&self.attributes_for_faceting, true)
    }

    /// Whether a field may be returned: never when listed as unretrievable;
    /// otherwise when no retrievable list is set, when that list holds `*`, or
    /// when it holds the field.
    pub fn should_retrieve(&self, field: &str) -> (r: bool)
        ensures
            r == retrievable(
                opt_strs_view(self.unretrievable_attributes),
                opt_strs_view(self.attributes_to_retrieve),
                field@,
            ),
    {
        if let Some(unretrievable) = &self.unretrievable_attributes {
            if strings_have(unretrievable, field) {
                return false;
            }
        }
        if let Some(retrievable) = &self.attributes_to_retrieve {
            if strings_have(retrievable, "*") {
                return true;
            }
            return strings_have(retrievable, field);
        }
        true
    }

    /// Whether neural search is the index's mode.
    pub fn is_neural_search_active(&self) -> (r: bool)
        ensures
            r == (self.mode == Some(IndexMode::NeuralSearch)),
    {
        match self.mode {
            Some(IndexMode::NeuralSearch) => true,
            _ => false,
        }
    }

    /// Embedder configurations are accepted as they stand: their validation
    /// belongs to vector search, which this library does not include.
    pub fn validate_embedders(&self) -> (r: Result<(), String>)
        ensures
            r is Ok,
    {
        Ok(())
    }
}

/// Whether a field may be returned.
pub open spec fn retrievable(
    unretrievable: Option<Seq<Seq<char>>>,
    to_retrieve: Option<Seq<Seq<char>>>,
    field: Seq<char>,
) -> bool {
    if unretrievable is Some && unretrievable->0.contains(field) {
        false
    } else if to_retrieve is Some {
        to_retrieve->0.contains("*"@) || to_retrieve->0.contains(field)
    } else {
        true
    }
}

/// An attribute listed as unretrievable is never returned, even when `*` is listed
/// as retrievable.
pub proof fn law_unretrievable_wins(
    unretrievable: Seq<Seq<char>>,
    to_retrieve: Option<Seq<Seq<char>>>,
    field: Seq<char>,
)
    requires
        unretrievable.contains(field),
    ensures
        !retrievable(Some(unretrievable), to_retrieve, field),
{
}

/// A plain attribute name is its own facet attribute.
pub proof fn law_plain_facet_is_itself(attr: Seq<char>)
    requires
        !has_prefix(attr, "filterOnly("@),
        !has_prefix(attr, "searchable("@),
        !has_prefix(attr, "afterDistinct("@),
    ensures
        facet_attribute(attr) == attr,
{
}


/// Two optional members are equal: both absent, or both present with values
/// equal as `serde_json` compares them ([`json_eq`]).
pub open spec fn same_opt(a: Option<JsonV>, b: Option<JsonV>) -> bool {
    match (a, b) {
        (None, None) => true,
        (Some(x), Some(y)) => json_eq(x, y),
        _ => false,
    }
}

/// Whether two configurations hold the same member `key` (both without it, or
/// both with equal values).
fn same_member(a: &Json, b: &Json, key: &str) -> (r: bool)
    ensures
        r == same_opt(member_spec(json_view(*a), key@), member_spec(json_view(*b), key@)),
{
    match (json_member(a, key), json_member(b, key)) {
        (None, None) => true,
        (Some(x), Some(y)) => json_equal(x, y),
        _ => false,
    }
}

/// The names of an embedder configuration list.
pub open spec fn emb_keys(o: Option<Vec<(String, Json)>>) -> Seq<Seq<char>> {
    match o {
        Some(v) => v@.map_values(|p: (String, Json)| p.0@),
        None => seq![],
    }
}

/// The names and configurations of an embedder configuration list.
pub open spec fn emb_view(o: Option<Vec<(String, Json)>>) -> Seq<(Seq<char>, JsonV)> {
    match o {
        Some(v) => members_view(v@),
        None => seq![],
    }
}

/// Two configurations of an embedder differ in their `source`, `model` or
/// `dimensions` member (compared as `serde_json` compares values).
pub open spec fn config_changed(a: JsonV, b: JsonV) -> bool {
    ||| !same_opt(member_spec(a, "source"@), member_spec(b, "source"@))
    ||| !same_opt(member_spec(a, "model"@), member_spec(b, "model"@))
    ||| !same_opt(member_spec(a, "dimensions"@), member_spec(b, "dimensions"@))
}

/// For each old configuration: whether the new list has one of that name that
/// changed (the first of that name is the one compared).
pub open spec fn emb_mods(ov: Seq<(Seq<char>, JsonV)>, nv: Seq<(Seq<char>, JsonV)>) -> Seq<bool> {
    Seq::new(
        ov.len(),
        |i: int|
            match lookup(nv, ov[i].0) {
                Some(c) => config_changed(ov[i].1, c),
                None => false,
            },
    )
}

/// A change as (kind, name): 0 added, 1 removed, 2 modified.
pub open spec fn change_view(c: EmbedderChange) -> (int, Seq<char>) {
    match c {
        EmbedderChange::Added(n) => (0, n@),
        EmbedderChange::Removed(n) => (1, n@),
        EmbedderChange::Modified(n) => (2, n@),
    }
}

/// For the old names in order: Removed when gone, Modified when still there and
/// flagged in `mods`.
pub open spec fn old_side(old_keys: Seq<Seq<char>>, new_keys: Seq<Seq<char>>, mods: Seq<bool>) -> Seq<(int, Seq<char>)>
    decreases old_keys.len(),
{
    if old_keys.len() == 0 {
        seq![]
    } else {
        old_side(old_keys.drop_last(), new_keys, mods) + if !new_keys.contains(old_keys.last()) {
            seq![(1int, old_keys.last())]
        } else if mods[old_keys.len() - 1] {
            seq![(2int, old_keys.last())]
        } else {
            seq![]
        }
    }
}

/// For the new names in order: Added when they were not there before.
pub open spec fn new_side(old_keys: Seq<Seq<char>>, new_keys: Seq<Seq<char>>) -> Seq<(int, Seq<char>)>
    decreases new_keys.len(),
{
    if new_keys.len() == 0 {
        seq![]
    } else {
        new_side(old_keys, new_keys.drop_last()) + if !old_keys.contains(new_keys.last()) {
            seq![(0int, new_keys.last())]
        } else {
            seq![]
        }
    }
}

fn find_embedder(v: &Vec<(String, Json)>, name: &[char]) -> (r: Option<usize>)
    ensures
        match r {
            Some(i) => i < v@.len() && v@[i as int].0@ == name@ && forall|k: int| 0 <= k < i ==> v@[k].0@ != name@,
            None => !v@.map_values(|p: (String, Json)| p.0@).contains(name@),
        },
{
    let mut i: usize = 0;
    while i < v.len()
        invariant
            i <= v@.len(),
            forall|k: int| 0 <= k < i ==> v@[k].0@ != name@,
        decreases v@.len() - i,
    {
        let c = chars_of(v[i].0.as_str());
        if chars_eq(c.as_slice(), name) {
            return Some(i);
        }
        i = i + 1;
    }
    proof {
        let ks = v@.map_values(|p: (String, Json)| p.0@);
        if ks.contains(name@) {
            let k = choose|k: int| 0 <= k < ks.len() && ks[k] == name@;
            assert(v@[k].0@ == name@);
        }
    }
    None
}

/// The changes between two embedder configuration lists: each old name that is
/// gone is Removed, each old name still there is Modified exactly when its
/// `source`, `model` or `dimensions` member differs from the new configuration of
/// that name, and each new name is Added; old names first, in their order, then
/// new names in theirs.
pub fn detect_embedder_changes(
    old: &Option<Vec<(String, Json)>>,
    new: &Option<Vec<(String, Json)>>,
) -> (r: Vec<EmbedderChange>)
    ensures
        r@.map_values(|c: EmbedderChange| change_view(c)) == old_side(
            emb_keys(*old),
            emb_keys(*new),
            emb_mods(emb_view(*old), emb_view(*new)),
        ) + new_side(emb_keys(*old), emb_keys(*new)),
{
    let empty: Vec<(String, Json)> = Vec::new();
    let old_v: &Vec<(String, Json)> = match old {
        Some(v) => v,
        None => &empty,
    };
    let new_v: &Vec<(String, Json)> = match new {
        Some(v) => v,
        None => &empty,
    };
    let ghost ok = emb_keys(*old);
    let ghost nk = emb_keys(*new);
    let ghost ov = emb_view(*old);
    let ghost nv = emb_view(*new);
    let ghost em = emb_mods(ov, nv);
    assert(ok =~= old_v@.map_values(|p: (String, Json)| p.0@));
    assert(nk =~= new_v@.map_values(|p: (String, Json)| p.0@));
    assert(ov =~= members_view(old_v@));
    assert(nv =~= members_view(new_v@));
    let mut out: Vec<EmbedderChange> = Vec::new();
    let mut i: usize = 0;
    assert(out@.map_values(|c: EmbedderChange| change_view(c)) =~= old_side(ok.take(0), nk, em));
    while i < old_v.len()
        invariant
            i <= old_v@.len(),
            ok == old_v@.map_values(|p: (String, Json)| p.0@),
            nk == new_v@.map_values(|p: (String, Json)| p.0@),
            ov == members_view(old_v@),
            nv == members_view(new_v@),
            em == emb_mods(ov, nv),
            out@.map_values(|c: EmbedderChange| change_view(c)) == old_side(ok.take(i as int), nk, em),
        decreases old_v@.len() - i,
    {
        let name = &old_v[i].0;
        let nc = chars_of(name.as_str());
        let ghost before = out@.map_values(|c: EmbedderChange| change_view(c));
        match find_embedder(new_v, nc.as_slice()) {
            None => {
                out.push(EmbedderChange::Removed(name.clone()));
                assert(out@.map_values(|c: EmbedderChange| change_view(c)) =~= before + seq![(1int, nc@)]);
            },
            Some(j) => {
                assert(nk[j as int] == nc@);
                let a = &old_v[i].1;
                let b = &new_v[j].1;
                let changed = !same_member(a, b, "source") || !same_member(a, b, "model")
                    || !same_member(a, b, "dimensions");
                proof {
                    assert(nv[j as int] == (new_v@[j as int].0@, json_view(new_v@[j as int].1)));
                    assert forall|k: int| 0 <= k < j implies nv[k].0 != nc@ by {
                        assert(nv[k].0 == new_v@[k].0@);
                    }
                    crate::document::lemma_lookup_first(nv, nc@, j as int);
                    assert(ov[i as int] == (old_v@[i as int].0@, json_view(old_v@[i as int].1)));
                    assert(em[i as int] == config_changed(json_view(*a), json_view(*b)));
                }
                if changed {
                    out.push(EmbedderChange::Modified(name.clone()));
                    assert(out@.map_values(|c: EmbedderChange| change_view(c)) =~= before + seq![(2int, nc@)]);
                } else {
                    assert(out@.map_values(|c: EmbedderChange| change_view(c)) =~= before + Seq::<(int, Seq<char>)>::empty());
                }
            },
        }
        proof {
            let t = ok.take(i + 1);
            assert(t.drop_last() =~= ok.take(i as int));
            assert(t.last() == nc@);
            assert(ok[i as int] == nc@);
        }
        i = i + 1;
    }
    assert(ok.take(old_v@.len() as int) =~= ok);
    let ghost base = out@.map_values(|c: EmbedderChange| change_view(c));
    let mut j: usize = 0;
    assert(out@.map_values(|c: EmbedderChange| change_view(c)) =~= base + new_side(ok, nk.take(0)));
    while j < new_v.len()
        invariant
            j <= new_v@.len(),
            ok == old_v@.map_values(|p: (String, Json)| p.0@),
            nk == new_v@.map_values(|p: (String, Json)| p.0@),
            out@.map_values(|c: EmbedderChange| change_view(c)) == base + new_side(ok, nk.take(j as int)),
        decreases new_v@.len() - j,
    {
        let name = &new_v[j].0;
        let nc = chars_of(name.as_str());
        let ghost before = out@.map_values(|c: EmbedderChange| change_view(c));
        assert(nk[j as int] == nc@);
        match find_embedder(old_v, nc.as_slice()) {
            None => {
                out.push(EmbedderChange::Added(name.clone()));
                assert(out@.map_values(|c: EmbedderChange| change_view(c)) =~= before + seq![(0int, nc@)]);
            },
            Some(k) => {
                assert(ok[k as int] == nc@);
                assert(ok.contains(nc@));
            },
        }
        proof {
            let t = nk.take(j + 1);
            assert(t.drop_last() =~= nk.take(j as int));
            assert(t.last() == nc@);
        }
        j = j + 1;
    }
    assert(nk.take(new_v@.len() as int) =~= nk);
    out
}

/// Names present on one side only are reported as added or removed; with no
/// configuration on either side nothing changes.
pub proof fn law_no_embedders_no_changes(mods: Seq<bool>)
    ensures
        old_side(seq![], seq![], mods) + new_side(seq![], seq![]) == Seq::<(int, Seq<char>)>::empty(),
{
    assert(old_side(seq![], seq![], mods) + new_side(seq![], seq![]) =~= Seq::<(int, Seq<char>)>::empty());
}

} // verus!
