//! Turning a document into the engine's document: its id, the split of its
//! other members between the searched and the filtered JSON fields, and the
//! facet paths of its faceted members.
use vstd::prelude::*;
use crate::document::{
    clone_json, filter_members, json_member, json_view, lemma_object_view, lookup, members_view,
    search_members, split_by_type, string_items, Json, JsonV,
};
use crate::error::FlapjackError;
use crate::search_schema::{index_field_names, lookup_field, schema_field_names};
use crate::settings::{facet_names, IndexSettings};
use crate::synonyms::strs_view;
use tantivy::schema::{Field, OwnedValue, Schema as EngineSchema};
use tantivy::TantivyDocument;
use crate::text::{chars_eq, chars_of, has_prefix, starts_with_chars, string_from_chars};

verus! {

// ---------------------------------------------------------------------------
// The document's id and members
// ---------------------------------------------------------------------------

/// The members of an object (none for any other value).
pub open spec fn obj_members(d: JsonV) -> Seq<(Seq<char>, JsonV)> {
    match d {
        JsonV::Object(e) => e,
        _ => seq![],
    }
}

/// The member that names a document: `_id` when there is one, else `objectID`.
pub open spec fn id_member(e: Seq<(Seq<char>, JsonV)>) -> Option<JsonV> {
    match lookup(e, "_id"@) {
        Some(v) => Some(v),
        None => lookup(e, "objectID"@),
    }
}

/// A document's id: the text of its naming member (none when that member is
/// missing or not a text).
pub open spec fn id_of(e: Seq<(Seq<char>, JsonV)>) -> Option<Seq<char>> {
    match id_member(e) {
        Some(JsonV::Str(s)) => Some(s),
        _ => None,
    }
}

/// The two member names that carry a document's id.
pub open spec fn is_id_key(k: Seq<char>) -> bool {
    k == "_id"@ || k == "objectID"@
}

/// A document's members other than the two that carry its id, in order.
pub open spec fn without_ids(e: Seq<(Seq<char>, JsonV)>) -> Seq<(Seq<char>, JsonV)>
    decreases e.len(),
{
    if e.len() == 0 {
        seq![]
    } else if is_id_key(e.last().0) {
        without_ids(e.drop_last())
    } else {
        without_ids(e.drop_last()).push(e.last())
    }
}

/// The filtered JSON of a document's members: their filter parts, then the
/// document's id under `objectID`.
pub open spec fn filter_with_id(e: Seq<(Seq<char>, JsonV)>, id: Seq<char>) -> JsonV {
    JsonV::Object(filter_members(e).push(("objectID"@, JsonV::Str(id))))
}

proof fn lemma_without_ids_keys(e: Seq<(Seq<char>, JsonV)>)
    ensures
        forall|k: int| 0 <= k < without_ids(e).len() ==> !is_id_key(#[trigger] without_ids(e)[k].0),
    decreases e.len(),
{
    if e.len() > 0 {
        lemma_without_ids_keys(e.drop_last());
        let a = without_ids(e.drop_last());
        assert forall|k: int| 0 <= k < without_ids(e).len() implies !is_id_key(#[trigger] without_ids(e)[k].0) by {
            if k < a.len() {
                assert(without_ids(e)[k] == a[k]);
            }
        }
    }
}

proof fn lemma_filter_keys(e: Seq<(Seq<char>, JsonV)>)
    ensures
        forall|k: int|
            0 <= k < filter_members(e).len() ==> exists|i: int| 0 <= i < e.len() && #[trigger] filter_members(e)[k].0 == e[i].0,
    decreases e.len(),
{
    if e.len() > 0 {
        let p = e.drop_last();
        lemma_filter_keys(p);
        let a = filter_members(p);
        assert forall|k: int| 0 <= k < filter_members(e).len() implies exists|i: int|
            0 <= i < e.len() && #[trigger] filter_members(e)[k].0 == e[i].0 by {
            if k < a.len() {
                assert(filter_members(e)[k] == a[k]);
                let i = choose|i: int| 0 <= i < p.len() && a[k].0 == p[i].0;
                assert(p[i] == e[i]);
            } else {
                assert(filter_members(e)[k].0 == e[e.len() - 1].0);
            }
        }
    }
}

/// The filtered JSON of a document has no `objectID` member before the id is
/// added, so adding it under that name only ever appends it.
pub proof fn law_filter_gains_object_id(e: Seq<(Seq<char>, JsonV)>)
    ensures
        forall|k: int|
            0 <= k < filter_members(without_ids(e)).len() ==> #[trigger] filter_members(without_ids(e))[k].0
                != "objectID"@,
{
    lemma_without_ids_keys(e);
    lemma_filter_keys(without_ids(e));
    assert forall|k: int| 0 <= k < filter_members(without_ids(e)).len() implies #[trigger] filter_members(
        without_ids(e),
    )[k].0 != "objectID"@ by {
        let w = without_ids(e);
        let i = choose|i: int| 0 <= i < w.len() && filter_members(w)[k].0 == w[i].0;
        assert(!is_id_key(w[i].0));
    }
}

/// The id of a document: its `_id` member when it has one, else its `objectID`
/// member. A value that is not an object is refused as an invalid document; a
/// missing id, or one that is not a text, is refused as a missing `objectID`.
pub fn document_id(doc: &Json) -> (r: Result<String, FlapjackError>)
    ensures
        r is Ok <==> (json_view(*doc) is Object && id_of(obj_members(json_view(*doc))) is Some),
        r is Ok ==> id_of(obj_members(json_view(*doc))) == Some(r->Ok_0@),
        json_view(*doc) !is Object ==> (r matches Err(FlapjackError::InvalidDocument(m)) && m@
            == "Expected JSON object"@),
        json_view(*doc) is Object && id_of(obj_members(json_view(*doc))) is None ==> (r matches Err(
            FlapjackError::MissingField(m),
        ) && m@ == "objectID"@),
{
    match doc {
        Json::Object(v) => {
            proof {
                lemma_object_view(*v);
            }
            let named = match json_member(doc, "_id") {
                Some(x) => Some(x),
                None => json_member(doc, "objectID"),
            };
            match named {
                Some(Json::Str(s)) => Ok(s.clone()),
                _ => Err(FlapjackError::MissingField(String::from_str("objectID"))),
            }
        },
        _ => Err(FlapjackError::InvalidDocument(String::from_str("Expected JSON object"))),
    }
}

fn is_id_name(k: &str) -> (r: bool)
    ensures
        r == is_id_key(k@),
{
    let c = chars_of(k);
    let a = chars_of("_id");
    let b = chars_of("objectID");
    chars_eq(c.as_slice(), a.as_slice()) || chars_eq(c.as_slice(), b.as_slice())
}

/// The members of a document other than `_id` and `objectID`, in order.
pub fn document_fields(members: &Vec<(String, Json)>) -> (r: Vec<(String, Json)>)
    ensures
        members_view(r@) == without_ids(members_view(members@)),
{
    let ghost mv = members_view(members@);
    let mut out: Vec<(String, Json)> = Vec::new();
    let mut i: usize = 0;
    assert(members_view(out@) =~= without_ids(mv.take(0)));
    while i < members.len()
        invariant
            i <= members@.len(),
            mv == members_view(members@),
            members_view(out@) == without_ids(mv.take(i as int)),
        decreases members@.len() - i,
    {
        let ghost before = out@;
        proof {
            assert(mv.take(i + 1).drop_last() =~= mv.take(i as int));
            assert(mv.take(i + 1).last() == (members@[i as int].0@, json_view(members@[i as int].1)));
        }
        if !is_id_name(members[i].0.as_str()) {
            let k = members[i].0.clone();
            let v = clone_json(&members[i].1);
            out.push((k, v));
            assert(out@ == before.push((k, v)));
            assert(members_view(out@) =~= members_view(before).push((k@, json_view(v))));
        }
        i = i + 1;
    }
    assert(mv.take(members@.len() as int) =~= mv);
    out
}

// ---------------------------------------------------------------------------
// Facet paths
// ---------------------------------------------------------------------------

/// The facet path of a value of a member: `/name/value`.
pub open spec fn facet_path(name: Seq<char>, value: Seq<char>) -> Seq<char> {
    seq!['/'] + name + seq!['/'] + value
}

/// The facet paths of a document's text members, in order.
pub open spec fn text_facets_spec(e: Seq<(Seq<char>, JsonV)>) -> Seq<Seq<char>>
    decreases e.len(),
{
    if e.len() == 0 {
        seq![]
    } else {
        text_facets_spec(e.drop_last()) + match e.last().1 {
            JsonV::Str(s) => seq![facet_path(e.last().0, s)],
            _ => seq![],
        }
    }
}

fn make_facet_path(name: &str, value: &[char]) -> (r: String)
    ensures
        r@ == facet_path(name@, value@),
{
    let mut v: Vec<char> = Vec::new();
    v.push('/');
    let mut n = chars_of(name);
    v.append(&mut n);
    v.push('/');
    let mut i: usize = 0;
    let ghost head = v@;
    while i < value.len()
        invariant
            i <= value@.len(),
            v@ == head + value@.take(i as int),
        decreases value@.len() - i,
    {
        v.push(value[i]);
        i = i + 1;
        assert(v@ =~= head + value@.take(i as int));
    }
    assert(value@.take(value@.len() as int) =~= value@);
    assert(v@ =~= facet_path(name@, value@));
    string_from_chars(v.as_slice())
}

/// The facet paths of the text members among a document's members (`/name/value`
/// for each, in order).
pub fn text_facet_paths(fields: &Vec<(String, Json)>) -> (r: Vec<String>)
    ensures
        strs_view(r@) == text_facets_spec(members_view(fields@)),
{
    let ghost mv = members_view(fields@);
    let mut out: Vec<String> = Vec::new();
    let mut i: usize = 0;
    assert(strs_view(out@) =~= text_facets_spec(mv.take(0)));
    while i < fields.len()
        invariant
            i <= fields@.len(),
            mv == members_view(fields@),
            strs_view(out@) == text_facets_spec(mv.take(i as int)),
        decreases fields@.len() - i,
    {
        let ghost before = out@;
        proof {
            assert(mv.take(i + 1).drop_last() =~= mv.take(i as int));
            assert(mv.take(i + 1).last() == (fields@[i as int].0@, json_view(fields@[i as int].1)));
        }
        match &fields[i].1 {
            Json::Str(s) => {
                let sc = chars_of(s.as_str());
                let p = make_facet_path(fields[i].0.as_str(), sc.as_slice());
                out.push(p);
                assert(out@ == before.push(p));
                assert(strs_view(out@) =~= strs_view(before) + seq![p@]);
            },
            _ => {
                assert(strs_view(out@) =~= strs_view(before) + Seq::<Seq<char>>::empty());
            },
        }
        i = i + 1;
    }
    assert(mv.take(fields@.len() as int) =~= mv);
    out
}

/// The bytes a character takes in UTF-8.
pub open spec fn utf8_len(c: char) -> nat {
    if (c as u32) < 0x80 {
        1
    } else if (c as u32) < 0x800 {
        2
    } else if (c as u32) < 0x10000 {
        3
    } else {
        4
    }
}

/// The bytes a text takes in UTF-8.
pub open spec fn byte_len(s: Seq<char>) -> nat
    decreases s.len(),
{
    if s.len() == 0 {
        0
    } else {
        utf8_len(s[0]) + byte_len(s.drop_first())
    }
}

/// How many characters of `s`, from the start, fit in `budget` bytes.
pub open spec fn fit_len(s: Seq<char>, budget: int) -> nat
    decreases s.len(),
{
    if s.len() == 0 || utf8_len(s[0]) > budget {
        0
    } else {
        1 + fit_len(s.drop_first(), budget - utf8_len(s[0]))
    }
}

/// The text a facet keeps of a value: its first 1000 bytes.
pub open spec fn facet_text(s: Seq<char>) -> Seq<char> {
    s.take(fit_len(s, 1000) as int)
}

/// A text of at most 1000 bytes, or one whose 1000th byte ends a character
/// (the engine refuses to cut a character apart).
pub open spec fn cuts_cleanly(s: Seq<char>) -> bool {
    byte_len(s) <= 1000 || byte_len(facet_text(s)) == 1000
}

/// A member is faceted when the faceting attributes name it, or name one of
/// its sub-fields (`name.` followed by more).
pub open spec fn is_faceted(name: Seq<char>, set: Seq<Seq<char>>) -> bool {
    exists|i: int| 0 <= i < set.len() && (set[i] == name || has_prefix(set[i], name + seq!['.']))
}

/// The facet paths of one member: for a faceted text, its path; for a faceted
/// array, the path of each text item in order; nothing otherwise.
pub open spec fn member_facets(name: Seq<char>, v: JsonV, set: Seq<Seq<char>>) -> Seq<Seq<char>> {
    if !is_faceted(name, set) {
        seq![]
    } else {
        match v {
            JsonV::Str(s) => seq![facet_path(name, facet_text(s))],
            JsonV::Array(items) => string_items(items).map_values(|t: Seq<char>| facet_path(name, facet_text(t))),
            _ => seq![],
        }
    }
}

/// The facet paths of a document's members, member by member.
pub open spec fn facet_paths_spec(e: Seq<(Seq<char>, JsonV)>, set: Seq<Seq<char>>) -> Seq<Seq<char>>
    decreases e.len(),
{
    if e.len() == 0 {
        seq![]
    } else {
        facet_paths_spec(e.drop_last(), set) + member_facets(e.last().0, e.last().1, set)
    }
}

/// Every faceted text (member or array item) cuts cleanly.
pub open spec fn facet_texts_cut_cleanly(e: Seq<(Seq<char>, JsonV)>, set: Seq<Seq<char>>) -> bool {
    forall|i: int|
        0 <= i < e.len() && is_faceted(#[trigger] e[i].0, set) ==> match e[i].1 {
            JsonV::Str(s) => cuts_cleanly(s),
            JsonV::Array(items) => forall|j: int|
                0 <= j < items.len() ==> (#[trigger] items[j] matches JsonV::Str(t) ==> cuts_cleanly(t)),
            _ => true,
        }
}

/// A text of at most 1000 bytes is kept whole in its facet.
pub proof fn law_short_text_kept(s: Seq<char>)
    requires
        byte_len(s) <= 1000,
    ensures
        facet_text(s) == s,
{
    lemma_fit_whole(s, 1000);
    assert(s.take(s.len() as int) =~= s);
}

proof fn lemma_fit_whole(s: Seq<char>, budget: int)
    requires
        byte_len(s) <= budget,
    ensures
        fit_len(s, budget) == s.len(),
    decreases s.len(),
{
    if s.len() > 0 {
        lemma_fit_whole(s.drop_first(), budget - utf8_len(s[0]));
    }
}

fn char_utf8_len(c: char) -> (r: usize)
    ensures
        r == utf8_len(c),
{
    let u = c as u32;
    if u < 0x80 {
        1
    } else if u < 0x800 {
        2
    } else if u < 0x10000 {
        3
    } else {
        4
    }
}

/// The characters a facet keeps of a text (see [`facet_text`]).
fn facet_text_chars(s: &str) -> (r: Vec<char>)
    ensures
        r@ == facet_text(s@),
{
    let mut c = chars_of(s);
    let mut i: usize = 0;
    let mut budget: usize = 1000;
    assert(c@.skip(0) =~= c@);
    while i < c.len() && char_utf8_len(c[i]) <= budget
        invariant
            i <= c@.len(),
            budget <= 1000,
            c@ == s@,
            fit_len(c@, 1000) == i + fit_len(c@.skip(i as int), budget as int),
        decreases c@.len() - i,
    {
        let l = char_utf8_len(c[i]);
        proof {
            let t = c@.skip(i as int);
            assert(t[0] == c@[i as int]);
            assert(t.drop_first() =~= c@.skip(i + 1));
        }
        budget = budget - l;
        i = i + 1;
    }
    proof {
        let t = c@.skip(i as int);
        if i < c@.len() {
            assert(t[0] == c@[i as int]);
        }
    }
    c.truncate(i);
    c
}

fn faceted(name: &str, set: &Vec<String>) -> (r: bool)
    ensures
        r == is_faceted(name@, strs_view(set@)),
{
    let n = chars_of(name);
    let mut nd = chars_of(name);
    nd.push('.');
    let mut i: usize = 0;
    while i < set.len()
        invariant
            i <= set@.len(),
            n@ == name@,
            nd@ == name@ + seq!['.'],
            forall|k: int|
                0 <= k < i ==> !(#[trigger] strs_view(set@)[k] == name@ || has_prefix(
                    strs_view(set@)[k],
                    name@ + seq!['.'],
                )),
        decreases set@.len() - i,
    {
        let sc = chars_of(set[i].as_str());
        assert(strs_view(set@)[i as int] == set@[i as int]@);
        if chars_eq(sc.as_slice(), n.as_slice()) || starts_with_chars(sc.as_slice(), nd.as_slice()) {
            return true;
        }
        i = i + 1;
    }
    false
}

/// The facet paths of a document's faceted members: a member is faceted when
/// the faceting attributes name it or one of its sub-fields; a faceted text
/// gives `/name/text`, a faceted array gives that path for each of its text
/// items, and texts are cut to their first 1000 bytes.
pub fn facet_paths(fields: &Vec<(String, Json)>, facet_set: &Vec<String>) -> (r: Vec<String>)
    requires
        facet_texts_cut_cleanly(members_view(fields@), strs_view(facet_set@)),
    ensures
        strs_view(r@) == facet_paths_spec(members_view(fields@), strs_view(facet_set@)),
{
    let ghost mv = members_view(fields@);
    let ghost set = strs_view(facet_set@);
    let mut out: Vec<String> = Vec::new();
    let mut i: usize = 0;
    assert(strs_view(out@) =~= facet_paths_spec(mv.take(0), set));
    while i < fields.len()
        invariant
            i <= fields@.len(),
            mv == members_view(fields@),
            set == strs_view(facet_set@),
            strs_view(out@) == facet_paths_spec(mv.take(i as int), set),
        decreases fields@.len() - i,
    {
        let ghost before = strs_view(out@);
        let ghost name = fields@[i as int].0@;
        proof {
            assert(mv.take(i + 1).drop_last() =~= mv.take(i as int));
            assert(mv.take(i + 1).last() == (name, json_view(fields@[i as int].1)));
        }
        if faceted(fields[i].0.as_str(), facet_set) {
            match &fields[i].1 {
                Json::Str(s) => {
                    let t = facet_text_chars(s.as_str());
                    let p = make_facet_path(fields[i].0.as_str(), t.as_slice());
                    out.push(p);
                    assert(strs_view(out@) =~= before + seq![p@]);
                },
                Json::Array(items) => {
                    proof {
                        crate::document::lemma_array_view(*items);
                    }
                    let ghost iv = crate::document::items_view(items@);
                    let mut j: usize = 0;
                    assert(string_items(iv.take(0)) =~= Seq::<Seq<char>>::empty());
                    while j < items.len()
                        invariant
                            j <= items@.len(),
                            i < fields@.len(),
                            fields@[i as int].1 == Json::Array(*items),
                            iv == crate::document::items_view(items@),
                            name == fields@[i as int].0@,
                            strs_view(out@) == before + string_items(iv.take(j as int)).map_values(
                                |t: Seq<char>| facet_path(name, facet_text(t)),
                            ),
                        decreases items@.len() - j,
                    {
                        let ghost w = string_items(iv.take(j as int));
                        proof {
                            assert(iv.take(j + 1).drop_last() =~= iv.take(j as int));
                            assert(iv.take(j + 1).last() == json_view(items@[j as int]));
                        }
                        match &items[j] {
                            Json::Str(s) => {
                                let t = facet_text_chars(s.as_str());
                                let p = make_facet_path(fields[i].0.as_str(), t.as_slice());
                                let ghost b2 = out@;
                                out.push(p);
                                proof {
                                    assert(string_items(iv.take(j + 1)) =~= w.push(s@));
                                    assert(w.push(s@).map_values(|t: Seq<char>| facet_path(name, facet_text(t)))
                                        =~= w.map_values(|t: Seq<char>| facet_path(name, facet_text(t))).push(
                                        p@,
                                    ));
                                    assert(strs_view(out@) =~= strs_view(b2).push(p@));
                                }
                            },
                            _ => {
                                proof {
                                    assert(string_items(iv.take(j + 1)) =~= w);
                                }
                            },
                        }
                        j = j + 1;
                    }
                    assert(iv.take(items@.len() as int) =~= iv);
                },
                _ => {
                    assert(strs_view(out@) =~= before + Seq::<Seq<char>>::empty());
                },
            }
        } else {
            assert(strs_view(out@) =~= before + Seq::<Seq<char>>::empty());
        }
        i = i + 1;
    }
    assert(mv.take(fields@.len() as int) =~= mv);
    out
}

/// The position of the first member named `k`, if any.
pub open spec fn first_key(e: Seq<(Seq<char>, JsonV)>, k: Seq<char>) -> Option<int>
    decreases e.len(),
{
    if e.len() == 0 {
        None
    } else if e[0].0 == k {
        Some(0)
    } else {
        match first_key(e.drop_first(), k) {
            Some(i) => Some(i + 1),
            None => None,
        }
    }
}

/// The members with `v` stored under `k`: the first member of that name takes
/// the value in its place; without one, the member is appended.
pub open spec fn put_member(e: Seq<(Seq<char>, JsonV)>, k: Seq<char>, v: JsonV) -> Seq<(Seq<char>, JsonV)> {
    match first_key(e, k) {
        Some(i) => e.update(i, (k, v)),
        None => e.push((k, v)),
    }
}

proof fn lemma_first_key(e: Seq<(Seq<char>, JsonV)>, k: Seq<char>, i: int)
    requires
        0 <= i < e.len(),
        e[i].0 == k,
        forall|j: int| 0 <= j < i ==> e[j].0 != k,
    ensures
        first_key(e, k) == Some(i),
    decreases e.len(),
{
    if i > 0 {
        let t = e.drop_first();
        assert forall|j: int| 0 <= j < i - 1 implies t[j].0 != k by {
            assert(t[j] == e[j + 1]);
        }
        lemma_first_key(t, k, i - 1);
    }
}

proof fn lemma_first_key_none(e: Seq<(Seq<char>, JsonV)>, k: Seq<char>)
    requires
        forall|j: int| 0 <= j < e.len() ==> e[j].0 != k,
    ensures
        first_key(e, k) is None,
    decreases e.len(),
{
    if e.len() > 0 {
        let t = e.drop_first();
        assert forall|j: int| 0 <= j < t.len() implies t[j].0 != k by {
            assert(t[j] == e[j + 1]);
        }
        lemma_first_key_none(t, k);
    }
}

/// Store `value` under `key` among the members (see [`put_member`]).
pub fn put_json_member(members: &mut Vec<(String, Json)>, key: &str, value: Json)
    ensures
        members_view(final(members)@) == put_member(members_view(old(members)@), key@, json_view(value)),
{
    let ghost mv = members_view(members@);
    let kc = chars_of(key);
    let mut i: usize = 0;
    while i < members.len()
        invariant
            i <= members@.len(),
            mv == members_view(members@),
            mv == members_view(old(members)@),
            kc@ == key@,
            forall|j: int| 0 <= j < i ==> mv[j].0 != key@,
        decreases members@.len() - i,
    {
        let c = chars_of(members[i].0.as_str());
        assert(mv[i as int].0 == members@[i as int].0@);
        if chars_eq(c.as_slice(), kc.as_slice()) {
            proof {
                lemma_first_key(mv, key@, i as int);
            }
            let ghost before = members@;
            let k = String::from_str(key);
            members.set(i, (k, value));
            proof {
                assert(members@ == before.update(i as int, (k, value)));
                assert(members_view(members@) =~= mv.update(i as int, (key@, json_view(value))));
            }
            return;
        }
        i = i + 1;
    }
    proof {
        lemma_first_key_none(mv, key@);
    }
    let ghost before = members@;
    let k = String::from_str(key);
    members.push((k, value));
    proof {
        assert(members@ == before.push((k, value)));
        assert(members_view(members@) =~= mv.push((key@, json_view(value))));
    }
}

// ---------------------------------------------------------------------------
// A document's parts
// ---------------------------------------------------------------------------

/// What a document contributes to the index, before it becomes the engine's
/// document.
pub struct DocumentParts {
    /// The document's id.
    pub id: String,
    /// The searched JSON: the text parts of its members.
    pub search: Json,
    /// The filtered JSON: the filter parts of its members, and `objectID`.
    pub filter: Json,
    /// The facet paths of its text members.
    pub facets: Vec<String>,
}

/// Whether a facet path starts at the root (`/`), as the engine requires.
pub open spec fn rooted(p: Seq<char>) -> bool {
    p.len() > 0 && p[0] == '/'
}

proof fn lemma_text_facets_rooted(e: Seq<(Seq<char>, JsonV)>)
    ensures
        forall|k: int| 0 <= k < text_facets_spec(e).len() ==> rooted(#[trigger] text_facets_spec(e)[k]),
    decreases e.len(),
{
    if e.len() > 0 {
        lemma_text_facets_rooted(e.drop_last());
        let a = text_facets_spec(e.drop_last());
        assert forall|k: int| 0 <= k < text_facets_spec(e).len() implies rooted(#[trigger] text_facets_spec(e)[k]) by {
            if k >= a.len() {
                match e.last().1 {
                    JsonV::Str(s) => {
                        assert(text_facets_spec(e)[k] == facet_path(e.last().0, s));
                    },
                    _ => {},
                }
            } else {
                assert(text_facets_spec(e)[k] == a[k]);
            }
        }
    }
}

proof fn lemma_facets_rooted(e: Seq<(Seq<char>, JsonV)>, set: Seq<Seq<char>>)
    ensures
        forall|k: int| 0 <= k < facet_paths_spec(e, set).len() ==> rooted(#[trigger] facet_paths_spec(e, set)[k]),
    decreases e.len(),
{
    if e.len() > 0 {
        lemma_facets_rooted(e.drop_last(), set);
        let a = facet_paths_spec(e.drop_last(), set);
        let b = member_facets(e.last().0, e.last().1, set);
        assert forall|k: int| 0 <= k < facet_paths_spec(e, set).len() implies rooted(
            #[trigger] facet_paths_spec(e, set)[k],
        ) by {
            if k >= a.len() {
                assert(facet_paths_spec(e, set)[k] == b[k - a.len()]);
            } else {
                assert(facet_paths_spec(e, set)[k] == a[k]);
            }
        }
    }
}

/// A document's parts: its id (see [`document_id`]), the searched and the
/// filtered JSON of its other members (split as [`split_by_type`] does, with
/// the id added to the filtered JSON under `objectID`), and the facet paths of
/// its text members. Refused as [`document_id`] refuses.
pub fn document_parts(doc: &Json) -> (r: Result<DocumentParts, FlapjackError>)
    ensures
        r is Ok <==> (json_view(*doc) is Object && id_of(obj_members(json_view(*doc))) is Some),
        r is Ok ==> ({
            let e = without_ids(obj_members(json_view(*doc)));
            let p = r->Ok_0;
            &&& id_of(obj_members(json_view(*doc))) == Some(p.id@)
            &&& json_view(p.search) == JsonV::Object(search_members(e))
            &&& json_view(p.filter) == filter_with_id(e, p.id@)
            &&& strs_view(p.facets@) == text_facets_spec(e)
        }),
        json_view(*doc) !is Object ==> (r matches Err(FlapjackError::InvalidDocument(m)) && m@
            == "Expected JSON object"@),
        json_view(*doc) is Object && id_of(obj_members(json_view(*doc))) is None ==> (r matches Err(
            FlapjackError::MissingField(m),
        ) && m@ == "objectID"@),
{
    let id = match document_id(doc) {
        Ok(id) => id,
        Err(e) => {
            return Err(e);
        },
    };
    match doc {
        Json::Object(members) => {
            proof {
                lemma_object_view(*members);
            }
            let fields = document_fields(members);
            let facets = text_facet_paths(&fields);
            proof {
                lemma_object_view(fields);
            }
            let whole = Json::Object(fields);
            let (search, filter) = split_by_type(&whole);
            let filter = match filter {
                Json::Object(mut fv) => {
                    proof {
                        lemma_object_view(fv);
                    }
                    let ghost before = fv@;
                    let key = String::from_str("objectID");
                    let value = Json::Str(id.clone());
                    fv.push((key, value));
                    proof {
                        assert(fv@ == before.push((key, value)));
                        assert(members_view(fv@) =~= members_view(before).push((key@, json_view(value))));
                        lemma_object_view(fv);
                    }
                    Json::Object(fv)
                },
                other => other,
            };
            Ok(DocumentParts { id, search, filter, facets })
        },
        _ => Err(FlapjackError::InvalidDocument(String::from_str("Expected JSON object"))),
    }
}

// ---------------------------------------------------------------------------
// The engine's document
// ---------------------------------------------------------------------------

/// `tantivy::schema::OwnedValue`, the engine's value.
#[verifier::external_type_specification]
#[verifier::external_body]
pub struct ExOwnedValue(OwnedValue);

/// What an engine value holds, as far as this library reads it.
pub enum OwnedV {
    Null,
    Bool(bool),
    Str(Seq<char>),
    /// A number: the JSON number `serde_json` makes of the engine's `I64`,
    /// `U64` or finite `F64` value (`Number::from` for integers,
    /// `Number::from_f64` for floats).
    Number(serde_json::Number),
    Array(Seq<OwnedV>),
    /// An object: its members by name.
    Object(Map<Seq<char>, OwnedV>),
    /// Any other engine value (a float that is not finite, dates, facets,
    /// bytes, addresses, pre-tokenized texts).
    Other,
}

/// What an engine value holds (see [`OwnedV`]).
pub uninterp spec fn owned_view(v: OwnedValue) -> OwnedV;

/// The map of named entries in which a later entry of a name replaces an
/// earlier one (what collecting them into an ordered map gives).
pub open spec fn last_map<V>(s: Seq<(Seq<char>, V)>) -> Map<Seq<char>, V>
    decreases s.len(),
{
    if s.len() == 0 {
        Map::empty()
    } else {
        last_map(s.drop_last()).insert(s.last().0, s.last().1)
    }
}

/// The engine value of a JSON value: null, booleans, texts and numbers as they
/// are; arrays item by item; objects as the map of their members by name, a
/// later member of a name replacing an earlier one.
pub open spec fn engine_value(j: JsonV) -> OwnedV
    decreases j, 1int,
{
    match j {
        JsonV::Null => OwnedV::Null,
        JsonV::Bool(b) => OwnedV::Bool(b),
        JsonV::Str(t) => OwnedV::Str(t),
        JsonV::Number(n) => OwnedV::Number(n),
        JsonV::Array(u) => OwnedV::Array(engine_items(u)),
        JsonV::Object(e) => OwnedV::Object(last_map(engine_pairs(e))),
    }
}

/// The engine values of an array's items.
pub open spec fn engine_items(u: Seq<JsonV>) -> Seq<OwnedV>
    decreases u, 0int,
{
    Seq::new(
        u.len(),
        |i: int|
            if 0 <= i < u.len() {
                engine_value(u[i])
            } else {
                OwnedV::Null
            },
    )
}

/// The members of an object with their engine values.
pub open spec fn engine_pairs(e: Seq<(Seq<char>, JsonV)>) -> Seq<(Seq<char>, OwnedV)>
    decreases e, 0int,
{
    Seq::new(
        e.len(),
        |i: int|
            if 0 <= i < e.len() {
                (e[i].0, engine_value(e[i].1))
            } else {
                (Seq::<char>::empty(), OwnedV::Null)
            },
    )
}

/// The engine's object of an object's members.
pub open spec fn object_map(e: Seq<(Seq<char>, JsonV)>) -> Map<Seq<char>, OwnedV> {
    last_map(engine_pairs(e))
}

/// Named engine values with their content.
pub open spec fn owned_pairs(v: Seq<(String, OwnedValue)>) -> Seq<(Seq<char>, OwnedV)> {
    v.map_values(|p: (String, OwnedValue)| (p.0@, owned_view(p.1)))
}

proof fn lemma_last_map_dom<V>(s: Seq<(Seq<char>, V)>, k: Seq<char>)
    ensures
        last_map(s).dom().contains(k) <==> exists|i: int| 0 <= i < s.len() && (#[trigger] s[i]).0 == k,
    decreases s.len(),
{
    if s.len() > 0 {
        let p = s.drop_last();
        lemma_last_map_dom(p, k);
        if exists|i: int| 0 <= i < p.len() && (#[trigger] p[i]).0 == k {
            let i = choose|i: int| 0 <= i < p.len() && (#[trigger] p[i]).0 == k;
            assert(s[i] == p[i]);
        }
        if exists|i: int| 0 <= i < s.len() && (#[trigger] s[i]).0 == k {
            let i = choose|i: int| 0 <= i < s.len() && (#[trigger] s[i]).0 == k;
            if i < p.len() {
                assert(p[i] == s[i]);
            }
        }
    }
}

proof fn lemma_last_map_value<V>(s: Seq<(Seq<char>, V)>, k: Seq<char>, j: int)
    requires
        0 <= j < s.len(),
        s[j].0 == k,
        forall|i: int| j < i < s.len() ==> (#[trigger] s[i]).0 != k,
    ensures
        last_map(s).dom().contains(k),
        last_map(s)[k] == s[j].1,
    decreases s.len(),
{
    if j < s.len() - 1 {
        let p = s.drop_last();
        assert forall|i: int| j < i < p.len() implies (#[trigger] p[i]).0 != k by {
            assert(p[i] == s[i]);
        }
        assert(p[j] == s[j]);
        lemma_last_map_value(p, k, j);
        assert(s[s.len() - 1].0 != k);
    }
}

proof fn lemma_search_keys(e: Seq<(Seq<char>, JsonV)>)
    ensures
        forall|k: int|
            0 <= k < search_members(e).len() ==> exists|i: int| 0 <= i < e.len() && #[trigger] search_members(e)[k].0 == e[i].0,
    decreases e.len(),
{
    if e.len() > 0 {
        let p = e.drop_last();
        lemma_search_keys(p);
        let a = search_members(p);
        assert forall|k: int| 0 <= k < search_members(e).len() implies exists|i: int|
            0 <= i < e.len() && #[trigger] search_members(e)[k].0 == e[i].0 by {
            if k < a.len() {
                assert(search_members(e)[k] == a[k]);
                let i = choose|i: int| 0 <= i < p.len() && a[k].0 == p[i].0;
                assert(p[i] == e[i]);
            } else {
                assert(search_members(e)[k].0 == e[e.len() - 1].0);
            }
        }
    }
}

/// What [`json_to_tantivy_doc`] puts in its objects: the filter object maps
/// `objectID` to the document's id, and the searched object holds neither
/// `_id` nor `objectID`.
pub proof fn law_json_doc_objects(e: Seq<(Seq<char>, JsonV)>, id: Seq<char>)
    ensures
        object_map(filter_members(without_ids(e)).push(("objectID"@, JsonV::Str(id)))).dom().contains("objectID"@),
        object_map(filter_members(without_ids(e)).push(("objectID"@, JsonV::Str(id))))["objectID"@]
            == OwnedV::Str(id),
        !object_map(search_members(without_ids(e))).dom().contains("_id"@),
        !object_map(search_members(without_ids(e))).dom().contains("objectID"@),
{
    let f = filter_members(without_ids(e)).push(("objectID"@, JsonV::Str(id)));
    let fp = engine_pairs(f);
    assert(fp[fp.len() - 1] == ("objectID"@, OwnedV::Str(id)));
    lemma_last_map_value(fp, "objectID"@, fp.len() - 1);
    let w = without_ids(e);
    let sm = search_members(w);
    let sp = engine_pairs(sm);
    lemma_without_ids_keys(e);
    lemma_search_keys(w);
    lemma_last_map_dom(sp, "_id"@);
    lemma_last_map_dom(sp, "objectID"@);
    assert forall|i: int| 0 <= i < sp.len() implies !is_id_key((#[trigger] sp[i]).0) by {
        assert(sp[i].0 == sm[i].0);
        let j = choose|j: int| 0 <= j < w.len() && sm[i].0 == w[j].0;
        assert(!is_id_key(w[j].0));
    }
}

/// At most one member has the name `k`.
pub open spec fn at_most_one(e: Seq<(Seq<char>, JsonV)>, k: Seq<char>) -> bool {
    forall|i: int, j: int| 0 <= i < j < e.len() ==> !((#[trigger] e[i]).0 == k && (#[trigger] e[j]).0 == k)
}

proof fn lemma_filter_at_most_one(e: Seq<(Seq<char>, JsonV)>, k: Seq<char>)
    requires
        at_most_one(e, k),
    ensures
        at_most_one(filter_members(e), k),
    decreases e.len(),
{
    if e.len() > 0 {
        let p = e.drop_last();
        assert forall|i: int, j: int| 0 <= i < j < p.len() implies !((#[trigger] p[i]).0 == k && (#[trigger] p[j]).0
            == k) by {
            assert(p[i] == e[i] && p[j] == e[j]);
        }
        lemma_filter_at_most_one(p, k);
        lemma_filter_keys(p);
        let a = filter_members(p);
        let f = filter_members(e);
        if e.last().1 !is Null && e.last().0 == k {
            assert forall|i: int| 0 <= i < a.len() implies (#[trigger] a[i]).0 != k by {
                let m = choose|m: int| 0 <= m < p.len() && a[i].0 == p[m].0;
                assert(p[m] == e[m]);
                assert(e[e.len() - 1].0 == k);
            }
            assert forall|i: int, j: int| 0 <= i < j < f.len() implies !((#[trigger] f[i]).0 == k && (#[trigger] f[j]).0
                == k) by {
                assert(f[i] == a[i]);
            }
        } else if e.last().1 !is Null {
            assert forall|i: int, j: int| 0 <= i < j < f.len() implies !((#[trigger] f[i]).0 == k && (#[trigger] f[j]).0
                == k) by {
                if j < a.len() {
                    assert(f[i] == a[i] && f[j] == a[j]);
                } else {
                    assert(f[j].0 == e.last().0);
                }
            }
        }
    }
}

/// What [`DocumentConverter::to_tantivy`] puts in its filter object: when at
/// most one member is named `objectID`, the filter object maps `objectID` to
/// the document's id.
pub proof fn law_converted_filter_holds_id(e: Seq<(Seq<char>, JsonV)>, id: Seq<char>)
    requires
        at_most_one(e, "objectID"@),
    ensures
        object_map(put_member(filter_members(e), "objectID"@, JsonV::Str(id))).dom().contains("objectID"@),
        object_map(put_member(filter_members(e), "objectID"@, JsonV::Str(id)))["objectID"@] == OwnedV::Str(id),
{
    let k = "objectID"@;
    lemma_filter_at_most_one(e, k);
    let f = filter_members(e);
    let g = put_member(f, k, JsonV::Str(id));
    let gp = engine_pairs(g);
    match first_key(f, k) {
        Some(i) => {
            lemma_first_key_spec(f, k);
            assert(g == f.update(i, (k, JsonV::Str(id))));
            assert(gp[i] == (k, OwnedV::Str(id)));
            assert forall|m: int| i < m < gp.len() implies (#[trigger] gp[m]).0 != k by {
                assert(gp[m].0 == f[m].0);
                assert(f[i].0 == k);
            }
            lemma_last_map_value(gp, k, i);
        },
        None => {
            assert(gp[gp.len() - 1] == (k, OwnedV::Str(id)));
            lemma_last_map_value(gp, k, gp.len() - 1);
        },
    }
}

proof fn lemma_first_key_spec(e: Seq<(Seq<char>, JsonV)>, k: Seq<char>)
    ensures
        first_key(e, k) matches Some(i) ==> 0 <= i < e.len() && e[i].0 == k,
    decreases e.len(),
{
    if e.len() > 0 && e[0].0 != k {
        lemma_first_key_spec(e.drop_first(), k);
        match first_key(e.drop_first(), k) {
            Some(i) => {
                assert(e.drop_first()[i] == e[i + 1]);
            },
            None => {},
        }
    }
}

/// `tantivy::TantivyDocument`: the values of a document, field by field.
#[verifier::external_type_specification]
#[verifier::external_body]
pub struct ExTantivyDocument(TantivyDocument);

/// A value added to a document: a text, a facet path, or an object (its
/// members by name, with their engine values).
pub enum DocValueV {
    Text(Seq<char>),
    Facet(Seq<char>),
    Object(Map<Seq<char>, OwnedV>),
}

/// The values a document holds, in the order they were added, each with its field.
pub uninterp spec fn doc_values(d: TantivyDocument) -> Seq<(Field, DocValueV)>;

/// `TantivyDocument::new`: a document without values.
#[verifier::external_body]
fn new_document() -> (r: TantivyDocument)
    ensures
        doc_values(r).len() == 0,
{
    TantivyDocument::new()
}

/// `TantivyDocument::add_text`: the text is added last, to the field.
#[verifier::external_body]
fn add_text_value(d: &mut TantivyDocument, field: Field, text: &str)
    ensures
        doc_values(*final(d)) == doc_values(*old(d)).push((field, DocValueV::Text(text@))),
{
    d.add_text(field, text);
}

/// `TantivyDocument::add_facet` with `Facet::from(&str)`: the facet of the path
/// is added last, to the field. Parsing the path panics unless it starts with
/// `/`, hence the requirement.
#[verifier::external_body]
fn add_facet_value(d: &mut TantivyDocument, field: Field, path: &str)
    requires
        rooted(path@),
    ensures
        doc_values(*final(d)) == doc_values(*old(d)).push((field, DocValueV::Facet(path@))),
{
    d.add_facet(field, path);
}

/// `TantivyDocument::add_object`: the members, collected into the engine's
/// ordered map (a later member of a name replaces an earlier one), are added
/// last as one object, to the field.
#[verifier::external_body]
fn add_object_value(d: &mut TantivyDocument, field: Field, members: Vec<(String, OwnedValue)>)
    ensures
        doc_values(*final(d)) == doc_values(*old(d)).push(
            (field, DocValueV::Object(last_map(owned_pairs(members@)))),
        ),
{
    d.add_object(field, members.into_iter().collect());
}

/// `OwnedValue::Null`.
#[verifier::external_body]
fn owned_null() -> (r: OwnedValue)
    ensures
        owned_view(r) == OwnedV::Null,
{
    OwnedValue::Null
}

/// `OwnedValue::from(bool)`: the engine's boolean.
#[verifier::external_body]
fn owned_bool(b: bool) -> (r: OwnedValue)
    ensures
        owned_view(r) == OwnedV::Bool(b),
{
    OwnedValue::from(b)
}

/// `OwnedValue::from(String)`: the engine's text.
#[verifier::external_body]
fn owned_text(s: String) -> (r: OwnedValue)
    ensures
        owned_view(r) == OwnedV::Str(s@),
{
    OwnedValue::from(s)
}

/// `OwnedValue::from(serde_json::Value::Number(..))`: the engine's signed
/// integer when the number is one that fits, else its unsigned integer when
/// it is one, else its float; it holds the same JSON number. (Without
/// `serde_json`'s `arbitrary_precision` feature, which nothing here enables,
/// every number has a float form, so this never panics.)
#[verifier::external_body]
fn owned_number(n: &serde_json::Number) -> (r: OwnedValue)
    ensures
        owned_view(r) == OwnedV::Number(*n),
{
    OwnedValue::from(serde_json::Value::Number(n.clone()))
}

/// `OwnedValue::Array`: the engine's array of the values, in order.
#[verifier::external_body]
fn owned_array(items: Vec<OwnedValue>) -> (r: OwnedValue)
    ensures
        owned_view(r) == OwnedV::Array(items@.map_values(|v: OwnedValue| owned_view(v))),
{
    OwnedValue::Array(items)
}

/// `OwnedValue::Object`: the engine's object, the members collected into an
/// ordered map (a later member of a name replaces an earlier one).
#[verifier::external_body]
fn owned_object(members: Vec<(String, OwnedValue)>) -> (r: OwnedValue)
    ensures
        owned_view(r) == OwnedV::Object(last_map(owned_pairs(members@))),
{
    OwnedValue::Object(members.into_iter().collect())
}

/// The engine's value of a JSON value (see [`engine_value`]): null, booleans,
/// texts and numbers as they are (a number as a signed integer, else an
/// unsigned one, else a float), arrays item by item and objects member by
/// member. It is never refused.
pub fn json_value_to_owned(j: &Json) -> (r: Result<OwnedValue, FlapjackError>)
    ensures
        r is Ok,
        owned_view(r->Ok_0) == engine_value(json_view(*j)),
    decreases j,
{
    match j {
        Json::Null => Ok(owned_null()),
        Json::Bool(b) => Ok(owned_bool(*b)),
        Json::Str(s) => Ok(owned_text(s.clone())),
        Json::Number(n) => Ok(owned_number(n)),
        Json::Array(items) => {
            proof {
                crate::document::lemma_array_view(*items);
            }
            let ghost iv = crate::document::items_view(items@);
            let mut out: Vec<OwnedValue> = Vec::new();
            let mut i: usize = 0;
            while i < items.len()
                invariant
                    i <= items@.len(),
                    *j == Json::Array(*items),
                    iv == crate::document::items_view(items@),
                    json_view(*j) == JsonV::Array(iv),
                    out@.len() == i,
                    forall|k: int| 0 <= k < i ==> owned_view(#[trigger] out@[k]) == engine_value(iv[k]),
                decreases items@.len() - i,
            {
                proof {
                    assert(decreases_to!(*j => j->Array_0));
                    assert(decreases_to!(*items => items@));
                    assert(decreases_to!(items@ => items@[i as int]));
                }
                let v = match json_value_to_owned(&items[i]) {
                    Ok(v) => v,
                    Err(e) => {
                        return Err(e);
                    },
                };
                assert(iv[i as int] == json_view(items@[i as int]));
                out.push(v);
                i = i + 1;
            }
            let r = owned_array(out);
            proof {
                assert(out@.map_values(|v: OwnedValue| owned_view(v)) =~= engine_items(iv));
            }
            Ok(r)
        },
        Json::Object(members) => {
            proof {
                lemma_object_view(*members);
            }
            let values = members_to_owned(members);
            proof {
                let e = members_view(members@);
                assert(owned_pairs(values@) =~= engine_pairs(e));
            }
            Ok(owned_object(values))
        },
    }
}

/// The engine values of an object's members, in order, with their names.
fn members_to_owned(members: &Vec<(String, Json)>) -> (r: Vec<(String, OwnedValue)>)
    ensures
        r@.len() == members@.len(),
        forall|k: int|
            0 <= k < members@.len() ==> (#[trigger] r@[k]).0@ == members@[k].0@ && owned_view(r@[k].1)
                == engine_value(json_view(members@[k].1)),
    decreases members, 0nat,
{
    let mut out: Vec<(String, OwnedValue)> = Vec::new();
    let mut i: usize = 0;
    while i < members.len()
        invariant
            i <= members@.len(),
            out@.len() == i,
            forall|k: int|
                0 <= k < i ==> (#[trigger] out@[k]).0@ == members@[k].0@ && owned_view(out@[k].1) == engine_value(
                    json_view(members@[k].1),
                ),
        decreases members@.len() - i,
    {
        proof {
            assert(decreases_to!(*members => members@));
            assert(decreases_to!(members@ => members@[i as int]));
            assert(decreases_to!(members@[i as int] => members@[i as int].1));
        }
        let v = match json_value_to_owned(&members[i].1) {
            Ok(v) => v,
            Err(_) => {
                assert(false);
                owned_null()
            },
        };
        out.push((members[i].0.clone(), v));
        i = i + 1;
    }
    out
}

/// The members of an object with their engine values, in order: a value that
/// is not an object is refused as an invalid document, an object never.
pub fn json_to_btree(value: &Json) -> (r: Result<Vec<(String, OwnedValue)>, FlapjackError>)
    ensures
        r is Ok <==> json_view(*value) is Object,
        json_view(*value) !is Object ==> (r matches Err(FlapjackError::InvalidDocument(m)) && m@
            == "Expected JSON object"@),
        r is Ok ==> owned_pairs(r->Ok_0@) == engine_pairs(obj_members(json_view(*value))),
{
    match value {
        Json::Object(members) => {
            proof {
                lemma_object_view(*members);
            }
            let r = members_to_owned(members);
            assert(owned_pairs(r@) =~= engine_pairs(members_view(members@)));
            Ok(r)
        },
        _ => Err(FlapjackError::InvalidDocument(String::from_str("Expected JSON object"))),
    }
}

/// Add an object, as the engine's object of its members, to a field of the
/// document.
fn add_json_object(d: &mut TantivyDocument, field: Field, obj: &Json)
    requires
        json_view(*obj) is Object,
    ensures
        doc_values(*final(d)) == doc_values(*old(d)).push(
            (field, DocValueV::Object(object_map(obj_members(json_view(*obj))))),
        ),
{
    match json_to_btree(obj) {
        Ok(values) => {
            add_object_value(d, field, values);
        },
        Err(_) => {},
    }
}

/// Add each path to the facet field of the document.
fn add_facets(d: &mut TantivyDocument, field: Field, paths: &Vec<String>)
    requires
        forall|k: int| 0 <= k < paths@.len() ==> rooted(#[trigger] paths@[k]@),
    ensures
        doc_values(*final(d)) == doc_values(*old(d)) + facet_values(field, strs_view(paths@)),
{
    let ghost start = doc_values(*d);
    let mut i: usize = 0;
    assert(facet_values(field, strs_view(paths@).take(0)) =~= Seq::<(Field, DocValueV)>::empty());
    while i < paths.len()
        invariant
            i <= paths@.len(),
            forall|k: int| 0 <= k < paths@.len() ==> rooted(#[trigger] paths@[k]@),
            doc_values(*d) == start + facet_values(field, strs_view(paths@).take(i as int)),
        decreases paths@.len() - i,
    {
        add_facet_value(d, field, paths[i].as_str());
        proof {
            let sv = strs_view(paths@);
            assert(sv.take(i + 1) =~= sv.take(i as int).push(paths@[i as int]@));
            assert(facet_values(field, sv.take(i + 1)) =~= facet_values(field, sv.take(i as int)).push(
                (field, DocValueV::Facet(paths@[i as int]@)),
            ));
        }
        i = i + 1;
    }
    assert(strs_view(paths@).take(paths@.len() as int) =~= strs_view(paths@));
}

/// The facet values of paths, added to a field in order.
pub open spec fn facet_values(field: Field, paths: Seq<Seq<char>>) -> Seq<(Field, DocValueV)> {
    paths.map_values(|p: Seq<char>| (field, DocValueV::Facet(p)))
}

/// The engine's document of a JSON document: its id in the id field, the
/// searched JSON of its other members in the search and the exact fields, their
/// filtered JSON (with `objectID`) in the filter field, and the facet paths of
/// its text members in the facet field (see [`document_parts`]). A value that is
/// not an object, or has no text id, is refused as [`document_id`] refuses;
/// every other document is converted. Hierarchical facet objects (`lvl0`,
/// `lvl1`, ...) are not expanded into facet paths here.
pub fn json_to_tantivy_doc(
    json: &Json,
    id_field: Field,
    json_search_field: Field,
    json_filter_field: Field,
    json_exact_field: Field,
    facets_field: Field,
) -> (r: Result<TantivyDocument, FlapjackError>)
    ensures
        r is Ok <==> (json_view(*json) is Object && id_of(obj_members(json_view(*json))) is Some),
        json_view(*json) !is Object ==> (r matches Err(FlapjackError::InvalidDocument(m)) && m@
            == "Expected JSON object"@),
        json_view(*json) is Object && id_of(obj_members(json_view(*json))) is None ==> (r matches Err(
            FlapjackError::MissingField(m),
        ) && m@ == "objectID"@),
        r is Ok ==> ({
            let e = without_ids(obj_members(json_view(*json)));
            let id = id_of(obj_members(json_view(*json)))->0;
            doc_values(r->Ok_0) == seq![
                (id_field, DocValueV::Text(id)),
                (json_search_field, DocValueV::Object(object_map(search_members(e)))),
                (json_filter_field, DocValueV::Object(object_map(filter_members(e).push(("objectID"@, JsonV::Str(id)))))),
                (json_exact_field, DocValueV::Object(object_map(search_members(e)))),
            ] + facet_values(facets_field, text_facets_spec(e))
        }),
{
    let parts = match document_parts(json) {
        Ok(p) => p,
        Err(e) => {
            return Err(e);
        },
    };
    let mut d = new_document();
    add_text_value(&mut d, id_field, parts.id.as_str());
    add_json_object(&mut d, json_search_field, &parts.search);
    add_json_object(&mut d, json_filter_field, &parts.filter);
    add_json_object(&mut d, json_exact_field, &parts.search);
    proof {
        lemma_text_facets_rooted(without_ids(obj_members(json_view(*json))));
        assert forall|k: int| 0 <= k < parts.facets@.len() implies rooted(#[trigger] parts.facets@[k]@) by {
            assert(strs_view(parts.facets@)[k] == parts.facets@[k]@);
        }
    }
    add_facets(&mut d, facets_field, &parts.facets);
    proof {
        let e = without_ids(obj_members(json_view(*json)));
        let id = id_of(obj_members(json_view(*json)))->0;
        assert(doc_values(d) =~= seq![
            (id_field, DocValueV::Text(id)),
            (json_search_field, DocValueV::Object(object_map(search_members(e)))),
            (json_filter_field, DocValueV::Object(object_map(filter_members(e).push(("objectID"@, JsonV::Str(id)))))),
            (json_exact_field, DocValueV::Object(object_map(search_members(e)))),
        ] + facet_values(facets_field, text_facets_spec(e)));
    }
    Ok(d)
}

/// The parts of the engine's document of a document with id `doc_id` and
/// members `fields`: the id; the searched JSON of the members; their filtered
/// JSON with the id stored under `objectID`; and the [`facet_paths`] of the
/// members faceted by the settings (none without settings).
pub fn tantivy_parts(doc_id: &str, fields: &Vec<(String, Json)>, settings: Option<&IndexSettings>) -> (r: DocumentParts)
    requires
        facet_texts_cut_cleanly(members_view(fields@), settings_facets(settings)),
    ensures
        r.id@ == doc_id@,
        json_view(r.search) == JsonV::Object(search_members(members_view(fields@))),
        json_view(r.filter) == JsonV::Object(
            put_member(filter_members(members_view(fields@)), "objectID"@, JsonV::Str(doc_id@)),
        ),
        strs_view(r.facets@) == facet_paths_spec(members_view(fields@), settings_facets(settings)),
{
    let ghost mv = members_view(fields@);
    let mut copy: Vec<(String, Json)> = Vec::new();
    let mut i: usize = 0;
    assert(members_view(copy@) =~= mv.take(0));
    while i < fields.len()
        invariant
            i <= fields@.len(),
            mv == members_view(fields@),
            members_view(copy@) == mv.take(i as int),
        decreases fields@.len() - i,
    {
        let ghost before = copy@;
        let k = fields[i].0.clone();
        let v = clone_json(&fields[i].1);
        copy.push((k, v));
        proof {
            assert(copy@ == before.push((k, v)));
            assert(members_view(copy@) =~= members_view(before).push((k@, json_view(v))));
            assert(mv.take(i + 1) =~= mv.take(i as int).push(mv[i as int]));
        }
        i = i + 1;
    }
    assert(mv.take(fields@.len() as int) =~= mv);
    proof {
        lemma_object_view(copy);
    }
    let whole = Json::Object(copy);
    let (search, filter) = split_by_type(&whole);
    let filter = match filter {
        Json::Object(mut fv) => {
            proof {
                lemma_object_view(fv);
            }
            put_json_member(&mut fv, "objectID", Json::Str(String::from_str(doc_id)));
            proof {
                lemma_object_view(fv);
            }
            Json::Object(fv)
        },
        other => other,
    };
    let facet_set = match settings {
        Some(s) => s.facet_set(),
        None => Vec::new(),
    };
    assert(strs_view(facet_set@) == settings_facets(settings));
    let facets = facet_paths(fields, &facet_set);
    DocumentParts { id: String::from_str(doc_id), search, filter, facets }
}

/// The first of the fields a converter needs that the schema lacks.
pub open spec fn first_missing(names: Seq<Seq<char>>) -> Option<Seq<char>> {
    if !names.contains("_id"@) {
        Some("_id"@)
    } else if !names.contains("_json_search"@) {
        Some("_json_search"@)
    } else if !names.contains("_json_filter"@) {
        Some("_json_filter"@)
    } else if !names.contains("_json_exact"@) {
        Some("_json_exact"@)
    } else if !names.contains("_facets"@) {
        Some("_facets"@)
    } else {
        None
    }
}

/// The faceting attributes of optional settings (none without settings).
pub open spec fn settings_facets(settings: Option<&IndexSettings>) -> Seq<Seq<char>> {
    match settings {
        Some(s) => facet_names(strs_view(s.attributes_for_faceting@)),
        None => seq![],
    }
}

/// Turns documents into the engine's documents, with the fields of an index's
/// schema.
pub struct DocumentConverter {
    id_field: Field,
    json_search_field: Field,
    json_filter_field: Field,
    json_exact_field: Field,
    facets_field: Field,
}

impl DocumentConverter {
    /// The fields the converter writes: id, search, filter, exact, facets.
    pub closed spec fn fields(&self) -> (Field, Field, Field, Field, Field) {
        (self.id_field, self.json_search_field, self.json_filter_field, self.json_exact_field, self.facets_field)
    }

    /// A converter for the schema: refused with the first of `_id`,
    /// `_json_search`, `_json_filter`, `_json_exact` and `_facets` that the
    /// schema lacks. (The geographic fields, which hold floating-point values,
    /// are not handled here.)
    pub fn new(tantivy_schema: &EngineSchema) -> (r: Result<DocumentConverter, FlapjackError>)
        ensures
            r is Ok <==> first_missing(schema_field_names(*tantivy_schema)) is None,
            first_missing(schema_field_names(*tantivy_schema)) is Some ==> (r matches Err(
                FlapjackError::FieldNotFound(m),
            ) && m@ == first_missing(schema_field_names(*tantivy_schema))->0),
    {
        let id_field = match lookup_field(tantivy_schema, "_id") {
            Ok(f) => f,
            Err(_) => {
                return Err(FlapjackError::FieldNotFound(String::from_str("_id")));
            },
        };
        let json_search_field = match lookup_field(tantivy_schema, "_json_search") {
            Ok(f) => f,
            Err(_) => {
                return Err(FlapjackError::FieldNotFound(String::from_str("_json_search")));
            },
        };
        let json_filter_field = match lookup_field(tantivy_schema, "_json_filter") {
            Ok(f) => f,
            Err(_) => {
                return Err(FlapjackError::FieldNotFound(String::from_str("_json_filter")));
            },
        };
        let json_exact_field = match lookup_field(tantivy_schema, "_json_exact") {
            Ok(f) => f,
            Err(_) => {
                return Err(FlapjackError::FieldNotFound(String::from_str("_json_exact")));
            },
        };
        let facets_field = match lookup_field(tantivy_schema, "_facets") {
            Ok(f) => f,
            Err(_) => {
                return Err(FlapjackError::FieldNotFound(String::from_str("_facets")));
            },
        };
        Ok(DocumentConverter { id_field, json_search_field, json_filter_field, json_exact_field, facets_field })
    }

    /// The engine's document of a document with id `doc_id` and members
    /// `fields`, built from its [`tantivy_parts`]: the id in the id field, the
    /// searched JSON in the search and exact fields, the filtered JSON in the
    /// filter field, and the facet paths in the facet field. It is never
    /// refused. Hierarchical facet objects are not expanded here.
    pub fn to_tantivy(&self, doc_id: &str, fields: &Vec<(String, Json)>, settings: Option<&IndexSettings>) -> (r:
        Result<TantivyDocument, FlapjackError>)
        requires
            facet_texts_cut_cleanly(members_view(fields@), settings_facets(settings)),
        ensures
            r is Ok,
            ({
                let e = members_view(fields@);
                let f = self.fields();
                doc_values(r->Ok_0) == seq![
                    (f.0, DocValueV::Text(doc_id@)),
                    (f.1, DocValueV::Object(object_map(search_members(e)))),
                    (f.2, DocValueV::Object(object_map(put_member(filter_members(e), "objectID"@, JsonV::Str(doc_id@))))),
                    (f.3, DocValueV::Object(object_map(search_members(e)))),
                ] + facet_values(f.4, facet_paths_spec(e, settings_facets(settings)))
            }),
    {
        let parts = tantivy_parts(doc_id, fields, settings);
        let mut d = new_document();
        add_text_value(&mut d, self.id_field, parts.id.as_str());
        add_json_object(&mut d, self.json_search_field, &parts.search);
        add_json_object(&mut d, self.json_filter_field, &parts.filter);
        add_json_object(&mut d, self.json_exact_field, &parts.search);
        proof {
            lemma_facets_rooted(members_view(fields@), settings_facets(settings));
            assert forall|k: int| 0 <= k < parts.facets@.len() implies rooted(#[trigger] parts.facets@[k]@) by {
                assert(strs_view(parts.facets@)[k] == parts.facets@[k]@);
            }
        }
        add_facets(&mut d, self.facets_field, &parts.facets);
        proof {
            let e = members_view(fields@);
            let f = self.fields();
            assert(doc_values(d) =~= seq![
                (f.0, DocValueV::Text(doc_id@)),
                (f.1, DocValueV::Object(object_map(search_members(e)))),
                (f.2, DocValueV::Object(object_map(put_member(filter_members(e), "objectID"@, JsonV::Str(doc_id@))))),
                (f.3, DocValueV::Object(object_map(search_members(e)))),
            ] + facet_values(f.4, facet_paths_spec(e, settings_facets(settings))));
        }
        Ok(d)
    }
}

/// The schema every index is built with has each field a converter needs, so a
/// converter for it is never refused.
pub proof fn law_index_schema_converts()
    ensures
        first_missing(index_field_names()) is None,
{
    let n = index_field_names();
    assert(n[0] == "_id"@);
    assert(n[1] == "_json_search"@);
    assert(n[2] == "_json_filter"@);
    assert(n[3] == "_json_exact"@);
    assert(n[4] == "_facets"@);
}

/// Without faceting attributes no member gets a facet path.
pub proof fn law_no_facet_attributes_no_paths(e: Seq<(Seq<char>, JsonV)>)
    ensures
        facet_paths_spec(e, seq![]) == Seq::<Seq<char>>::empty(),
    decreases e.len(),
{
    if e.len() > 0 {
        law_no_facet_attributes_no_paths(e.drop_last());
        assert(!is_faceted(e.last().0, seq![]));
        assert(member_facets(e.last().0, e.last().1, seq![]) =~= Seq::<Seq<char>>::empty());
        assert(facet_paths_spec(e, seq![]) =~= Seq::<Seq<char>>::empty());
    }
}

} // verus!
