//! Documents as JSON values: how a document's values are split between the
//! full-text search field and the filter field of the index, and where the path
//! ends in a text term of a JSON field.
use vstd::prelude::*;
use crate::text::{chars_of, string_from_chars};

verus! {

/// `serde_json::Number`, carried through unread.
#[verifier::external_type_specification]
#[verifier::external_body]
pub struct ExNumber(serde_json::Number);

/// `<serde_json::Number as Clone>::clone`: the derived clone gives an equal value.
#[verifier::external_body]
fn clone_number(n: &serde_json::Number) -> (r: serde_json::Number)
    ensures
        r == *n,
{
    n.clone()
}

/// Whether `serde_json`'s `==` holds between two numbers: integers compare
/// exactly and floats with float `==`, so `0.0` and `-0.0` are equal though
/// they are different numbers.
pub uninterp spec fn same_number(a: serde_json::Number, b: serde_json::Number) -> bool;

/// `==` on numbers (the derived equality of `serde_json::Number`), named by
/// [`same_number`]; a number is equal to itself (a JSON number is never NaN).
#[verifier::external_body]
fn number_eq(a: &serde_json::Number, b: &serde_json::Number) -> (r: bool)
    ensures
        r == same_number(*a, *b),
        *a == *b ==> r,
{
    a == b
}

/// A JSON value; an object lists its members in order, each key once.
#[derive(Debug, PartialEq)]
pub enum Json {
    Null,
    Bool(bool),
    Number(serde_json::Number),
    Str(String),
    Array(Vec<Json>),
    Object(Vec<(String, Json)>),
}

/// The abstract content of a JSON value.
pub enum JsonV {
    Null,
    Bool(bool),
    Number(serde_json::Number),
    Str(Seq<char>),
    Array(Seq<JsonV>),
    Object(Seq<(Seq<char>, JsonV)>),
}

/// The abstract content of a JSON value.
pub open spec fn json_view(j: Json) -> JsonV
    decreases j,
{
    match j {
        Json::Null => JsonV::Null,
        Json::Bool(b) => JsonV::Bool(b),
        Json::Number(n) => JsonV::Number(n),
        Json::Str(s) => JsonV::Str(s@),
        Json::Array(v) => JsonV::Array(
            Seq::new(
                v@.len(),
                |i: int|
                    if 0 <= i < v@.len() {
                        json_view(v@[i])
                    } else {
                        JsonV::Null
                    },
            ),
        ),
        Json::Object(v) => JsonV::Object(
            Seq::new(
                v@.len(),
                |i: int|
                    if 0 <= i < v@.len() {
                        (v@[i].0@, json_view(v@[i].1))
                    } else {
                        (seq![], JsonV::Null)
                    },
            ),
        ),
    }
}

/// The abstract content of an array's items.
pub open spec fn items_view(v: Seq<Json>) -> Seq<JsonV> {
    Seq::new(v.len(), |i: int| json_view(v[i]))
}

/// The abstract content of an object's members.
pub open spec fn members_view(v: Seq<(String, Json)>) -> Seq<(Seq<char>, JsonV)> {
    Seq::new(v.len(), |i: int| (v[i].0@, json_view(v[i].1)))
}

/// The texts among an array's items, in order.
pub open spec fn string_items(items: Seq<JsonV>) -> Seq<Seq<char>>
    decreases items.len(),
{
    if items.len() == 0 {
        seq![]
    } else {
        string_items(items.drop_last()) + match items.last() {
            JsonV::Str(s) => seq![s],
            _ => seq![],
        }
    }
}

/// Words joined by single spaces.
pub open spec fn join_spaced(w: Seq<Seq<char>>) -> Seq<char>
    decreases w.len(),
{
    if w.len() == 0 {
        seq![]
    } else if w.len() == 1 {
        w[0]
    } else {
        join_spaced(w.drop_last()) + seq![' '] + w.last()
    }
}

/// How a value is split into (search part, filter part): texts go to both;
/// numbers and booleans to the filter only; an array's texts, joined by spaces,
/// are searched (nothing when it has none) and the array itself is filtered;
/// an object is split member by member, dropping null members, and a member
/// whose search part is null is left out of the search object.
pub open spec fn split_spec(j: JsonV) -> (JsonV, JsonV)
    decreases j,
{
    match j {
        JsonV::Object(e) => (JsonV::Object(search_members(e)), JsonV::Object(filter_members(e))),
        JsonV::Array(items) => (
            if string_items(items).len() == 0 {
                JsonV::Null
            } else {
                JsonV::Str(join_spaced(string_items(items)))
            },
            j,
        ),
        JsonV::Str(_) => (j, j),
        JsonV::Number(_) => (JsonV::Null, j),
        JsonV::Bool(_) => (JsonV::Null, j),
        JsonV::Null => (JsonV::Null, JsonV::Null),
    }
}

/// The search object of an object's members.
pub open spec fn search_members(e: Seq<(Seq<char>, JsonV)>) -> Seq<(Seq<char>, JsonV)>
    decreases e,
{
    if e.len() == 0 {
        seq![]
    } else {
        let rest = search_members(e.drop_last());
        let v = e.last().1;
        if v is Null {
            rest
        } else {
            let s = split_spec(v).0;
            if s is Null {
                rest
            } else {
                rest.push((e.last().0, s))
            }
        }
    }
}

/// The filter object of an object's members.
pub open spec fn filter_members(e: Seq<(Seq<char>, JsonV)>) -> Seq<(Seq<char>, JsonV)>
    decreases e,
{
    if e.len() == 0 {
        seq![]
    } else {
        let rest = filter_members(e.drop_last());
        let v = e.last().1;
        if v is Null {
            rest
        } else {
            rest.push((e.last().0, split_spec(v).1))
        }
    }
}

pub(crate) proof fn lemma_array_view(v: Vec<Json>)
    ensures
        json_view(Json::Array(v)) == JsonV::Array(items_view(v@)),
{
    let jv = json_view(Json::Array(v));
    assert(jv->Array_0 =~= items_view(v@));
}

pub(crate) proof fn lemma_object_view(v: Vec<(String, Json)>)
    ensures
        json_view(Json::Object(v)) == JsonV::Object(members_view(v@)),
{
    let jv = json_view(Json::Object(v));
    assert(jv->Object_0 =~= members_view(v@));
}

/// A copy of a JSON value.
pub fn clone_json(j: &Json) -> (r: Json)
    ensures
        json_view(r) == json_view(*j),
    decreases j,
{
    match j {
        Json::Null => Json::Null,
        Json::Bool(b) => Json::Bool(*b),
        Json::Number(n) => Json::Number(clone_number(n)),
        Json::Str(s) => Json::Str(s.clone()),
        Json::Array(v) => {
            let mut out: Vec<Json> = Vec::new();
            let mut i: usize = 0;
            while i < v.len()
                invariant
                    i <= v@.len(),
                    *j == Json::Array(*v),
                    out@.len() == i,
                    items_view(out@) == items_view(v@).take(i as int),
                decreases v@.len() - i,
            {
                proof {
                    assert(decreases_to!(*j => j->Array_0));
                    assert(decreases_to!(*v => v@));
                    assert(decreases_to!(v@ => v@[i as int]));
                }
                let c = clone_json(&v[i]);
                let ghost before = out@;
                out.push(c);
                assert(out@ == before.push(c));
                assert forall|k: int| 0 <= k < i + 1 implies #[trigger] items_view(out@)[k] == items_view(v@)[k] by {
                    if k < i {
                        assert(out@[k] == before[k]);
                        assert(items_view(before)[k] == items_view(v@).take(i as int)[k]);
                    }
                }
                assert(items_view(out@) =~= items_view(v@).take(i + 1));
                i = i + 1;
            }
            assert(items_view(v@).take(v@.len() as int) =~= items_view(v@));
            proof {
                lemma_array_view(*v);
                lemma_array_view(out);
            }
            Json::Array(out)
        },
        Json::Object(v) => {
            let mut out: Vec<(String, Json)> = Vec::new();
            let mut i: usize = 0;
            while i < v.len()
                invariant
                    i <= v@.len(),
                    *j == Json::Object(*v),
                    out@.len() == i,
                    members_view(out@) == members_view(v@).take(i as int),
                decreases v@.len() - i,
            {
                proof {
                    assert(decreases_to!(*j => j->Object_0));
                    assert(decreases_to!(*v => v@));
                    assert(decreases_to!(v@ => v@[i as int]));
                    assert(decreases_to!(v@[i as int] => v@[i as int].1));
                }
                let c = clone_json(&v[i].1);
                let key = v[i].0.clone();
                let ghost before = out@;
                out.push((key, c));
                assert(out@ == before.push((key, c)));
                assert forall|k: int| 0 <= k < i + 1 implies #[trigger] members_view(out@)[k] == members_view(v@)[k] by {
                    if k < i {
                        assert(out@[k] == before[k]);
                        assert(members_view(before)[k] == members_view(v@).take(i as int)[k]);
                    }
                }
                assert(members_view(out@) =~= members_view(v@).take(i + 1));
                i = i + 1;
            }
            assert(members_view(v@).take(v@.len() as int) =~= members_view(v@));
            proof {
                lemma_object_view(*v);
                lemma_object_view(out);
            }
            Json::Object(out)
        },
    }
}

/// The texts of an array's items joined by spaces, or `None` when it has none.
fn search_text(items: &Vec<Json>) -> (r: Option<String>)
    ensures
        r is None <==> string_items(items_view(items@)).len() == 0,
        r matches Some(t) ==> t@ == join_spaced(string_items(items_view(items@))),
{
    let ghost iv = items_view(items@);
    let mut acc: Vec<char> = Vec::new();
    let mut count: usize = 0;
    let mut i: usize = 0;
    while i < items.len()
        invariant
            i <= items@.len(),
            iv == items_view(items@),
            count == string_items(iv.take(i as int)).len(),
            count <= i,
            acc@ == join_spaced(string_items(iv.take(i as int))),
        decreases items@.len() - i,
    {
        let ghost w = string_items(iv.take(i as int));
        proof {
            assert(iv.take(i + 1).drop_last() =~= iv.take(i as int));
            assert(iv.take(i + 1).last() == json_view(items@[i as int]));
        }
        match &items[i] {
            Json::Str(t) => {
                let mut tc = chars_of(t.as_str());
                proof {
                    assert(string_items(iv.take(i + 1)) =~= w.push(t@));
                    assert(w.push(t@).drop_last() =~= w);
                }
                if count > 0 {
                    acc.push(' ');
                }
                acc.append(&mut tc);
                count = count + 1;
            },
            _ => {
                proof {
                    assert(string_items(iv.take(i + 1)) =~= w);
                }
            },
        }
        i = i + 1;
    }
    assert(iv.take(items@.len() as int) =~= iv);
    if count == 0 {
        None
    } else {
        Some(string_from_chars(acc.as_slice()))
    }
}

/// Split a document value into the part that is searched as text and the part
/// that is filtered on (see [`split_spec`]).
pub fn split_by_type(value: &Json) -> (r: (Json, Json))
    ensures
        (json_view(r.0), json_view(r.1)) == split_spec(json_view(*value)),
    decreases value,
{
    match value {
        Json::Object(v) => {
            let ghost mv = members_view(v@);
            let mut search: Vec<(String, Json)> = Vec::new();
            let mut filter: Vec<(String, Json)> = Vec::new();
            let mut i: usize = 0;
            assert(members_view(search@) =~= search_members(mv.take(0)));
            assert(members_view(filter@) =~= filter_members(mv.take(0)));
            while i < v.len()
                invariant
                    i <= v@.len(),
                    *value == Json::Object(*v),
                    mv == members_view(v@),
                    members_view(search@) == search_members(mv.take(i as int)),
                    members_view(filter@) == filter_members(mv.take(i as int)),
                decreases v@.len() - i,
            {
                let ghost e = mv.take(i + 1);
                proof {
                    assert(e.drop_last() =~= mv.take(i as int));
                    assert(e.last() == (v@[i as int].0@, json_view(v@[i as int].1)));
                }
                let ghost before_s = search@;
                let ghost before_f = filter@;
                match &v[i].1 {
                    Json::Null => {},
                    _ => {
                        proof {
                            assert(decreases_to!(*value => value->Object_0));
                            assert(decreases_to!(*v => v@));
                            assert(decreases_to!(v@ => v@[i as int]));
                            assert(decreases_to!(v@[i as int] => v@[i as int].1));
                        }
                        let (sv, fv) = split_by_type(&v[i].1);
                        let is_null = match &sv {
                            Json::Null => true,
                            _ => false,
                        };
                        if !is_null {
                            search.push((v[i].0.clone(), sv));
                            assert(search@ == before_s.push(search@.last()));
                            assert(members_view(search@) =~= members_view(before_s).push(
                                (v@[i as int].0@, split_spec(json_view(v@[i as int].1)).0),
                            ));
                        }
                        filter.push((v[i].0.clone(), fv));
                        assert(filter@ == before_f.push(filter@.last()));
                        assert(members_view(filter@) =~= members_view(before_f).push(
                            (v@[i as int].0@, split_spec(json_view(v@[i as int].1)).1),
                        ));
                    },
                }
                i = i + 1;
            }
            assert(mv.take(v@.len() as int) =~= mv);
            proof {
                lemma_object_view(*v);
                lemma_object_view(search);
                lemma_object_view(filter);
            }
            (Json::Object(search), Json::Object(filter))
        },
        Json::Array(items) => {
            proof {
                lemma_array_view(*items);
            }
            let search = match search_text(items) {
                Some(t) => Json::Str(t),
                None => Json::Null,
            };
            (search, clone_json(value))
        },
        Json::Str(_) => (clone_json(value), clone_json(value)),
        Json::Number(_) => (Json::Null, clone_json(value)),
        Json::Bool(_) => (Json::Null, clone_json(value)),
        Json::Null => (Json::Null, Json::Null),
    }
}

/// The value of the first member named `key`, if any.
pub open spec fn lookup(e: Seq<(Seq<char>, JsonV)>, key: Seq<char>) -> Option<JsonV>
    decreases e.len(),
{
    if e.len() == 0 {
        None
    } else if e[0].0 == key {
        Some(e[0].1)
    } else {
        lookup(e.drop_first(), key)
    }
}

/// The member named `key` of an object; nothing for other values.
pub open spec fn member_spec(j: JsonV, key: Seq<char>) -> Option<JsonV> {
    match j {
        JsonV::Object(e) => lookup(e, key),
        _ => None,
    }
}

/// The lookup finds the first member with the key.
pub proof fn lemma_lookup_first(e: Seq<(Seq<char>, JsonV)>, key: Seq<char>, i: int)
    requires
        0 <= i < e.len(),
        e[i].0 == key,
        forall|k: int| 0 <= k < i ==> e[k].0 != key,
    ensures
        lookup(e, key) == Some(e[i].1),
    decreases i,
{
    if i > 0 {
        let t = e.drop_first();
        assert forall|k: int| 0 <= k < i - 1 implies t[k].0 != key by {
            assert(t[k] == e[k + 1]);
        }
        lemma_lookup_first(t, key, i - 1);
    }
}

/// The lookup finds nothing when no member has the key.
pub proof fn lemma_lookup_none(e: Seq<(Seq<char>, JsonV)>, key: Seq<char>)
    requires
        forall|k: int| 0 <= k < e.len() ==> e[k].0 != key,
    ensures
        lookup(e, key) is None,
    decreases e.len(),
{
    if e.len() > 0 {
        let t = e.drop_first();
        assert forall|k: int| 0 <= k < t.len() implies t[k].0 != key by {
            assert(t[k] == e[k + 1]);
        }
        lemma_lookup_none(t, key);
    }
}

/// The member named `key` of an object (the first one with that name); `None`
/// for a value that is not an object or has no such member.
pub fn json_member<'a>(j: &'a Json, key: &str) -> (r: Option<&'a Json>)
    ensures
        match r {
            Some(m) => member_spec(json_view(*j), key@) == Some(json_view(*m)),
            None => member_spec(json_view(*j), key@) is None,
        },
{
    match j {
        Json::Object(v) => {
            proof {
                lemma_object_view(*v);
            }
            let ghost mv = members_view(v@);
            let kc = chars_of(key);
            let mut i: usize = 0;
            while i < v.len()
                invariant
                    i <= v@.len(),
                    mv == members_view(v@),
                    json_view(*j) == JsonV::Object(mv),
                    kc@ == key@,
                    forall|k: int| 0 <= k < i ==> mv[k].0 != key@,
                decreases v@.len() - i,
            {
                let c = chars_of(v[i].0.as_str());
                if crate::text::chars_eq(c.as_slice(), kc.as_slice()) {
                    proof {
                        assert(mv[i as int] == (v@[i as int].0@, json_view(v@[i as int].1)));
                        lemma_lookup_first(mv, key@, i as int);
                    }
                    return Some(&v[i].1);
                }
                assert(mv[i as int].0 == v@[i as int].0@);
                i = i + 1;
            }
            proof {
                lemma_lookup_none(mv, key@);
            }
            None
        },
        _ => None,
    }
}

/// Equality of JSON values as `serde_json` has it: the same kind, and equal
/// texts or booleans, numbers equal by [`same_number`], items equal in order,
/// or members with the same names and equal values, in order.
pub open spec fn json_eq(a: JsonV, b: JsonV) -> bool
    decreases a,
{
    match a {
        JsonV::Null => b is Null,
        JsonV::Bool(x) => b matches JsonV::Bool(y) && x == y,
        JsonV::Number(x) => b matches JsonV::Number(y) && same_number(x, y),
        JsonV::Str(x) => b matches JsonV::Str(y) && x == y,
        JsonV::Array(u) => b matches JsonV::Array(v) && u.len() == v.len() && forall|k: int|
            0 <= k < u.len() ==> json_eq(#[trigger] u[k], v[k]),
        JsonV::Object(u) => b matches JsonV::Object(v) && u.len() == v.len() && forall|k: int|
            0 <= k < u.len() ==> (#[trigger] u[k]).0 == v[k].0 && json_eq(u[k].1, v[k].1),
    }
}

/// Whether two JSON values are equal (see [`json_eq`]).
pub fn json_equal(a: &Json, b: &Json) -> (r: bool)
    ensures
        r == json_eq(json_view(*a), json_view(*b)),
    decreases a,
{
    match (a, b) {
        (Json::Null, Json::Null) => true,
        (Json::Bool(x), Json::Bool(y)) => *x == *y,
        (Json::Number(x), Json::Number(y)) => number_eq(x, y),
        (Json::Str(x), Json::Str(y)) => {
            let e = *x == *y;
            proof {
                if !e {
                    assert(x@ != y@);
                }
            }
            e
        },
        (Json::Array(u), Json::Array(v)) => {
            proof {
                lemma_array_view(*u);
                lemma_array_view(*v);
            }
            let ghost iu = items_view(u@);
            let ghost iv = items_view(v@);
            if u.len() != v.len() {
                assert(iu.len() != iv.len());
                return false;
            }
            let mut i: usize = 0;
            while i < u.len()
                invariant
                    i <= u@.len(),
                    u@.len() == v@.len(),
                    *a == Json::Array(*u),
                    iu == items_view(u@),
                    iv == items_view(v@),
                    json_view(*a) == JsonV::Array(iu),
                    json_view(*b) == JsonV::Array(iv),
                    forall|k: int| 0 <= k < i ==> json_eq(#[trigger] iu[k], iv[k]),
                decreases u@.len() - i,
            {
                proof {
                    assert(decreases_to!(*a => a->Array_0));
                    assert(decreases_to!(*u => u@));
                    assert(decreases_to!(u@ => u@[i as int]));
                }
                let e = json_equal(&u[i], &v[i]);
                assert(iu[i as int] == json_view(u@[i as int]));
                assert(iv[i as int] == json_view(v@[i as int]));
                if !e {
                    assert(!json_eq(iu[i as int], iv[i as int]));
                    return false;
                }
                i = i + 1;
            }
            true
        },
        (Json::Object(u), Json::Object(v)) => {
            proof {
                lemma_object_view(*u);
                lemma_object_view(*v);
            }
            let ghost mu = members_view(u@);
            let ghost mv = members_view(v@);
            if u.len() != v.len() {
                assert(mu.len() != mv.len());
                return false;
            }
            let mut i: usize = 0;
            while i < u.len()
                invariant
                    i <= u@.len(),
                    u@.len() == v@.len(),
                    *a == Json::Object(*u),
                    mu == members_view(u@),
                    mv == members_view(v@),
                    json_view(*a) == JsonV::Object(mu),
                    json_view(*b) == JsonV::Object(mv),
                    forall|k: int| 0 <= k < i ==> (#[trigger] mu[k]).0 == mv[k].0,
                    forall|k: int| 0 <= k < i ==> json_eq((#[trigger] mu[k]).1, mv[k].1),
                decreases u@.len() - i,
            {
                proof {
                    assert(decreases_to!(*a => a->Object_0));
                    assert(decreases_to!(*u => u@));
                    assert(decreases_to!(u@ => u@[i as int]));
                    assert(decreases_to!(u@[i as int] => u@[i as int].1));
                }
                assert(mu[i as int] == (u@[i as int].0@, json_view(u@[i as int].1)));
                assert(mv[i as int] == (v@[i as int].0@, json_view(v@[i as int].1)));
                let ku = chars_of(u[i].0.as_str());
                let kv = chars_of(v[i].0.as_str());
                if !crate::text::chars_eq(ku.as_slice(), kv.as_slice()) {
                    assert(mu[i as int].0 != mv[i as int].0);
                    return false;
                }
                let e = json_equal(&u[i].1, &v[i].1);
                assert(mu[i as int].1 == json_view(u@[i as int].1));
                assert(mv[i as int].1 == json_view(v@[i as int].1));
                assert(mu[i as int].0 == mv[i as int].0);
                if !e {
                    assert(!json_eq(mu[i as int].1, mv[i as int].1));
                    return false;
                }
                assert(json_eq(mu[i as int].1, mv[i as int].1));
                i = i + 1;
            }
            true
        },
        _ => false,
    }
}

/// Whether a JSON-field term has its path end at `p`: a text term of a JSON
/// field stores the path, a zero byte, then the type code `s`.
pub open spec fn path_ends_at(term: Seq<u8>, p: int) -> bool {
    0 <= p && p + 1 < term.len() && term[p] == 0 && term[p + 1] == 0x73
}

/// Where the path of a text term of a JSON field ends: the first position of
/// the zero byte that is followed by `s`; `None` for other terms.
pub fn json_text_path_end(term: &[u8]) -> (r: Option<usize>)
    ensures
        match r {
            Some(p) => path_ends_at(term@, p as int) && forall|q: int| 0 <= q < p ==> !path_ends_at(term@, q),
            None => forall|q: int| !path_ends_at(term@, q),
        },
{
    let n = term.len();
    if n < 2 {
        return None;
    }
    let mut p: usize = 0;
    while p + 1 < n
        invariant
            n == term@.len(),
            n >= 2,
            p + 1 <= n,
            forall|q: int| 0 <= q < p ==> !path_ends_at(term@, q),
        decreases n - p,
    {
        if term[p] == 0 && term[p + 1] == 0x73 {
            return Some(p);
        }
        p = p + 1;
    }
    None
}

/// A value made of texts only: null, a text, or an object whose members are
/// non-null and made of texts only.
pub open spec fn text_only(j: JsonV) -> bool
    decreases j,
{
    match j {
        JsonV::Null => true,
        JsonV::Str(_) => true,
        JsonV::Object(e) => members_text_only(e),
        _ => false,
    }
}

pub open spec fn members_text_only(e: Seq<(Seq<char>, JsonV)>) -> bool
    decreases e,
{
    if e.len() == 0 {
        true
    } else {
        members_text_only(e.drop_last()) && !(e.last().1 is Null) && text_only(e.last().1)
    }
}

proof fn lemma_members_search_text_only(e: Seq<(Seq<char>, JsonV)>)
    ensures
        members_text_only(search_members(e)),
    decreases e,
{
    if e.len() > 0 {
        lemma_members_search_text_only(e.drop_last());
        let v = e.last().1;
        if !(v is Null) {
            law_search_part_is_text(v);
            let rest = search_members(e.drop_last());
            let s = split_spec(v).0;
            if !(s is Null) {
                assert(rest.push((e.last().0, s)).drop_last() =~= rest);
            }
        }
    }
}

/// The searched part of a document holds texts only: numbers, booleans and
/// arrays never reach it (an array contributes the text of its texts).
pub proof fn law_search_part_is_text(j: JsonV)
    ensures
        text_only(split_spec(j).0),
    decreases j,
{
    match j {
        JsonV::Object(e) => {
            lemma_members_search_text_only(e);
        },
        _ => {},
    }
}

/// The filter part of an object keeps every non-null member, by name and in order.
pub proof fn law_filter_keeps_members(e: Seq<(Seq<char>, JsonV)>)
    ensures
        filter_members(e).map_values(|m: (Seq<char>, JsonV)| m.0) == e.filter(
            |m: (Seq<char>, JsonV)| !(m.1 is Null),
        ).map_values(|m: (Seq<char>, JsonV)| m.0),
    decreases e.len(),
{
    reveal(Seq::filter);
    if e.len() > 0 {
        law_filter_keeps_members(e.drop_last());
        let f = filter_members(e.drop_last());
        let g = e.drop_last().filter(|m: (Seq<char>, JsonV)| !(m.1 is Null));
        if !(e.last().1 is Null) {
            assert(f.push((e.last().0, split_spec(e.last().1).1)).map_values(|m: (Seq<char>, JsonV)| m.0)
                =~= f.map_values(|m: (Seq<char>, JsonV)| m.0).push(e.last().0));
            assert(g.push(e.last()).map_values(|m: (Seq<char>, JsonV)| m.0) =~= g.map_values(
                |m: (Seq<char>, JsonV)| m.0,
            ).push(e.last().0));
        }
    }
}

} // verus!
