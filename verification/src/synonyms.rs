//! Synonym definitions, the per-index synonym store, its search and the
//! expansion of a query through regular and one-way synonyms.
use vstd::prelude::*;
use crate::text::{
    chars_of, contains_chars, eq_ignore_ascii, eq_ignore_ascii_chars, lowercase,
    replace_all, replace_chars, seq_contains, split_whitespace_chars, split_ws,
    string_from_chars, to_lower, words_view,
};

verus! {

/// A synonym definition; the variant is its kind.
#[derive(Debug, PartialEq, Eq)]
pub enum Synonym {
    /// All words are interchangeable.
    Regular { object_id: String, synonyms: Vec<String> },
    /// `input` may be replaced by any of `synonyms`, not the other way round.
    OneWay { object_id: String, input: String, synonyms: Vec<String> },
    /// One-typo alternative corrections of `word`.
    AltCorrection1 { object_id: String, word: String, corrections: Vec<String> },
    /// Two-typo alternative corrections of `word`.
    AltCorrection2 { object_id: String, word: String, corrections: Vec<String> },
    /// `placeholder` stands for any of `replacements`.
    Placeholder { object_id: String, placeholder: String, replacements: Vec<String> },
}

/// The abstract content of a synonym definition.
pub enum SynonymV {
    Regular { object_id: Seq<char>, synonyms: Seq<Seq<char>> },
    OneWay { object_id: Seq<char>, input: Seq<char>, synonyms: Seq<Seq<char>> },
    AltCorrection1 { object_id: Seq<char>, word: Seq<char>, corrections: Seq<Seq<char>> },
    AltCorrection2 { object_id: Seq<char>, word: Seq<char>, corrections: Seq<Seq<char>> },
    Placeholder { object_id: Seq<char>, placeholder: Seq<char>, replacements: Seq<Seq<char>> },
}

/// The character sequences of a vector of strings.
pub open spec fn strs_view(v: Seq<String>) -> Seq<Seq<char>> {
    v.map_values(|s: String| s@)
}

impl View for Synonym {
    type V = SynonymV;

    open spec fn view(&self) -> SynonymV {
        match self {
            Synonym::Regular { object_id, synonyms } => SynonymV::Regular {
                object_id: object_id@,
                synonyms: strs_view(synonyms@),
            },
            Synonym::OneWay { object_id, input, synonyms } => SynonymV::OneWay {
                object_id: object_id@,
                input: input@,
                synonyms: strs_view(synonyms@),
            },
            Synonym::AltCorrection1 { object_id, word, corrections } => SynonymV::AltCorrection1 {
                object_id: object_id@,
                word: word@,
                corrections: strs_view(corrections@),
            },
            Synonym::AltCorrection2 { object_id, word, corrections } => SynonymV::AltCorrection2 {
                object_id: object_id@,
                word: word@,
                corrections: strs_view(corrections@),
            },
            Synonym::Placeholder { object_id, placeholder, replacements } => SynonymV::Placeholder {
                object_id: object_id@,
                placeholder: placeholder@,
                replacements: strs_view(replacements@),
            },
        }
    }
}

impl SynonymV {
    pub open spec fn id(self) -> Seq<char> {
        match self {
            SynonymV::Regular { object_id, .. } => object_id,
            SynonymV::OneWay { object_id, .. } => object_id,
            SynonymV::AltCorrection1 { object_id, .. } => object_id,
            SynonymV::AltCorrection2 { object_id, .. } => object_id,
            SynonymV::Placeholder { object_id, .. } => object_id,
        }
    }

    /// The kind's name as used in the API.
    pub open spec fn kind_name(self) -> Seq<char> {
        match self {
            SynonymV::Regular { .. } => "synonym"@,
            SynonymV::OneWay { .. } => "onewaysynonym"@,
            SynonymV::AltCorrection1 { .. } => "altcorrection1"@,
            SynonymV::AltCorrection2 { .. } => "altcorrection2"@,
            SynonymV::Placeholder { .. } => "placeholder"@,
        }
    }

    /// Some word of the definition contains `text`, ignoring case.
    pub open spec fn matches(self, text: Seq<char>) -> bool {
        let lower = lowercase(text);
        match self {
            SynonymV::Regular { synonyms, .. } => any_contains(synonyms, lower),
            SynonymV::OneWay { input, synonyms, .. } => seq_contains(lowercase(input), lower)
                || any_contains(synonyms, lower),
            SynonymV::AltCorrection1 { word, corrections, .. } => seq_contains(
                lowercase(word),
                lower,
            ) || any_contains(corrections, lower),
            SynonymV::AltCorrection2 { word, corrections, .. } => seq_contains(
                lowercase(word),
                lower,
            ) || any_contains(corrections, lower),
            SynonymV::Placeholder { placeholder, replacements, .. } => seq_contains(
                lowercase(placeholder),
                lower,
            ) || any_contains(replacements, lower),
        }
    }
}

/// Some item, lower-cased, contains `lower`.
pub open spec fn any_contains(items: Seq<Seq<char>>, lower: Seq<char>) -> bool {
    exists|i: int| 0 <= i < items.len() && seq_contains(lowercase(#[trigger] items[i]), lower)
}

/// Whether some item of `items`, lower-cased, contains `lower`.
fn any_item_contains(items: &Vec<String>, lower: &[char]) -> (r: bool)
    ensures
        r == any_contains(strs_view(items@), lower@),
{
    let mut i: usize = 0;
    while i < items.len()
        invariant
            i <= items@.len(),
            forall|k: int|
                0 <= k < i ==> !seq_contains(lowercase(#[trigger] strs_view(items@)[k]), lower@),
        decreases items@.len() - i,
    {
        let l = to_lower(items[i].as_str());
        let lc = chars_of(l.as_str());
        if contains_chars(lc.as_slice(), lower) {
            assert(strs_view(items@)[i as int] == items@[i as int]@);
            return true;
        }
        assert(strs_view(items@)[i as int] == items@[i as int]@);
        i = i + 1;
    }
    false
}

/// Whether `s`, lower-cased, contains `lower`.
fn lower_contains(s: &String, lower: &[char]) -> (r: bool)
    ensures
        r == seq_contains(lowercase(s@), lower@),
{
    let l = to_lower(s.as_str());
    let lc = chars_of(l.as_str());
    contains_chars(lc.as_slice(), lower)
}

/// A copy of a vector of strings.
pub fn clone_strings(v: &Vec<String>) -> (r: Vec<String>)
    ensures
        strs_view(r@) == strs_view(v@),
{
    let mut out: Vec<String> = Vec::new();
    let mut i: usize = 0;
    while i < v.len()
        invariant
            i <= v@.len(),
            strs_view(out@) == strs_view(v@.take(i as int)),
        decreases v@.len() - i,
    {
        let ghost before = out@;
        out.push(v[i].clone());
        proof {
            assert(v@.take(i + 1) =~= v@.take(i as int).push(v@[i as int]));
            assert(strs_view(out@) =~= strs_view(before).push(v@[i as int]@));
            assert(strs_view(v@.take(i + 1)) =~= strs_view(v@.take(i as int)).push(
                v@[i as int]@,
            ));
        }
        i = i + 1;
    }
    assert(v@.take(v@.len() as int) =~= v@);
    out
}

impl Clone for Synonym {
    fn clone(&self) -> (r: Self)
        ensures
            r@ == self@,
    {
        match self {
            Synonym::Regular { object_id, synonyms } => Synonym::Regular {
                object_id: object_id.clone(),
                synonyms: clone_strings(synonyms),
            },
            Synonym::OneWay { object_id, input, synonyms } => Synonym::OneWay {
                object_id: object_id.clone(),
                input: input.clone(),
                synonyms: clone_strings(synonyms),
            },
            Synonym::AltCorrection1 { object_id, word, corrections } => Synonym::AltCorrection1 {
                object_id: object_id.clone(),
                word: word.clone(),
                corrections: clone_strings(corrections),
            },
            Synonym::AltCorrection2 { object_id, word, corrections } => Synonym::AltCorrection2 {
                object_id: object_id.clone(),
                word: word.clone(),
                corrections: clone_strings(corrections),
            },
            Synonym::Placeholder { object_id, placeholder, replacements } => Synonym::Placeholder {
                object_id: object_id.clone(),
                placeholder: placeholder.clone(),
                replacements: clone_strings(replacements),
            },
        }
    }
}

impl Synonym {
    /// The definition's id.
    pub fn object_id(&self) -> (r: &str)
        ensures
            r@ == self@.id(),
    {
        match self {
            Synonym::Regular { object_id, .. } => object_id.as_str(),
            Synonym::OneWay { object_id, .. } => object_id.as_str(),
            Synonym::AltCorrection1 { object_id, .. } => object_id.as_str(),
            Synonym::AltCorrection2 { object_id, .. } => object_id.as_str(),
            Synonym::Placeholder { object_id, .. } => object_id.as_str(),
        }
    }

    /// The kind's name: `synonym`, `onewaysynonym`, `altcorrection1`,
    /// `altcorrection2` or `placeholder`.
    pub fn synonym_type(&self) -> (r: &str)
        ensures
            r@ == self@.kind_name(),
    {
        match self {
            Synonym::Regular { .. } => "synonym",
            Synonym::OneWay { .. } => "onewaysynonym",
            Synonym::AltCorrection1 { .. } => "altcorrection1",
            Synonym::AltCorrection2 { .. } => "altcorrection2",
            Synonym::Placeholder { .. } => "placeholder",
        }
    }

    /// Whether some word of the definition contains `text`, ignoring case.
    pub fn matches_text(&self, text: &str) -> (r: bool)
        ensures
            r == self@.matches(text@),
    {
        let lower_s = to_lower(text);
        let lower = chars_of(lower_s.as_str());
        match self {
            Synonym::Regular { synonyms, .. } => any_item_contains(synonyms, lower.as_slice()),
            Synonym::OneWay { input, synonyms, .. } => lower_contains(input, lower.as_slice())
                || any_item_contains(synonyms, lower.as_slice()),
            Synonym::AltCorrection1 { word, corrections, .. } => lower_contains(
                word,
                lower.as_slice(),
            ) || any_item_contains(corrections, lower.as_slice()),
            Synonym::AltCorrection2 { word, corrections, .. } => lower_contains(
                word,
                lower.as_slice(),
            ) || any_item_contains(corrections, lower.as_slice()),
            Synonym::Placeholder { placeholder, replacements, .. } => lower_contains(
                placeholder,
                lower.as_slice(),
            ) || any_item_contains(replacements, lower.as_slice()),
        }
    }
}

// ---------------------------------------------------------------------------
// The store
// ---------------------------------------------------------------------------

/// The synonyms of one index, each reachable by its id.
#[derive(Debug, Clone)]
pub struct SynonymStore {
    synonyms: Vec<Synonym>,
}

/// The definitions of a sequence of synonyms.
pub open spec fn syns_view(v: Seq<Synonym>) -> Seq<SynonymV> {
    v.map_values(|s: Synonym| s@)
}

/// No two definitions share an id.
pub open spec fn ids_unique(s: Seq<SynonymV>) -> bool {
    forall|i: int, j: int| 0 <= i < s.len() && 0 <= j < s.len() && i != j ==> #[trigger] s[i].id()
        != #[trigger] s[j].id()
}

/// The definitions as a map from id.
pub open spec fn as_map(s: Seq<SynonymV>) -> Map<Seq<char>, SynonymV>
    decreases s.len(),
{
    if s.len() == 0 {
        Map::empty()
    } else {
        as_map(s.drop_last()).insert(s.last().id(), s.last())
    }
}

/// Some definition has id `id`.
pub open spec fn has_id(s: Seq<SynonymV>, id: Seq<char>) -> bool {
    exists|i: int| 0 <= i < s.len() && #[trigger] s[i].id() == id
}

/// With unique ids, the map by id holds exactly the ids of the definitions,
/// and each id gives its definition.
pub proof fn lemma_as_map_contents(s: Seq<SynonymV>)
    requires
        ids_unique(s),
    ensures
        forall|id: Seq<char>| #[trigger] as_map(s).dom().contains(id) <==> has_id(s, id),
        forall|i: int| 0 <= i < s.len() ==> #[trigger] as_map(s)[s[i].id()] == s[i],
    decreases s.len(),
{
    if s.len() > 0 {
        let p = s.drop_last();
        assert(ids_unique(p)) by {
            assert forall|i: int, j: int|
                0 <= i < p.len() && 0 <= j < p.len() && i != j implies #[trigger] p[i].id()
                != #[trigger] p[j].id() by {
                assert(p[i] == s[i] && p[j] == s[j]);
            }
        }
        lemma_as_map_contents(p);
        assert forall|id: Seq<char>| #[trigger] as_map(s).dom().contains(id) <==> has_id(s, id) by {
            if has_id(s, id) {
                let i = choose|i: int| 0 <= i < s.len() && #[trigger] s[i].id() == id;
                if i < p.len() {
                    assert(p[i].id() == id);
                }
            }
            if as_map(p).dom().contains(id) {
                let i = choose|i: int| 0 <= i < p.len() && #[trigger] p[i].id() == id;
                assert(s[i].id() == id);
            }
        }
        assert forall|i: int| 0 <= i < s.len() implies #[trigger] as_map(s)[s[i].id()] == s[i] by {
            if i < p.len() {
                assert(s[i].id() != s[s.len() - 1].id());
                assert(p[i] == s[i]);
                assert(as_map(p)[p[i].id()] == p[i]);
                assert(as_map(s) == as_map(p).insert(s.last().id(), s.last()));
            } else {
                assert(as_map(s) == as_map(p).insert(s.last().id(), s.last()));
            }
        }
    }
}

impl SynonymStore {
    /// The definitions in the store, in its iteration order.
    pub closed spec fn entries(&self) -> Seq<SynonymV> {
        syns_view(self.synonyms@)
    }

    /// Ids are unique.
    pub open spec fn wf(&self) -> bool {
        ids_unique(self.entries())
    }

    /// The definitions by id.
    pub open spec fn map(&self) -> Map<Seq<char>, SynonymV> {
        as_map(self.entries())
    }

    /// An empty store.
    pub fn new() -> (r: SynonymStore)
        ensures
            r.wf(),
            r.entries() == Seq::<SynonymV>::empty(),
    {
        let r = SynonymStore { synonyms: Vec::new() };
        assert(r.entries() =~= Seq::<SynonymV>::empty());
        r
    }

    fn find(&self, object_id: &str) -> (r: Option<usize>)
        requires
            self.wf(),
        ensures
            match r {
                Some(i) => i < self.entries().len() && self.entries()[i as int].id() == object_id@,
                None => !has_id(self.entries(), object_id@),
            },
    {
        let target = chars_of(object_id);
        let mut i: usize = 0;
        while i < self.synonyms.len()
            invariant
                i <= self.synonyms@.len(),
                target@ == object_id@,
                forall|k: int| 0 <= k < i ==> #[trigger] self.entries()[k].id() != object_id@,
            decreases self.synonyms@.len() - i,
        {
            let id = chars_of(self.synonyms[i].object_id());
            assert(self.entries()[i as int] == self.synonyms@[i as int]@);
            if crate::text::chars_eq(id.as_slice(), target.as_slice()) {
                return Some(i);
            }
            i = i + 1;
        }
        None
    }

    /// The definition with id `object_id`.
    pub fn get(&self, object_id: &str) -> (r: Option<&Synonym>)
        requires
            self.wf(),
        ensures
            match r {
                Some(s) => self.map().dom().contains(object_id@) && s@ == self.map()[object_id@],
                None => !self.map().dom().contains(object_id@),
            },
    {
        proof {
            lemma_as_map_contents(self.entries());
        }
        match self.find(object_id) {
            Some(i) => {
                assert(self.entries()[i as int] == self.synonyms@[i as int]@);
                Some(&self.synonyms[i])
            },
            None => None,
        }
    }

    /// Store a definition under its id, replacing the one it had.
    pub fn insert(&mut self, synonym: Synonym)
        requires
            old(self).wf(),
        ensures
            final(self).wf(),
            final(self).map() == old(self).map().insert(synonym@.id(), synonym@),
            has_id(old(self).entries(), synonym@.id()) ==> exists|i: int|
                0 <= i < old(self).entries().len() && #[trigger] old(self).entries()[i].id()
                    == synonym@.id() && final(self).entries() == old(self).entries().update(
                    i,
                    synonym@,
                ),
            !has_id(old(self).entries(), synonym@.id()) ==> final(self).entries() == old(
                self,
            ).entries().push(synonym@),
    {
        let ghost sv = synonym@;
        let found = {
            let id = synonym.object_id();
            self.find(id)
        };
        let ghost old_entries = self.entries();
        proof {
            lemma_as_map_contents(old_entries);
        }
        match found {
            Some(i) => {
                self.synonyms.set(i, synonym);
                proof {
                    assert(self.entries() =~= old_entries.update(i as int, sv));
                    let e = self.entries();
                    assert(ids_unique(e)) by {
                        assert forall|a: int, b: int|
                            0 <= a < e.len() && 0 <= b < e.len() && a != b implies #[trigger] e[a].id()
                            != #[trigger] e[b].id() by {
                            if a != i && b != i {
                                assert(e[a] == old_entries[a] && e[b] == old_entries[b]);
                            } else if a == i {
                                assert(e[b] == old_entries[b]);
                                assert(old_entries[i as int].id() == sv.id());
                            } else {
                                assert(e[a] == old_entries[a]);
                                assert(old_entries[i as int].id() == sv.id());
                            }
                        }
                    }
                    lemma_as_map_contents(e);
                    assert(self.map() =~= as_map(old_entries).insert(sv.id(), sv)) by {
                        assert forall|k: Seq<char>| #[trigger] self.map().dom().contains(k)
                            <==> as_map(old_entries).insert(sv.id(), sv).dom().contains(k) by {
                            if has_id(e, k) {
                                let j = choose|j: int| 0 <= j < e.len() && #[trigger] e[j].id() == k;
                                if j != i {
                                    assert(old_entries[j].id() == k);
                                }
                            }
                            if has_id(old_entries, k) {
                                let j = choose|j: int|
                                    0 <= j < old_entries.len() && #[trigger] old_entries[j].id() == k;
                                if j != i {
                                    assert(e[j].id() == k);
                                } else {
                                    assert(e[i as int].id() == k);
                                }
                            }
                            if k == sv.id() {
                                assert(e[i as int].id() == k);
                            }
                        }
                        assert forall|k: Seq<char>| #[trigger] self.map().dom().contains(k)
                            implies self.map()[k] == as_map(old_entries).insert(sv.id(), sv)[k] by {
                            let j = choose|j: int| 0 <= j < e.len() && #[trigger] e[j].id() == k;
                            assert(self.map()[e[j].id()] == e[j]);
                            if j != i {
                                assert(e[j] == old_entries[j]);
                                assert(as_map(old_entries)[old_entries[j].id()] == old_entries[j]);
                            }
                        }
                    }
                }
            },
            None => {
                self.synonyms.push(synonym);
                proof {
                    assert(self.entries() =~= old_entries.push(sv));
                    let e = self.entries();
                    assert(e.drop_last() =~= old_entries);
                    assert(ids_unique(e)) by {
                        assert forall|a: int, b: int|
                            0 <= a < e.len() && 0 <= b < e.len() && a != b implies #[trigger] e[a].id()
                            != #[trigger] e[b].id() by {
                            if a < old_entries.len() && b < old_entries.len() {
                                assert(e[a] == old_entries[a] && e[b] == old_entries[b]);
                            } else if a < old_entries.len() {
                                assert(e[a] == old_entries[a]);
                            } else {
                                assert(e[b] == old_entries[b]);
                            }
                        }
                    }
                }
            },
        }
    }

    /// Remove the definition with id `object_id`, handing it back.
    pub fn remove(&mut self, object_id: &str) -> (r: Option<Synonym>)
        requires
            old(self).wf(),
        ensures
            final(self).wf(),
            final(self).map() == old(self).map().remove(object_id@),
            match r {
                Some(s) => old(self).map().dom().contains(object_id@) && s@ == old(self).map()[object_id@],
                None => !old(self).map().dom().contains(object_id@),
            },
    {
        let ghost old_entries = self.entries();
        proof {
            lemma_as_map_contents(old_entries);
        }
        match self.find(object_id) {
            Some(i) => {
                let removed = self.synonyms.remove(i);
                proof {
                    let e = self.entries();
                    assert(e =~= old_entries.remove(i as int));
                    assert(ids_unique(e)) by {
                        assert forall|a: int, b: int|
                            0 <= a < e.len() && 0 <= b < e.len() && a != b implies #[trigger] e[a].id()
                            != #[trigger] e[b].id() by {
                            let oa = if a < i { a } else { a + 1 };
                            let ob = if b < i { b } else { b + 1 };
                            assert(e[a] == old_entries[oa]);
                            assert(e[b] == old_entries[ob]);
                        }
                    }
                    lemma_as_map_contents(e);
                    assert(self.map() =~= as_map(old_entries).remove(object_id@)) by {
                        assert forall|k: Seq<char>| #[trigger] self.map().dom().contains(k)
                            <==> as_map(old_entries).remove(object_id@).dom().contains(k) by {
                            if has_id(e, k) {
                                let j = choose|j: int| 0 <= j < e.len() && #[trigger] e[j].id() == k;
                                let oj = if j < i { j } else { j + 1 };
                                assert(e[j] == old_entries[oj]);
                                assert(old_entries[oj].id() == k);
                            }
                            if has_id(old_entries, k) && k != object_id@ {
                                let j = choose|j: int|
                                    0 <= j < old_entries.len() && #[trigger] old_entries[j].id() == k;
                                if j < i {
                                    assert(e[j] == old_entries[j]);
                                } else {
                                    assert(j != i);
                                    assert(e[j - 1] == old_entries[j]);
                                }
                            }
                        }
                        assert forall|k: Seq<char>| #[trigger] self.map().dom().contains(k) implies self.map()[k]
                            == as_map(old_entries).remove(object_id@)[k] by {
                            let j = choose|j: int| 0 <= j < e.len() && #[trigger] e[j].id() == k;
                            let oj = if j < i { j } else { j + 1 };
                            assert(e[j] == old_entries[oj]);
                            assert(self.map()[e[j].id()] == e[j]);
                            assert(as_map(old_entries)[old_entries[oj].id()] == old_entries[oj]);
                        }
                    }
                    assert(removed@ == old_entries[i as int]);
                }
                Some(removed)
            },
            None => {
                assert(self.map() =~= as_map(old_entries).remove(object_id@));
                None
            },
        }
    }

    /// Remove every definition.
    pub fn clear(&mut self)
        ensures
            final(self).wf(),
            final(self).entries() == Seq::<SynonymV>::empty(),
    {
        self.synonyms.clear();
        assert(self.entries() =~= Seq::<SynonymV>::empty());
    }

    /// Copies of every definition, in store order (what is written when the
    /// store is saved).
    pub fn all(&self) -> (r: Vec<Synonym>)
        ensures
            syns_view(r@) == self.entries(),
    {
        let mut out: Vec<Synonym> = Vec::new();
        let mut i: usize = 0;
        while i < self.synonyms.len()
            invariant
                i <= self.synonyms@.len(),
                syns_view(out@) == self.entries().take(i as int),
            decreases self.synonyms@.len() - i,
        {
            let ghost before = out@;
            let c = self.synonyms[i].clone();
            assert(c@ == self.entries()[i as int]);
            out.push(c);
            assert(out@ == before.push(c));
            assert(syns_view(out@) =~= syns_view(before).push(c@));
            assert(self.entries().take(i + 1) =~= self.entries().take(i as int).push(self.entries()[i as int]));
            assert(syns_view(out@) =~= self.entries().take(i + 1));
            i = i + 1;
        }
        assert(self.entries().take(self.synonyms@.len() as int) =~= self.entries());
        out
    }
}


// ---------------------------------------------------------------------------
// Search
// ---------------------------------------------------------------------------

/// A definition passes a search when the query is empty or matches it, and the
/// kind, when one is asked for, is the definition's kind.
pub open spec fn search_pred(query: Seq<char>, kind: Option<Seq<char>>) -> spec_fn(SynonymV) -> bool {
    |s: SynonymV| (query.len() == 0 || s.matches(query)) && (kind is None || s.kind_name() == kind->0)
}

/// The page `page` of `hits_per_page` items (empty past the end).
pub open spec fn page_of<T>(items: Seq<T>, page: int, hits_per_page: int) -> Seq<T> {
    let start = page * hits_per_page;
    if start < items.len() {
        let end = if start + hits_per_page < items.len() {
            start + hits_per_page
        } else {
            items.len() as int
        };
        items.subrange(start, end)
    } else {
        seq![]
    }
}

/// The view of an optional string.
pub open spec fn opt_str_view(s: Option<&str>) -> Option<Seq<char>> {
    match s {
        Some(t) => Some(t@),
        None => None,
    }
}

// ---------------------------------------------------------------------------
// Query expansion
// ---------------------------------------------------------------------------

/// `s` with later repetitions of an item dropped.
pub open spec fn dedup(s: Seq<Seq<char>>) -> Seq<Seq<char>>
    decreases s.len(),
{
    if s.len() == 0 {
        seq![]
    } else {
        let d = dedup(s.drop_last());
        if d.contains(s.last()) {
            d
        } else {
            d.push(s.last())
        }
    }
}

/// For a token, the query with the token replaced by each alternative that does
/// not equal the token (ignoring ASCII case).
pub open spec fn alt_cands(q: Seq<char>, token: Seq<char>, alts: Seq<Seq<char>>) -> Seq<Seq<char>>
    decreases alts.len(),
{
    if alts.len() == 0 {
        seq![]
    } else {
        alt_cands(q, token, alts.drop_last()) + if !eq_ignore_ascii(alts.last(), token) {
            seq![replace_all(q, token, alts.last())]
        } else {
            seq![]
        }
    }
}

/// For a token, the alternatives of every synonym word equal to it (ignoring ASCII case).
pub open spec fn syn_cands(
    q: Seq<char>,
    token: Seq<char>,
    words: Seq<Seq<char>>,
    all: Seq<Seq<char>>,
) -> Seq<Seq<char>>
    decreases words.len(),
{
    if words.len() == 0 {
        seq![]
    } else {
        syn_cands(q, token, words.drop_last(), all) + if eq_ignore_ascii(words.last(), token) {
            alt_cands(q, token, all)
        } else {
            seq![]
        }
    }
}

/// The candidates of a regular synonym for each token of the query, in order.
pub open spec fn token_cands(q: Seq<char>, tokens: Seq<Seq<char>>, words: Seq<Seq<char>>) -> Seq<
    Seq<char>,
>
    decreases tokens.len(),
{
    if tokens.len() == 0 {
        seq![]
    } else {
        token_cands(q, tokens.drop_last(), words) + syn_cands(q, tokens.last(), words, words)
    }
}

/// The lower-cased query with the lower-cased input replaced by each lower-cased synonym.
pub open spec fn oneway_cands(lq: Seq<char>, linput: Seq<char>, words: Seq<Seq<char>>) -> Seq<
    Seq<char>,
>
    decreases words.len(),
{
    if words.len() == 0 {
        seq![]
    } else {
        oneway_cands(lq, linput, words.drop_last()).push(
            replace_all(lq, linput, lowercase(words.last())),
        )
    }
}

/// The rewritten queries one definition offers: a regular synonym for the query's
/// words, a one-way synonym when its input occurs in the query (ignoring case),
/// other kinds none.
pub open spec fn entry_cands(q: Seq<char>, e: SynonymV) -> Seq<Seq<char>> {
    match e {
        SynonymV::Regular { synonyms, .. } => token_cands(q, split_ws(q), synonyms),
        SynonymV::OneWay { input, synonyms, .. } => if seq_contains(
            lowercase(q),
            lowercase(input),
        ) {
            oneway_cands(lowercase(q), lowercase(input), synonyms)
        } else {
            seq![]
        },
        _ => seq![],
    }
}

/// The rewritten queries of all definitions, in store order.
pub open spec fn all_cands(q: Seq<char>, entries: Seq<SynonymV>) -> Seq<Seq<char>>
    decreases entries.len(),
{
    if entries.len() == 0 {
        seq![]
    } else {
        all_cands(q, entries.drop_last()) + entry_cands(q, entries.last())
    }
}

/// The query followed by every distinct rewritten query, first occurrence first.
pub open spec fn expansion(q: Seq<char>, entries: Seq<SynonymV>) -> Seq<Seq<char>> {
    dedup(seq![q] + all_cands(q, entries))
}

/// Append `x` unless it is already present; `acc` is what has been offered so far.
fn push_unique(expanded: &mut Vec<Vec<char>>, x: Vec<char>, acc: Ghost<Seq<Seq<char>>>)
    requires
        words_view(old(expanded)@) == dedup(acc@),
    ensures
        words_view(final(expanded)@) == dedup(acc@.push(x@)),
{
    proof {
        assert(acc@.push(x@).drop_last() =~= acc@);
    }
    let mut i: usize = 0;
    while i < expanded.len()
        invariant
            i <= expanded@.len(),
            words_view(expanded@) == dedup(acc@),
            forall|k: int| 0 <= k < i ==> expanded@[k]@ != x@,
        decreases expanded@.len() - i,
    {
        if crate::text::chars_eq(expanded[i].as_slice(), x.as_slice()) {
            proof {
                assert(words_view(expanded@)[i as int] == x@);
                assert(dedup(acc@).contains(x@));
                let t = acc@.push(x@);
                assert(t.drop_last() =~= acc@);
                assert(t.last() == x@);
            }
            return;
        }
        i = i + 1;
    }
    let ghost before = words_view(expanded@);
    proof {
        let t = acc@.push(x@);
        assert(t.drop_last() == acc@);
        assert(t.last() == x@);
    }
    assert(!before.contains(x@)) by {
        if before.contains(x@) {
            let k = choose|k: int| 0 <= k < before.len() && before[k] == x@;
            assert(expanded@[k]@ == x@);
        }
    }
    expanded.push(x);
    assert(words_view(expanded@) =~= before.push(x@));
}

/// Two concatenations agree once regrouped.
proof fn lemma_assoc_push(a: Seq<Seq<char>>, b: Seq<Seq<char>>, x: Seq<char>)
    ensures
        (a + b).push(x) == a + b.push(x),
{
    assert((a + b).push(x) =~= a + b.push(x));
}

impl SynonymStore {
    /// The definitions passing the search, in store order, page `page` of them,
    /// with the number of all that pass.
    pub fn search(
        &self,
        query: &str,
        synonym_type: Option<&str>,
        page: usize,
        hits_per_page: usize,
    ) -> (r: (Vec<Synonym>, usize))
        requires
            page * hits_per_page + hits_per_page <= usize::MAX,
        ensures
            r.1 == self.entries().filter(search_pred(query@, opt_str_view(synonym_type))).len(),
            syns_view(r.0@) == page_of(
                self.entries().filter(search_pred(query@, opt_str_view(synonym_type))),
                page as int,
                hits_per_page as int,
            ),
    {
        let ghost pred = search_pred(query@, opt_str_view(synonym_type));
        let ghost ents = self.entries();
        let mut filtered: Vec<Synonym> = Vec::new();
        let mut i: usize = 0;
        let query_empty = query.is_empty();
        proof {
            assert(ents.take(0) =~= Seq::<SynonymV>::empty());
            reveal(Seq::filter);
            assert(syns_view(filtered@) =~= ents.take(0).filter(pred));
        }
        while i < self.synonyms.len()
            invariant
                i <= self.synonyms@.len(),
                ents == self.entries(),
                ents.len() == self.synonyms@.len(),
                pred == search_pred(query@, opt_str_view(synonym_type)),
                query_empty == (query@.len() == 0),
                syns_view(filtered@) == ents.take(i as int).filter(pred),
            decreases self.synonyms@.len() - i,
        {
            let syn = &self.synonyms[i];
            let ghost sv = syn@;
            assert(ents[i as int] == sv);
            let mut keep = query_empty || syn.matches_text(query);
            if keep {
                match synonym_type {
                    Some(typ) => {
                        let a = chars_of(syn.synonym_type());
                        let b = chars_of(typ);
                        if !crate::text::chars_eq(a.as_slice(), b.as_slice()) {
                            keep = false;
                        }
                    },
                    None => {},
                }
            }
            assert(keep == pred(sv));
            let ghost before = syns_view(filtered@);
            if keep {
                filtered.push(syn.clone());
                assert(syns_view(filtered@) =~= before.push(sv));
            }
            proof {
                assert(ents.take(i + 1) =~= ents.take(i as int).push(sv));
                ents.take(i as int).lemma_filter_push(sv, pred);
            }
            i = i + 1;
        }
        assert(ents.take(ents.len() as int) =~= ents);
        let total = filtered.len();
        let start = page * hits_per_page;
        let end = if start + hits_per_page < total {
            start + hits_per_page
        } else {
            total
        };
        let mut out: Vec<Synonym> = Vec::new();
        if start < total {
            let mut k: usize = start;
            while k < end
                invariant
                    start <= k <= end <= total,
                    total == filtered@.len(),
                    syns_view(out@) == syns_view(filtered@).subrange(start as int, k as int),
                decreases end - k,
            {
                let ghost before = syns_view(out@);
                assert(syns_view(filtered@)[k as int] == filtered@[k as int]@);
                let item = filtered[k].clone();
                assert(item@ == filtered@[k as int]@);
                out.push(item);
                assert(out@.last() == item);
                assert(syns_view(out@).len() == before.len() + 1);
                assert(syns_view(out@)[before.len() as int] == item@);
                assert(syns_view(out@) =~= syns_view(filtered@).subrange(start as int, k + 1));
                k = k + 1;
            }
        } else {
            assert(syns_view(out@) =~= Seq::<SynonymV>::empty());
        }
        (out, total)
    }

    /// The query followed by every distinct rewrite that the regular and one-way
    /// synonyms offer, in store order.
    pub fn expand_query(&self, query: &str) -> (r: Vec<String>)
        ensures
            r@.map_values(|s: String| s@) == expansion(query@, self.entries()),
    {
        let ghost ents = self.entries();
        let q = chars_of(query);
        let tokens = split_whitespace_chars(q.as_slice());
        let lq_s = to_lower(query);
        let lq = chars_of(lq_s.as_str());
        let mut expanded: Vec<Vec<char>> = Vec::new();
        let ghost mut acc: Seq<Seq<char>> = seq![];
        proof {
            assert(words_view(expanded@) =~= dedup(acc));
        }
        push_unique(&mut expanded, chars_of(query), Ghost(acc));
        proof {
            acc = acc.push(q@);
            assert(acc =~= seq![query@] + all_cands(query@, ents.take(0)));
        }
        let mut i: usize = 0;
        while i < self.synonyms.len()
            invariant
                i <= self.synonyms@.len(),
                ents == self.entries(),
                ents.len() == self.synonyms@.len(),
                q@ == query@,
                lq@ == lowercase(query@),
                words_view(tokens@) == split_ws(query@),
                words_view(expanded@) == dedup(acc),
                acc == seq![query@] + all_cands(query@, ents.take(i as int)),
            decreases self.synonyms@.len() - i,
        {
            let ghost acc0 = acc;
            let ghost e = ents[i as int];
            assert(e == self.synonyms@[i as int]@);
            match &self.synonyms[i] {
                Synonym::Regular { synonyms, .. } => {
                    let ghost words = strs_view(synonyms@);
                    let mut a: usize = 0;
                    assert(acc =~= acc0 + token_cands(query@, words_view(tokens@).take(0), words));
                    while a < tokens.len()
                        invariant
                            a <= tokens@.len(),
                            q@ == query@,
                            words == strs_view(synonyms@),
                            words_view(expanded@) == dedup(acc),
                            acc == acc0 + token_cands(query@, words_view(tokens@).take(a as int), words),
                        decreases tokens@.len() - a,
                    {
                        let ghost acc1 = acc;
                        let ghost tv = tokens@[a as int]@;
                        assert(words_view(tokens@)[a as int] == tv);
                        let mut b: usize = 0;
                        assert(acc =~= acc1 + syn_cands(query@, tv, words.take(0), words));
                        while b < synonyms.len()
                            invariant
                                b <= synonyms@.len(),
                                q@ == query@,
                                tv == tokens@[a as int]@,
                                a < tokens@.len(),
                                words == strs_view(synonyms@),
                                words_view(expanded@) == dedup(acc),
                                acc == acc1 + syn_cands(query@, tv, words.take(b as int), words),
                            decreases synonyms@.len() - b,
                        {
                            let ghost acc2 = acc;
                            let sc = chars_of(synonyms[b].as_str());
                            assert(words[b as int] == sc@);
                            if eq_ignore_ascii_chars(sc.as_slice(), tokens[a].as_slice()) {
                                let mut c: usize = 0;
                                assert(acc =~= acc2 + alt_cands(query@, tv, words.take(0)));
                                while c < synonyms.len()
                                    invariant
                                        c <= synonyms@.len(),
                                        q@ == query@,
                                        tv == tokens@[a as int]@,
                                        a < tokens@.len(),
                                        words == strs_view(synonyms@),
                                        words_view(expanded@) == dedup(acc),
                                        acc == acc2 + alt_cands(query@, tv, words.take(c as int)),
                                    decreases synonyms@.len() - c,
                                {
                                    let ac = chars_of(synonyms[c].as_str());
                                    assert(words[c as int] == ac@);
                                    assert(words.take(c + 1).drop_last() =~= words.take(c as int));
                                    if !eq_ignore_ascii_chars(ac.as_slice(), tokens[a].as_slice()) {
                                        let nq = replace_chars(q.as_slice(), tokens[a].as_slice(), ac.as_slice());
                                        push_unique(&mut expanded, nq, Ghost(acc));
                                        proof {
                                            lemma_assoc_push(acc2, alt_cands(query@, tv, words.take(c as int)), nq@);
                                            acc = acc.push(nq@);
                                            assert(acc =~= acc2 + alt_cands(query@, tv, words.take(c + 1)));
                                        }
                                    } else {
                                        assert(acc =~= acc2 + alt_cands(query@, tv, words.take(c + 1)));
                                    }
                                    c = c + 1;
                                }
                                proof {
                                    assert(words.take(words.len() as int) =~= words);
                                    assert(words.take(b + 1).drop_last() =~= words.take(b as int));
                                    assert(acc =~= acc1 + syn_cands(query@, tv, words.take(b + 1), words));
                                }
                            } else {
                                proof {
                                    assert(words.take(b + 1).drop_last() =~= words.take(b as int));
                                    assert(acc =~= acc1 + syn_cands(query@, tv, words.take(b + 1), words));
                                }
                            }
                            b = b + 1;
                        }
                        proof {
                            assert(words.take(words.len() as int) =~= words);
                            let tk = words_view(tokens@);
                            assert(tk.take(a + 1).drop_last() =~= tk.take(a as int));
                            assert(tk.take(a + 1).last() == tv);
                            assert(acc =~= acc0 + token_cands(query@, tk.take(a + 1), words));
                        }
                        a = a + 1;
                    }
                    proof {
                        let tk = words_view(tokens@);
                        assert(tk.take(tk.len() as int) =~= tk);
                        assert(acc =~= acc0 + entry_cands(query@, e));
                    }
                },
                Synonym::OneWay { input, synonyms, .. } => {
                    let li_s = to_lower(input.as_str());
                    let li = chars_of(li_s.as_str());
                    if contains_chars(lq.as_slice(), li.as_slice()) {
                        let ghost words = strs_view(synonyms@);
                        let mut b: usize = 0;
                        assert(acc =~= acc0 + oneway_cands(lq@, li@, words.take(0)));
                        while b < synonyms.len()
                            invariant
                                b <= synonyms@.len(),
                                words == strs_view(synonyms@),
                                words_view(expanded@) == dedup(acc),
                                acc == acc0 + oneway_cands(lq@, li@, words.take(b as int)),
                            decreases synonyms@.len() - b,
                        {
                            let ls_s = to_lower(synonyms[b].as_str());
                            let ls = chars_of(ls_s.as_str());
                            assert(words[b as int] == synonyms@[b as int]@);
                            let nq = replace_chars(lq.as_slice(), li.as_slice(), ls.as_slice());
                            push_unique(&mut expanded, nq, Ghost(acc));
                            proof {
                                assert(words.take(b + 1).drop_last() =~= words.take(b as int));
                                lemma_assoc_push(acc0, oneway_cands(lq@, li@, words.take(b as int)), nq@);
                                acc = acc.push(nq@);
                                assert(acc =~= acc0 + oneway_cands(lq@, li@, words.take(b + 1)));
                            }
                            b = b + 1;
                        }
                        proof {
                            assert(words.take(words.len() as int) =~= words);
                            assert(acc =~= acc0 + entry_cands(query@, e));
                        }
                    } else {
                        assert(acc =~= acc0 + entry_cands(query@, e));
                    }
                },
                _ => {
                    assert(acc =~= acc0 + entry_cands(query@, e));
                },
            }
            proof {
                assert(ents.take(i + 1).drop_last() =~= ents.take(i as int));
                assert(ents.take(i + 1).last() == e);
                assert(acc =~= seq![query@] + all_cands(query@, ents.take(i + 1)));
            }
            i = i + 1;
        }
        proof {
            assert(ents.take(ents.len() as int) =~= ents);
        }
        let mut out: Vec<String> = Vec::new();
        let mut k: usize = 0;
        while k < expanded.len()
            invariant
                k <= expanded@.len(),
                out@.len() == k,
                forall|j: int| 0 <= j < k ==> #[trigger] out@[j]@ == expanded@[j]@,
            decreases expanded@.len() - k,
        {
            let st = string_from_chars(expanded[k].as_slice());
            out.push(st);
            k = k + 1;
        }
        assert(out@.map_values(|s: String| s@) =~= words_view(expanded@));
        out
    }
}

// ---------------------------------------------------------------------------
// Laws
// ---------------------------------------------------------------------------

proof fn lemma_dedup_props(s: Seq<Seq<char>>)
    ensures
        dedup(s).no_duplicates(),
        forall|x: Seq<char>| dedup(s).contains(x) <==> s.contains(x),
        s.len() > 0 ==> dedup(s).len() > 0 && dedup(s)[0] == s[0],
    decreases s.len(),
{
    if s.len() > 0 {
        let p = s.drop_last();
        lemma_dedup_props(p);
        let d = dedup(p);
        let l = s.last();
        assert forall|x: Seq<char>| dedup(s).contains(x) <==> s.contains(x) by {
            let sc = s.contains(x);
            let pc = p.contains(x);
            if sc {
                let i = choose|i: int| 0 <= i < s.len() && s[i] == x;
                if i < p.len() {
                    assert(p[i] == x);
                } else {
                    assert(x == l);
                }
            }
            if pc {
                let i = choose|i: int| 0 <= i < p.len() && p[i] == x;
                assert(s[i] == x);
            }
            assert(sc <==> (pc || x == l));
            if d.contains(l) {
                assert(dedup(s) == d);
                if x == l {
                    assert(p.contains(l));
                }
            } else {
                let e = d.push(l);
                assert(dedup(s) == e);
                if e.contains(x) {
                    let i = choose|i: int| 0 <= i < e.len() && e[i] == x;
                    if i < d.len() {
                        assert(d[i] == x);
                        assert(d.contains(x));
                    }
                }
                if d.contains(x) {
                    let i = choose|i: int| 0 <= i < d.len() && d[i] == x;
                    assert(e[i] == x);
                }
                if x == l {
                    assert(e[d.len() as int] == x);
                }
            }
        }
        if p.len() > 0 {
            assert(p[0] == s[0]);
        } else {
            assert(dedup(p) =~= Seq::<Seq<char>>::empty());
        }
    }
}

/// An expansion starts with the query itself, never lists a query twice, and lists
/// exactly the query and the rewrites that the definitions offer.
pub proof fn law_expansion_shape(q: Seq<char>, entries: Seq<SynonymV>)
    ensures
        expansion(q, entries).len() >= 1,
        expansion(q, entries)[0] == q,
        expansion(q, entries).no_duplicates(),
        forall|x: Seq<char>| #[trigger] expansion(q, entries).contains(x) <==> (x == q
            || all_cands(q, entries).contains(x)),
{
    let full = seq![q] + all_cands(q, entries);
    lemma_dedup_props(full);
    assert(full[0] == q);
    assert forall|x: Seq<char>| #[trigger] expansion(q, entries).contains(x) <==> (x == q
        || all_cands(q, entries).contains(x)) by {
        if full.contains(x) {
            let i = choose|i: int| 0 <= i < full.len() && full[i] == x;
            if i > 0 {
                assert(all_cands(q, entries)[i - 1] == x);
            }
        }
        if all_cands(q, entries).contains(x) {
            let i = choose|i: int| 0 <= i < all_cands(q, entries).len() && all_cands(q, entries)[i] == x;
            assert(full[i + 1] == x);
        }
        assert(full[0] == q);
    }
}

/// Alternative corrections and placeholders take no part in query expansion.
pub proof fn law_corrections_do_not_expand(q: Seq<char>, e: SynonymV)
    requires
        !(e is Regular),
        !(e is OneWay),
    ensures
        entry_cands(q, e) == Seq::<Seq<char>>::empty(),
{
}

/// A one-way synonym offers nothing for a query in which its input does not occur
/// (ignoring case): it never rewrites in the reverse direction.
pub proof fn law_oneway_needs_input(q: Seq<char>, e: SynonymV)
    requires
        e is OneWay,
        !seq_contains(lowercase(q), lowercase(e->OneWay_input)),
    ensures
        entry_cands(q, e) == Seq::<Seq<char>>::empty(),
{
}

/// After storing a definition, looking its id up gives it back, and every other
/// id still gives what it gave before.
pub proof fn law_get_after_insert(m: Map<Seq<char>, SynonymV>, s: SynonymV, other: Seq<char>)
    requires
        other != s.id(),
    ensures
        m.insert(s.id(), s).dom().contains(s.id()),
        m.insert(s.id(), s)[s.id()] == s,
        m.insert(s.id(), s).dom().contains(other) == m.dom().contains(other),
        m.dom().contains(other) ==> m.insert(s.id(), s)[other] == m[other],
{
}

/// After removing an id, looking it up finds nothing, and other ids are untouched.
pub proof fn law_get_after_remove(m: Map<Seq<char>, SynonymV>, id: Seq<char>, other: Seq<char>)
    requires
        other != id,
    ensures
        !m.remove(id).dom().contains(id),
        m.remove(id).dom().contains(other) == m.dom().contains(other),
        m.dom().contains(other) ==> m.remove(id)[other] == m[other],
{
}

/// A page never holds more than `hits_per_page` items, and pages past the end are empty.
pub proof fn law_page_bounds<T>(items: Seq<T>, page: nat, hits_per_page: nat)
    ensures
        page_of(items, page as int, hits_per_page as int).len() <= hits_per_page,
        page * hits_per_page >= items.len() ==> page_of(items, page as int, hits_per_page as int).len() == 0,
{
    assert(page * hits_per_page >= 0) by (nonlinear_arith);
    assert(page * hits_per_page >= items.len() ==> page_of(items, page as int, hits_per_page as int).len() == 0);
}

/// Consecutive pages tile the list: page `p` followed by page `p + 1` is the
/// stretch of items from `p * hits_per_page` on, for two pages' worth.
pub proof fn law_pages_tile<T>(items: Seq<T>, page: int, hits_per_page: int)
    requires
        page >= 0,
        hits_per_page >= 0,
        (page + 1) * hits_per_page < items.len(),
    ensures
        page_of(items, page, hits_per_page) + page_of(items, page + 1, hits_per_page)
            == items.subrange(
            page * hits_per_page,
            if (page + 2) * hits_per_page < items.len() {
                (page + 2) * hits_per_page
            } else {
                items.len() as int
            },
        ),
{
    assert((page + 1) * hits_per_page == page * hits_per_page + hits_per_page) by (nonlinear_arith);
    assert((page + 2) * hits_per_page == page * hits_per_page + 2 * hits_per_page) by (nonlinear_arith);
    assert(page * hits_per_page >= 0) by (nonlinear_arith)
        requires
            page >= 0,
            hits_per_page >= 0,
    ;
    let a = page_of(items, page, hits_per_page);
    let b = page_of(items, page + 1, hits_per_page);
    let start = page * hits_per_page;
    let end = if (page + 2) * hits_per_page < items.len() {
        (page + 2) * hits_per_page
    } else {
        items.len() as int
    };
    assert(a + b =~= items.subrange(start, end));
}

/// Pages `0 .. pages - 1`, one after another.
pub open spec fn pages_joined<T>(items: Seq<T>, pages: int, hits_per_page: int) -> Seq<T>
    decreases pages,
{
    if pages <= 0 {
        seq![]
    } else {
        pages_joined(items, pages - 1, hits_per_page) + page_of(items, pages - 1, hits_per_page)
    }
}

/// Successive pages partition the list: the first `pages` pages, one after
/// another, are the list's first `pages * hits_per_page` items (all of it once
/// the pages reach its end), so no item is on two pages and none is skipped.
pub proof fn law_pages_partition<T>(items: Seq<T>, pages: int, hits_per_page: int)
    requires
        pages >= 0,
        hits_per_page > 0,
    ensures
        pages_joined(items, pages, hits_per_page) == items.take(
            if pages * hits_per_page < items.len() {
                pages * hits_per_page
            } else {
                items.len() as int
            },
        ),
        pages * hits_per_page >= items.len() ==> pages_joined(items, pages, hits_per_page) == items,
    decreases pages,
{
    if pages == 0 {
        assert(pages_joined(items, pages, hits_per_page) =~= items.take(0));
    } else {
        law_pages_partition(items, pages - 1, hits_per_page);
        assert(pages * hits_per_page == (pages - 1) * hits_per_page + hits_per_page) by (nonlinear_arith);
        assert((pages - 1) * hits_per_page >= 0) by (nonlinear_arith)
            requires
                pages >= 1,
                hits_per_page > 0,
        ;
        let prev = pages_joined(items, pages - 1, hits_per_page);
        let pg = page_of(items, pages - 1, hits_per_page);
        let n = if pages * hits_per_page < items.len() {
            pages * hits_per_page
        } else {
            items.len() as int
        };
        assert(prev + pg =~= items.take(n));
    }
    if pages * hits_per_page >= items.len() {
        assert(items.take(items.len() as int) =~= items);
    }
}

proof fn lemma_concat_contains(a: Seq<Seq<char>>, b: Seq<Seq<char>>, x: Seq<char>)
    requires
        a.contains(x) || b.contains(x),
    ensures
        (a + b).contains(x),
{
    if a.contains(x) {
        let i = choose|i: int| 0 <= i < a.len() && a[i] == x;
        assert((a + b)[i] == x);
    } else {
        let i = choose|i: int| 0 <= i < b.len() && b[i] == x;
        assert((a + b)[a.len() + i] == x);
    }
}

proof fn lemma_dedup_contains(s: Seq<Seq<char>>, x: Seq<char>)
    requires
        s.contains(x),
    ensures
        dedup(s).contains(x),
    decreases s.len(),
{
    let p = s.drop_last();
    let d = dedup(p);
    if s.last() == x {
        if !d.contains(x) {
            assert(d.push(x)[d.len() as int] == x);
        }
    } else {
        let i = choose|i: int| 0 <= i < s.len() && s[i] == x;
        assert(p[i] == x);
        lemma_dedup_contains(p, x);
        if !d.contains(s.last()) {
            let j = choose|j: int| 0 <= j < d.len() && d[j] == x;
            assert(d.push(s.last())[j] == x);
        }
    }
}

proof fn lemma_alt_cands_contains(q: Seq<char>, t: Seq<char>, alts: Seq<Seq<char>>, ai: int)
    requires
        0 <= ai < alts.len(),
        !eq_ignore_ascii(alts[ai], t),
    ensures
        alt_cands(q, t, alts).contains(replace_all(q, t, alts[ai])),
    decreases alts.len(),
{
    let x = replace_all(q, t, alts[ai]);
    let p = alts.drop_last();
    if ai == alts.len() - 1 {
        assert(seq![x].contains(x)) by {
            assert(seq![x][0] == x);
        }
        lemma_concat_contains(alt_cands(q, t, p), seq![x], x);
    } else {
        assert(p[ai] == alts[ai]);
        lemma_alt_cands_contains(q, t, p, ai);
        let tail = if !eq_ignore_ascii(alts.last(), t) {
            seq![replace_all(q, t, alts.last())]
        } else {
            Seq::<Seq<char>>::empty()
        };
        lemma_concat_contains(alt_cands(q, t, p), tail, x);
    }
}

proof fn lemma_syn_cands_contains(
    q: Seq<char>,
    t: Seq<char>,
    words: Seq<Seq<char>>,
    all: Seq<Seq<char>>,
    wi: int,
    ai: int,
)
    requires
        0 <= wi < words.len(),
        eq_ignore_ascii(words[wi], t),
        0 <= ai < all.len(),
        !eq_ignore_ascii(all[ai], t),
    ensures
        syn_cands(q, t, words, all).contains(replace_all(q, t, all[ai])),
    decreases words.len(),
{
    let x = replace_all(q, t, all[ai]);
    let p = words.drop_last();
    let tail = if eq_ignore_ascii(words.last(), t) {
        alt_cands(q, t, all)
    } else {
        Seq::<Seq<char>>::empty()
    };
    if wi == words.len() - 1 {
        lemma_alt_cands_contains(q, t, all, ai);
        lemma_concat_contains(syn_cands(q, t, p, all), tail, x);
    } else {
        assert(p[wi] == words[wi]);
        lemma_syn_cands_contains(q, t, p, all, wi, ai);
        lemma_concat_contains(syn_cands(q, t, p, all), tail, x);
    }
}

proof fn lemma_token_cands_contains(
    q: Seq<char>,
    tokens: Seq<Seq<char>>,
    words: Seq<Seq<char>>,
    ti: int,
    wi: int,
    ai: int,
)
    requires
        0 <= ti < tokens.len(),
        0 <= wi < words.len(),
        eq_ignore_ascii(words[wi], tokens[ti]),
        0 <= ai < words.len(),
        !eq_ignore_ascii(words[ai], tokens[ti]),
    ensures
        token_cands(q, tokens, words).contains(replace_all(q, tokens[ti], words[ai])),
    decreases tokens.len(),
{
    let x = replace_all(q, tokens[ti], words[ai]);
    let p = tokens.drop_last();
    if ti == tokens.len() - 1 {
        lemma_syn_cands_contains(q, tokens.last(), words, words, wi, ai);
        lemma_concat_contains(token_cands(q, p, words), syn_cands(q, tokens.last(), words, words), x);
    } else {
        assert(p[ti] == tokens[ti]);
        lemma_token_cands_contains(q, p, words, ti, wi, ai);
        lemma_concat_contains(token_cands(q, p, words), syn_cands(q, tokens.last(), words, words), x);
    }
}

proof fn lemma_all_cands_contains(q: Seq<char>, entries: Seq<SynonymV>, i: int, x: Seq<char>)
    requires
        0 <= i < entries.len(),
        entry_cands(q, entries[i]).contains(x),
    ensures
        all_cands(q, entries).contains(x),
    decreases entries.len(),
{
    let p = entries.drop_last();
    if i == entries.len() - 1 {
        lemma_concat_contains(all_cands(q, p), entry_cands(q, entries.last()), x);
    } else {
        assert(p[i] == entries[i]);
        lemma_all_cands_contains(q, p, i, x);
        lemma_concat_contains(all_cands(q, p), entry_cands(q, entries.last()), x);
    }
}

/// A regular synonym rewrites a query whose token equals one of its words
/// ignoring ASCII case: for every other word `a` of the synonym (not equal to
/// the token ignoring case), the expansion holds the query with that token
/// replaced by `a`; and the expansion always starts with the query itself.
pub proof fn law_regular_synonym_rewrites_token(q: Seq<char>, entries: Seq<SynonymV>, i: int, ti: int, wi: int, ai: int)
    requires
        0 <= i < entries.len(),
        entries[i] is Regular,
        0 <= ti < split_ws(q).len(),
        0 <= wi < entries[i]->Regular_synonyms.len(),
        0 <= ai < entries[i]->Regular_synonyms.len(),
        eq_ignore_ascii(entries[i]->Regular_synonyms[wi], split_ws(q)[ti]),
        !eq_ignore_ascii(entries[i]->Regular_synonyms[ai], split_ws(q)[ti]),
    ensures
        expansion(q, entries).contains(
            replace_all(q, split_ws(q)[ti], entries[i]->Regular_synonyms[ai]),
        ),
        expansion(q, entries).len() > 0 && expansion(q, entries)[0] == q,
{
    let words = entries[i]->Regular_synonyms;
    let tokens = split_ws(q);
    let x = replace_all(q, tokens[ti], words[ai]);
    lemma_token_cands_contains(q, tokens, words, ti, wi, ai);
    assert(entry_cands(q, entries[i]) == token_cands(q, tokens, words));
    lemma_all_cands_contains(q, entries, i, x);
    lemma_concat_contains(seq![q], all_cands(q, entries), x);
    lemma_dedup_contains(seq![q] + all_cands(q, entries), x);
    lemma_dedup_first(seq![q] + all_cands(q, entries));
}

proof fn lemma_dedup_first(s: Seq<Seq<char>>)
    requires
        s.len() > 0,
    ensures
        dedup(s).len() > 0 && dedup(s)[0] == s[0],
    decreases s.len(),
{
    let p = s.drop_last();
    if s.len() > 1 {
        lemma_dedup_first(p);
        assert(p[0] == s[0]);
        let d = dedup(p);
        if !d.contains(s.last()) {
            assert(d.push(s.last())[0] == d[0]);
        }
    } else {
        assert(dedup(p) =~= Seq::<Seq<char>>::empty());
        assert(!dedup(p).contains(s.last()));
        assert(dedup(s) == dedup(p).push(s.last()));
    }
}

proof fn lemma_oneway_cands_contains(lq: Seq<char>, li: Seq<char>, words: Seq<Seq<char>>, k: int)
    requires
        0 <= k < words.len(),
    ensures
        oneway_cands(lq, li, words).contains(replace_all(lq, li, lowercase(words[k]))),
    decreases words.len(),
{
    let p = words.drop_last();
    let c = oneway_cands(lq, li, p).push(replace_all(lq, li, lowercase(words.last())));
    if k == words.len() - 1 {
        assert(c[c.len() - 1] == replace_all(lq, li, lowercase(words[k])));
    } else {
        assert(p[k] == words[k]);
        lemma_oneway_cands_contains(lq, li, p, k);
        let j = choose|j: int|
            0 <= j < oneway_cands(lq, li, p).len() && oneway_cands(lq, li, p)[j] == replace_all(
                lq,
                li,
                lowercase(p[k]),
            );
        assert(c[j] == oneway_cands(lq, li, p)[j]);
    }
}

/// A one-way synonym whose input occurs in the query (ignoring case) rewrites
/// it: for each of its synonyms, the expansion holds the lower-cased query with
/// the lower-cased input replaced by the lower-cased synonym.
pub proof fn law_oneway_synonym_rewrites_input(q: Seq<char>, entries: Seq<SynonymV>, i: int, k: int)
    requires
        0 <= i < entries.len(),
        entries[i] is OneWay,
        seq_contains(lowercase(q), lowercase(entries[i]->OneWay_input)),
        0 <= k < entries[i]->OneWay_synonyms.len(),
    ensures
        expansion(q, entries).contains(
            replace_all(lowercase(q), lowercase(entries[i]->OneWay_input), lowercase(entries[i]->OneWay_synonyms[k])),
        ),
{
    let li = lowercase(entries[i]->OneWay_input);
    let words = entries[i]->OneWay_synonyms;
    let x = replace_all(lowercase(q), li, lowercase(words[k]));
    lemma_oneway_cands_contains(lowercase(q), li, words, k);
    assert(entry_cands(q, entries[i]) == oneway_cands(lowercase(q), li, words));
    lemma_all_cands_contains(q, entries, i, x);
    lemma_concat_contains(seq![q], all_cands(q, entries), x);
    lemma_dedup_contains(seq![q] + all_cands(q, entries), x);
}

} // verus!
