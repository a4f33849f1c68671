//! Query rules: conditions on the query text, and their consequences (pinned
//! documents, hidden documents, user data, query rewrites).
use vstd::prelude::*;
use crate::synonyms::{clone_strings, page_of, strs_view};
use crate::text::{
    chars_eq, chars_lt, chars_of, contains_chars, ends_with_chars, has_prefix, has_suffix,
    lowercase, seq_contains, seq_lt, starts_with_chars, to_lower,
};
use indexmap::IndexMap;
use serde_json::Value;

verus! {

// ---------------------------------------------------------------------------
// Outside items
// ---------------------------------------------------------------------------

/// `serde_json::Value`, carried through as user data.
#[verifier::external_type_specification]
#[verifier::external_body]
pub struct ExJsonValue(Value);

/// `indexmap::IndexMap`: the insertion-ordered map that holds a store's rules.
#[verifier::external_type_specification]
#[verifier::external_body]
#[verifier::reject_recursive_types(K)]
#[verifier::reject_recursive_types(V)]
#[verifier::reject_recursive_types(S)]
pub struct ExIndexMap<K, V, S>(IndexMap<K, V, S>);

/// The entries of a rule map, in the map's order: each key's characters with its rule.
pub uninterp spec fn rule_entries(m: IndexMap<String, Rule>) -> Seq<(Seq<char>, RuleV)>;

/// `<serde_json::Value as Clone>::clone`: the derived clone gives an equal value.
#[verifier::external_body]
fn clone_json(v: &Value) -> (r: Value)
    ensures
        r == *v,
{
    v.clone()
}

/// No two entries share a key.
pub open spec fn keys_unique(e: Seq<(Seq<char>, RuleV)>) -> bool {
    forall|i: int, j: int|
        0 <= i < e.len() && 0 <= j < e.len() && i != j ==> #[trigger] e[i].0 != #[trigger] e[j].0
}

/// Position of `key` among the entries, if present.
pub open spec fn key_index(e: Seq<(Seq<char>, RuleV)>, key: Seq<char>) -> Option<int> {
    if exists|i: int| 0 <= i < e.len() && #[trigger] e[i].0 == key {
        Some(choose|i: int| 0 <= i < e.len() && #[trigger] e[i].0 == key)
    } else {
        None
    }
}

/// `IndexMap::new`: an empty map.
#[verifier::external_body]
fn map_new() -> (r: IndexMap<String, Rule>)
    ensures
        rule_entries(r) == Seq::<(Seq<char>, RuleV)>::empty(),
{
    IndexMap::new()
}

/// `IndexMap::len`: the number of entries.
#[verifier::external_body]
fn map_len(m: &IndexMap<String, Rule>) -> (r: usize)
    ensures
        r == rule_entries(*m).len(),
{
    m.len()
}

/// `IndexMap::get_index`: the entry at a position of the order.
#[verifier::external_body]
fn map_get_index(m: &IndexMap<String, Rule>, index: usize) -> (r: Option<(&String, &Rule)>)
    ensures
        index < rule_entries(*m).len() ==> r is Some && (r->0).0@ == rule_entries(*m)[index as int].0
            && (r->0).1@ == rule_entries(*m)[index as int].1,
        index >= rule_entries(*m).len() ==> r is None,
{
    m.get_index(index)
}

/// `IndexMap::get`: the value stored under `key`.
#[verifier::external_body]
fn map_get<'a>(m: &'a IndexMap<String, Rule>, key: &str) -> (r: Option<&'a Rule>)
    requires
        keys_unique(rule_entries(*m)),
    ensures
        match key_index(rule_entries(*m), key@) {
            Some(i) => r is Some && r->0@ == rule_entries(*m)[i].1,
            None => r is None,
        },
{
    m.get(key)
}

/// `IndexMap::insert`: a present key keeps its place and takes the new value
/// (the old one is returned); a new key is appended last.
#[verifier::external_body]
fn map_insert(m: &mut IndexMap<String, Rule>, key: String, value: Rule) -> (r: Option<Rule>)
    requires
        keys_unique(rule_entries(*old(m))),
    ensures
        keys_unique(rule_entries(*final(m))),
        match key_index(rule_entries(*old(m)), key@) {
            Some(i) => rule_entries(*final(m)) == rule_entries(*old(m)).update(i, (key@, value@))
                && r is Some && r->0@ == rule_entries(*old(m))[i].1,
            None => rule_entries(*final(m)) == rule_entries(*old(m)).push((key@, value@))
                && r is None,
        },
{
    m.insert(key, value)
}

/// `IndexMap::shift_remove`: the entry under `key` leaves, later entries keep
/// their relative order; its value is returned.
#[verifier::external_body]
fn map_shift_remove(m: &mut IndexMap<String, Rule>, key: &str) -> (r: Option<Rule>)
    requires
        keys_unique(rule_entries(*old(m))),
    ensures
        keys_unique(rule_entries(*final(m))),
        match key_index(rule_entries(*old(m)), key@) {
            Some(i) => rule_entries(*final(m)) == rule_entries(*old(m)).remove(i) && r is Some
                && r->0@ == rule_entries(*old(m))[i].1,
            None => rule_entries(*final(m)) == rule_entries(*old(m)) && r is None,
        },
{
    m.shift_remove(key)
}

/// `IndexMap::clear`: no entries remain.
#[verifier::external_body]
fn map_clear(m: &mut IndexMap<String, Rule>)
    ensures
        rule_entries(*final(m)) == Seq::<(Seq<char>, RuleV)>::empty(),
{
    m.clear()
}

/// `std::time::SystemTime`.
#[verifier::external_type_specification]
#[verifier::external_body]
pub struct ExSystemTime(std::time::SystemTime);

/// `std::time::SystemTimeError`.
#[verifier::external_type_specification]
#[verifier::external_body]
pub struct ExSystemTimeError(std::time::SystemTimeError);

/// `SystemTime::now`: the system clock's reading; nothing is stated of it.
#[verifier::external_body]
fn system_now() -> std::time::SystemTime {
    std::time::SystemTime::now()
}

/// `SystemTime::duration_since` the Unix epoch; nothing is stated of the outcome
/// (an error stands for a clock set before the epoch).
#[verifier::external_body]
fn since_unix_epoch(t: &std::time::SystemTime) -> Result<core::time::Duration, std::time::SystemTimeError> {
    t.duration_since(std::time::UNIX_EPOCH)
}

/// `Duration::as_secs`: whole seconds; nothing is stated of the value.
#[verifier::external_body]
fn whole_secs(d: &core::time::Duration) -> u64 {
    d.as_secs()
}

/// The current time in whole seconds since the Unix epoch, by the system clock
/// (0 for a clock set before the epoch, `i64::MAX` past the range of `i64`):
/// never negative.
fn unix_now_secs() -> (r: i64)
    ensures
        r >= 0,
{
    match since_unix_epoch(&system_now()) {
        Ok(d) => {
            let secs = whole_secs(&d);
            if secs > i64::MAX as u64 {
                i64::MAX
            } else {
                secs as i64
            }
        },
        Err(_) => 0,
    }
}

// ---------------------------------------------------------------------------
// Types
// ---------------------------------------------------------------------------

/// How a condition's pattern must sit in the query.
#[derive(Debug, Clone, Copy, PartialEq, Eq)]
pub enum Anchoring {
    Is,
    StartsWith,
    EndsWith,
    Contains,
}

/// A condition on the query text.
#[derive(Debug)]
pub struct Condition {
    pub pattern: String,
    pub anchoring: Anchoring,
    pub alternatives: Option<bool>,
    pub context: Option<String>,
    pub filters: Option<String>,
}

/// A closed interval of Unix timestamps in seconds.
#[derive(Debug, Clone, Copy, PartialEq, Eq)]
pub struct TimeRange {
    pub from: i64,
    pub until: i64,
}

/// A rewritten query.
#[derive(Debug)]
pub struct ConsequenceParams {
    pub query: Option<String>,
}

/// Documents pinned at a position (several ids take consecutive positions).
#[derive(Debug)]
pub enum Promote {
    Single { object_id: String, position: usize },
    Multiple { object_ids: Vec<String>, position: usize },
}

/// A document to hide.
#[derive(Debug)]
pub struct Hide {
    pub object_id: String,
}

/// What a matching rule does.
#[derive(Debug)]
pub struct Consequence {
    pub promote: Option<Vec<Promote>>,
    pub hide: Option<Vec<Hide>>,
    pub filter_promotes: Option<bool>,
    pub user_data: Option<Value>,
    pub params: Option<ConsequenceParams>,
}

/// A query rule.
#[derive(Debug)]
pub struct Rule {
    pub object_id: String,
    pub conditions: Vec<Condition>,
    pub consequence: Consequence,
    pub description: Option<String>,
    pub enabled: Option<bool>,
    pub validity: Option<Vec<TimeRange>>,
}

/// The combined effect of the rules that match a query.
#[derive(Debug)]
pub struct RuleEffects {
    pub pins: Vec<(String, usize)>,
    pub hidden: Vec<String>,
    pub user_data: Vec<Value>,
    pub applied_rules: Vec<String>,
    pub query_rewrite: Option<String>,
}

// ---------------------------------------------------------------------------
// Views
// ---------------------------------------------------------------------------

pub open spec fn opt_string_view(o: Option<String>) -> Option<Seq<char>> {
    match o {
        Some(s) => Some(s@),
        None => None,
    }
}

pub struct ConditionV {
    pub pattern: Seq<char>,
    pub anchoring: Anchoring,
    pub alternatives: Option<bool>,
    pub context: Option<Seq<char>>,
    pub filters: Option<Seq<char>>,
}

impl View for Condition {
    type V = ConditionV;

    open spec fn view(&self) -> ConditionV {
        ConditionV {
            pattern: self.pattern@,
            anchoring: self.anchoring,
            alternatives: self.alternatives,
            context: opt_string_view(self.context),
            filters: opt_string_view(self.filters),
        }
    }
}

pub enum PromoteV {
    Single { object_id: Seq<char>, position: usize },
    Multiple { object_ids: Seq<Seq<char>>, position: usize },
}

impl View for Promote {
    type V = PromoteV;

    open spec fn view(&self) -> PromoteV {
        match self {
            Promote::Single { object_id, position } => PromoteV::Single {
                object_id: object_id@,
                position: *position,
            },
            Promote::Multiple { object_ids, position } => PromoteV::Multiple {
                object_ids: strs_view(object_ids@),
                position: *position,
            },
        }
    }
}

pub struct ConsequenceV {
    pub promote: Option<Seq<PromoteV>>,
    pub hide: Option<Seq<Seq<char>>>,
    pub filter_promotes: Option<bool>,
    pub user_data: Option<Value>,
    pub params: Option<Option<Seq<char>>>,
}

pub open spec fn promotes_view(v: Seq<Promote>) -> Seq<PromoteV> {
    v.map_values(|p: Promote| p@)
}

pub open spec fn hides_view(v: Seq<Hide>) -> Seq<Seq<char>> {
    v.map_values(|h: Hide| h.object_id@)
}

pub open spec fn conditions_view(v: Seq<Condition>) -> Seq<ConditionV> {
    v.map_values(|c: Condition| c@)
}

impl View for Consequence {
    type V = ConsequenceV;

    open spec fn view(&self) -> ConsequenceV {
        ConsequenceV {
            promote: match self.promote {
                Some(p) => Some(promotes_view(p@)),
                None => None,
            },
            hide: match self.hide {
                Some(h) => Some(hides_view(h@)),
                None => None,
            },
            filter_promotes: self.filter_promotes,
            user_data: self.user_data,
            params: match self.params {
                Some(p) => Some(opt_string_view(p.query)),
                None => None,
            },
        }
    }
}

pub struct RuleV {
    pub object_id: Seq<char>,
    pub conditions: Seq<ConditionV>,
    pub consequence: ConsequenceV,
    pub description: Option<Seq<char>>,
    pub enabled: Option<bool>,
    pub validity: Option<Seq<TimeRange>>,
}

impl View for Rule {
    type V = RuleV;

    open spec fn view(&self) -> RuleV {
        RuleV {
            object_id: self.object_id@,
            conditions: conditions_view(self.conditions@),
            consequence: self.consequence@,
            description: opt_string_view(self.description),
            enabled: self.enabled,
            validity: match self.validity {
                Some(v) => Some(v@),
                None => None,
            },
        }
    }
}

// ---------------------------------------------------------------------------
// Copies
// ---------------------------------------------------------------------------

fn clone_opt_string(o: &Option<String>) -> (r: Option<String>)
    ensures
        opt_string_view(r) == opt_string_view(*o),
{
    match o {
        Some(s) => Some(s.clone()),
        None => None,
    }
}

impl Clone for Condition {
    fn clone(&self) -> (r: Self)
        ensures
            r@ == self@,
    {
        Condition {
            pattern: self.pattern.clone(),
            anchoring: self.anchoring,
            alternatives: self.alternatives,
            context: clone_opt_string(&self.context),
            filters: clone_opt_string(&self.filters),
        }
    }
}

impl Clone for ConsequenceParams {
    fn clone(&self) -> (r: Self)
        ensures
            opt_string_view(r.query) == opt_string_view(self.query),
    {
        ConsequenceParams { query: clone_opt_string(&self.query) }
    }
}

impl Clone for Promote {
    fn clone(&self) -> (r: Self)
        ensures
            r@ == self@,
    {
        match self {
            Promote::Single { object_id, position } => Promote::Single {
                object_id: object_id.clone(),
                position: *position,
            },
            Promote::Multiple { object_ids, position } => Promote::Multiple {
                object_ids: clone_strings(object_ids),
                position: *position,
            },
        }
    }
}

impl Clone for Hide {
    fn clone(&self) -> (r: Self)
        ensures
            r.object_id@ == self.object_id@,
    {
        Hide { object_id: self.object_id.clone() }
    }
}

fn clone_promotes(v: &Vec<Promote>) -> (r: Vec<Promote>)
    ensures
        promotes_view(r@) == promotes_view(v@),
{
    let mut out: Vec<Promote> = Vec::new();
    let mut i: usize = 0;
    while i < v.len()
        invariant
            i <= v@.len(),
            out@.len() == i,
            forall|k: int| 0 <= k < i ==> #[trigger] out@[k]@ == v@[k]@,
        decreases v@.len() - i,
    {
        out.push(v[i].clone());
        i = i + 1;
    }
    assert(promotes_view(out@) =~= promotes_view(v@));
    out
}

fn clone_hides(v: &Vec<Hide>) -> (r: Vec<Hide>)
    ensures
        hides_view(r@) == hides_view(v@),
{
    let mut out: Vec<Hide> = Vec::new();
    let mut i: usize = 0;
    while i < v.len()
        invariant
            i <= v@.len(),
            out@.len() == i,
            forall|k: int| 0 <= k < i ==> #[trigger] out@[k].object_id@ == v@[k].object_id@,
        decreases v@.len() - i,
    {
        out.push(v[i].clone());
        i = i + 1;
    }
    assert(hides_view(out@) =~= hides_view(v@));
    out
}

fn clone_conditions(v: &Vec<Condition>) -> (r: Vec<Condition>)
    ensures
        conditions_view(r@) == conditions_view(v@),
{
    let mut out: Vec<Condition> = Vec::new();
    let mut i: usize = 0;
    while i < v.len()
        invariant
            i <= v@.len(),
            out@.len() == i,
            forall|k: int| 0 <= k < i ==> #[trigger] out@[k]@ == v@[k]@,
        decreases v@.len() - i,
    {
        out.push(v[i].clone());
        i = i + 1;
    }
    assert(conditions_view(out@) =~= conditions_view(v@));
    out
}

fn clone_ranges(v: &Vec<TimeRange>) -> (r: Vec<TimeRange>)
    ensures
        r@ == v@,
{
    let mut out: Vec<TimeRange> = Vec::new();
    let mut i: usize = 0;
    while i < v.len()
        invariant
            i <= v@.len(),
            out@ == v@.take(i as int),
        decreases v@.len() - i,
    {
        out.push(v[i]);
        i = i + 1;
        assert(out@ =~= v@.take(i as int));
    }
    assert(v@.take(v@.len() as int) =~= v@);
    out
}

impl Clone for Consequence {
    fn clone(&self) -> (r: Self)
        ensures
            r@ == self@,
    {
        Consequence {
            promote: match &self.promote {
                Some(p) => Some(clone_promotes(p)),
                None => None,
            },
            hide: match &self.hide {
                Some(h) => Some(clone_hides(h)),
                None => None,
            },
            filter_promotes: self.filter_promotes,
            user_data: match &self.user_data {
                Some(u) => Some(clone_json(u)),
                None => None,
            },
            params: match &self.params {
                Some(p) => Some(p.clone()),
                None => None,
            },
        }
    }
}

impl Clone for Rule {
    fn clone(&self) -> (r: Self)
        ensures
            r@ == self@,
    {
        Rule {
            object_id: self.object_id.clone(),
            conditions: clone_conditions(&self.conditions),
            consequence: self.consequence.clone(),
            description: clone_opt_string(&self.description),
            enabled: self.enabled,
            validity: match &self.validity {
                Some(v) => Some(clone_ranges(v)),
                None => None,
            },
        }
    }
}

// ---------------------------------------------------------------------------
// Matching
// ---------------------------------------------------------------------------

/// A rule is enabled unless it says otherwise.
pub open spec fn rule_enabled(r: RuleV) -> bool {
    match r.enabled {
        Some(b) => b,
        None => true,
    }
}

/// A rule without validity ranges is always valid; otherwise `t` lies in one of them.
pub open spec fn rule_valid_at(r: RuleV, t: i64) -> bool {
    match r.validity {
        None => true,
        Some(ranges) => exists|i: int| 0 <= i < ranges.len() && #[trigger] in_range(ranges[i], t),
    }
}

/// `t` lies in the closed range.
pub open spec fn in_range(r: TimeRange, t: i64) -> bool {
    r.from <= t && t <= r.until
}

/// The query matches a pattern under an anchoring, both lower-cased.
pub open spec fn pattern_matches(query: Seq<char>, pattern: Seq<char>, anchoring: Anchoring) -> bool {
    let q = lowercase(query);
    let p = lowercase(pattern);
    match anchoring {
        Anchoring::Is => q == p,
        Anchoring::StartsWith => has_prefix(q, p),
        Anchoring::EndsWith => has_suffix(q, p),
        Anchoring::Contains => seq_contains(q, p),
    }
}

/// A condition applies in the query's context (one without a context applies
/// everywhere) and its pattern matches.
pub open spec fn condition_holds(c: ConditionV, query: Seq<char>, context: Option<Seq<char>>) -> bool {
    &&& (c.context is None || context == c.context)
    &&& pattern_matches(query, c.pattern, c.anchoring)
}

/// An enabled rule valid at `t` matches when it has no condition or one of its
/// conditions holds.
pub open spec fn rule_matches(r: RuleV, query: Seq<char>, context: Option<Seq<char>>, t: i64) -> bool {
    &&& rule_enabled(r)
    &&& rule_valid_at(r, t)
    &&& (r.conditions.len() == 0 || exists|i: int|
        0 <= i < r.conditions.len() && condition_holds(#[trigger] r.conditions[i], query, context))
}

pub open spec fn opt_str_view(s: Option<&str>) -> Option<Seq<char>> {
    match s {
        Some(t) => Some(t@),
        None => None,
    }
}

impl Rule {
    /// Whether the rule is enabled (rules are enabled unless they say otherwise).
    pub fn is_enabled(&self) -> (r: bool)
        ensures
            r == rule_enabled(self@),
    {
        match self.enabled {
            Some(b) => b,
            None => true,
        }
    }

    /// Whether the rule is valid at `timestamp`.
    pub fn is_valid_at(&self, timestamp: i64) -> (r: bool)
        ensures
            r == rule_valid_at(self@, timestamp),
    {
        match &self.validity {
            None => true,
            Some(ranges) => {
                let mut i: usize = 0;
                while i < ranges.len()
                    invariant
                        i <= ranges@.len(),
                        self.validity == Some(*ranges),
                        forall|k: int| 0 <= k < i ==> !#[trigger] in_range(ranges@[k], timestamp),
                    decreases ranges@.len() - i,
                {
                    if timestamp >= ranges[i].from && timestamp <= ranges[i].until {
                        assert(self@.validity == Some(ranges@));
                        assert(in_range(ranges@[i as int], timestamp));
                        let ghost rv = self@;
                        assert(rv.validity->0 == ranges@);
                        assert(in_range(rv.validity->0[i as int], timestamp));
                        assert(rule_valid_at(rv, timestamp));
                        return true;
                    }
                    i = i + 1;
                }
                false
            },
        }
    }

    /// Whether the query matches the pattern under the anchoring, ignoring case.
    fn matches_pattern(&self, query_text: &str, pattern: &str, anchoring: Anchoring) -> (r: bool)
        ensures
            r == pattern_matches(query_text@, pattern@, anchoring),
    {
        let ql = to_lower(query_text);
        let pl = to_lower(pattern);
        let q = chars_of(ql.as_str());
        let p = chars_of(pl.as_str());
        match anchoring {
            Anchoring::Is => chars_eq(q.as_slice(), p.as_slice()),
            Anchoring::StartsWith => starts_with_chars(q.as_slice(), p.as_slice()),
            Anchoring::EndsWith => ends_with_chars(q.as_slice(), p.as_slice()),
            Anchoring::Contains => contains_chars(q.as_slice(), p.as_slice()),
        }
    }

    /// Whether the rule matches the query in the context at time `now`.
    pub fn matches_at(&self, query_text: &str, context: Option<&str>, now: i64) -> (r: bool)
        ensures
            r == rule_matches(self@, query_text@, opt_str_view(context), now),
    {
        if !self.is_enabled() {
            return false;
        }
        if !self.is_valid_at(now) {
            return false;
        }
        if self.conditions.len() == 0 {
            return true;
        }
        let mut i: usize = 0;
        while i < self.conditions.len()
            invariant
                i <= self.conditions@.len(),
                rule_enabled(self@),
                rule_valid_at(self@, now),
                self.conditions@.len() > 0,
                forall|k: int|
                    0 <= k < i ==> !condition_holds(
                        #[trigger] conditions_view(self.conditions@)[k],
                        query_text@,
                        opt_str_view(context),
                    ),
            decreases self.conditions@.len() - i,
        {
            let cond = &self.conditions[i];
            assert(conditions_view(self.conditions@)[i as int] == cond@);
            let mut applies = true;
            match &cond.context {
                Some(ctx) => {
                    match context {
                        Some(c) => {
                            let a = chars_of(c);
                            let b = chars_of(ctx.as_str());
                            applies = chars_eq(a.as_slice(), b.as_slice());
                        },
                        None => {
                            applies = false;
                        },
                    }
                },
                None => {},
            }
            assert(applies == (cond@.context is None || opt_str_view(context) == cond@.context));
            if applies && self.matches_pattern(query_text, cond.pattern.as_str(), cond.anchoring) {
                assert(condition_holds(
                    conditions_view(self.conditions@)[i as int],
                    query_text@,
                    opt_str_view(context),
                ));
                assert(self@.conditions == conditions_view(self.conditions@));
                assert(rule_enabled(self@));
                assert(rule_valid_at(self@, now));
                return true;
            }
            i = i + 1;
        }
        false
    }

    /// Whether the rule matches the query in the context now (by the system clock).
    pub fn matches(&self, query_text: &str, context: Option<&str>) -> (r: bool)
        ensures
            exists|t: i64| t >= 0 && r == rule_matches(self@, query_text@, opt_str_view(context), t),
            self@.validity is None ==> r == rule_matches(self@, query_text@, opt_str_view(context), 0),
    {
        let now = unix_now_secs();
        self.matches_at(query_text, context, now)
    }
}


// ---------------------------------------------------------------------------
// Ordering helpers
// ---------------------------------------------------------------------------

/// `x` placed into `s` after every entry whose position is not above its own.
pub open spec fn insert_by_pos(s: Seq<(Seq<char>, usize)>, x: (Seq<char>, usize)) -> Seq<(Seq<char>, usize)>
    decreases s.len(),
{
    if s.len() == 0 {
        seq![x]
    } else if s.last().1 > x.1 {
        insert_by_pos(s.drop_last(), x).push(s.last())
    } else {
        s.push(x)
    }
}

/// The pins ordered by position, pins with equal positions in the order given.
pub open spec fn sort_by_pos(s: Seq<(Seq<char>, usize)>) -> Seq<(Seq<char>, usize)>
    decreases s.len(),
{
    if s.len() == 0 {
        s
    } else {
        insert_by_pos(sort_by_pos(s.drop_last()), s.last())
    }
}

/// `x` placed into `s` after every rule whose id is not above its own.
pub open spec fn insert_by_id(s: Seq<RuleV>, x: RuleV) -> Seq<RuleV>
    decreases s.len(),
{
    if s.len() == 0 {
        seq![x]
    } else if seq_lt(x.object_id, s.last().object_id) {
        insert_by_id(s.drop_last(), x).push(s.last())
    } else {
        s.push(x)
    }
}

/// The rules ordered by id, rules with equal ids in the order given.
pub open spec fn sort_by_id(s: Seq<RuleV>) -> Seq<RuleV>
    decreases s.len(),
{
    if s.len() == 0 {
        s
    } else {
        insert_by_id(sort_by_id(s.drop_last()), s.last())
    }
}

proof fn lemma_insert_by_pos_at(s: Seq<(Seq<char>, usize)>, x: (Seq<char>, usize), k: int)
    requires
        0 <= k <= s.len(),
        forall|j: int| k <= j < s.len() ==> #[trigger] s[j].1 > x.1,
        k == 0 || s[k - 1].1 <= x.1,
    ensures
        insert_by_pos(s, x) == s.take(k) + seq![x] + s.skip(k),
    decreases s.len(),
{
    if s.len() == 0 {
        assert(s.take(k) + seq![x] + s.skip(k) =~= seq![x]);
    } else if k == s.len() {
        assert(s.take(k) + seq![x] + s.skip(k) =~= s.push(x));
    } else {
        let p = s.drop_last();
        assert forall|j: int| k <= j < p.len() implies #[trigger] p[j].1 > x.1 by {
            assert(p[j] == s[j]);
        }
        if k > 0 {
            assert(p[k - 1] == s[k - 1]);
        }
        lemma_insert_by_pos_at(p, x, k);
        assert(p.take(k) + seq![x] + p.skip(k) + seq![s.last()] =~= s.take(k) + seq![x] + s.skip(k));
    }
}

proof fn lemma_insert_by_id_at(s: Seq<RuleV>, x: RuleV, k: int)
    requires
        0 <= k <= s.len(),
        forall|j: int| k <= j < s.len() ==> seq_lt(x.object_id, #[trigger] s[j].object_id),
        k == 0 || !seq_lt(x.object_id, s[k - 1].object_id),
    ensures
        insert_by_id(s, x) == s.take(k) + seq![x] + s.skip(k),
    decreases s.len(),
{
    if s.len() == 0 {
        assert(s.take(k) + seq![x] + s.skip(k) =~= seq![x]);
    } else if k == s.len() {
        assert(s.take(k) + seq![x] + s.skip(k) =~= s.push(x));
    } else {
        let p = s.drop_last();
        assert forall|j: int| k <= j < p.len() implies seq_lt(x.object_id, #[trigger] p[j].object_id) by {
            assert(p[j] == s[j]);
        }
        if k > 0 {
            assert(p[k - 1] == s[k - 1]);
        }
        assert(seq_lt(x.object_id, s[s.len() - 1].object_id));
        lemma_insert_by_id_at(p, x, k);
        assert(p.take(k) + seq![x] + p.skip(k) + seq![s.last()] =~= s.take(k) + seq![x] + s.skip(k));
    }
}

/// The pins as character sequences with positions.
pub open spec fn pins_view(v: Seq<(String, usize)>) -> Seq<(Seq<char>, usize)> {
    v.map_values(|p: (String, usize)| (p.0@, p.1))
}

/// The pins ordered by position, stably.
fn sort_pins(v: &Vec<(String, usize)>) -> (r: Vec<(String, usize)>)
    ensures
        pins_view(r@) == sort_by_pos(pins_view(v@)),
{
    let ghost src = pins_view(v@);
    let mut sorted: Vec<(String, usize)> = Vec::new();
    let mut i: usize = 0;
    assert(src.take(0) =~= Seq::<(Seq<char>, usize)>::empty());
    assert(pins_view(sorted@) =~= sort_by_pos(src.take(0)));
    while i < v.len()
        invariant
            i <= v@.len(),
            src == pins_view(v@),
            pins_view(sorted@) == sort_by_pos(src.take(i as int)),
        decreases v@.len() - i,
    {
        let x = (v[i].0.clone(), v[i].1);
        let ghost xv = (x.0@, x.1);
        assert(src[i as int] == xv);
        let ghost before = pins_view(sorted@);
        let mut k: usize = sorted.len();
        while k > 0 && sorted[k - 1].1 > x.1
            invariant
                k <= sorted@.len(),
                xv.1 == x.1,
                before == pins_view(sorted@),
                forall|j: int| k <= j < sorted@.len() ==> #[trigger] before[j].1 > xv.1,
            decreases k,
        {
            assert(before[k - 1] == (sorted@[k - 1].0@, sorted@[k - 1].1));
            k = k - 1;
        }
        proof {
            if k > 0 {
                assert(before[k - 1] == (sorted@[k - 1].0@, sorted@[k - 1].1));
            }
            lemma_insert_by_pos_at(before, xv, k as int);
        }
        sorted.insert(k, x);
        proof {
            assert(pins_view(sorted@) =~= before.take(k as int) + seq![xv] + before.skip(k as int));
            assert(src.take(i + 1).drop_last() =~= src.take(i as int));
            assert(src.take(i + 1).last() == xv);
        }
        i = i + 1;
    }
    assert(src.take(v@.len() as int) =~= src);
    sorted
}


// ---------------------------------------------------------------------------
// Rule effects
// ---------------------------------------------------------------------------

/// The pins of one promotion: a single id at its position, or several ids at
/// consecutive positions from the given one.
pub open spec fn promote_pins(p: PromoteV) -> Seq<(Seq<char>, usize)> {
    match p {
        PromoteV::Single { object_id, position } => seq![(object_id, position)],
        PromoteV::Multiple { object_ids, position } => Seq::new(
            object_ids.len(),
            |k: int| (object_ids[k], (position + k) as usize),
        ),
    }
}

pub open spec fn promotes_pins(ps: Seq<PromoteV>) -> Seq<(Seq<char>, usize)>
    decreases ps.len(),
{
    if ps.len() == 0 {
        seq![]
    } else {
        promotes_pins(ps.drop_last()) + promote_pins(ps.last())
    }
}

/// The pins a rule asks for, in its order.
pub open spec fn rule_pins(r: RuleV) -> Seq<(Seq<char>, usize)> {
    match r.consequence.promote {
        Some(ps) => promotes_pins(ps),
        None => seq![],
    }
}

/// The ids a rule hides.
pub open spec fn rule_hidden(r: RuleV) -> Seq<Seq<char>> {
    match r.consequence.hide {
        Some(h) => h,
        None => seq![],
    }
}

/// The user data a rule carries.
pub open spec fn rule_user_data(r: RuleV) -> Seq<Value> {
    match r.consequence.user_data {
        Some(u) => seq![u],
        None => seq![],
    }
}

pub open spec fn all_pins(rs: Seq<RuleV>) -> Seq<(Seq<char>, usize)>
    decreases rs.len(),
{
    if rs.len() == 0 {
        seq![]
    } else {
        all_pins(rs.drop_last()) + rule_pins(rs.last())
    }
}

pub open spec fn all_hidden(rs: Seq<RuleV>) -> Seq<Seq<char>>
    decreases rs.len(),
{
    if rs.len() == 0 {
        seq![]
    } else {
        all_hidden(rs.drop_last()) + rule_hidden(rs.last())
    }
}

pub open spec fn all_user_data(rs: Seq<RuleV>) -> Seq<Value>
    decreases rs.len(),
{
    if rs.len() == 0 {
        seq![]
    } else {
        all_user_data(rs.drop_last()) + rule_user_data(rs.last())
    }
}

pub open spec fn ids_of(rs: Seq<RuleV>) -> Seq<Seq<char>> {
    rs.map_values(|r: RuleV| r.object_id)
}

/// The rules that match, in store order.
pub open spec fn matching(rs: Seq<RuleV>, q: Seq<char>, ctx: Option<Seq<char>>, t: i64) -> Seq<RuleV> {
    rs.filter(|r: RuleV| rule_matches(r, q, ctx, t))
}

/// The abstract content of rule effects.
pub struct EffectsV {
    pub pins: Seq<(Seq<char>, usize)>,
    pub hidden: Seq<Seq<char>>,
    pub user_data: Seq<Value>,
    pub applied_rules: Seq<Seq<char>>,
    pub query_rewrite: Option<Seq<char>>,
}

impl View for RuleEffects {
    type V = EffectsV;

    open spec fn view(&self) -> EffectsV {
        EffectsV {
            pins: pins_view(self.pins@),
            hidden: strs_view(self.hidden@),
            user_data: self.user_data@,
            applied_rules: strs_view(self.applied_rules@),
            query_rewrite: opt_string_view(self.query_rewrite),
        }
    }
}

/// The effects of the rules that match: their ids, their pins ordered by
/// position (stably), their hidden ids and their user data, in store order.
pub open spec fn effects_spec(rs: Seq<RuleV>, q: Seq<char>, ctx: Option<Seq<char>>, t: i64) -> EffectsV {
    let m = matching(rs, q, ctx, t);
    EffectsV {
        pins: sort_by_pos(all_pins(m)),
        hidden: all_hidden(m),
        user_data: all_user_data(m),
        applied_rules: ids_of(m),
        query_rewrite: None,
    }
}

/// The rewritten query of the first matching rule that has one.
pub open spec fn first_rewrite(rs: Seq<RuleV>, q: Seq<char>, ctx: Option<Seq<char>>, t: i64) -> Option<Seq<char>>
    decreases rs.len(),
{
    if rs.len() == 0 {
        None
    } else if rule_matches(rs[0], q, ctx, t) && rs[0].consequence.params is Some
        && rs[0].consequence.params->0 is Some {
        rs[0].consequence.params->0
    } else {
        first_rewrite(rs.skip(1), q, ctx, t)
    }
}

/// Every multiple promotion's positions fit in a `usize`.
pub open spec fn rule_positions_fit(r: RuleV) -> bool {
    match r.consequence.promote {
        Some(ps) => forall|i: int| 0 <= i < ps.len() ==> match #[trigger] ps[i] {
            PromoteV::Multiple { object_ids, position } => position + object_ids.len() <= usize::MAX,
            _ => true,
        },
        None => true,
    }
}

/// A rule passes a search when the query is empty or occurs (ignoring case) in its
/// id, its description or one of its condition patterns.
pub open spec fn rule_search_pred(query: Seq<char>) -> spec_fn(RuleV) -> bool {
    |r: RuleV| {
        let ql = lowercase(query);
        ||| query.len() == 0
        ||| seq_contains(lowercase(r.object_id), ql)
        ||| (r.description is Some && seq_contains(lowercase(r.description->0), ql))
        ||| exists|i: int| 0 <= i < r.conditions.len() && seq_contains(
            lowercase(#[trigger] r.conditions[i].pattern),
            ql,
        )
    }
}

// ---------------------------------------------------------------------------
// The store
// ---------------------------------------------------------------------------

/// The query rules of one index, in insertion order, each reachable by its id.
pub struct RuleStore {
    rules: IndexMap<String, Rule>,
}

pub open spec fn entry_values(e: Seq<(Seq<char>, RuleV)>) -> Seq<RuleV> {
    e.map_values(|p: (Seq<char>, RuleV)| p.1)
}

impl RuleStore {
    pub closed spec fn raw(&self) -> Seq<(Seq<char>, RuleV)> {
        rule_entries(self.rules)
    }

    /// The rules in the store's order.
    pub open spec fn entries(&self) -> Seq<RuleV> {
        entry_values(self.raw())
    }

    /// Ids are unique and each rule is stored under its own id.
    pub open spec fn wf(&self) -> bool {
        &&& keys_unique(self.raw())
        &&& forall|i: int| 0 <= i < self.raw().len() ==> #[trigger] self.raw()[i].0 == self.raw()[i].1.object_id
    }

    /// Position of the rule with id `id`, if any.
    pub open spec fn position(&self, id: Seq<char>) -> Option<int> {
        key_index(self.raw(), id)
    }

    /// An empty store.
    pub fn new() -> (r: RuleStore)
        ensures
            r.wf(),
            r.entries() == Seq::<RuleV>::empty(),
    {
        let r = RuleStore { rules: map_new() };
        assert(r.entries() =~= Seq::<RuleV>::empty());
        r
    }

    /// The rule with id `object_id`.
    pub fn get(&self, object_id: &str) -> (r: Option<&Rule>)
        requires
            self.wf(),
        ensures
            match self.position(object_id@) {
                Some(i) => r is Some && r->0@ == self.entries()[i],
                None => r is None,
            },
    {
        map_get(&self.rules, object_id)
    }

    /// Store a rule under its id: a rule already stored under that id is replaced
    /// in place, otherwise the rule goes last.
    pub fn insert(&mut self, rule: Rule)
        requires
            old(self).wf(),
        ensures
            final(self).wf(),
            match old(self).position(rule@.object_id) {
                Some(i) => final(self).entries() == old(self).entries().update(i, rule@),
                None => final(self).entries() == old(self).entries().push(rule@),
            },
            final(self).position(rule@.object_id) is Some,
            final(self).entries()[final(self).position(rule@.object_id)->0] == rule@,
    {
        let ghost rv = rule@;
        let ghost old_raw = self.raw();
        let key = rule.object_id.clone();
        let _ = map_insert(&mut self.rules, key, rule);
        proof {
            let e = self.raw();
            match key_index(old_raw, rv.object_id) {
                Some(i) => {
                    assert(entry_values(e) =~= entry_values(old_raw).update(i, rv));
                    assert forall|j: int| 0 <= j < e.len() implies #[trigger] e[j].0 == e[j].1.object_id by {
                        if j != i {
                            assert(e[j] == old_raw[j]);
                        }
                    }
                    assert(e[i].0 == rv.object_id);
                    lemma_key_index_at(e, rv.object_id, i);
                },
                None => {
                    assert(entry_values(e) =~= entry_values(old_raw).push(rv));
                    assert forall|j: int| 0 <= j < e.len() implies #[trigger] e[j].0 == e[j].1.object_id by {
                        if j < old_raw.len() {
                            assert(e[j] == old_raw[j]);
                        }
                    }
                    assert(e[old_raw.len() as int].0 == rv.object_id);
                    lemma_key_index_at(e, rv.object_id, old_raw.len() as int);
                },
            }
        }
    }

    /// Remove the rule with id `object_id`, keeping the order of the others,
    /// and hand it back.
    pub fn remove(&mut self, object_id: &str) -> (r: Option<Rule>)
        requires
            old(self).wf(),
        ensures
            final(self).wf(),
            match old(self).position(object_id@) {
                Some(i) => final(self).entries() == old(self).entries().remove(i) && r is Some
                    && r->0@ == old(self).entries()[i],
                None => final(self).entries() == old(self).entries() && r is None,
            },
            final(self).position(object_id@) is None,
    {
        let ghost old_raw = self.raw();
        let r = map_shift_remove(&mut self.rules, object_id);
        proof {
            let e = self.raw();
            match key_index(old_raw, object_id@) {
                Some(i) => {
                    assert(entry_values(e) =~= entry_values(old_raw).remove(i));
                    assert forall|j: int| 0 <= j < e.len() implies #[trigger] e[j].0 == e[j].1.object_id by {
                        if j < i {
                            assert(e[j] == old_raw[j]);
                        } else {
                            assert(e[j] == old_raw[j + 1]);
                        }
                    }
                    lemma_key_index_at(old_raw, object_id@, i);
                    assert forall|j: int| 0 <= j < e.len() implies #[trigger] e[j].0 != object_id@ by {
                        if j < i {
                            assert(e[j] == old_raw[j]);
                        } else {
                            assert(e[j] == old_raw[j + 1]);
                        }
                    }
                },
                None => {},
            }
        }
        r
    }

    /// Remove every rule.
    pub fn clear(&mut self)
        ensures
            final(self).wf(),
            final(self).entries() == Seq::<RuleV>::empty(),
    {
        map_clear(&mut self.rules);
        assert(self.entries() =~= Seq::<RuleV>::empty());
    }

    /// Copies of all rules, in the store's order.
    pub fn all(&self) -> (r: Vec<Rule>)
        ensures
            r@.map_values(|x: Rule| x@) == self.entries(),
    {
        let n = map_len(&self.rules);
        let mut out: Vec<Rule> = Vec::new();
        let mut i: usize = 0;
        while i < n
            invariant
                n == self.raw().len(),
                i <= n,
                out@.len() == i,
                forall|k: int| 0 <= k < i ==> #[trigger] out@[k]@ == self.raw()[k].1,
            decreases n - i,
        {
            let (_, rule) = map_get_index(&self.rules, i).unwrap();
            out.push(rule.clone());
            i = i + 1;
        }
        assert(out@.map_values(|x: Rule| x@) =~= self.entries());
        out
    }
}


impl RuleStore {
    /// Whether the rule passes a search for the lower-cased query.
    fn rule_passes(rule: &Rule, query_empty: bool, ql: &[char]) -> (r: bool)
        ensures
            r == (query_empty || seq_contains(lowercase(rule@.object_id), ql@) || (rule@.description
                is Some && seq_contains(lowercase(rule@.description->0), ql@)) || exists|i: int|
                0 <= i < rule@.conditions.len() && seq_contains(
                lowercase(#[trigger] rule@.conditions[i].pattern),
                ql@,
            )),
    {
        if query_empty {
            return true;
        }
        let idl = to_lower(rule.object_id.as_str());
        let idc = chars_of(idl.as_str());
        if contains_chars(idc.as_slice(), ql) {
            return true;
        }
        match &rule.description {
            Some(d) => {
                let dl = to_lower(d.as_str());
                let dc = chars_of(dl.as_str());
                if contains_chars(dc.as_slice(), ql) {
                    return true;
                }
            },
            None => {},
        }
        let mut i: usize = 0;
        while i < rule.conditions.len()
            invariant
                i <= rule.conditions@.len(),
                forall|k: int|
                    0 <= k < i ==> !seq_contains(
                        lowercase(#[trigger] rule@.conditions[k].pattern),
                        ql@,
                    ),
            decreases rule.conditions@.len() - i,
        {
            let pl = to_lower(rule.conditions[i].pattern.as_str());
            let pc = chars_of(pl.as_str());
            assert(rule@.conditions[i as int] == rule.conditions@[i as int]@);
            if contains_chars(pc.as_slice(), ql) {
                assert(seq_contains(lowercase(rule@.conditions[i as int].pattern), ql@));
                return true;
            }
            i = i + 1;
        }
        false
    }

    /// The rules passing the search, ordered by id, page `page` of them, with the
    /// number of all that pass.
    pub fn search(&self, query: &str, page: usize, hits_per_page: usize) -> (r: (Vec<Rule>, usize))
        requires
            page * hits_per_page + hits_per_page <= usize::MAX,
        ensures
            r.1 == self.entries().filter(rule_search_pred(query@)).len(),
            r.0@.map_values(|x: Rule| x@) == page_of(
                sort_by_id(self.entries().filter(rule_search_pred(query@))),
                page as int,
                hits_per_page as int,
            ),
    {
        let ghost pred = rule_search_pred(query@);
        let ghost ents = self.entries();
        let qls = to_lower(query);
        let ql = chars_of(qls.as_str());
        let query_empty = query.is_empty();
        let n = map_len(&self.rules);
        let mut sorted: Vec<Rule> = Vec::new();
        let mut count: usize = 0;
        let mut i: usize = 0;
        proof {
            reveal(Seq::filter);
            assert(ents.take(0) =~= Seq::<RuleV>::empty());
            assert(sorted@.map_values(|x: Rule| x@) =~= sort_by_id(ents.take(0).filter(pred)));
        }
        while i < n
            invariant
                n == ents.len(),
                ents == self.entries(),
                i <= n,
                pred == rule_search_pred(query@),
                ql@ == lowercase(query@),
                query_empty == (query@.len() == 0),
                count == ents.take(i as int).filter(pred).len(),
                count <= i,
                sorted@.map_values(|x: Rule| x@) == sort_by_id(ents.take(i as int).filter(pred)),
            decreases n - i,
        {
            let (_, rule) = map_get_index(&self.rules, i).unwrap();
            let ghost rv = rule@;
            assert(ents[i as int] == rv);
            let keep = Self::rule_passes(rule, query_empty, ql.as_slice());
            assert(keep == pred(rv));
            proof {
                assert(ents.take(i + 1) =~= ents.take(i as int).push(rv));
                ents.take(i as int).lemma_filter_push(rv, pred);
            }
            if keep {
                let ghost before = sorted@.map_values(|x: Rule| x@);
                let x = rule.clone();
                let mut k: usize = sorted.len();
                while k > 0 && id_lt(&x, &sorted[k - 1])
                    invariant
                        k <= sorted@.len(),
                        x@ == rv,
                        before == sorted@.map_values(|x: Rule| x@),
                        forall|j: int| k <= j < sorted@.len() ==> seq_lt(rv.object_id, #[trigger] before[j].object_id),
                    decreases k,
                {
                    assert(before[k - 1] == sorted@[k - 1]@);
                    k = k - 1;
                }
                proof {
                    if k > 0 {
                        assert(before[k - 1] == sorted@[k - 1]@);
                    }
                    lemma_insert_by_id_at(before, rv, k as int);
                }
                sorted.insert(k, x);
                proof {
                    assert(sorted@.map_values(|x: Rule| x@) =~= before.take(k as int) + seq![rv] + before.skip(k as int));
                    let f = ents.take(i as int).filter(pred);
                    assert(f.push(rv).drop_last() =~= f);
                }
                count = count + 1;
            }
            i = i + 1;
        }
        proof {
            assert(ents.take(n as int) =~= ents);
        }
        let total = count;
        let start = page * hits_per_page;
        let end = if start + hits_per_page < total {
            start + hits_per_page
        } else {
            total
        };
        let ghost sv = sorted@.map_values(|x: Rule| x@);
        proof {
            lemma_sort_by_id_len(ents.filter(pred));
        }
        let mut out: Vec<Rule> = Vec::new();
        if start < total {
            let mut k: usize = start;
            while k < end
                invariant
                    start <= k <= end <= total,
                    total == sorted@.len(),
                    sv == sorted@.map_values(|x: Rule| x@),
                    out@.len() == k - start,
                    forall|j: int| 0 <= j < out@.len() ==> #[trigger] out@[j]@ == sv[start + j],
                decreases end - k,
            {
                out.push(sorted[k].clone());
                k = k + 1;
            }
            assert(out@.map_values(|x: Rule| x@) =~= sv.subrange(start as int, end as int));
        } else {
            assert(out@.map_values(|x: Rule| x@) =~= Seq::<RuleV>::empty());
        }
        (out, total)
    }

    /// The effects of the rules that match the query in the context at time `now`.
    pub fn apply_rules_at(&self, query_text: &str, context: Option<&str>, now: i64) -> (r: RuleEffects)
        requires
            forall|i: int| 0 <= i < self.entries().len() ==> rule_positions_fit(#[trigger] self.entries()[i]),
        ensures
            r@ == effects_spec(self.entries(), query_text@, opt_str_view(context), now),
    {
        let ghost ents = self.entries();
        let ghost pred = |r: RuleV| rule_matches(r, query_text@, opt_str_view(context), now);
        let n = map_len(&self.rules);
        let mut pins: Vec<(String, usize)> = Vec::new();
        let mut hidden: Vec<String> = Vec::new();
        let mut user_data: Vec<Value> = Vec::new();
        let mut applied: Vec<String> = Vec::new();
        let mut i: usize = 0;
        proof {
            reveal(Seq::filter);
            assert(ents.take(0) =~= Seq::<RuleV>::empty());
            assert(pins_view(pins@) =~= all_pins(ents.take(0).filter(pred)));
            assert(strs_view(hidden@) =~= all_hidden(ents.take(0).filter(pred)));
            assert(user_data@ =~= all_user_data(ents.take(0).filter(pred)));
            assert(strs_view(applied@) =~= ids_of(ents.take(0).filter(pred)));
        }
        while i < n
            invariant
                n == ents.len(),
                ents == self.entries(),
                i <= n,
                forall|k: int| 0 <= k < ents.len() ==> rule_positions_fit(#[trigger] ents[k]),
                pred == (|r: RuleV| rule_matches(r, query_text@, opt_str_view(context), now)),
                pins_view(pins@) == all_pins(ents.take(i as int).filter(pred)),
                strs_view(hidden@) == all_hidden(ents.take(i as int).filter(pred)),
                user_data@ == all_user_data(ents.take(i as int).filter(pred)),
                strs_view(applied@) == ids_of(ents.take(i as int).filter(pred)),
            decreases n - i,
        {
            let (_, rule) = map_get_index(&self.rules, i).unwrap();
            let ghost rv = rule@;
            assert(ents[i as int] == rv);
            let ghost f = ents.take(i as int).filter(pred);
            proof {
                assert(ents.take(i + 1) =~= ents.take(i as int).push(rv));
                ents.take(i as int).lemma_filter_push(rv, pred);
            }
            if rule.matches_at(query_text, context, now) {
                proof {
                    assert(f.push(rv).drop_last() =~= f);
                    assert(rule_positions_fit(rv));
                }
                let ghost a0 = strs_view(applied@);
                applied.push(rule.object_id.clone());
                assert(strs_view(applied@) =~= a0.push(rv.object_id));
                assert(ids_of(f.push(rv)) =~= ids_of(f).push(rv.object_id));
                match &rule.consequence.promote {
                    Some(promote) => {
                        let mut j: usize = 0;
                        let ghost p0 = pins_view(pins@);
                        assert(promotes_pins(promotes_view(promote@).take(0)) =~= Seq::<(Seq<char>, usize)>::empty());
                        assert(pins_view(pins@) =~= p0 + promotes_pins(promotes_view(promote@).take(0)));
                        while j < promote.len()
                            invariant
                                j <= promote@.len(),
                                rv.consequence.promote == Some(promotes_view(promote@)),
                                rule_positions_fit(rv),
                                pins_view(pins@) == p0 + promotes_pins(promotes_view(promote@).take(j as int)),
                            decreases promote@.len() - j,
                        {
                            let ghost pv = promote@[j as int]@;
                            let ghost pj = pins_view(pins@);
                            assert(promotes_view(promote@)[j as int] == pv);
                            match &promote[j] {
                                Promote::Single { object_id, position } => {
                                    pins.push((object_id.clone(), *position));
                                    assert(pins_view(pins@) =~= pj + promote_pins(pv));
                                },
                                Promote::Multiple { object_ids, position } => {
                                    let mut idx: usize = 0;
                                    assert(rv.consequence.promote->0[j as int] == pv);
                                    assert(*position + object_ids@.len() <= usize::MAX);
                                    while idx < object_ids.len()
                                        invariant
                                            idx <= object_ids@.len(),
                                            *position + object_ids@.len() <= usize::MAX,
                                            pv == (PromoteV::Multiple { object_ids: strs_view(object_ids@), position: *position }),
                                            pins_view(pins@) == pj + promote_pins(pv).take(idx as int),
                                        decreases object_ids@.len() - idx,
                                    {
                                        let ghost pi = pins_view(pins@);
                                        assert(strs_view(object_ids@)[idx as int] == object_ids@[idx as int]@);
                                        assert(promote_pins(pv)[idx as int] == (object_ids@[idx as int]@, (*position + idx) as usize));
                                        pins.push((object_ids[idx].clone(), *position + idx));
                                        assert(pins_view(pins@) =~= pi.push((object_ids@[idx as int]@, (*position + idx) as usize)));
                                        assert(promote_pins(pv).take(idx + 1) =~= promote_pins(pv).take(idx as int).push(promote_pins(pv)[idx as int]));
                                        assert(pins_view(pins@) =~= pj + promote_pins(pv).take(idx + 1));
                                        idx = idx + 1;
                                    }
                                    assert(promote_pins(pv).take(object_ids@.len() as int) =~= promote_pins(pv));
                                },
                            }
                            proof {
                                let pvs = promotes_view(promote@);
                                assert(pvs.take(j + 1).drop_last() =~= pvs.take(j as int));
                                assert(pvs.take(j + 1).last() == pv);
                                assert(pins_view(pins@) =~= p0 + promotes_pins(pvs.take(j + 1)));
                            }
                            j = j + 1;
                        }
                        proof {
                            let pvs = promotes_view(promote@);
                            assert(pvs.take(pvs.len() as int) =~= pvs);
                            assert(pins_view(pins@) =~= all_pins(f.push(rv)));
                        }
                    },
                    None => {
                        assert(pins_view(pins@) =~= all_pins(f.push(rv)));
                    },
                }
                match &rule.consequence.hide {
                    Some(hide) => {
                        let mut j: usize = 0;
                        let ghost h0 = strs_view(hidden@);
                        while j < hide.len()
                            invariant
                                j <= hide@.len(),
                                strs_view(hidden@) == h0 + hides_view(hide@).take(j as int),
                            decreases hide@.len() - j,
                        {
                            assert(hides_view(hide@)[j as int] == hide@[j as int].object_id@);
                            let ghost hj = strs_view(hidden@);
                            hidden.push(hide[j].object_id.clone());
                            assert(strs_view(hidden@) =~= hj.push(hide@[j as int].object_id@));
                            assert(hides_view(hide@).take(j + 1) =~= hides_view(hide@).take(j as int).push(hides_view(hide@)[j as int]));
                            assert(strs_view(hidden@) =~= h0 + hides_view(hide@).take(j + 1));
                            j = j + 1;
                        }
                        assert(hides_view(hide@).take(hide@.len() as int) =~= hides_view(hide@));
                        assert(strs_view(hidden@) =~= all_hidden(f.push(rv)));
                    },
                    None => {
                        assert(strs_view(hidden@) =~= all_hidden(f.push(rv)));
                    },
                }
                match &rule.consequence.user_data {
                    Some(u) => {
                        user_data.push(clone_json(u));
                    },
                    None => {},
                }
                assert(user_data@ =~= all_user_data(f.push(rv)));
            } else {
            }
            i = i + 1;
        }
        proof {
            assert(ents.take(n as int) =~= ents);
        }
        let sorted = sort_pins(&pins);
        RuleEffects { pins: sorted, hidden, user_data, applied_rules: applied, query_rewrite: None }
    }

    /// The effects of the rules that match the query in the context now (by the
    /// system clock).
    pub fn apply_rules(&self, query_text: &str, context: Option<&str>) -> (r: RuleEffects)
        requires
            forall|i: int| 0 <= i < self.entries().len() ==> rule_positions_fit(#[trigger] self.entries()[i]),
        ensures
            exists|t: i64| t >= 0 && r@ == effects_spec(self.entries(), query_text@, opt_str_view(context), t),
    {
        let now = unix_now_secs();
        self.apply_rules_at(query_text, context, now)
    }

    /// The rewritten query of the first rule that matches at time `now` and has one.
    pub fn apply_query_rewrite_at(&self, query_text: &str, context: Option<&str>, now: i64) -> (r: Option<String>)
        ensures
            opt_string_view(r) == first_rewrite(self.entries(), query_text@, opt_str_view(context), now),
    {
        let ghost ents = self.entries();
        let n = map_len(&self.rules);
        let mut i: usize = 0;
        assert(ents.skip(0) =~= ents);
        while i < n
            invariant
                n == ents.len(),
                ents == self.entries(),
                i <= n,
                first_rewrite(ents, query_text@, opt_str_view(context), now) == first_rewrite(
                    ents.skip(i as int),
                    query_text@,
                    opt_str_view(context),
                    now,
                ),
            decreases n - i,
        {
            let (_, rule) = map_get_index(&self.rules, i).unwrap();
            assert(ents[i as int] == rule@);
            assert(ents.skip(i as int)[0] == rule@);
            assert(ents.skip(i as int).skip(1) =~= ents.skip(i + 1));
            if rule.matches_at(query_text, context, now) {
                match &rule.consequence.params {
                    Some(params) => {
                        match &params.query {
                            Some(q) => {
                                return Some(q.clone());
                            },
                            None => {},
                        }
                    },
                    None => {},
                }
            }
            i = i + 1;
        }
        None
    }

    /// The rewritten query of the first rule that matches now (by the system clock)
    /// and has one.
    pub fn apply_query_rewrite(&self, query_text: &str, context: Option<&str>) -> (r: Option<String>)
        ensures
            exists|t: i64| t >= 0 && opt_string_view(r) == first_rewrite(self.entries(), query_text@, opt_str_view(context), t),
    {
        let now = unix_now_secs();
        self.apply_query_rewrite_at(query_text, context, now)
    }
}

/// Whether `a`'s id comes before `b`'s.
fn id_lt(a: &Rule, b: &Rule) -> (r: bool)
    ensures
        r == seq_lt(a@.object_id, b@.object_id),
{
    let ac = chars_of(a.object_id.as_str());
    let bc = chars_of(b.object_id.as_str());
    chars_lt(ac.as_slice(), bc.as_slice())
}

proof fn lemma_insert_by_id_len(s: Seq<RuleV>, x: RuleV)
    ensures
        insert_by_id(s, x).len() == s.len() + 1,
    decreases s.len(),
{
    if s.len() > 0 {
        lemma_insert_by_id_len(s.drop_last(), x);
    }
}

proof fn lemma_sort_by_id_len(s: Seq<RuleV>)
    ensures
        sort_by_id(s).len() == s.len(),
    decreases s.len(),
{
    if s.len() > 0 {
        lemma_sort_by_id_len(s.drop_last());
        lemma_insert_by_id_len(sort_by_id(s.drop_last()), s.last());
    }
}


/// In a map with unique keys, the position of a key is where it sits.
proof fn lemma_key_index_at(e: Seq<(Seq<char>, RuleV)>, key: Seq<char>, i: int)
    requires
        keys_unique(e),
        0 <= i < e.len(),
        e[i].0 == key,
    ensures
        key_index(e, key) == Some(i),
{
    assert(exists|j: int| 0 <= j < e.len() && #[trigger] e[j].0 == key);
    let j = choose|j: int| 0 <= j < e.len() && #[trigger] e[j].0 == key;
    if j != i {
        assert(e[i].0 != e[j].0);
    }
}

// ---------------------------------------------------------------------------
// Laws
// ---------------------------------------------------------------------------

/// A disabled rule never matches.
pub proof fn law_disabled_never_matches(r: RuleV, q: Seq<char>, ctx: Option<Seq<char>>, t: i64)
    requires
        r.enabled == Some(false),
    ensures
        !rule_matches(r, q, ctx, t),
{
}

/// An enabled rule without conditions matches every query in every context while
/// it is valid.
pub proof fn law_unconditional_rule_matches(r: RuleV, q: Seq<char>, ctx: Option<Seq<char>>, t: i64)
    requires
        rule_enabled(r),
        rule_valid_at(r, t),
        r.conditions.len() == 0,
    ensures
        rule_matches(r, q, ctx, t),
{
}

/// A rule without validity ranges is valid at every time.
pub proof fn law_no_validity_always_valid(r: RuleV, t: i64)
    requires
        r.validity is None,
    ensures
        rule_valid_at(r, t),
{
}

/// A condition without a context applies in every context: an enabled rule,
/// valid at `t`, with such a condition whose pattern matches the query under its
/// anchoring, matches the query whatever context the search has (one or none).
pub proof fn law_contextless_condition_matches_everywhere(
    r: RuleV,
    query: Seq<char>,
    context: Option<Seq<char>>,
    t: i64,
    i: int,
)
    requires
        rule_enabled(r),
        rule_valid_at(r, t),
        0 <= i < r.conditions.len(),
        r.conditions[i].context is None,
        pattern_matches(query, r.conditions[i].pattern, r.conditions[i].anchoring),
    ensures
        rule_matches(r, query, context, t),
{
    assert(condition_holds(r.conditions[i], query, context));
}

/// A condition tied to a context never holds in another context or without one.
pub proof fn law_context_must_agree(c: ConditionV, q: Seq<char>, ctx: Option<Seq<char>>)
    requires
        c.context is Some,
        ctx != c.context,
    ensures
        !condition_holds(c, q, ctx),
{
}

proof fn lemma_insert_by_pos_props(s: Seq<(Seq<char>, usize)>, x: (Seq<char>, usize))
    requires
        forall|i: int, j: int| 0 <= i <= j < s.len() ==> #[trigger] s[i].1 <= #[trigger] s[j].1,
    ensures
        forall|i: int, j: int|
            0 <= i <= j < insert_by_pos(s, x).len() ==> #[trigger] insert_by_pos(s, x)[i].1
                <= #[trigger] insert_by_pos(s, x)[j].1,
        insert_by_pos(s, x).to_multiset() == s.to_multiset().insert(x),
    decreases s.len(),
{
    broadcast use vstd::seq_lib::group_to_multiset_ensures;
    if s.len() == 0 {
        assert(insert_by_pos(s, x) =~= seq![x]);
        assert(seq![x] =~= Seq::<(Seq<char>, usize)>::empty().push(x));
    } else if s.last().1 > x.1 {
        let p = s.drop_last();
        lemma_insert_by_pos_props(p, x);
        let ip = insert_by_pos(p, x);
        let r = ip.push(s.last());
        assert forall|i: int, j: int| 0 <= i <= j < r.len() implies #[trigger] r[i].1 <= #[trigger] r[j].1 by {
            if j == r.len() - 1 && i < j {
                assert(ip.to_multiset().contains(ip[i]));
                assert(ip.to_multiset().count(ip[i]) > 0);
                if ip[i] == x {
                } else {
                    assert(p.to_multiset().contains(ip[i]));
                    assert(p.contains(ip[i]));
                    let k = choose|k: int| 0 <= k < p.len() && p[k] == ip[i];
                    assert(s[k] == p[k]);
                    assert(s[k].1 <= s[s.len() - 1].1);
                }
            }
        }
        assert(s =~= p.push(s.last()));
    } else {
        let r = s.push(x);
        assert forall|i: int, j: int| 0 <= i <= j < r.len() implies #[trigger] r[i].1 <= #[trigger] r[j].1 by {
            if j == r.len() - 1 && i < j {
                assert(s[i].1 <= s[s.len() - 1].1);
            }
        }
    }
}

/// The pins of rule effects come ordered by position, and they are exactly the pins
/// that the matching rules ask for.
pub proof fn law_pins_sorted(s: Seq<(Seq<char>, usize)>)
    ensures
        forall|i: int, j: int|
            0 <= i <= j < sort_by_pos(s).len() ==> #[trigger] sort_by_pos(s)[i].1 <= #[trigger] sort_by_pos(
                s,
            )[j].1,
        sort_by_pos(s).to_multiset() == s.to_multiset(),
    decreases s.len(),
{
    broadcast use vstd::seq_lib::group_to_multiset_ensures;
    if s.len() > 0 {
        law_pins_sorted(s.drop_last());
        lemma_insert_by_pos_props(sort_by_pos(s.drop_last()), s.last());
        assert(s =~= s.drop_last().push(s.last()));
    }
}

/// Pins with equal positions keep the order in which the rules asked for them.
pub proof fn law_pins_sort_keeps_order_of_equal(s: Seq<(Seq<char>, usize)>, x: (Seq<char>, usize))
    requires
        forall|i: int| 0 <= i < s.len() ==> #[trigger] s[i].1 <= x.1,
    ensures
        sort_by_pos(s.push(x)) == sort_by_pos(s).push(x),
{
    assert(s.push(x).drop_last() =~= s);
    lemma_sort_by_pos_bounded(s, x.1);
    if sort_by_pos(s).len() > 0 {
        assert(sort_by_pos(s).last().1 <= x.1);
    }
}

proof fn lemma_sort_by_pos_bounded(s: Seq<(Seq<char>, usize)>, b: usize)
    requires
        forall|i: int| 0 <= i < s.len() ==> #[trigger] s[i].1 <= b,
    ensures
        forall|i: int| 0 <= i < sort_by_pos(s).len() ==> #[trigger] sort_by_pos(s)[i].1 <= b,
{
    broadcast use vstd::seq_lib::group_to_multiset_ensures;
    law_pins_sorted(s);
    assert forall|i: int| 0 <= i < sort_by_pos(s).len() implies #[trigger] sort_by_pos(s)[i].1 <= b by {
        let e = sort_by_pos(s)[i];
        assert(sort_by_pos(s).to_multiset().contains(e));
        assert(s.to_multiset().contains(e));
        assert(s.contains(e));
    }
}


proof fn lemma_seq_lt_asym(a: Seq<char>, b: Seq<char>)
    ensures
        seq_lt(a, b) ==> !seq_lt(b, a),
    decreases a.len(),
{
    if a.len() > 0 && b.len() > 0 && a[0] == b[0] {
        lemma_seq_lt_asym(a.skip(1), b.skip(1));
    }
}

proof fn lemma_insert_by_id_props(s: Seq<RuleV>, x: RuleV)
    requires
        forall|i: int| 0 <= i < s.len() - 1 ==> !seq_lt(#[trigger] s[i + 1].object_id, s[i].object_id),
    ensures
        forall|i: int|
            0 <= i < insert_by_id(s, x).len() - 1 ==> !seq_lt(
                #[trigger] insert_by_id(s, x)[i + 1].object_id,
                insert_by_id(s, x)[i].object_id,
            ),
        insert_by_id(s, x).to_multiset() == s.to_multiset().insert(x),
        insert_by_id(s, x).len() == s.len() + 1,
        s.len() > 0 ==> insert_by_id(s, x).last() == s.last() || insert_by_id(s, x).last() == x,
    decreases s.len(),
{
    broadcast use vstd::seq_lib::group_to_multiset_ensures;
    if s.len() == 0 {
        assert(insert_by_id(s, x) =~= Seq::<RuleV>::empty().push(x));
    } else if seq_lt(x.object_id, s.last().object_id) {
        let p = s.drop_last();
        assert forall|i: int| 0 <= i < p.len() - 1 implies !seq_lt(#[trigger] p[i + 1].object_id, p[i].object_id) by {
            assert(p[i + 1] == s[i + 1] && p[i] == s[i]);
        }
        lemma_insert_by_id_props(p, x);
        let ip = insert_by_id(p, x);
        let r = ip.push(s.last());
        lemma_seq_lt_asym(x.object_id, s.last().object_id);
        assert forall|i: int| 0 <= i < r.len() - 1 implies !seq_lt(#[trigger] r[i + 1].object_id, r[i].object_id) by {
            if i == r.len() - 2 {
                assert(r[i] == ip.last());
                assert(r[i + 1] == s.last());
                if p.len() > 0 {
                    assert(ip.last() == p.last() || ip.last() == x);
                    assert(p.last() == s[s.len() - 2]);
                    let k = s.len() - 2;
                    assert(!seq_lt(s[k + 1].object_id, s[k].object_id));
                } else {
                    assert(ip.last() == x);
                }
            } else {
                assert(r[i + 1] == ip[i + 1] && r[i] == ip[i]);
            }
        }
        assert(s =~= p.push(s.last()));
    } else {
        let r = s.push(x);
        assert forall|i: int| 0 <= i < r.len() - 1 implies !seq_lt(#[trigger] r[i + 1].object_id, r[i].object_id) by {
            if i < s.len() - 1 {
                assert(r[i + 1] == s[i + 1] && r[i] == s[i]);
            }
        }
    }
}

/// Search hits come ordered by id (no hit's id precedes its predecessor's), and
/// they are exactly the rules that pass the search.
pub proof fn law_search_sorted_by_id(s: Seq<RuleV>)
    ensures
        forall|i: int|
            0 <= i < sort_by_id(s).len() - 1 ==> !seq_lt(
                #[trigger] sort_by_id(s)[i + 1].object_id,
                sort_by_id(s)[i].object_id,
            ),
        sort_by_id(s).to_multiset() == s.to_multiset(),
        sort_by_id(s).len() == s.len(),
    decreases s.len(),
{
    broadcast use vstd::seq_lib::group_to_multiset_ensures;
    if s.len() > 0 {
        law_search_sorted_by_id(s.drop_last());
        lemma_insert_by_id_props(sort_by_id(s.drop_last()), s.last());
        assert(s =~= s.drop_last().push(s.last()));
    }
}

} // verus!
