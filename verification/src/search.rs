//! The plain logic of a search over several query variants: the order in which
//! searchable paths are searched, merging the hits of each variant without
//! repeating a document, the total reported (and lowered for hidden hits), the
//! window of the merged hits that makes the requested page, and the shorter
//! queries tried when nothing was found.
use vstd::prelude::*;
use crate::document::join_spaced;
use crate::settings::strings_have;
use crate::synonyms::strs_view;
use crate::text::{chars_eq, chars_of, split_whitespace_chars, split_ws, string_from_chars, trim_chars, trim_ws, words_view};

verus! {

/// The ids of `batch` appended to `acc`, each only if it is not already there.
pub open spec fn merge_unique(acc: Seq<Seq<char>>, batch: Seq<Seq<char>>) -> Seq<Seq<char>>
    decreases batch.len(),
{
    if batch.len() == 0 {
        acc
    } else {
        let m = merge_unique(acc, batch.drop_last());
        if m.contains(batch.last()) {
            m
        } else {
            m.push(batch.last())
        }
    }
}

/// Append to `acc` the ids of a variant's hits that it does not hold yet, in
/// the order of the hits (a document found by several variants keeps its first
/// place).
pub fn merge_hit_ids(acc: &mut Vec<String>, batch: &Vec<String>)
    ensures
        strs_view(final(acc)@) == merge_unique(strs_view(old(acc)@), strs_view(batch@)),
{
    let ghost a0 = strs_view(acc@);
    let ghost bv = strs_view(batch@);
    let mut i: usize = 0;
    assert(bv.take(0) =~= Seq::<Seq<char>>::empty());
    while i < batch.len()
        invariant
            i <= batch@.len(),
            bv == strs_view(batch@),
            strs_view(acc@) == merge_unique(a0, bv.take(i as int)),
        decreases batch@.len() - i,
    {
        proof {
            assert(bv.take(i + 1).drop_last() =~= bv.take(i as int));
            assert(bv.take(i + 1).last() == batch@[i as int]@);
        }
        if !strings_have(acc, batch[i].as_str()) {
            let ghost before = acc@;
            let id = batch[i].clone();
            acc.push(id);
            assert(strs_view(acc@) =~= strs_view(before).push(id@));
        }
        i = i + 1;
    }
    assert(bv.take(batch@.len() as int) =~= bv);
}

/// No id occurs twice.
pub open spec fn no_repeats(s: Seq<Seq<char>>) -> bool {
    forall|i: int, j: int| 0 <= i < j < s.len() ==> s[i] != s[j]
}

/// Merging keeps what was there, in place; repeats nothing that was not
/// repeated; and ends holding every id of the batch.
pub proof fn law_merge_unique(acc: Seq<Seq<char>>, batch: Seq<Seq<char>>)
    ensures
        acc.len() <= merge_unique(acc, batch).len() <= acc.len() + batch.len(),
        merge_unique(acc, batch).take(acc.len() as int) == acc,
        no_repeats(acc) ==> no_repeats(merge_unique(acc, batch)),
        forall|k: int| 0 <= k < batch.len() ==> merge_unique(acc, batch).contains(#[trigger] batch[k]),
    decreases batch.len(),
{
    if batch.len() == 0 {
        assert(acc.take(acc.len() as int) =~= acc);
    } else {
        let p = batch.drop_last();
        law_merge_unique(acc, p);
        let m = merge_unique(acc, p);
        let x = batch.last();
        if !m.contains(x) {
            assert(m.push(x).take(acc.len() as int) =~= m.take(acc.len() as int));
            if no_repeats(m) {
                assert forall|i: int, j: int| 0 <= i < j < m.push(x).len() implies m.push(x)[i] != m.push(x)[j] by {
                    if j == m.len() {
                        assert(m.push(x)[i] == m[i]);
                    } else {
                        assert(m.push(x)[i] == m[i] && m.push(x)[j] == m[j]);
                    }
                }
            }
        }
        let r = merge_unique(acc, batch);
        assert forall|k: int| 0 <= k < batch.len() implies r.contains(#[trigger] batch[k]) by {
            if k < p.len() {
                assert(batch[k] == p[k]);
                assert(m.contains(p[k]));
                let i = choose|i: int| 0 <= i < m.len() && m[i] == p[k];
                if !m.contains(x) {
                    assert(r[i] == m[i]);
                }
            } else {
                if !m.contains(x) {
                    assert(r[r.len() - 1] == x);
                }
            }
        }
    }
}

/// The number of hits reported for a search: with one query variant, the count
/// that variant reported; with several, the number of distinct hits when fewer
/// than `limit` were gathered (all were), else the largest count a variant
/// reported (the number of distinct hits when no variant reported any).
pub open spec fn search_total_spec(totals: Seq<usize>, distinct: usize, limit: usize) -> usize {
    if totals.len() == 1 {
        totals[0]
    } else if distinct < limit {
        distinct
    } else if totals.len() == 0 {
        distinct
    } else {
        seq_max(totals)
    }
}

/// The largest element of a non-empty sequence.
pub open spec fn seq_max(s: Seq<usize>) -> usize
    decreases s.len(),
{
    if s.len() <= 1 {
        s[0]
    } else if s.last() > seq_max(s.drop_last()) {
        s.last()
    } else {
        seq_max(s.drop_last())
    }
}

/// The total a search reports (see [`search_total_spec`]).
pub fn search_total(totals: &Vec<usize>, distinct: usize, limit: usize) -> (r: usize)
    ensures
        r == search_total_spec(totals@, distinct, limit),
{
    if totals.len() == 1 {
        totals[0]
    } else if distinct < limit {
        distinct
    } else if totals.len() == 0 {
        distinct
    } else {
        let mut best = totals[0];
        let mut i: usize = 1;
        assert(totals@.take(1) =~= seq![totals@[0]]);
        while i < totals.len()
            invariant
                1 <= i <= totals@.len(),
                best == seq_max(totals@.take(i as int)),
            decreases totals@.len() - i,
        {
            assert(totals@.take(i + 1).drop_last() =~= totals@.take(i as int));
            if totals[i] > best {
                best = totals[i];
            }
            i = i + 1;
        }
        assert(totals@.take(totals@.len() as int) =~= totals@);
        best
    }
}

/// The largest count is one of the counts and no count is larger.
pub proof fn law_seq_max(s: Seq<usize>)
    requires
        s.len() > 0,
    ensures
        s.contains(seq_max(s)),
        forall|k: int| 0 <= k < s.len() ==> s[k] <= seq_max(s),
    decreases s.len(),
{
    if s.len() > 1 {
        let p = s.drop_last();
        law_seq_max(p);
        assert forall|k: int| 0 <= k < s.len() implies s[k] <= seq_max(s) by {
            if k < p.len() {
                assert(s[k] == p[k]);
            }
        }
        if seq_max(s) == s.last() {
            assert(s[s.len() - 1] == s.last());
        } else {
            let i = choose|i: int| 0 <= i < p.len() && p[i] == seq_max(p);
            assert(s[i] == p[i]);
        }
    } else {
        assert(s[0] == seq_max(s));
    }
}

/// The window `[start, end)` of `count` merged hits that makes the page at
/// `offset` of `limit` hits: both ends clamped to the hits there are.
pub open spec fn page_window_spec(offset: usize, limit: usize, count: usize) -> (usize, usize) {
    let start = if offset < count { offset } else { count };
    let end = if start + limit < count { (start + limit) as usize } else { count };
    (start, end)
}

/// The page window of the merged hits (see [`page_window_spec`]).
pub fn page_window(offset: usize, limit: usize, count: usize) -> (r: (usize, usize))
    requires
        (if offset < count { offset } else { count }) + limit <= usize::MAX,
    ensures
        r == page_window_spec(offset, limit, count),
        r.0 <= r.1 <= count,
        r.1 - r.0 <= limit,
{
    let start = if offset < count { offset } else { count };
    let end = if start + limit < count { start + limit } else { count };
    (start, end)
}

/// Whether enough distinct hits were gathered to stop trying further query
/// variants: at least the page's end (`offset + limit`).
pub fn enough_hits(gathered: usize, offset: usize, limit: usize) -> (r: bool)
    requires
        offset + limit <= usize::MAX,
    ensures
        r == (gathered >= offset + limit),
{
    gathered >= offset + limit
}

/// How many of the hidden ids are among the hits.
pub open spec fn hidden_among(hidden: Seq<Seq<char>>, hits: Seq<Seq<char>>) -> nat
    decreases hidden.len(),
{
    if hidden.len() == 0 {
        0
    } else {
        hidden_among(hidden.drop_last(), hits) + if hits.contains(hidden.last()) {
            1nat
        } else {
            0nat
        }
    }
}

/// The total once hidden hits are taken out: lowered by the number of hidden
/// ids among the gathered hits, never below zero.
pub fn total_after_hiding(total: usize, hidden: &Vec<String>, hits: &Vec<String>) -> (r: usize)
    ensures
        r == if total >= hidden_among(strs_view(hidden@), strs_view(hits@)) {
            total - hidden_among(strs_view(hidden@), strs_view(hits@))
        } else {
            0
        },
{
    let ghost hv = strs_view(hidden@);
    let ghost tv = strs_view(hits@);
    let mut count: usize = 0;
    let mut i: usize = 0;
    assert(hv.take(0) =~= Seq::<Seq<char>>::empty());
    while i < hidden.len()
        invariant
            i <= hidden@.len(),
            hv == strs_view(hidden@),
            tv == strs_view(hits@),
            count == hidden_among(hv.take(i as int), tv),
            count <= i,
        decreases hidden@.len() - i,
    {
        proof {
            assert(hv.take(i + 1).drop_last() =~= hv.take(i as int));
            assert(hv.take(i + 1).last() == hidden@[i as int]@);
        }
        if strings_have(hits, hidden[i].as_str()) {
            count = count + 1;
        }
        i = i + 1;
    }
    assert(hv.take(hidden@.len() as int) =~= hv);
    if total >= count {
        total - count
    } else {
        0
    }
}

/// Whether a search that found nothing is tried again with fewer words: it
/// found no hit, the strategy is not `none`, and the query has a word.
pub open spec fn retry_spec(total: usize, shown: usize, strategy: Seq<char>, query: Seq<char>) -> bool {
    total == 0 && shown == 0 && strategy != "none"@ && trim_ws(query).len() > 0
}

/// Whether to retry a search with fewer words (see [`retry_spec`]).
pub fn should_retry_with_fewer_words(total: usize, shown: usize, strategy: &str, query: &str) -> (r: bool)
    ensures
        r == retry_spec(total, shown, strategy@, query@),
{
    let sc = chars_of(strategy);
    let none = chars_of("none");
    let qc = chars_of(query);
    let t = trim_chars(qc.as_slice());
    total == 0 && shown == 0 && !chars_eq(sc.as_slice(), none.as_slice()) && t.len() > 0
}

/// The queries tried, in order, when a search with several words finds
/// nothing: with `lastWords`, the query without its last word, then without
/// its last two, down to its first word alone; with `firstWords`, the query
/// without its first word, then without its first two, down to its last word
/// alone; none with any other strategy or fewer than two words.
pub open spec fn fallback_spec(words: Seq<Seq<char>>, strategy: Seq<char>) -> Seq<Seq<char>> {
    if words.len() < 2 {
        seq![]
    } else if strategy == "lastWords"@ {
        Seq::new((words.len() - 1) as nat, |k: int| join_spaced(words.take(words.len() - (k + 1))))
    } else if strategy == "firstWords"@ {
        Seq::new((words.len() - 1) as nat, |k: int| join_spaced(words.skip(k + 1)))
    } else {
        seq![]
    }
}

/// The words `from .. to` joined by single spaces.
fn join_words(words: &Vec<Vec<char>>, from: usize, to: usize) -> (r: Vec<char>)
    requires
        from <= to <= words@.len(),
    ensures
        r@ == join_spaced(words_view(words@).subrange(from as int, to as int)),
{
    let ghost wv = words_view(words@);
    let mut acc: Vec<char> = Vec::new();
    let mut i: usize = from;
    assert(wv.subrange(from as int, from as int) =~= Seq::<Seq<char>>::empty());
    while i < to
        invariant
            from <= i <= to <= words@.len(),
            wv == words_view(words@),
            acc@ == join_spaced(wv.subrange(from as int, i as int)),
        decreases to - i,
    {
        let ghost before = acc@;
        proof {
            assert(wv.subrange(from as int, i + 1).drop_last() =~= wv.subrange(from as int, i as int));
            assert(wv.subrange(from as int, i + 1).last() == words@[i as int]@);
        }
        if i > from {
            acc.push(' ');
        }
        let mut j: usize = 0;
        let ghost mid = acc@;
        while j < words[i].len()
            invariant
                from <= i < to <= words@.len(),
                j <= words@[i as int]@.len(),
                acc@ == mid + words@[i as int]@.take(j as int),
            decreases words@[i as int]@.len() - j,
        {
            acc.push(words[i][j]);
            j = j + 1;
            assert(acc@ =~= mid + words@[i as int]@.take(j as int));
        }
        assert(words@[i as int]@.take(words@[i as int]@.len() as int) =~= words@[i as int]@);
        proof {
            if i > from {
                assert(acc@ =~= before + seq![' '] + words@[i as int]@);
            } else {
                assert(wv.subrange(from as int, i + 1) =~= seq![words@[i as int]@]);
                assert(acc@ =~= words@[i as int]@);
            }
        }
        i = i + 1;
    }
    acc
}

/// The fallback queries of a query and a strategy (see [`fallback_spec`]).
pub fn fallback_queries(query: &str, strategy: &str) -> (r: Vec<String>)
    ensures
        strs_view(r@) == fallback_spec(split_ws(query@), strategy@),
{
    let qc = chars_of(query);
    let words = split_whitespace_chars(qc.as_slice());
    let ghost wv = words_view(words@);
    let n = words.len();
    let mut out: Vec<String> = Vec::new();
    if n < 2 {
        assert(strs_view(out@) =~= fallback_spec(wv, strategy@));
        return out;
    }
    let sc = chars_of(strategy);
    let last = chars_of("lastWords");
    let first = chars_of("firstWords");
    let is_last = chars_eq(sc.as_slice(), last.as_slice());
    let is_first = chars_eq(sc.as_slice(), first.as_slice());
    if !is_last && !is_first {
        assert(strs_view(out@) =~= fallback_spec(wv, strategy@));
        return out;
    }
    let mut d: usize = 1;
    while d < n
        invariant
            2 <= n == words@.len(),
            wv == words_view(words@),
            1 <= d <= n,
            is_last == (strategy@ == "lastWords"@),
            is_first == (strategy@ == "firstWords"@),
            is_last || is_first,
            strs_view(out@) == fallback_spec(wv, strategy@).take(d - 1),
        decreases n - d,
    {
        let ghost before = out@;
        let j = if is_last {
            join_words(&words, 0, n - d)
        } else {
            join_words(&words, d, n)
        };
        proof {
            if is_last {
                assert(wv.subrange(0, n - d) =~= wv.take(wv.len() - d));
            } else {
                assert(wv.subrange(d as int, n as int) =~= wv.skip(d as int));
            }
        }
        let t = string_from_chars(j.as_slice());
        out.push(t);
        assert(strs_view(out@) =~= strs_view(before).push(t@));
        assert(fallback_spec(wv, strategy@).take(d as int) =~= fallback_spec(wv, strategy@).take(d - 1).push(
            fallback_spec(wv, strategy@)[d - 1],
        ));
        d = d + 1;
    }
    assert(fallback_spec(wv, strategy@).take(n - 1) =~= fallback_spec(wv, strategy@));
    out
}

// ---------------------------------------------------------------------------
// Searchable paths
// ---------------------------------------------------------------------------

/// How a searchable path is weighted: all alike (no searchable attributes are
/// set), by its rank among the searchable attributes, or below every ranked
/// path.
#[derive(Debug, Clone, Copy, PartialEq, Eq, Structural)]
pub enum PathRank {
    Even,
    Rank(usize),
    Unranked,
}

/// The position of the first attribute equal to `p`, if any.
pub open spec fn first_pos(attrs: Seq<Seq<char>>, p: Seq<char>) -> Option<int>
    decreases attrs.len(),
{
    if attrs.len() == 0 {
        None
    } else if attrs[0] == p {
        Some(0)
    } else {
        match first_pos(attrs.drop_first(), p) {
            Some(i) => Some(i + 1),
            None => None,
        }
    }
}

/// The paths of rank `r`, in order.
pub open spec fn ranked_as(all: Seq<Seq<char>>, attrs: Seq<Seq<char>>, r: int) -> Seq<Seq<char>>
    decreases all.len(),
{
    if all.len() == 0 {
        seq![]
    } else if first_pos(attrs, all.last()) == Some(r) {
        ranked_as(all.drop_last(), attrs, r).push(all.last())
    } else {
        ranked_as(all.drop_last(), attrs, r)
    }
}

/// The paths of ranks `0 .. n`, by rank, each rank's paths in order.
pub open spec fn ranked_upto(all: Seq<Seq<char>>, attrs: Seq<Seq<char>>, n: int) -> Seq<(Seq<char>, PathRank)>
    decreases n,
{
    if n <= 0 {
        seq![]
    } else {
        ranked_upto(all, attrs, n - 1) + ranked_as(all, attrs, n - 1).map_values(
            |p: Seq<char>| (p, PathRank::Rank((n - 1) as usize)),
        )
    }
}

/// The paths no attribute names, in order.
pub open spec fn unranked(all: Seq<Seq<char>>, attrs: Seq<Seq<char>>) -> Seq<Seq<char>>
    decreases all.len(),
{
    if all.len() == 0 {
        seq![]
    } else if first_pos(attrs, all.last()) is None {
        unranked(all.drop_last(), attrs).push(all.last())
    } else {
        unranked(all.drop_last(), attrs)
    }
}

/// The searchable paths in the order they are searched, each with its
/// weighting: without searchable attributes, all paths alike in their order;
/// with them, the named paths by the rank of the attribute naming them (paths
/// of one rank in their order), then the others in their order.
pub open spec fn ordered_paths_spec(all: Seq<Seq<char>>, attrs: Option<Seq<Seq<char>>>) -> Seq<(Seq<char>, PathRank)> {
    match attrs {
        None => all.map_values(|p: Seq<char>| (p, PathRank::Even)),
        Some(a) => ranked_upto(all, a, a.len() as int) + unranked(all, a).map_values(
            |p: Seq<char>| (p, PathRank::Unranked),
        ),
    }
}

/// The entries whose path is listed, in order.
pub open spec fn listed(e: Seq<(Seq<char>, PathRank)>, list: Seq<Seq<char>>) -> Seq<(Seq<char>, PathRank)>
    decreases e.len(),
{
    if e.len() == 0 {
        seq![]
    } else if list.contains(e.last().0) {
        listed(e.drop_last(), list).push(e.last())
    } else {
        listed(e.drop_last(), list)
    }
}

/// The paths searched: restricted to the listed ones when a restriction is
/// given and some path is listed, else all of them.
pub open spec fn searched_paths_spec(
    all: Seq<Seq<char>>,
    attrs: Option<Seq<Seq<char>>>,
    restrict: Option<Seq<Seq<char>>>,
) -> Seq<(Seq<char>, PathRank)> {
    let e = ordered_paths_spec(all, attrs);
    match restrict {
        Some(list) => if listed(e, list).len() > 0 {
            listed(e, list)
        } else {
            e
        },
        None => e,
    }
}

proof fn lemma_first_pos(attrs: Seq<Seq<char>>, p: Seq<char>, i: int)
    requires
        0 <= i < attrs.len(),
        attrs[i] == p,
        forall|j: int| 0 <= j < i ==> attrs[j] != p,
    ensures
        first_pos(attrs, p) == Some(i),
    decreases attrs.len(),
{
    if i > 0 {
        let t = attrs.drop_first();
        assert forall|j: int| 0 <= j < i - 1 implies t[j] != p by {
            assert(t[j] == attrs[j + 1]);
        }
        lemma_first_pos(t, p, i - 1);
    }
}

proof fn lemma_first_pos_none(attrs: Seq<Seq<char>>, p: Seq<char>)
    requires
        forall|j: int| 0 <= j < attrs.len() ==> attrs[j] != p,
    ensures
        first_pos(attrs, p) is None,
    decreases attrs.len(),
{
    if attrs.len() > 0 {
        let t = attrs.drop_first();
        assert forall|j: int| 0 <= j < t.len() implies t[j] != p by {
            assert(t[j] == attrs[j + 1]);
        }
        lemma_first_pos_none(t, p);
    }
}

fn position(attrs: &Vec<String>, p: &str) -> (r: Option<usize>)
    ensures
        match r {
            Some(i) => first_pos(strs_view(attrs@), p@) == Some(i as int) && i < attrs@.len(),
            None => first_pos(strs_view(attrs@), p@) is None,
        },
{
    let ghost av = strs_view(attrs@);
    let pc = chars_of(p);
    let mut i: usize = 0;
    while i < attrs.len()
        invariant
            i <= attrs@.len(),
            av == strs_view(attrs@),
            pc@ == p@,
            forall|j: int| 0 <= j < i ==> av[j] != p@,
        decreases attrs@.len() - i,
    {
        let c = chars_of(attrs[i].as_str());
        assert(av[i as int] == attrs@[i as int]@);
        if chars_eq(c.as_slice(), pc.as_slice()) {
            proof {
                lemma_first_pos(av, p@, i as int);
            }
            return Some(i);
        }
        i = i + 1;
    }
    proof {
        lemma_first_pos_none(av, p@);
    }
    None
}

/// The entries view of a list of (path, weighting) pairs.
pub open spec fn ranks_view(v: Seq<(String, PathRank)>) -> Seq<(Seq<char>, PathRank)> {
    v.map_values(|e: (String, PathRank)| (e.0@, e.1))
}

/// The searchable paths in search order with their weighting, restricted as
/// asked (see [`searched_paths_spec`]); the weights themselves (powers of a
/// hundredth) are computed from the ranks by the caller.
pub fn searched_paths(all: &Vec<String>, attrs: Option<&Vec<String>>, restrict: Option<&Vec<String>>) -> (r: Vec<
    (String, PathRank),
>)
    ensures
        ranks_view(r@) == searched_paths_spec(
            strs_view(all@),
            match attrs {
                Some(a) => Some(strs_view(a@)),
                None => None,
            },
            match restrict {
                Some(l) => Some(strs_view(l@)),
                None => None,
            },
        ),
{
    let ghost allv = strs_view(all@);
    let mut e: Vec<(String, PathRank)> = Vec::new();
    match attrs {
        None => {
            let mut i: usize = 0;
            while i < all.len()
                invariant
                    i <= all@.len(),
                    allv == strs_view(all@),
                    ranks_view(e@) == allv.take(i as int).map_values(|p: Seq<char>| (p, PathRank::Even)),
                decreases all@.len() - i,
            {
                let ghost before = e@;
                let x = all[i].clone();
                e.push((x, PathRank::Even));
                proof {
                    assert(e@ == before.push((x, PathRank::Even)));
                    assert(allv.take(i + 1) =~= allv.take(i as int).push(allv[i as int]));
                    assert(ranks_view(e@) =~= ranks_view(before).push((x@, PathRank::Even)));
                    assert(allv.take(i + 1).map_values(|p: Seq<char>| (p, PathRank::Even)) =~= allv.take(
                        i as int,
                    ).map_values(|p: Seq<char>| (p, PathRank::Even)).push((allv[i as int], PathRank::Even)));
                }
                i = i + 1;
            }
            assert(allv.take(all@.len() as int) =~= allv);
        },
        Some(a) => {
            let ghost av = strs_view(a@);
            let mut r: usize = 0;
            assert(ranks_view(e@) =~= ranked_upto(allv, av, 0));
            while r < a.len()
                invariant
                    r <= a@.len(),
                    allv == strs_view(all@),
                    av == strs_view(a@),
                    ranks_view(e@) == ranked_upto(allv, av, r as int),
                decreases a@.len() - r,
            {
                let ghost base = ranks_view(e@);
                let mut i: usize = 0;
                assert(ranked_as(allv.take(0), av, r as int).map_values(|p: Seq<char>| (p, PathRank::Rank(r)))
                    =~= Seq::<(Seq<char>, PathRank)>::empty());
                assert(base =~= base + ranked_as(allv.take(0), av, r as int).map_values(
                    |p: Seq<char>| (p, PathRank::Rank(r)),
                ));
                while i < all.len()
                    invariant
                        i <= all@.len(),
                        r < a@.len(),
                        allv == strs_view(all@),
                        av == strs_view(a@),
                        ranks_view(e@) == base + ranked_as(allv.take(i as int), av, r as int).map_values(
                            |p: Seq<char>| (p, PathRank::Rank(r)),
                        ),
                    decreases all@.len() - i,
                {
                    let ghost before = e@;
                    proof {
                        assert(allv.take(i + 1).drop_last() =~= allv.take(i as int));
                        assert(allv.take(i + 1).last() == all@[i as int]@);
                    }
                    match position(a, all[i].as_str()) {
                        Some(k) => {
                            if k == r {
                                let x = all[i].clone();
                                e.push((x, PathRank::Rank(r)));
                                proof {
                                    let w = ranked_as(allv.take(i as int), av, r as int);
                                    assert(e@ == before.push((x, PathRank::Rank(r))));
                                    assert(ranks_view(e@) =~= ranks_view(before).push((x@, PathRank::Rank(r))));
                                    assert(w.push(x@).map_values(|p: Seq<char>| (p, PathRank::Rank(r))) =~= w.map_values(
                                        |p: Seq<char>| (p, PathRank::Rank(r)),
                                    ).push((x@, PathRank::Rank(r))));
                                }
                            }
                        },
                        None => {},
                    }
                    i = i + 1;
                }
                assert(allv.take(all@.len() as int) =~= allv);
                r = r + 1;
            }
            let ghost base = ranks_view(e@);
            let mut i: usize = 0;
            assert(base =~= base + unranked(allv.take(0), av).map_values(|p: Seq<char>| (p, PathRank::Unranked)));
            while i < all.len()
                invariant
                    i <= all@.len(),
                    allv == strs_view(all@),
                    av == strs_view(a@),
                    ranks_view(e@) == base + unranked(allv.take(i as int), av).map_values(
                        |p: Seq<char>| (p, PathRank::Unranked),
                    ),
                decreases all@.len() - i,
            {
                let ghost before = e@;
                proof {
                    assert(allv.take(i + 1).drop_last() =~= allv.take(i as int));
                    assert(allv.take(i + 1).last() == all@[i as int]@);
                }
                if position(a, all[i].as_str()).is_none() {
                    let x = all[i].clone();
                    e.push((x, PathRank::Unranked));
                    proof {
                        let w = unranked(allv.take(i as int), av);
                        assert(e@ == before.push((x, PathRank::Unranked)));
                        assert(ranks_view(e@) =~= ranks_view(before).push((x@, PathRank::Unranked)));
                        assert(w.push(x@).map_values(|p: Seq<char>| (p, PathRank::Unranked)) =~= w.map_values(
                            |p: Seq<char>| (p, PathRank::Unranked),
                        ).push((x@, PathRank::Unranked)));
                    }
                }
                i = i + 1;
            }
            assert(allv.take(all@.len() as int) =~= allv);
        },
    }
    match restrict {
        None => e,
        Some(list) => {
            let ghost ev = ranks_view(e@);
            let mut kept: Vec<(String, PathRank)> = Vec::new();
            let mut i: usize = 0;
            assert(ranks_view(kept@) =~= listed(ev.take(0), strs_view(list@)));
            while i < e.len()
                invariant
                    i <= e@.len(),
                    ev == ranks_view(e@),
                    ranks_view(kept@) == listed(ev.take(i as int), strs_view(list@)),
                decreases e@.len() - i,
            {
                let ghost before = kept@;
                proof {
                    assert(ev.take(i + 1).drop_last() =~= ev.take(i as int));
                    assert(ev.take(i + 1).last() == (e@[i as int].0@, e@[i as int].1));
                }
                if strings_have(list, e[i].0.as_str()) {
                    let x = (e[i].0.clone(), e[i].1);
                    kept.push(x);
                    assert(ranks_view(kept@) =~= ranks_view(before).push((x.0@, x.1)));
                }
                i = i + 1;
            }
            assert(ev.take(e@.len() as int) =~= ev);
            if kept.len() > 0 {
                kept
            } else {
                e
            }
        },
    }
}

/// The rank of the last ranked entry, if any.
pub open spec fn last_rank(e: Seq<(Seq<char>, PathRank)>) -> Option<usize>
    decreases e.len(),
{
    if e.len() == 0 {
        None
    } else {
        match e.last().1 {
            PathRank::Rank(k) => Some(k),
            _ => last_rank(e.drop_last()),
        }
    }
}

/// The rank of the last ranked path of the whole search order, before any
/// restriction (the least weighted of the ranked paths, which the unranked ones
/// are weighed below); none when no path is ranked.
pub fn lowest_rank(all: &Vec<String>, attrs: &Vec<String>) -> (r: Option<usize>)
    ensures
        r == last_rank(ordered_paths_spec(strs_view(all@), Some(strs_view(attrs@)))),
{
    let e = searched_paths(all, Some(attrs), None);
    let ghost ev = ranks_view(e@);
    let mut found: Option<usize> = None;
    let mut i: usize = 0;
    while i < e.len()
        invariant
            i <= e@.len(),
            ev == ranks_view(e@),
            found == last_rank(ev.take(i as int)),
        decreases e@.len() - i,
    {
        proof {
            assert(ev.take(i + 1).drop_last() =~= ev.take(i as int));
            assert(ev.take(i + 1).last() == (e@[i as int].0@, e@[i as int].1));
        }
        match e[i].1 {
            PathRank::Rank(k) => {
                found = Some(k);
            },
            _ => {},
        }
        i = i + 1;
    }
    assert(ev.take(e@.len() as int) =~= ev);
    found
}

} // verus!
