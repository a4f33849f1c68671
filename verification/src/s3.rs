//! Snapshot storage in an S3 bucket: where the bucket is, how snapshots are
//! named, in which order they are listed, and which of them retention removes.
use vstd::prelude::*;
use crate::synonyms::strs_view;
use crate::text::{chars_lt, chars_of, concat, lemma_seq_lt_irrefl, lemma_seq_lt_total, lemma_seq_lt_trans, seq_lt};

verus! {

/// Where snapshots are stored.
#[derive(Debug, Clone)]
pub struct S3Config {
    pub bucket_name: String,
    pub region: String,
    pub endpoint: Option<String>,
}

/// The region a bucket is reached in.
#[derive(Debug, PartialEq, Eq)]
pub enum RegionChoice {
    /// An S3-compatible service at `endpoint`.
    Custom { region: String, endpoint: String },
    /// A region of the provider, by name.
    Named(String),
}

pub open spec fn opt_string_seq(o: Option<String>) -> Option<Seq<char>> {
    match o {
        Some(s) => Some(s@),
        None => None,
    }
}

impl S3Config {
    /// The configuration from the bucket, region and endpoint settings: none
    /// without a bucket; the region defaults to `us-east-1`.
    pub fn from_values(bucket_name: Option<String>, region: Option<String>, endpoint: Option<String>) -> (r:
        Option<S3Config>)
        ensures
            bucket_name is None <==> r is None,
            r matches Some(c) ==> {
                &&& c.bucket_name@ == bucket_name->0@
                &&& c.region@ == (if region is Some {
                    region->0@
                } else {
                    "us-east-1"@
                })
                &&& opt_string_seq(c.endpoint) == opt_string_seq(endpoint)
            },
    {
        match bucket_name {
            None => None,
            Some(b) => {
                let region = match region {
                    Some(r) => r,
                    None => String::from_str("us-east-1"),
                };
                Some(S3Config { bucket_name: b, region, endpoint })
            },
        }
    }

    /// The region to reach the bucket in: a custom region at the endpoint when
    /// one is set, else the named region.
    pub fn region_choice(&self) -> (r: RegionChoice)
        ensures
            match self.endpoint {
                Some(ep) => r matches RegionChoice::Custom { region, endpoint } && region@ == self.region@
                    && endpoint@ == ep@,
                None => r matches RegionChoice::Named(name) && name@ == self.region@,
            },
    {
        match &self.endpoint {
            Some(ep) => RegionChoice::Custom { region: self.region.clone(), endpoint: ep.clone() },
            None => RegionChoice::Named(self.region.clone()),
        }
    }
}

/// The key prefix of an index's snapshots: `snapshots/<index>/`.
pub fn snapshot_prefix(index_name: &str) -> (r: String)
    ensures
        r@ == "snapshots/"@ + index_name@ + "/"@,
{
    let a = concat("snapshots/", index_name);
    concat(a.as_str(), "/")
}

/// The key of an index's snapshot taken at `timestamp`: `snapshots/<index>/<timestamp>.tar.gz`.
pub fn snapshot_key(index_name: &str, timestamp: &str) -> (r: String)
    ensures
        r@ == "snapshots/"@ + index_name@ + "/"@ + timestamp@ + ".tar.gz"@,
{
    let p = snapshot_prefix(index_name);
    let a = concat(p.as_str(), timestamp);
    concat(a.as_str(), ".tar.gz")
}

/// No key is followed by a smaller one.
pub open spec fn keys_sorted(s: Seq<Seq<char>>) -> bool {
    forall|i: int, j: int| 0 <= i < j < s.len() ==> !seq_lt(#[trigger] s[j], #[trigger] s[i])
}

/// Sort snapshot keys in ascending order (timestamps in keys sort by time).
pub fn sort_snapshot_keys(keys: Vec<String>) -> (r: Vec<String>)
    ensures
        keys_sorted(strs_view(r@)),
        strs_view(r@).to_multiset() == strs_view(keys@).to_multiset(),
{
    broadcast use vstd::seq_lib::group_to_multiset_ensures;

    let ghost kv = strs_view(keys@);
    let mut out: Vec<String> = Vec::new();
    let mut i: usize = 0;
    assert(strs_view(out@) =~= kv.take(0));
    while i < keys.len()
        invariant
            i <= keys@.len(),
            kv == strs_view(keys@),
            keys_sorted(strs_view(out@)),
            strs_view(out@).to_multiset() == kv.take(i as int).to_multiset(),
        decreases keys@.len() - i,
    {
        let k = keys[i].clone();
        let kc = chars_of(k.as_str());
        // The first position holding a larger key.
        let mut p: usize = 0;
        let mut found = false;
        while p < out.len() && !found
            invariant
                p <= out@.len(),
                kc@ == k@,
                keys_sorted(strs_view(out@)),
                forall|q: int| 0 <= q < p ==> !seq_lt(k@, #[trigger] out@[q]@),
                found ==> p < out@.len() && seq_lt(k@, out@[p as int]@),
            decreases out@.len() - p + (if found { 0int } else { 1int }),
        {
            let oc = chars_of(out[p].as_str());
            if chars_lt(kc.as_slice(), oc.as_slice()) {
                found = true;
            } else {
                p = p + 1;
            }
        }
        let ghost before = strs_view(out@);
        proof {
            if p < out@.len() {
                assert(found);
                assert(before[p as int] == out@[p as int]@);
            }
            assert(p < out@.len() ==> seq_lt(k@, before[p as int]));
        }
        out.insert(p, k);
        proof {
            let after = strs_view(out@);
            assert(after =~= before.insert(p as int, keys@[i as int]@));
            assert forall|a: int, b: int| 0 <= a < b < after.len() implies !seq_lt(#[trigger] after[b], #[trigger] after[a]) by {
                if a < p && b < p {
                    assert(after[a] == before[a] && after[b] == before[b]);
                } else if a < p && b == p {
                    assert(after[a] == before[a] && after[a] == out@[a]@);
                } else if a < p && b > p {
                    assert(after[a] == before[a] && after[b] == before[b - 1]);
                } else if a == p && b > p {
                    assert(after[b] == before[b - 1]);
                    if seq_lt(before[b - 1], k@) {
                        assert(seq_lt(k@, before[p as int]));
                        if b - 1 == p {
                            lemma_seq_lt_trans(k@, before[p as int], k@);
                            lemma_seq_lt_irrefl(k@);
                        } else {
                            lemma_seq_lt_trans(before[b - 1], k@, before[p as int]);
                        }
                    }
                } else {
                    assert(after[a] == before[a - 1] && after[b] == before[b - 1]);
                }
            }
            assert(kv[i as int] == k@);
            assert(kv.take(i + 1) =~= kv.take(i as int).push(kv[i as int]));
            vstd::seq_lib::to_multiset_insert(before, p as int, kv[i as int]);
            vstd::seq_lib::to_multiset_build(kv.take(i as int), kv[i as int]);
        }
        i = i + 1;
    }
    assert(kv.take(keys@.len() as int) =~= kv);
    out
}

/// The snapshots retention removes from an ascending key list so that the
/// newest `keep` stay: all but the last `keep`, oldest first.
pub fn snapshots_to_delete(sorted_keys: &Vec<String>, keep: usize) -> (r: Vec<String>)
    ensures
        sorted_keys@.len() <= keep ==> r@.len() == 0,
        sorted_keys@.len() > keep ==> strs_view(r@) == strs_view(sorted_keys@).take(sorted_keys@.len() - keep),
{
    let n = sorted_keys.len();
    let mut out: Vec<String> = Vec::new();
    if n <= keep {
        return out;
    }
    let m = n - keep;
    let mut i: usize = 0;
    while i < m
        invariant
            m <= sorted_keys@.len(),
            i <= m,
            strs_view(out@) == strs_view(sorted_keys@).take(i as int),
        decreases m - i,
    {
        let ghost prev = out@;
        out.push(sorted_keys[i].clone());
        assert(out@ == prev.push(sorted_keys@[i as int]));
        assert(strs_view(out@) =~= strs_view(prev).push(sorted_keys@[i as int]@));
        assert(strs_view(sorted_keys@).take(i + 1) =~= strs_view(sorted_keys@).take(i as int).push(
            sorted_keys@[i as int]@,
        ));
        i = i + 1;
    }
    out
}

/// Two ascending lists of the same keys are equal: the sorted order is unique.
pub proof fn law_sorted_keys_unique(a: Seq<Seq<char>>, b: Seq<Seq<char>>)
    requires
        keys_sorted(a),
        keys_sorted(b),
        a.to_multiset() == b.to_multiset(),
    ensures
        a == b,
    decreases a.len(),
{
    broadcast use vstd::seq_lib::group_to_multiset_ensures;

    vstd::seq_lib::to_multiset_len(a);
    vstd::seq_lib::to_multiset_len(b);
    if a.len() == 0 {
        assert(b.len() == 0);
        assert(a =~= b);
    } else {
        assert(b.len() == a.len());
        // The last elements are the largest of the same multiset.
        let x = a.last();
        let y = b.last();
        assert(a.to_multiset().count(y) > 0);
        assert(b.to_multiset().count(x) > 0);
        let iy = choose|k: int| 0 <= k < a.len() && a[k] == y;
        let ix = choose|k: int| 0 <= k < b.len() && b[k] == x;
        if x != y {
            lemma_seq_lt_total(x, y);
            if seq_lt(x, y) {
                assert(!seq_lt(a[a.len() - 1], a[iy]) || iy == a.len() - 1);
                if iy == a.len() - 1 {
                    lemma_seq_lt_irrefl(x);
                }
            } else {
                assert(!seq_lt(b[b.len() - 1], b[ix]) || ix == b.len() - 1);
                if ix == b.len() - 1 {
                    lemma_seq_lt_irrefl(y);
                }
            }
        }
        assert(x == y);
        let a1 = a.drop_last();
        let b1 = b.drop_last();
        assert(a =~= a1.push(x));
        assert(b =~= b1.push(y));
        assert(a1.to_multiset() =~= b1.to_multiset()) by {
            vstd::seq_lib::to_multiset_build(a1, x);
            vstd::seq_lib::to_multiset_build(b1, y);
            assert(a1.to_multiset().insert(x) == b1.to_multiset().insert(x));
            assert forall|e: Seq<char>| a1.to_multiset().count(e) == b1.to_multiset().count(e) by {
                assert(a1.to_multiset().insert(x).count(e) == b1.to_multiset().insert(x).count(e));
            }
        }
        assert(keys_sorted(a1)) by {
            assert forall|i: int, j: int| 0 <= i < j < a1.len() implies !seq_lt(#[trigger] a1[j], #[trigger] a1[i]) by {
                assert(a1[i] == a[i] && a1[j] == a[j]);
            }
        }
        assert(keys_sorted(b1)) by {
            assert forall|i: int, j: int| 0 <= i < j < b1.len() implies !seq_lt(#[trigger] b1[j], #[trigger] b1[i]) by {
                assert(b1[i] == b[i] && b1[j] == b[j]);
            }
        }
        law_sorted_keys_unique(a1, b1);
    }
}

} // verus!
