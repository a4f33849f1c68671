//! Last-writer-wins bookkeeping and the replay of the operation log after a restart.
use vstd::prelude::*;
use dashmap::DashMap;
use crate::synonyms::strs_view;
use crate::text::{
    chars_eq, chars_lt, chars_of, lemma_seq_lt_irrefl, lemma_seq_lt_total, lemma_seq_lt_trans, parse_u64_chars,
    parse_u64_spec, seq_lt, trim_chars, trim_ws,
};

verus! {

// ---------------------------------------------------------------------------
// Last writer wins
// ---------------------------------------------------------------------------

/// Order of write stamps: by timestamp, then by node id.
pub open spec fn stamp_lt(a: (u64, Seq<char>), b: (u64, Seq<char>)) -> bool {
    a.0 < b.0 || (a.0 == b.0 && seq_lt(a.1, b.1))
}

/// `dashmap::DashMap`, the concurrent map that holds a tenant's stamps.
#[verifier::external_type_specification]
#[verifier::external_body]
#[verifier::reject_recursive_types(K)]
#[verifier::reject_recursive_types(V)]
#[verifier::reject_recursive_types(S)]
pub struct ExDashMap<K, V, S>(DashMap<K, V, S>);

/// The stamps a map holds, by document id.
pub uninterp spec fn stamps_held(m: DashMap<String, (u64, String)>) -> Map<Seq<char>, (u64, Seq<char>)>;

/// `DashMap::new`: an empty map.
#[verifier::external_body]
fn stamps_new() -> (r: DashMap<String, (u64, String)>)
    ensures
        stamps_held(r).dom() == Set::<Seq<char>>::empty(),
{
    DashMap::new()
}

/// `DashMap::get`, the entry copied out: the stamp held for the id, if any.
#[verifier::external_body]
fn stamps_get(m: &DashMap<String, (u64, String)>, id: &str) -> (r: Option<(u64, String)>)
    ensures
        match r {
            Some(v) => stamps_held(*m).dom().contains(id@) && stamps_held(*m)[id@] == (v.0, v.1@),
            None => !stamps_held(*m).dom().contains(id@),
        },
{
    m.get(id).map(|e| e.value().clone())
}

/// `DashMap::insert`: afterwards the id holds the stamp; every other id keeps
/// what it held. (The map is taken by `&mut` here, though `insert` needs only
/// `&`, so that the change is visible to the caller.)
#[verifier::external_body]
fn stamps_insert(m: &mut DashMap<String, (u64, String)>, id: String, v: (u64, String))
    ensures
        stamps_held(*final(m)) == stamps_held(*old(m)).insert(id@, (v.0, v.1@)),
{
    m.insert(id, v);
}

/// The latest write stamp recorded for each document of a tenant.
#[derive(Debug)]
pub struct LwwTable {
    stamps: DashMap<String, (u64, String)>,
}

/// Record `v` for `id` when nothing is recorded yet or `v` is the later stamp.
pub open spec fn observe_spec(m: Map<Seq<char>, (u64, Seq<char>)>, id: Seq<char>, v: (u64, Seq<char>)) -> Map<
    Seq<char>,
    (u64, Seq<char>),
> {
    if !m.dom().contains(id) || stamp_lt(m[id], v) {
        m.insert(id, v)
    } else {
        m
    }
}

impl LwwTable {
    /// The stamps by document id.
    pub closed spec fn map(&self) -> Map<Seq<char>, (u64, Seq<char>)> {
        stamps_held(self.stamps)
    }

    /// An empty table.
    pub fn new() -> (r: LwwTable)
        ensures
            r.map() == Map::<Seq<char>, (u64, Seq<char>)>::empty(),
    {
        let r = LwwTable { stamps: stamps_new() };
        assert(r.map() =~= Map::<Seq<char>, (u64, Seq<char>)>::empty());
        r
    }

    /// The stamp recorded for a document.
    pub fn get(&self, object_id: &str) -> (r: Option<(u64, String)>)
        ensures
            match r {
                Some(v) => self.map().dom().contains(object_id@) && self.map()[object_id@] == (v.0, v.1@),
                None => !self.map().dom().contains(object_id@),
            },
    {
        stamps_get(&self.stamps, object_id)
    }

    /// Record a stamp for a document, replacing the one it had.
    pub fn record(&mut self, object_id: &str, ts: u64, node_id: String)
        ensures
            final(self).map() == old(self).map().insert(object_id@, (ts, node_id@)),
    {
        stamps_insert(&mut self.stamps, String::from_str(object_id), (ts, node_id));
    }

    /// Record a stamp unless a later or equal one is already recorded.
    pub fn observe(&mut self, object_id: &str, ts: u64, node_id: String)
        ensures
            final(self).map() == observe_spec(old(self).map(), object_id@, (ts, node_id@)),
    {
        let newer = match self.get(object_id) {
            None => true,
            Some((ets, enode)) => {
                if ets < ts {
                    true
                } else if ets == ts {
                    let a = chars_of(enode.as_str());
                    let b = chars_of(node_id.as_str());
                    chars_lt(a.as_slice(), b.as_slice())
                } else {
                    false
                }
            },
        };
        if newer {
            self.record(object_id, ts, node_id);
        }
    }
}

// ---------------------------------------------------------------------------
// The operation log
// ---------------------------------------------------------------------------

/// What became of an entry's document body when it was read back.
#[derive(Debug, Clone, Copy, PartialEq, Eq, Structural)]
pub enum BodyOutcome {
    /// The entry has no body.
    Absent,
    /// The body became an index document.
    Converted,
    /// The body could not be parsed or converted.
    Failed,
}

/// One entry of the operation log.
#[derive(Debug)]
pub struct OpLogEntry {
    pub seq: u64,
    pub op_type: String,
    pub object_id: Option<String>,
    pub timestamp_ms: u64,
    pub node_id: String,
    pub body: BodyOutcome,
}

pub struct EntryV {
    pub seq: u64,
    pub op_type: Seq<char>,
    pub object_id: Option<Seq<char>>,
    pub timestamp_ms: u64,
    pub node_id: Seq<char>,
    pub body: BodyOutcome,
}

impl View for OpLogEntry {
    type V = EntryV;

    open spec fn view(&self) -> EntryV {
        EntryV {
            seq: self.seq,
            op_type: self.op_type@,
            object_id: match self.object_id {
                Some(s) => Some(s@),
                None => None,
            },
            timestamp_ms: self.timestamp_ms,
            node_id: self.node_id@,
            body: self.body,
        }
    }
}

pub open spec fn entries_view(v: Seq<OpLogEntry>) -> Seq<EntryV> {
    v.map_values(|e: OpLogEntry| e@)
}

/// Document writes (upserts and deletes with an id) carry a write stamp.
pub open spec fn stamps_document(e: EntryV) -> bool {
    (e.op_type == "upsert"@ || e.op_type == "delete"@) && e.object_id is Some
}

/// The table after observing each stamped entry in turn.
pub open spec fn lww_fold(m: Map<Seq<char>, (u64, Seq<char>)>, es: Seq<EntryV>) -> Map<Seq<char>, (u64, Seq<char>)>
    decreases es.len(),
{
    if es.len() == 0 {
        m
    } else {
        let m1 = lww_fold(m, es.drop_last());
        let e = es.last();
        if stamps_document(e) {
            observe_spec(m1, e.object_id->0, (e.timestamp_ms, e.node_id))
        } else {
            m1
        }
    }
}

fn op_is(e: &OpLogEntry, name: &str) -> (r: bool)
    ensures
        r == (e@.op_type == name@),
{
    let a = chars_of(e.op_type.as_str());
    let b = chars_of(name);
    chars_eq(a.as_slice(), b.as_slice())
}

/// Rebuild the last-writer-wins table from every retained log entry.
pub fn rebuild_lww(table: &mut LwwTable, entries: &Vec<OpLogEntry>)
    ensures
        final(table).map() == lww_fold(old(table).map(), entries_view(entries@)),
{
    let ghost m0 = table.map();
    let ghost ev = entries_view(entries@);
    let mut i: usize = 0;
    assert(ev.take(0) =~= Seq::<EntryV>::empty());
    while i < entries.len()
        invariant
            i <= entries@.len(),
            ev == entries_view(entries@),
            table.map() == lww_fold(m0, ev.take(i as int)),
        decreases entries@.len() - i,
    {
        let e = &entries[i];
        assert(ev[i as int] == e@);
        proof {
            assert(ev.take(i + 1).drop_last() =~= ev.take(i as int));
            assert(ev.take(i + 1).last() == e@);
        }
        if op_is(e, "upsert") || op_is(e, "delete") {
            match &e.object_id {
                Some(id) => {
                    table.observe(id.as_str(), e.timestamp_ms, e.node_id.clone());
                },
                None => {},
            }
        }
        i = i + 1;
    }
    assert(ev.take(entries@.len() as int) =~= ev);
}

/// The committed sequence number recorded in a file's content (0 when the file is
/// missing or does not hold a number).
pub open spec fn committed_seq_spec(content: Option<Seq<char>>) -> u64 {
    match content {
        Some(c) => match parse_u64_spec(trim_ws(c)) {
            Some(v) => v as u64,
            None => 0,
        },
        None => 0,
    }
}

/// The committed sequence number recorded in a file's content.
pub fn parse_committed_seq(content: Option<&str>) -> (r: u64)
    ensures
        r == committed_seq_spec(match content {
            Some(c) => Some(c@),
            None => None,
        }),
{
    match content {
        Some(c) => {
            let cs = chars_of(c);
            let t = trim_chars(cs.as_slice());
            match parse_u64_chars(t.as_slice()) {
                Some(v) => v,
                None => 0,
            }
        },
        None => 0,
    }
}

/// A change the replay makes to the index, in order.
#[derive(Debug, PartialEq, Eq)]
pub enum WriterOp {
    /// Delete the document with this id.
    DeleteTerm(String),
    /// Add the document of the log entry at this position.
    AddEntry(usize),
    /// Delete every document.
    DeleteAll,
}

pub enum WriterOpV {
    DeleteTerm(Seq<char>),
    AddEntry(usize),
    DeleteAll,
}

impl View for WriterOp {
    type V = WriterOpV;

    open spec fn view(&self) -> WriterOpV {
        match self {
            WriterOp::DeleteTerm(s) => WriterOpV::DeleteTerm(s@),
            WriterOp::AddEntry(i) => WriterOpV::AddEntry(*i),
            WriterOp::DeleteAll => WriterOpV::DeleteAll,
        }
    }
}

/// What replaying the uncommitted log entries does.
#[derive(Debug)]
pub struct ReplayPlan {
    /// Positions of settings entries, whose payload is written back as the settings, in order.
    pub settings_entries: Vec<usize>,
    /// Changes to the index, in order.
    pub writer_ops: Vec<WriterOp>,
    /// Entries replayed.
    pub replayed: usize,
    /// Documents that could not be restored.
    pub failed: usize,
    /// The new committed sequence number: the last entry's, when anything was replayed.
    pub new_committed_seq: Option<u64>,
}

pub struct ReplayV {
    pub settings_entries: Seq<usize>,
    pub writer_ops: Seq<WriterOpV>,
    pub replayed: nat,
    pub failed: nat,
}

/// The replay state after one more entry at position `i`: an upsert with an id
/// deletes the old document and adds the restored one (or counts a failure); a
/// delete with an id deletes; settings, synonyms and rules entries count as
/// replayed; a clear deletes everything; anything else is skipped.
pub open spec fn replay_step(p: ReplayV, e: EntryV, i: usize) -> ReplayV {
    let p0 = if e.op_type == "settings"@ {
        ReplayV { settings_entries: p.settings_entries.push(i), ..p }
    } else {
        p
    };
    if e.op_type == "upsert"@ {
        if e.object_id is Some {
            let p1 = ReplayV { writer_ops: p0.writer_ops.push(WriterOpV::DeleteTerm(e.object_id->0)), ..p0 };
            match e.body {
                BodyOutcome::Absent => p1,
                BodyOutcome::Converted => ReplayV {
                    writer_ops: p1.writer_ops.push(WriterOpV::AddEntry(i)),
                    replayed: p1.replayed + 1,
                    ..p1
                },
                BodyOutcome::Failed => ReplayV { failed: p1.failed + 1, ..p1 },
            }
        } else {
            p0
        }
    } else if e.op_type == "delete"@ {
        if e.object_id is Some {
            ReplayV {
                writer_ops: p0.writer_ops.push(WriterOpV::DeleteTerm(e.object_id->0)),
                replayed: p0.replayed + 1,
                ..p0
            }
        } else {
            p0
        }
    } else if e.op_type == "settings"@ || e.op_type == "synonyms"@ || e.op_type == "rules"@ {
        ReplayV { replayed: p0.replayed + 1, ..p0 }
    } else if e.op_type == "clear"@ {
        ReplayV { writer_ops: p0.writer_ops.push(WriterOpV::DeleteAll), replayed: p0.replayed + 1, ..p0 }
    } else {
        p0
    }
}

pub open spec fn replay_spec(es: Seq<EntryV>) -> ReplayV
    decreases es.len(),
{
    if es.len() == 0 {
        ReplayV { settings_entries: seq![], writer_ops: seq![], replayed: 0, failed: 0 }
    } else {
        replay_step(replay_spec(es.drop_last()), es.last(), (es.len() - 1) as usize)
    }
}

pub open spec fn writer_ops_view(v: Seq<WriterOp>) -> Seq<WriterOpV> {
    v.map_values(|w: WriterOp| w@)
}

proof fn lemma_replay_counts(es: Seq<EntryV>)
    ensures
        replay_spec(es).replayed + replay_spec(es).failed <= es.len(),
    decreases es.len(),
{
    if es.len() > 0 {
        lemma_replay_counts(es.drop_last());
    }
}

/// Plan the replay of the log entries that follow the committed sequence number.
pub fn plan_replay(entries: &Vec<OpLogEntry>) -> (r: ReplayPlan)
    ensures
        r.settings_entries@ == replay_spec(entries_view(entries@)).settings_entries,
        writer_ops_view(r.writer_ops@) == replay_spec(entries_view(entries@)).writer_ops,
        r.replayed == replay_spec(entries_view(entries@)).replayed,
        r.failed == replay_spec(entries_view(entries@)).failed,
        r.new_committed_seq == if r.replayed > 0 {
            Some(entries@.last().seq)
        } else {
            None::<u64>
        },
{
    let ghost ev = entries_view(entries@);
    let mut settings_entries: Vec<usize> = Vec::new();
    let mut writer_ops: Vec<WriterOp> = Vec::new();
    let mut replayed: usize = 0;
    let mut failed: usize = 0;
    let mut i: usize = 0;
    assert(ev.take(0) =~= Seq::<EntryV>::empty());
    assert(writer_ops_view(writer_ops@) =~= Seq::<WriterOpV>::empty());
    while i < entries.len()
        invariant
            i <= entries@.len(),
            ev == entries_view(entries@),
            settings_entries@ == replay_spec(ev.take(i as int)).settings_entries,
            writer_ops_view(writer_ops@) == replay_spec(ev.take(i as int)).writer_ops,
            replayed == replay_spec(ev.take(i as int)).replayed,
            failed == replay_spec(ev.take(i as int)).failed,
            replayed + failed <= i,
        decreases entries@.len() - i,
    {
        let e = &entries[i];
        let ghost ewv = e@;
        assert(ev[i as int] == ewv);
        let ghost before_w = writer_ops_view(writer_ops@);
        proof {
            assert(ev.take(i + 1).drop_last() =~= ev.take(i as int));
            assert(ev.take(i + 1).last() == ewv);
        }
        if op_is(e, "settings") {
            settings_entries.push(i);
        }
        if op_is(e, "upsert") {
            match &e.object_id {
                Some(id) => {
                    writer_ops.push(WriterOp::DeleteTerm(id.clone()));
                    match e.body {
                        BodyOutcome::Absent => {
                            assert(writer_ops_view(writer_ops@) =~= before_w.push(WriterOpV::DeleteTerm(id@)));
                        },
                        BodyOutcome::Converted => {
                            writer_ops.push(WriterOp::AddEntry(i));
                            replayed = replayed + 1;
                            assert(writer_ops_view(writer_ops@) =~= before_w.push(WriterOpV::DeleteTerm(id@)).push(
                                WriterOpV::AddEntry(i),
                            ));
                        },
                        BodyOutcome::Failed => {
                            failed = failed + 1;
                            assert(writer_ops_view(writer_ops@) =~= before_w.push(WriterOpV::DeleteTerm(id@)));
                        },
                    }
                },
                None => {},
            }
        } else if op_is(e, "delete") {
            match &e.object_id {
                Some(id) => {
                    writer_ops.push(WriterOp::DeleteTerm(id.clone()));
                    replayed = replayed + 1;
                    assert(writer_ops_view(writer_ops@) =~= before_w.push(WriterOpV::DeleteTerm(id@)));
                },
                None => {},
            }
        } else if op_is(e, "settings") || op_is(e, "synonyms") || op_is(e, "rules") {
            replayed = replayed + 1;
        } else if op_is(e, "clear") {
            writer_ops.push(WriterOp::DeleteAll);
            replayed = replayed + 1;
            assert(writer_ops_view(writer_ops@) =~= before_w.push(WriterOpV::DeleteAll));
        }
        i = i + 1;
    }
    assert(ev.take(entries@.len() as int) =~= ev);
    let new_committed_seq = if replayed > 0 {
        Some(entries[entries.len() - 1].seq)
    } else {
        None
    };
    ReplayPlan { settings_entries, writer_ops, replayed, failed, new_committed_seq }
}

// ---------------------------------------------------------------------------
// Laws
// ---------------------------------------------------------------------------

proof fn lemma_stamp_trans(a: (u64, Seq<char>), b: (u64, Seq<char>), c: (u64, Seq<char>))
    requires
        stamp_lt(a, b),
        stamp_lt(b, c),
    ensures
        stamp_lt(a, c),
{
    if a.0 == b.0 && b.0 == c.0 {
        lemma_seq_lt_trans(a.1, b.1, c.1);
    }
}

proof fn lemma_stamp_irrefl(a: (u64, Seq<char>))
    ensures
        !stamp_lt(a, a),
{
    lemma_seq_lt_irrefl(a.1);
}

/// The stamp of a stamped entry for `id`.
pub open spec fn entry_stamp(e: EntryV) -> (u64, Seq<char>) {
    (e.timestamp_ms, e.node_id)
}

/// After rebuilding from an empty table, each document's recorded stamp is the
/// latest stamp of the log's writes to it, whatever order the entries came in:
/// it belongs to one of those writes, and none of them is later.
pub proof fn law_lww_keeps_latest(es: Seq<EntryV>, id: Seq<char>)
    ensures
        lww_fold(Map::empty(), es).dom().contains(id) <==> exists|i: int|
            0 <= i < es.len() && stamps_document(#[trigger] es[i]) && es[i].object_id->0 == id,
        lww_fold(Map::empty(), es).dom().contains(id) ==> (exists|i: int|
            0 <= i < es.len() && stamps_document(#[trigger] es[i]) && es[i].object_id->0 == id
                && entry_stamp(es[i]) == lww_fold(Map::empty(), es)[id]),
        lww_fold(Map::empty(), es).dom().contains(id) ==> (forall|i: int|
            0 <= i < es.len() && stamps_document(#[trigger] es[i]) && es[i].object_id->0 == id ==> !stamp_lt(
                lww_fold(Map::empty(), es)[id],
                entry_stamp(es[i]),
            )),
    decreases es.len(),
{
    if es.len() > 0 {
        let p = es.drop_last();
        law_lww_keeps_latest(p, id);
        let m1 = lww_fold(Map::empty(), p);
        let e = es.last();
        let m = lww_fold(Map::empty(), es);
        let last = es.len() - 1;
        assert(es[last] == e);
        assert forall|i: int| 0 <= i < p.len() implies #[trigger] p[i] == es[i] by {}
        let about = stamps_document(e) && e.object_id->0 == id;
        // witnesses among the earlier entries carry over
        if exists|i: int| 0 <= i < p.len() && stamps_document(#[trigger] p[i]) && p[i].object_id->0 == id {
            let i = choose|i: int| 0 <= i < p.len() && stamps_document(#[trigger] p[i]) && p[i].object_id->0 == id;
            assert(es[i] == p[i]);
        }
        if exists|i: int| 0 <= i < es.len() && stamps_document(#[trigger] es[i]) && es[i].object_id->0 == id {
            let i = choose|i: int| 0 <= i < es.len() && stamps_document(#[trigger] es[i]) && es[i].object_id->0 == id;
            if i < p.len() {
                assert(p[i] == es[i]);
            }
        }
        if !about {
            assert(m.dom().contains(id) == m1.dom().contains(id));
            if m1.dom().contains(id) {
                assert(m[id] == m1[id]);
                let i = choose|i: int| 0 <= i < p.len() && stamps_document(#[trigger] p[i]) && p[i].object_id->0 == id
                    && entry_stamp(p[i]) == m1[id];
                assert(es[i] == p[i]);
                assert forall|i: int|
                    0 <= i < es.len() && stamps_document(#[trigger] es[i]) && es[i].object_id->0 == id implies !stamp_lt(
                    m[id],
                    entry_stamp(es[i]),
                ) by {
                    if i < p.len() {
                        assert(p[i] == es[i]);
                    }
                }
            }
        } else if m1.dom().contains(id) && !stamp_lt(m1[id], entry_stamp(e)) {
            assert(m == m1);
            let i = choose|i: int| 0 <= i < p.len() && stamps_document(#[trigger] p[i]) && p[i].object_id->0 == id
                && entry_stamp(p[i]) == m1[id];
            assert(es[i] == p[i]);
            assert forall|i: int|
                0 <= i < es.len() && stamps_document(#[trigger] es[i]) && es[i].object_id->0 == id implies !stamp_lt(
                m[id],
                entry_stamp(es[i]),
            ) by {
                if i < p.len() {
                    assert(p[i] == es[i]);
                }
            }
        } else {
            assert(m == m1.insert(id, entry_stamp(e)));
            assert(m[id] == entry_stamp(e));
            assert forall|i: int|
                0 <= i < es.len() && stamps_document(#[trigger] es[i]) && es[i].object_id->0 == id implies !stamp_lt(
                m[id],
                entry_stamp(es[i]),
            ) by {
                if i < p.len() {
                    assert(p[i] == es[i]);
                    if m1.dom().contains(id) {
                        assert(!stamp_lt(m1[id], entry_stamp(p[i])));
                        if stamp_lt(entry_stamp(e), entry_stamp(es[i])) {
                            lemma_stamp_trans(m1[id], entry_stamp(e), entry_stamp(es[i]));
                        }
                    } else {
                        assert(false);
                    }
                } else {
                    lemma_stamp_irrefl(entry_stamp(e));
                }
            }
        }
    }
}

/// The entry is a stamped write to document `id`.
pub open spec fn writes_to(e: EntryV, id: Seq<char>) -> bool {
    stamps_document(e) && e.object_id->0 == id
}

/// Rebuilding from any table keeps, for each document, the latest of the stamp
/// it had and the log's stamps for it: a document is recorded afterwards exactly
/// when it was recorded before or the log writes to it; its stamp is the one it
/// had or one of those writes' stamps; it is not earlier than the stamp it had
/// (stamps never go back) nor than any write to it; and a document the log does
/// not write to keeps what it had.
pub proof fn law_lww_from_any_table(m0: Map<Seq<char>, (u64, Seq<char>)>, es: Seq<EntryV>, id: Seq<char>)
    ensures
        lww_fold(m0, es).dom().contains(id) <==> (m0.dom().contains(id) || exists|i: int|
            0 <= i < es.len() && writes_to(#[trigger] es[i], id)),
        lww_fold(m0, es).dom().contains(id) ==> ((m0.dom().contains(id) && lww_fold(m0, es)[id] == m0[id])
            || exists|i: int|
            0 <= i < es.len() && writes_to(#[trigger] es[i], id) && entry_stamp(es[i]) == lww_fold(m0, es)[id]),
        m0.dom().contains(id) ==> !stamp_lt(lww_fold(m0, es)[id], m0[id]),
        forall|i: int|
            0 <= i < es.len() && writes_to(#[trigger] es[i], id) ==> !stamp_lt(
                lww_fold(m0, es)[id],
                entry_stamp(es[i]),
            ),
        (forall|i: int| 0 <= i < es.len() ==> !writes_to(#[trigger] es[i], id)) ==> (lww_fold(m0, es).dom().contains(
            id,
        ) == m0.dom().contains(id) && (m0.dom().contains(id) ==> lww_fold(m0, es)[id] == m0[id])),
    decreases es.len(),
{
    if es.len() == 0 {
        if m0.dom().contains(id) {
            lemma_stamp_irrefl(m0[id]);
        }
    } else {
        let p = es.drop_last();
        law_lww_from_any_table(m0, p, id);
        let m1 = lww_fold(m0, p);
        let e = es.last();
        let m = lww_fold(m0, es);
        let last = es.len() - 1;
        assert(es[last] == e);
        assert forall|i: int| 0 <= i < p.len() implies #[trigger] p[i] == es[i] by {}
        if exists|i: int| 0 <= i < p.len() && writes_to(#[trigger] p[i], id) {
            let i = choose|i: int| 0 <= i < p.len() && writes_to(#[trigger] p[i], id);
            assert(es[i] == p[i]);
        }
        if exists|i: int| 0 <= i < es.len() && writes_to(#[trigger] es[i], id) {
            let i = choose|i: int| 0 <= i < es.len() && writes_to(#[trigger] es[i], id);
            if i < p.len() {
                assert(p[i] == es[i]);
            }
        }
        if forall|i: int| 0 <= i < es.len() ==> !writes_to(#[trigger] es[i], id) {
            assert forall|i: int| 0 <= i < p.len() implies !writes_to(#[trigger] p[i], id) by {
                assert(p[i] == es[i]);
            }
        }
        if !writes_to(e, id) {
            assert(m.dom().contains(id) == m1.dom().contains(id));
            if m1.dom().contains(id) {
                assert(m[id] == m1[id]);
                if !(m0.dom().contains(id) && m1[id] == m0[id]) {
                    let i = choose|i: int|
                        0 <= i < p.len() && writes_to(#[trigger] p[i], id) && entry_stamp(p[i]) == m1[id];
                    assert(es[i] == p[i]);
                }
                assert forall|i: int|
                    0 <= i < es.len() && writes_to(#[trigger] es[i], id) implies !stamp_lt(m[id], entry_stamp(es[i])) by {
                    if i < p.len() {
                        assert(p[i] == es[i]);
                    }
                }
            }
        } else if m1.dom().contains(id) && !stamp_lt(m1[id], entry_stamp(e)) {
            assert(m == m1);
            if !(m0.dom().contains(id) && m1[id] == m0[id]) {
                let i = choose|i: int| 0 <= i < p.len() && writes_to(#[trigger] p[i], id) && entry_stamp(p[i]) == m1[id];
                assert(es[i] == p[i]);
            }
            assert forall|i: int|
                0 <= i < es.len() && writes_to(#[trigger] es[i], id) implies !stamp_lt(m[id], entry_stamp(es[i])) by {
                if i < p.len() {
                    assert(p[i] == es[i]);
                }
            }
        } else {
            assert(m == m1.insert(id, entry_stamp(e)));
            assert(m[id] == entry_stamp(e));
            if m0.dom().contains(id) {
                assert(m1.dom().contains(id));
                if stamp_lt(entry_stamp(e), m0[id]) {
                    lemma_stamp_trans(m1[id], entry_stamp(e), m0[id]);
                }
            }
            assert forall|i: int|
                0 <= i < es.len() && writes_to(#[trigger] es[i], id) implies !stamp_lt(m[id], entry_stamp(es[i])) by {
                if i < p.len() {
                    assert(p[i] == es[i]);
                    assert(m1.dom().contains(id));
                    assert(!stamp_lt(m1[id], entry_stamp(p[i])));
                    if stamp_lt(entry_stamp(e), entry_stamp(es[i])) {
                        lemma_stamp_trans(m1[id], entry_stamp(e), entry_stamp(es[i]));
                    }
                } else {
                    lemma_stamp_irrefl(entry_stamp(e));
                }
            }
        }
    }
}

proof fn lemma_op_names_distinct()
    ensures
        "synonyms"@ != "upsert"@,
        "synonyms"@ != "delete"@,
        "rules"@ != "upsert"@,
        "rules"@ != "delete"@,
        "settings"@ != "upsert"@,
        "settings"@ != "delete"@,
{
    reveal_strlit("synonyms");
    reveal_strlit("rules");
    reveal_strlit("settings");
    reveal_strlit("upsert");
    reveal_strlit("delete");
    assert("synonyms"@.len() != "upsert"@.len());
    assert("synonyms"@.len() != "delete"@.len());
    assert("settings"@.len() != "upsert"@.len());
    assert("settings"@.len() != "delete"@.len());
    assert("rules"@.len() != "upsert"@.len());
    assert("rules"@.len() != "delete"@.len());
}

/// A settings, synonyms or rules entry is replayed: appending one to the log
/// raises the replayed count by exactly one, changes no index operation and
/// counts no failure.
pub proof fn law_metadata_entry_replayed(es: Seq<EntryV>, e: EntryV)
    requires
        e.op_type == "settings"@ || e.op_type == "synonyms"@ || e.op_type == "rules"@,
    ensures
        replay_spec(es.push(e)).replayed == replay_spec(es).replayed + 1,
        replay_spec(es.push(e)).failed == replay_spec(es).failed,
        replay_spec(es.push(e)).writer_ops == replay_spec(es).writer_ops,
{
    lemma_op_names_distinct();
    assert(es.push(e).drop_last() =~= es);
    assert(es.push(e).last() == e);
}

/// A log made only of settings, synonyms and rules entries is replayed whole:
/// every entry counts once, none fails, and the index is not touched.
pub proof fn law_metadata_log_replayed(es: Seq<EntryV>)
    requires
        forall|i: int|
            0 <= i < es.len() ==> (#[trigger] es[i]).op_type == "settings"@ || es[i].op_type == "synonyms"@
                || es[i].op_type == "rules"@,
    ensures
        replay_spec(es).replayed == es.len(),
        replay_spec(es).failed == 0,
        replay_spec(es).writer_ops.len() == 0,
    decreases es.len(),
{
    if es.len() > 0 {
        let p = es.drop_last();
        assert forall|i: int| 0 <= i < p.len() implies (#[trigger] p[i]).op_type == "settings"@ || p[i].op_type
            == "synonyms"@ || p[i].op_type == "rules"@ by {
            assert(p[i] == es[i]);
        }
        law_metadata_log_replayed(p);
        assert(es[es.len() - 1] == es.last());
        law_metadata_entry_replayed(p, es.last());
        assert(p.push(es.last()) =~= es);
    }
}

/// A delete with a document id is replayed: it deletes that document and
/// counts once.
pub proof fn law_delete_entry_replayed(es: Seq<EntryV>, e: EntryV)
    requires
        e.op_type == "delete"@,
        e.object_id is Some,
    ensures
        replay_spec(es.push(e)).replayed == replay_spec(es).replayed + 1,
        replay_spec(es.push(e)).writer_ops == replay_spec(es).writer_ops.push(WriterOpV::DeleteTerm(e.object_id->0)),
{
    reveal_strlit("settings");
    reveal_strlit("delete");
    reveal_strlit("upsert");
    assert("delete"@.len() != "settings"@.len());
    assert("delete"@[0] != "upsert"@[0]);
    assert(es.push(e).drop_last() =~= es);
    assert(es.push(e).last() == e);
}

/// An upsert with a document id whose body converted replaces the document:
/// the old one is deleted, the entry's document added, and it counts once.
pub proof fn law_upsert_entry_replaces(es: Seq<EntryV>, e: EntryV)
    requires
        e.op_type == "upsert"@,
        e.object_id is Some,
        e.body == BodyOutcome::Converted,
    ensures
        replay_spec(es.push(e)).replayed == replay_spec(es).replayed + 1,
        replay_spec(es.push(e)).writer_ops == replay_spec(es).writer_ops.push(
            WriterOpV::DeleteTerm(e.object_id->0),
        ).push(WriterOpV::AddEntry(es.len() as usize)),
{
    reveal_strlit("settings");
    reveal_strlit("upsert");
    assert("upsert"@.len() != "settings"@.len());
    assert(es.push(e).drop_last() =~= es);
    assert(es.push(e).last() == e);
}

/// Replaying never counts more entries than it was given.
pub proof fn law_replay_counts_bounded(es: Seq<EntryV>)
    ensures
        replay_spec(es).replayed + replay_spec(es).failed <= es.len(),
{
    lemma_replay_counts(es);
}

/// Two stamps that differ are ordered one way or the other, so the latest write
/// to a document is well defined.
pub proof fn law_stamps_totally_ordered(a: (u64, Seq<char>), b: (u64, Seq<char>))
    requires
        a != b,
    ensures
        stamp_lt(a, b) || stamp_lt(b, a),
        !(stamp_lt(a, b) && stamp_lt(b, a)),
{
    if a.0 == b.0 {
        lemma_seq_lt_total(a.1, b.1);
        if stamp_lt(a, b) && stamp_lt(b, a) {
            lemma_seq_lt_trans(a.1, b.1, a.1);
            lemma_seq_lt_irrefl(a.1);
        }
    }
}

} // verus!
