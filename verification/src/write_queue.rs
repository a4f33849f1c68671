//! Write batching: when the write queue commits, and what one committed write
//! operation does to the index, the oplog, the last-writer-wins table and its task.
use vstd::prelude::*;
use crate::error::{classify_error, error_code, FlapjackError};
use crate::memory::BudgetState;
use crate::synonyms::strs_view;
use crate::recovery::LwwTable;
use crate::tasks::{i64_to_decimal, signed_decimal, TaskStatus};

verus! {

/// Operations waiting are committed once this many have gathered.
pub const BATCH_SIZE: usize = 10;

/// Operations waiting are committed at the latest this long after the last commit.
pub const FLUSH_INTERVAL_MS: u64 = 100;

/// At most this many rejected documents are listed on a task.
pub const MAX_LISTED_REJECTIONS: usize = 100;

/// What the write queue learns while it waits.
#[derive(Debug, Clone, Copy, PartialEq, Eq)]
pub enum WriteEvent {
    /// An operation arrived; `is_compact` when it asks for compaction.
    Received { is_compact: bool },
    /// No operation will arrive any more.
    ChannelClosed,
    /// The flush deadline passed.
    DeadlinePassed,
}

/// What the write queue does next, in this order: queue the operation received,
/// commit the waiting operations, compact, start a new deadline, stop.
#[derive(Debug, Clone, Copy, PartialEq, Eq)]
pub struct WriteStep {
    pub queue_op: bool,
    pub commit_pending: bool,
    pub compact: bool,
    pub reset_deadline: bool,
    pub stop: bool,
}

/// The step for `pending` waiting operations and an event: a compaction first
/// commits what waits; an ordinary operation waits until `BATCH_SIZE` have
/// gathered; a closed channel flushes and stops; a passed deadline flushes.
pub open spec fn step_spec(pending: usize, event: WriteEvent) -> WriteStep {
    match event {
        WriteEvent::Received { is_compact: true } => WriteStep {
            queue_op: false,
            commit_pending: pending > 0,
            compact: true,
            reset_deadline: true,
            stop: false,
        },
        WriteEvent::Received { is_compact: false } => WriteStep {
            queue_op: true,
            commit_pending: pending + 1 >= BATCH_SIZE,
            compact: false,
            reset_deadline: pending + 1 >= BATCH_SIZE,
            stop: false,
        },
        WriteEvent::ChannelClosed => WriteStep {
            queue_op: false,
            commit_pending: pending > 0,
            compact: false,
            reset_deadline: false,
            stop: true,
        },
        WriteEvent::DeadlinePassed => WriteStep {
            queue_op: false,
            commit_pending: pending > 0,
            compact: false,
            reset_deadline: true,
            stop: false,
        },
    }
}

/// The number of waiting operations after a step.
pub open spec fn pending_after(pending: usize, step: WriteStep) -> int {
    if step.commit_pending {
        0
    } else if step.queue_op {
        pending + 1
    } else {
        pending as int
    }
}

/// Decide the write queue's next step.
pub fn next_write_step(pending: usize, event: WriteEvent) -> (r: WriteStep)
    requires
        pending < BATCH_SIZE,
    ensures
        r == step_spec(pending, event),
{
    match event {
        WriteEvent::Received { is_compact: true } => WriteStep {
            queue_op: false,
            commit_pending: pending > 0,
            compact: true,
            reset_deadline: true,
            stop: false,
        },
        WriteEvent::Received { is_compact: false } => WriteStep {
            queue_op: true,
            commit_pending: pending + 1 >= BATCH_SIZE,
            compact: false,
            reset_deadline: pending + 1 >= BATCH_SIZE,
            stop: false,
        },
        WriteEvent::ChannelClosed => WriteStep {
            queue_op: false,
            commit_pending: pending > 0,
            compact: false,
            reset_deadline: false,
            stop: true,
        },
        WriteEvent::DeadlinePassed => WriteStep {
            queue_op: false,
            commit_pending: pending > 0,
            compact: false,
            reset_deadline: true,
            stop: false,
        },
    }
}

/// Fewer than `BATCH_SIZE` operations ever wait between steps.
pub proof fn law_pending_stays_below_batch(pending: usize, event: WriteEvent)
    requires
        pending < BATCH_SIZE,
    ensures
        0 <= pending_after(pending, step_spec(pending, event)) < BATCH_SIZE,
{
}

/// A compaction never runs while operations wait uncommitted, and it queues nothing.
pub proof fn law_compaction_after_flush(pending: usize)
    ensures
        step_spec(pending, WriteEvent::Received { is_compact: true }).compact,
        pending_after(pending, step_spec(pending, WriteEvent::Received { is_compact: true })) == 0,
{
}

/// Closing the channel loses no operation: what waits is committed, then the queue stops.
pub proof fn law_close_flushes(pending: usize)
    ensures
        step_spec(pending, WriteEvent::ChannelClosed).stop,
        pending > 0 ==> step_spec(pending, WriteEvent::ChannelClosed).commit_pending,
        pending_after(pending, step_spec(pending, WriteEvent::ChannelClosed)) == 0,
{
}

/// Only a closed channel stops the queue.
pub proof fn law_only_close_stops(pending: usize, event: WriteEvent)
    requires
        event != WriteEvent::ChannelClosed,
    ensures
        !step_spec(pending, event).stop,
{
}

/// A whole run of the write queue, as seen from its steps: the operations
/// waiting, the operations committed (in commit order), each compaction with
/// the operations committed when it ran, and whether the queue stopped.
/// Operations are named by the position of the event that brought them.
pub struct RunV {
    pub waiting: Seq<int>,
    pub committed: Seq<int>,
    pub compactions: Seq<(int, Seq<int>)>,
    pub stopped: bool,
}

/// The run after the event at position `pos`, taking the step that
/// [`step_spec`] decides; a stopped queue takes no more steps.
pub open spec fn run_step(s: RunV, ev: WriteEvent, pos: int) -> RunV {
    if s.stopped {
        s
    } else {
        let step = step_spec(s.waiting.len() as usize, ev);
        let waiting1 = if step.queue_op {
            s.waiting.push(pos)
        } else {
            s.waiting
        };
        let committed = if step.commit_pending {
            s.committed + waiting1
        } else {
            s.committed
        };
        RunV {
            waiting: if step.commit_pending {
                seq![]
            } else {
                waiting1
            },
            committed,
            compactions: if step.compact {
                s.compactions.push((pos, committed))
            } else {
                s.compactions
            },
            stopped: step.stop,
        }
    }
}

/// The run over a sequence of events, from an empty queue.
pub open spec fn run_spec(evs: Seq<WriteEvent>) -> RunV
    decreases evs.len(),
{
    if evs.len() == 0 {
        RunV { waiting: seq![], committed: seq![], compactions: seq![], stopped: false }
    } else {
        run_step(run_spec(evs.drop_last()), evs.last(), evs.len() - 1)
    }
}

/// The ordinary (not compaction) operations among the events, in the order
/// they arrived.
pub open spec fn plain_ops(evs: Seq<WriteEvent>) -> Seq<int>
    decreases evs.len(),
{
    if evs.len() == 0 {
        seq![]
    } else if evs.last() == (WriteEvent::Received { is_compact: false }) {
        plain_ops(evs.drop_last()).push(evs.len() - 1)
    } else {
        plain_ops(evs.drop_last())
    }
}

/// Over a whole run, up to and including the closing of the channel: every
/// ordinary operation is committed or still waiting, exactly once and in the
/// order it arrived; fewer than `BATCH_SIZE` wait; each compaction runs on a
/// compaction request, after every ordinary operation that arrived before it
/// was committed; the queue stops only when the channel closes, and then
/// nothing waits: every operation sent was committed, in send order.
pub proof fn law_write_run(evs: Seq<WriteEvent>)
    requires
        forall|i: int| 0 <= i < evs.len() - 1 ==> evs[i] != WriteEvent::ChannelClosed,
    ensures
        run_spec(evs).committed + run_spec(evs).waiting == plain_ops(evs),
        run_spec(evs).waiting.len() < BATCH_SIZE,
        forall|j: int|
            0 <= j < run_spec(evs).compactions.len() ==> {
                let (p, c) = #[trigger] run_spec(evs).compactions[j];
                &&& 0 <= p < evs.len()
                &&& evs[p] == (WriteEvent::Received { is_compact: true })
                &&& c == plain_ops(evs.take(p))
            },
        run_spec(evs).stopped <==> (evs.len() > 0 && evs.last() == WriteEvent::ChannelClosed),
        run_spec(evs).stopped ==> run_spec(evs).waiting.len() == 0 && run_spec(evs).committed == plain_ops(
            evs,
        ),
    decreases evs.len(),
{
    if evs.len() > 0 {
        let p = evs.drop_last();
        assert forall|i: int| 0 <= i < p.len() - 1 implies p[i] != WriteEvent::ChannelClosed by {
            assert(p[i] == evs[i]);
        }
        law_write_run(p);
        let s = run_spec(p);
        let e = evs.last();
        let pos = evs.len() - 1;
        if p.len() > 0 {
            assert(p.last() == evs[p.len() - 1]);
        }
        assert(!s.stopped);
        let r = run_spec(evs);
        assert(r == run_step(s, e, pos));
        assert(evs.take(pos) =~= p);
        assert forall|j: int| 0 <= j < s.compactions.len() implies evs.take(#[trigger] s.compactions[j].0) == p.take(
            s.compactions[j].0,
        ) by {
            let q = s.compactions[j].0;
            assert(evs.take(q) =~= p.take(q));
        }
        match e {
            WriteEvent::Received { is_compact: false } => {
                assert(plain_ops(evs) == plain_ops(p).push(pos));
                assert(s.committed + s.waiting.push(pos) =~= (s.committed + s.waiting).push(pos));
                assert(r.committed + r.waiting =~= plain_ops(evs));
            },
            WriteEvent::Received { is_compact: true } => {
                assert(plain_ops(evs) == plain_ops(p));
                assert(s.committed + s.waiting =~= plain_ops(p));
                assert(r.committed + r.waiting =~= plain_ops(evs));
                assert(r.compactions.last() == (pos, r.committed));
            },
            _ => {
                assert(plain_ops(evs) == plain_ops(p));
                assert(r.committed + r.waiting =~= plain_ops(evs));
            },
        }
        assert forall|j: int| 0 <= j < r.compactions.len() implies {
            let (q, c) = #[trigger] r.compactions[j];
            &&& 0 <= q < evs.len()
            &&& evs[q] == (WriteEvent::Received { is_compact: true })
            &&& c == plain_ops(evs.take(q))
        } by {
            if j < s.compactions.len() {
                assert(r.compactions[j] == s.compactions[j]);
                assert(evs[s.compactions[j].0] == p[s.compactions[j].0]);
            }
        }
    }
}

// ---------------------------------------------------------------------------
// One committed operation
// ---------------------------------------------------------------------------

/// The kind of a write action.
#[derive(Debug, Clone, Copy, PartialEq, Eq, Structural)]
pub enum ActionKind {
    Add,
    Upsert,
    /// An upsert whose last-writer-wins entry was already recorded.
    UpsertNoLwwUpdate,
    Delete,
    /// A delete whose last-writer-wins entry was already recorded.
    DeleteNoLwwUpdate,
    Compact,
}

/// A document as a write carries it: its id, its serialized size, and the
/// outcome of converting it into an index document.
#[derive(Debug)]
pub struct DocumentInput {
    pub id: String,
    pub json_size: usize,
    pub conversion: Result<(), FlapjackError>,
}

/// One action of a write operation.
#[derive(Debug)]
pub enum WriteAction {
    Add(DocumentInput),
    Upsert(DocumentInput),
    /// An upsert whose last-writer-wins entry was already recorded.
    UpsertNoLwwUpdate(DocumentInput),
    Delete(String),
    /// A delete whose last-writer-wins entry was already recorded.
    DeleteNoLwwUpdate(String),
    Compact,
}

/// A write operation: the task it reports to and its actions, in order.
#[derive(Debug)]
pub struct WriteOp {
    pub task_id: String,
    pub actions: Vec<WriteAction>,
}

impl WriteOp {
    /// A compaction request: an operation whose first action is `Compact`.
    pub fn is_compact(&self) -> (r: bool)
        ensures
            r == (self.actions@.len() > 0 && self.actions@[0] is Compact),
    {
        self.actions.len() > 0 && match &self.actions[0] {
            WriteAction::Compact => true,
            _ => false,
        }
    }
}

/// A document refused by a write.
#[derive(Debug)]
pub struct Rejection {
    pub doc_id: String,
    pub error: FlapjackError,
}

/// What one write operation does.
#[derive(Debug)]
pub struct CommitPlan {
    /// Ids whose indexed documents are deleted, in order, before the adds.
    pub delete_terms: Vec<String>,
    /// Positions of the actions whose documents are added, in order.
    pub adds: Vec<usize>,
    /// Refused documents, in order.
    pub rejected: Vec<Rejection>,
    /// Ids deleted by delete actions.
    pub deleted_ids: Vec<String>,
    /// Ids whose last-writer-wins entry this write records (adds and upserts).
    pub primary_upsert_ids: Vec<String>,
    /// Ids whose last-writer-wins entry this write records (deletes).
    pub primary_delete_ids: Vec<String>,
}

/// The abstract content of a plan.
pub struct PlanV {
    pub delete_terms: Seq<Seq<char>>,
    pub adds: Seq<usize>,
    pub rejected: Seq<(Seq<char>, FlapjackError)>,
    pub deleted_ids: Seq<Seq<char>>,
    pub primary_upsert_ids: Seq<Seq<char>>,
    pub primary_delete_ids: Seq<Seq<char>>,
}

pub open spec fn rejections_view(v: Seq<Rejection>) -> Seq<(Seq<char>, FlapjackError)> {
    v.map_values(|r: Rejection| (r.doc_id@, r.error))
}

impl View for CommitPlan {
    type V = PlanV;

    open spec fn view(&self) -> PlanV {
        PlanV {
            delete_terms: strs_view(self.delete_terms@),
            adds: self.adds@,
            rejected: rejections_view(self.rejected@),
            deleted_ids: strs_view(self.deleted_ids@),
            primary_upsert_ids: strs_view(self.primary_upsert_ids@),
            primary_delete_ids: strs_view(self.primary_delete_ids@),
        }
    }
}

/// The abstract content of an action.
pub struct ActionV {
    pub kind: ActionKind,
    pub doc_id: Seq<char>,
    pub json_size: usize,
    pub conversion: Result<(), FlapjackError>,
}

pub open spec fn doc_action(kind: ActionKind, d: DocumentInput) -> ActionV {
    ActionV { kind, doc_id: d.id@, json_size: d.json_size, conversion: d.conversion }
}

pub open spec fn id_action(kind: ActionKind, id: String) -> ActionV {
    ActionV { kind, doc_id: id@, json_size: 0, conversion: Ok(()) }
}

/// The abstract content of one action.
pub open spec fn action_view(a: WriteAction) -> ActionV {
    match a {
        WriteAction::Add(d) => doc_action(ActionKind::Add, d),
        WriteAction::Upsert(d) => doc_action(ActionKind::Upsert, d),
        WriteAction::UpsertNoLwwUpdate(d) => doc_action(ActionKind::UpsertNoLwwUpdate, d),
        WriteAction::Delete(id) => id_action(ActionKind::Delete, id),
        WriteAction::DeleteNoLwwUpdate(id) => id_action(ActionKind::DeleteNoLwwUpdate, id),
        WriteAction::Compact => ActionV { kind: ActionKind::Compact, doc_id: seq![], json_size: 0, conversion: Ok(()) },
    }
}

pub open spec fn actions_view(v: Seq<WriteAction>) -> Seq<ActionV> {
    v.map_values(|a: WriteAction| action_view(a))
}

pub open spec fn empty_plan() -> PlanV {
    PlanV {
        delete_terms: seq![],
        adds: seq![],
        rejected: seq![],
        deleted_ids: seq![],
        primary_upsert_ids: seq![],
        primary_delete_ids: seq![],
    }
}

/// The plan after one more action at position `i`: deletes delete; a document
/// too large for the budget is refused; an upsert deletes the old document
/// before converting the new one; a document that fails conversion is refused
/// with that error; compaction actions do nothing here.
pub open spec fn plan_step(p: PlanV, a: ActionV, i: usize, max_doc: usize) -> PlanV {
    match a.kind {
        ActionKind::Delete => PlanV {
            delete_terms: p.delete_terms.push(a.doc_id),
            deleted_ids: p.deleted_ids.push(a.doc_id),
            primary_delete_ids: p.primary_delete_ids.push(a.doc_id),
            ..p
        },
        ActionKind::DeleteNoLwwUpdate => PlanV {
            delete_terms: p.delete_terms.push(a.doc_id),
            deleted_ids: p.deleted_ids.push(a.doc_id),
            ..p
        },
        ActionKind::Compact => p,
        _ => if a.json_size > max_doc {
            PlanV {
                rejected: p.rejected.push(
                    (a.doc_id, FlapjackError::DocumentTooLarge { size: a.json_size, max: max_doc }),
                ),
                ..p
            }
        } else {
            let p1 = if a.kind == ActionKind::Add {
                p
            } else {
                PlanV { delete_terms: p.delete_terms.push(a.doc_id), ..p }
            };
            match a.conversion {
                Ok(_) => PlanV {
                    adds: p1.adds.push(i),
                    primary_upsert_ids: if a.kind == ActionKind::UpsertNoLwwUpdate {
                        p1.primary_upsert_ids
                    } else {
                        p1.primary_upsert_ids.push(a.doc_id)
                    },
                    ..p1
                },
                Err(e) => PlanV { rejected: p1.rejected.push((a.doc_id, e)), ..p1 },
            }
        },
    }
}

/// The plan of a whole operation, action by action.
pub open spec fn plan_spec(actions: Seq<ActionV>, max_doc: usize) -> PlanV
    decreases actions.len(),
{
    if actions.len() == 0 {
        empty_plan()
    } else {
        plan_step(
            plan_spec(actions.drop_last(), max_doc),
            actions.last(),
            (actions.len() - 1) as usize,
            max_doc,
        )
    }
}

fn clone_error(e: &FlapjackError) -> (r: FlapjackError)
    ensures
        r == *e,
{
    match e {
        FlapjackError::TooManyConcurrentWrites { current, max } => FlapjackError::TooManyConcurrentWrites {
            current: *current,
            max: *max,
        },
        FlapjackError::BufferSizeExceeded { requested, max } => FlapjackError::BufferSizeExceeded {
            requested: *requested,
            max: *max,
        },
        FlapjackError::DocumentTooLarge { size, max } => FlapjackError::DocumentTooLarge {
            size: *size,
            max: *max,
        },
        FlapjackError::FieldNotFound(s) => FlapjackError::FieldNotFound(s.clone()),
        FlapjackError::TypeMismatch { field, expected } => FlapjackError::TypeMismatch {
            field: field.clone(),
            expected: expected.clone(),
        },
        FlapjackError::MissingField(s) => FlapjackError::MissingField(s.clone()),
        FlapjackError::InvalidDocument(s) => FlapjackError::InvalidDocument(s.clone()),
        FlapjackError::TaskNotFound(s) => FlapjackError::TaskNotFound(s.clone()),
        FlapjackError::TenantNotFound(s) => FlapjackError::TenantNotFound(s.clone()),
        FlapjackError::QueueFull => FlapjackError::QueueFull,
        FlapjackError::Tantivy(s) => FlapjackError::Tantivy(s.clone()),
    }
}

/// Plan one document action (an add or an upsert) at position `i`.
fn plan_document(
    plan: &mut CommitPlan,
    kind: ActionKind,
    d: &DocumentInput,
    i: usize,
    budget: &crate::memory::MemoryBudget,
)
    requires
        kind == ActionKind::Add || kind == ActionKind::Upsert || kind == ActionKind::UpsertNoLwwUpdate,
    ensures
        final(plan)@ == plan_step(old(plan)@, doc_action(kind, *d), i, budget@.max_document),
{
    let ghost p = plan@;
    match budget.validate_document_size(d.json_size) {
        Err(e) => {
            plan.rejected.push(Rejection { doc_id: d.id.clone(), error: e });
        },
        Ok(()) => {
            if kind != ActionKind::Add {
                plan.delete_terms.push(d.id.clone());
            }
            match &d.conversion {
                Ok(()) => {
                    plan.adds.push(i);
                    if kind != ActionKind::UpsertNoLwwUpdate {
                        plan.primary_upsert_ids.push(d.id.clone());
                    }
                },
                Err(e) => {
                    plan.rejected.push(Rejection { doc_id: d.id.clone(), error: clone_error(e) });
                },
            }
        },
    }
    proof {
        let q = plan_step(p, doc_action(kind, *d), i, budget@.max_document);
        assert(plan@.delete_terms =~= q.delete_terms);
        assert(plan@.adds =~= q.adds);
        assert(plan@.rejected =~= q.rejected);
        assert(plan@.deleted_ids =~= q.deleted_ids);
        assert(plan@.primary_upsert_ids =~= q.primary_upsert_ids);
        assert(plan@.primary_delete_ids =~= q.primary_delete_ids);
    }
}

/// Plan one write operation against the document-size budget.
pub fn plan_commit(actions: &Vec<WriteAction>, budget: &crate::memory::MemoryBudget) -> (r: CommitPlan)
    ensures
        r@ == plan_spec(actions_view(actions@), budget@.max_document),
{
    let ghost av = actions_view(actions@);
    let ghost max_doc = budget@.max_document;
    let mut plan = CommitPlan {
        delete_terms: Vec::new(),
        adds: Vec::new(),
        rejected: Vec::new(),
        deleted_ids: Vec::new(),
        primary_upsert_ids: Vec::new(),
        primary_delete_ids: Vec::new(),
    };
    assert(plan@ == empty_plan()) by {
        assert(plan@.delete_terms =~= Seq::<Seq<char>>::empty());
        assert(plan@.adds =~= Seq::<usize>::empty());
        assert(plan@.rejected =~= Seq::<(Seq<char>, FlapjackError)>::empty());
        assert(plan@.deleted_ids =~= Seq::<Seq<char>>::empty());
        assert(plan@.primary_upsert_ids =~= Seq::<Seq<char>>::empty());
        assert(plan@.primary_delete_ids =~= Seq::<Seq<char>>::empty());
    }
    let mut i: usize = 0;
    assert(av.take(0) =~= Seq::<ActionV>::empty());
    while i < actions.len()
        invariant
            i <= actions@.len(),
            av == actions_view(actions@),
            max_doc == budget@.max_document,
            plan@ == plan_spec(av.take(i as int), max_doc),
        decreases actions@.len() - i,
    {
        let ghost p = plan@;
        let ghost a_v = av[i as int];
        assert(a_v == action_view(actions@[i as int]));
        match &actions[i] {
            WriteAction::Add(d) => plan_document(&mut plan, ActionKind::Add, d, i, budget),
            WriteAction::Upsert(d) => plan_document(&mut plan, ActionKind::Upsert, d, i, budget),
            WriteAction::UpsertNoLwwUpdate(d) => plan_document(&mut plan, ActionKind::UpsertNoLwwUpdate, d, i, budget),
            WriteAction::Delete(id) => {
                plan.delete_terms.push(id.clone());
                plan.deleted_ids.push(id.clone());
                plan.primary_delete_ids.push(id.clone());
            },
            WriteAction::DeleteNoLwwUpdate(id) => {
                plan.delete_terms.push(id.clone());
                plan.deleted_ids.push(id.clone());
            },
            WriteAction::Compact => {},
        }
        proof {
            let q = plan_step(p, a_v, i, max_doc);
            assert(plan@.delete_terms =~= q.delete_terms);
            assert(plan@.adds =~= q.adds);
            assert(plan@.rejected =~= q.rejected);
            assert(plan@.deleted_ids =~= q.deleted_ids);
            assert(plan@.primary_upsert_ids =~= q.primary_upsert_ids);
            assert(plan@.primary_delete_ids =~= q.primary_delete_ids);
            assert(av.take(i + 1).drop_last() =~= av.take(i as int));
            assert(av.take(i + 1).last() == a_v);
        }
        i = i + 1;
    }
    assert(av.take(actions@.len() as int) =~= av);
    plan
}

/// What a task reports once its operation is committed.
#[derive(Debug)]
pub struct TaskOutcome {
    /// Documents added plus documents deleted.
    pub indexed_documents: usize,
    /// The first refusals, at most `MAX_LISTED_REJECTIONS` of them.
    pub rejected_documents: Vec<Rejection>,
    /// All refusals.
    pub rejected_count: usize,
}

/// The task outcome of a plan.
pub fn task_outcome(plan: CommitPlan) -> (r: TaskOutcome)
    requires
        plan@.adds.len() + plan@.deleted_ids.len() <= usize::MAX,
    ensures
        r.indexed_documents == plan@.adds.len() + plan@.deleted_ids.len(),
        r.rejected_count == plan@.rejected.len(),
        rejections_view(r.rejected_documents@) == if plan@.rejected.len() > MAX_LISTED_REJECTIONS {
            plan@.rejected.take(MAX_LISTED_REJECTIONS as int)
        } else {
            plan@.rejected
        },
{
    let ghost rv = plan@.rejected;
    let total = plan.rejected.len();
    let mut rejected = plan.rejected;
    rejected.truncate(MAX_LISTED_REJECTIONS);
    proof {
        if rv.len() > MAX_LISTED_REJECTIONS {
            assert(rejections_view(rejected@) =~= rv.take(MAX_LISTED_REJECTIONS as int));
        } else {
            assert(rejections_view(rejected@) =~= rv);
        }
    }
    TaskOutcome {
        indexed_documents: plan.adds.len() + plan.deleted_ids.len(),
        rejected_documents: rejected,
        rejected_count: total,
    }
}

/// The rejection code of each refusal, as a task lists it.
pub fn rejection_codes(rejected: &Vec<Rejection>) -> (r: Vec<String>)
    ensures
        strs_view(r@) == rejected@.map_values(|x: Rejection| error_code(x.error)),
{
    let mut out: Vec<String> = Vec::new();
    let mut i: usize = 0;
    while i < rejected.len()
        invariant
            i <= rejected@.len(),
            out@.len() == i,
            forall|k: int| 0 <= k < i ==> #[trigger] out@[k]@ == error_code(rejected@[k].error),
        decreases rejected@.len() - i,
    {
        out.push(classify_error(&rejected[i].error));
        i = i + 1;
    }
    assert(strs_view(out@) =~= rejected@.map_values(|x: Rejection| error_code(x.error)));
    out
}

/// Every action is accounted for once: as an add, a refusal, a delete, or a
/// compaction that the commit skips.
pub proof fn law_every_action_accounted(actions: Seq<ActionV>, max_doc: usize)
    ensures
        plan_spec(actions, max_doc).adds.len() + plan_spec(actions, max_doc).rejected.len()
            + plan_spec(actions, max_doc).deleted_ids.len() + actions.filter(
            |a: ActionV| a.kind == ActionKind::Compact,
        ).len() == actions.len(),
    decreases actions.len(),
{
    reveal(Seq::filter);
    if actions.len() > 0 {
        law_every_action_accounted(actions.drop_last(), max_doc);
    }
}

/// An upsert that fits the budget and converts replaces the stored document:
/// its id is deleted, then its document added; a delete deletes its id.
pub proof fn law_upsert_and_delete_plan(actions: Seq<ActionV>, a: ActionV, max_doc: usize)
    requires
        a.json_size <= max_doc,
        a.conversion is Ok,
    ensures
        a.kind == ActionKind::Upsert ==> plan_spec(actions.push(a), max_doc).delete_terms == plan_spec(
            actions,
            max_doc,
        ).delete_terms.push(a.doc_id) && plan_spec(actions.push(a), max_doc).adds == plan_spec(
            actions,
            max_doc,
        ).adds.push(actions.len() as usize) && plan_spec(actions.push(a), max_doc).rejected == plan_spec(
            actions,
            max_doc,
        ).rejected,
        a.kind == ActionKind::Delete ==> plan_spec(actions.push(a), max_doc).delete_terms == plan_spec(
            actions,
            max_doc,
        ).delete_terms.push(a.doc_id) && plan_spec(actions.push(a), max_doc).deleted_ids == plan_spec(
            actions,
            max_doc,
        ).deleted_ids.push(a.doc_id),
{
    assert(actions.push(a).drop_last() =~= actions);
    assert(actions.push(a).last() == a);
}

/// A document too large for the budget leaves the stored one alone: adding
/// such an add or upsert to an operation only appends its refusal (with its
/// size and the limit) to the rejections; the deletes, adds, deleted ids and
/// recorded ids are those of the operation without it.
pub proof fn law_oversized_only_rejected(actions: Seq<ActionV>, a: ActionV, max_doc: usize)
    requires
        a.kind == ActionKind::Add || a.kind == ActionKind::Upsert || a.kind == ActionKind::UpsertNoLwwUpdate,
        a.json_size > max_doc,
    ensures
        plan_spec(actions.push(a), max_doc).delete_terms == plan_spec(actions, max_doc).delete_terms,
        plan_spec(actions.push(a), max_doc).adds == plan_spec(actions, max_doc).adds,
        plan_spec(actions.push(a), max_doc).deleted_ids == plan_spec(actions, max_doc).deleted_ids,
        plan_spec(actions.push(a), max_doc).primary_upsert_ids == plan_spec(actions, max_doc).primary_upsert_ids,
        plan_spec(actions.push(a), max_doc).primary_delete_ids == plan_spec(actions, max_doc).primary_delete_ids,
        plan_spec(actions.push(a), max_doc).rejected == plan_spec(actions, max_doc).rejected.push(
            (a.doc_id, FlapjackError::DocumentTooLarge { size: a.json_size, max: max_doc }),
        ),
{
    assert(actions.push(a).drop_last() =~= actions);
    assert(actions.push(a).last() == a);
}

/// A document over the size budget is never added.
pub proof fn law_oversized_never_added(p: PlanV, a: ActionV, i: usize, max_doc: usize)
    requires
        a.json_size > max_doc,
    ensures
        plan_step(p, a, i, max_doc).adds == p.adds,
{
}

// ---------------------------------------------------------------------------
// Settling a committed write
// ---------------------------------------------------------------------------

/// The task record a committed write leaves.
#[derive(Debug)]
pub struct CommittedTask {
    pub status: TaskStatus,
    pub indexed_documents: usize,
    pub rejected_documents: Vec<Rejection>,
    pub rejected_count: usize,
}

/// The keys a write's task is stored under: its id, and its numeric alias (the
/// numeric id in decimal when the task is known, else the id again).
pub open spec fn task_keys_spec(task_id: Seq<char>, numeric_id: Option<i64>) -> Seq<Seq<char>> {
    match numeric_id {
        Some(n) => seq![task_id, signed_decimal(n as int)],
        None => seq![task_id, task_id],
    }
}

/// Settle the task of a committed write: under both of its keys it becomes
/// `Succeeded`, with the documents added and deleted counted as indexed, the
/// first refusals listed and all of them counted.
pub fn settle_commit(task_id: &str, numeric_id: Option<i64>, plan: CommitPlan) -> (r: (Vec<String>, CommittedTask))
    requires
        plan@.adds.len() + plan@.deleted_ids.len() <= usize::MAX,
    ensures
        strs_view(r.0@) == task_keys_spec(task_id@, numeric_id),
        r.1.status == TaskStatus::Succeeded,
        r.1.indexed_documents == plan@.adds.len() + plan@.deleted_ids.len(),
        r.1.rejected_count == plan@.rejected.len(),
        rejections_view(r.1.rejected_documents@) == if plan@.rejected.len() > MAX_LISTED_REJECTIONS {
            plan@.rejected.take(MAX_LISTED_REJECTIONS as int)
        } else {
            plan@.rejected
        },
{
    let alias = match numeric_id {
        Some(n) => i64_to_decimal(n),
        None => String::from_str(task_id),
    };
    let mut keys: Vec<String> = Vec::new();
    keys.push(String::from_str(task_id));
    keys.push(alias);
    assert(strs_view(keys@) =~= task_keys_spec(task_id@, numeric_id));
    let o = task_outcome(plan);
    (
        keys,
        CommittedTask {
            status: TaskStatus::Succeeded,
            indexed_documents: o.indexed_documents,
            rejected_documents: o.rejected_documents,
            rejected_count: o.rejected_count,
        },
    )
}

/// The table after recording the stamp for each id in turn.
pub open spec fn record_all(
    m: Map<Seq<char>, (u64, Seq<char>)>,
    ids: Seq<Seq<char>>,
    stamp: (u64, Seq<char>),
) -> Map<Seq<char>, (u64, Seq<char>)>
    decreases ids.len(),
{
    if ids.len() == 0 {
        m
    } else {
        record_all(m, ids.drop_last(), stamp).insert(ids.last(), stamp)
    }
}

/// Record the write stamp `(now_ms, node_id)` for every document a committed
/// write added, upserted or deleted as a primary write (replicated writes
/// carry their own stamps and are left alone): first the upserted ids, then the
/// deleted ones.
pub fn record_commit_stamps(table: &mut LwwTable, plan: &CommitPlan, now_ms: u64, node_id: &str)
    ensures
        final(table).map() == record_all(
            record_all(old(table).map(), plan@.primary_upsert_ids, (now_ms, node_id@)),
            plan@.primary_delete_ids,
            (now_ms, node_id@),
        ),
{
    let ghost m0 = table.map();
    let ghost ups = plan@.primary_upsert_ids;
    let ghost dels = plan@.primary_delete_ids;
    let mut i: usize = 0;
    assert(ups.take(0) =~= Seq::<Seq<char>>::empty());
    while i < plan.primary_upsert_ids.len()
        invariant
            i <= plan.primary_upsert_ids@.len(),
            ups == plan@.primary_upsert_ids,
            ups == strs_view(plan.primary_upsert_ids@),
            table.map() == record_all(m0, ups.take(i as int), (now_ms, node_id@)),
        decreases plan.primary_upsert_ids@.len() - i,
    {
        proof {
            assert(ups.take(i + 1).drop_last() =~= ups.take(i as int));
            assert(ups.take(i + 1).last() == plan.primary_upsert_ids@[i as int]@);
        }
        table.record(plan.primary_upsert_ids[i].as_str(), now_ms, String::from_str(node_id));
        i = i + 1;
    }
    assert(ups.take(ups.len() as int) =~= ups);
    let ghost m1 = table.map();
    let mut j: usize = 0;
    assert(dels.take(0) =~= Seq::<Seq<char>>::empty());
    while j < plan.primary_delete_ids.len()
        invariant
            j <= plan.primary_delete_ids@.len(),
            dels == plan@.primary_delete_ids,
            dels == strs_view(plan.primary_delete_ids@),
            table.map() == record_all(m1, dels.take(j as int), (now_ms, node_id@)),
        decreases plan.primary_delete_ids@.len() - j,
    {
        proof {
            assert(dels.take(j + 1).drop_last() =~= dels.take(j as int));
            assert(dels.take(j + 1).last() == plan.primary_delete_ids@[j as int]@);
        }
        table.record(plan.primary_delete_ids[j].as_str(), now_ms, String::from_str(node_id));
        j = j + 1;
    }
    assert(dels.take(dels.len() as int) =~= dels);
}

} // verus!
