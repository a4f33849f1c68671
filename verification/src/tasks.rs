//! Task bookkeeping: how many of a tenant's tasks are still pending, and which
//! old tasks are dropped to make room for a new one.
use vstd::prelude::*;
use crate::synonyms::strs_view;
use crate::text::{chars_of, concat, decimal, decimal_chars, has_prefix, starts_with_chars, string_from_chars};

verus! {

/// Where a task stands.
#[derive(Debug, Clone, PartialEq, Eq)]
pub enum TaskStatus {
    Enqueued,
    Processing,
    Succeeded,
    Failed(String),
}

/// One entry of the task table: the key it is stored under and what the
/// bookkeeping reads of the task.
#[derive(Debug)]
pub struct TaskRecord {
    pub key: String,
    pub numeric_id: i64,
    pub created_at: i64,
    pub status: TaskStatus,
}

/// Work handed to the background task processor.
#[derive(Debug)]
pub enum TaskCommand {
    Export { task_id: String, tenant_id: String, dest_path: String },
}

/// How a step of an export ended, with the reason when it did not succeed.
#[derive(Debug, PartialEq, Eq)]
pub enum StepOutcome {
    Done,
    Failed(String),
    Crashed(String),
}

/// What the task processor learns while it exports a tenant.
#[derive(Debug, PartialEq, Eq)]
pub enum ExportEvent {
    /// The index manager is gone; nothing more can run.
    ManagerGone,
    /// An export command was taken up.
    Started,
    /// The tenant's write queue stopped; `None` when it had none running.
    WriterStopped(Option<StepOutcome>),
    /// Copying the tenant's files ended.
    CopyFinished(StepOutcome),
    /// The tenant was unloaded after a copy that ended with this outcome.
    TenantUnloaded(StepOutcome),
}

/// What the task processor does next.
#[derive(Debug, Clone, Copy, PartialEq, Eq)]
pub enum ExportAction {
    /// Close the tenant's write queue and wait for its writer to finish.
    StopWriter,
    /// Copy the tenant's files to the destination.
    CopyFiles,
    /// Unload the tenant's writer and index, then report the copy's outcome.
    UnloadTenant,
    /// Take the next command.
    NextCommand,
    /// Stop processing commands.
    Shutdown,
}

/// The task's new status (if it changes) and the next action.
#[derive(Debug, PartialEq, Eq)]
pub struct ExportStep {
    pub status: Option<TaskStatus>,
    pub action: ExportAction,
}

/// The key prefix of a tenant's tasks: `task_<tenant>_`.
pub open spec fn task_prefix(tenant: Seq<char>) -> Seq<char> {
    seq!['t', 'a', 's', 'k', '_'] + tenant + seq!['_']
}

/// A task that is waiting or running.
pub open spec fn is_pending(s: TaskStatus) -> bool {
    s is Enqueued || s is Processing
}

/// Entry `i` is one of the tenant's tasks (its key has the tenant's prefix).
pub open spec fn of_tenant(t: Seq<TaskRecord>, p: Seq<char>, i: int) -> bool {
    0 <= i < t.len() && has_prefix(t[i].key@, p)
}

/// The number of entries whose key has prefix `p` and that are pending.
pub open spec fn pending_count(t: Seq<TaskRecord>, p: Seq<char>) -> nat
    decreases t.len(),
{
    if t.len() == 0 {
        0
    } else {
        pending_count(t.drop_last(), p) + if has_prefix(t.last().key@, p) && is_pending(t.last().status) {
            1nat
        } else {
            0nat
        }
    }
}

/// The number of entries whose key has prefix `p`.
pub open spec fn tenant_count(t: Seq<TaskRecord>, p: Seq<char>) -> nat
    decreases t.len(),
{
    if t.len() == 0 {
        0
    } else {
        tenant_count(t.drop_last(), p) + if has_prefix(t.last().key@, p) {
            1nat
        } else {
            0nat
        }
    }
}

/// The decimal text of a signed integer (what `i64::to_string` returns).
pub open spec fn signed_decimal(n: int) -> Seq<char> {
    if n < 0 {
        seq!['-'] + decimal((-n) as nat)
    } else {
        decimal(n as nat)
    }
}

/// Entry `i` is older than entry `j`: created earlier, or at the same time and
/// listed first (the order of a stable sort by creation time).
pub open spec fn older(t: Seq<TaskRecord>, i: int, j: int) -> bool {
    t[i].created_at < t[j].created_at || (t[i].created_at == t[j].created_at && i < j)
}

/// How many of the tenant's tasks are dropped before a new one is added, when at
/// most `max_tasks` may be kept: enough to leave `max_tasks - 1`.
pub open spec fn evict_count(n: nat, max_tasks: nat) -> nat {
    if n < max_tasks {
        0
    } else if n - max_tasks + 1 > n {
        n
    } else {
        (n - max_tasks + 1) as nat
    }
}

/// `sel` lists the `evict_count` oldest of the tenant's tasks, oldest first.
pub open spec fn oldest_first(t: Seq<TaskRecord>, p: Seq<char>, max_tasks: nat, sel: Seq<int>) -> bool {
    &&& sel.len() == evict_count(tenant_count(t, p), max_tasks)
    &&& forall|k: int| 0 <= k < sel.len() ==> of_tenant(t, p, #[trigger] sel[k])
    &&& forall|a: int, b: int| 0 <= a < b < sel.len() ==> older(t, #[trigger] sel[a], #[trigger] sel[b])
    &&& forall|k: int, j: int|
        0 <= k < sel.len() && of_tenant(t, p, j) && !sel.contains(j) ==> #[trigger] older(t, sel[k], j)
}

/// The keys removed for the selected tasks: each task's key, then its numeric alias.
pub open spec fn evicted_keys(t: Seq<TaskRecord>, sel: Seq<int>) -> Seq<Seq<char>>
    decreases sel.len(),
{
    if sel.len() == 0 {
        seq![]
    } else {
        evicted_keys(t, sel.drop_last()).push(t[sel.last()].key@).push(signed_decimal(t[sel.last()].numeric_id as int))
    }
}

/// The characters of `task_<tenant>_`.
fn task_prefix_chars(tenant_id: &str) -> (r: Vec<char>)
    ensures
        r@ == task_prefix(tenant_id@),
{
    let mut p: Vec<char> = Vec::new();
    p.push('t');
    p.push('a');
    p.push('s');
    p.push('k');
    p.push('_');
    let mut t = chars_of(tenant_id);
    p.append(&mut t);
    p.push('_');
    assert(p@ =~= task_prefix(tenant_id@));
    p
}

/// The decimal text of `n`.
pub fn i64_to_decimal(n: i64) -> (r: String)
    ensures
        r@ == signed_decimal(n as int),
{
    if n < 0 {
        let m: u64 = ((-(n + 1)) as u64) + 1;
        let mut v: Vec<char> = Vec::new();
        v.push('-');
        let mut d = decimal_chars(m);
        v.append(&mut d);
        assert(v@ =~= signed_decimal(n as int));
        string_from_chars(v.as_slice())
    } else {
        let d = decimal_chars(n as u64);
        string_from_chars(d.as_slice())
    }
}

/// The number of the tenant's tasks that are enqueued or processing.
pub fn pending_task_count(tasks: &Vec<TaskRecord>, tenant_id: &str) -> (r: usize)
    ensures
        r == pending_count(tasks@, task_prefix(tenant_id@)),
{
    let prefix = task_prefix_chars(tenant_id);
    let ghost p = prefix@;
    let mut count: usize = 0;
    let mut i: usize = 0;
    while i < tasks.len()
        invariant
            i <= tasks@.len(),
            p == prefix@,
            count == pending_count(tasks@.take(i as int), p),
            count <= i,
        decreases tasks@.len() - i,
    {
        let r = &tasks[i];
        let key = chars_of(r.key.as_str());
        let pending = match r.status {
            TaskStatus::Enqueued => true,
            TaskStatus::Processing => true,
            _ => false,
        };
        assert(tasks@.take(i + 1).drop_last() =~= tasks@.take(i as int));
        if starts_with_chars(key.as_slice(), prefix.as_slice()) && pending {
            count = count + 1;
        }
        i = i + 1;
    }
    assert(tasks@.take(tasks@.len() as int) =~= tasks@);
    count
}

/// A failed status whose message is `prefix` followed by `reason`.
pub open spec fn failed_with(status: Option<TaskStatus>, prefix: Seq<char>, reason: Seq<char>) -> bool {
    status matches Some(TaskStatus::Failed(m)) && m@ == prefix + reason
}

/// What a step of the task processor is: see [`export_step`].
pub open spec fn export_step_spec(event: ExportEvent, r: ExportStep) -> bool {
    match event {
        ExportEvent::ManagerGone => failed_with(r.status, "Manager dropped"@, seq![]) && r.action
            == ExportAction::Shutdown,
        ExportEvent::Started => r.status == Some(TaskStatus::Processing) && r.action == ExportAction::StopWriter,
        ExportEvent::WriterStopped(None) => r.status is None && r.action == ExportAction::CopyFiles,
        ExportEvent::WriterStopped(Some(StepOutcome::Done)) => r.status is None && r.action
            == ExportAction::CopyFiles,
        ExportEvent::WriterStopped(Some(StepOutcome::Failed(e))) => failed_with(r.status, "Commit failed: "@, e@)
            && r.action == ExportAction::NextCommand,
        ExportEvent::WriterStopped(Some(StepOutcome::Crashed(e))) => failed_with(
            r.status,
            "Write task panicked: "@,
            e@,
        ) && r.action == ExportAction::NextCommand,
        ExportEvent::CopyFinished(_) => r.status is None && r.action == ExportAction::UnloadTenant,
        ExportEvent::TenantUnloaded(StepOutcome::Done) => r.status == Some(TaskStatus::Succeeded) && r.action
            == ExportAction::NextCommand,
        ExportEvent::TenantUnloaded(StepOutcome::Failed(e)) => failed_with(r.status, "Copy failed: "@, e@)
            && r.action == ExportAction::NextCommand,
        ExportEvent::TenantUnloaded(StepOutcome::Crashed(e)) => failed_with(
            r.status,
            "Spawn blocking failed: "@,
            e@,
        ) && r.action == ExportAction::NextCommand,
    }
}

/// The next step of the task processor: a gone manager fails the task and stops
/// everything; a started export marks the task processing and stops the tenant's
/// writer; a writer that stopped cleanly (or was not running) lets the copy
/// start, otherwise the task fails; a finished copy first unloads the tenant,
/// and only once it is unloaded is the task settled by the copy's outcome.
pub fn export_step(event: &ExportEvent) -> (r: ExportStep)
    ensures
        export_step_spec(*event, r),
{
    match event {
        ExportEvent::ManagerGone => {
            let m = String::from_str("Manager dropped");
            assert(m@ =~= "Manager dropped"@ + seq![]);
            ExportStep { status: Some(TaskStatus::Failed(m)), action: ExportAction::Shutdown }
        },
        ExportEvent::Started => ExportStep { status: Some(TaskStatus::Processing), action: ExportAction::StopWriter },
        ExportEvent::WriterStopped(None) => ExportStep { status: None, action: ExportAction::CopyFiles },
        ExportEvent::WriterStopped(Some(StepOutcome::Done)) => ExportStep {
            status: None,
            action: ExportAction::CopyFiles,
        },
        ExportEvent::WriterStopped(Some(StepOutcome::Failed(e))) => ExportStep {
            status: Some(TaskStatus::Failed(concat("Commit failed: ", e.as_str()))),
            action: ExportAction::NextCommand,
        },
        ExportEvent::WriterStopped(Some(StepOutcome::Crashed(e))) => ExportStep {
            status: Some(TaskStatus::Failed(concat("Write task panicked: ", e.as_str()))),
            action: ExportAction::NextCommand,
        },
        ExportEvent::CopyFinished(_) => ExportStep { status: None, action: ExportAction::UnloadTenant },
        ExportEvent::TenantUnloaded(StepOutcome::Done) => ExportStep {
            status: Some(TaskStatus::Succeeded),
            action: ExportAction::NextCommand,
        },
        ExportEvent::TenantUnloaded(StepOutcome::Failed(e)) => ExportStep {
            status: Some(TaskStatus::Failed(concat("Copy failed: ", e.as_str()))),
            action: ExportAction::NextCommand,
        },
        ExportEvent::TenantUnloaded(StepOutcome::Crashed(e)) => ExportStep {
            status: Some(TaskStatus::Failed(concat("Spawn blocking failed: ", e.as_str()))),
            action: ExportAction::NextCommand,
        },
    }
}

/// An export reports success only once its tenant is unloaded after the copy;
/// the end of a copy settles nothing before the unload; and every step that ends
/// an export (a failure, or the unload after the copy) settles its task.
pub proof fn law_export_settles(event: ExportEvent, r: ExportStep)
    requires
        export_step_spec(event, r),
    ensures
        r.status == Some(TaskStatus::Succeeded) ==> event == ExportEvent::TenantUnloaded(StepOutcome::Done),
        event is CopyFinished ==> r.status is None && r.action == ExportAction::UnloadTenant,
        r.action == ExportAction::UnloadTenant ==> r.status is None,
        (r.action == ExportAction::NextCommand || r.action == ExportAction::Shutdown) ==> (r.status matches Some(
            s,
        ) && !is_pending(s)),
{
}

// ---------------------------------------------------------------------------
// Compaction
// ---------------------------------------------------------------------------

/// What the compaction of an index learns while it runs; a failed step carries
/// the engine's error text (`Some`), a successful one nothing (`None`).
#[derive(Debug, PartialEq, Eq)]
pub enum CompactEvent {
    /// A compaction request was taken up.
    Started,
    /// The index's searchable segments were counted (or could not be).
    SegmentsListed(Result<usize, String>),
    /// Merging the segments into one ended.
    Merged(Option<String>),
    /// Removing the files no segment uses any more ended.
    Collected(Option<String>),
    /// Reloading the index's reader ended.
    Reloaded(Option<String>),
}

/// What the compaction does next.
#[derive(Debug, PartialEq, Eq)]
pub enum CompactAction {
    /// Count the index's searchable segments.
    ListSegments,
    /// Merge all searchable segments into one.
    MergeSegments,
    /// Remove the files no segment uses any more.
    CollectGarbage,
    /// Reload the reader and forget the cached searchable paths.
    ReloadReader,
    /// The compaction is over.
    Finish,
    /// The compaction is abandoned with the error, the task left as it is.
    Abort(String),
}

/// A compaction step: the status to record for the task, if any, then the action.
#[derive(Debug)]
pub struct CompactStep {
    pub status: Option<TaskStatus>,
    pub action: CompactAction,
}

/// The compaction steps: the task is marked processing and the segments are
/// counted; when they cannot be, the compaction is abandoned and the task left
/// processing; more than one segment are merged, otherwise the merge is skipped;
/// then stale files are removed and the reader reloaded, and the task succeeds;
/// a failed merge, removal or reload fails the task with the engine's error.
pub open spec fn compact_step_spec(event: CompactEvent, r: CompactStep) -> bool {
    match event {
        CompactEvent::Started => r.status == Some(TaskStatus::Processing) && r.action == CompactAction::ListSegments,
        CompactEvent::SegmentsListed(Err(e)) => r.status is None && (r.action matches CompactAction::Abort(m) && m@
            == e@),
        CompactEvent::SegmentsListed(Ok(n)) => r.status is None && r.action == (if n > 1 {
            CompactAction::MergeSegments
        } else {
            CompactAction::CollectGarbage
        }),
        CompactEvent::Merged(None) => r.status is None && r.action == CompactAction::CollectGarbage,
        CompactEvent::Collected(None) => r.status is None && r.action == CompactAction::ReloadReader,
        CompactEvent::Reloaded(None) => r.status == Some(TaskStatus::Succeeded) && r.action == CompactAction::Finish,
        CompactEvent::Merged(Some(e)) => failed_with(r.status, seq![], e@) && r.action == CompactAction::Finish,
        CompactEvent::Collected(Some(e)) => failed_with(r.status, seq![], e@) && r.action == CompactAction::Finish,
        CompactEvent::Reloaded(Some(e)) => failed_with(r.status, seq![], e@) && r.action == CompactAction::Finish,
    }
}

fn failed_status(e: &String) -> (r: Option<TaskStatus>)
    ensures
        failed_with(r, seq![], e@),
{
    let m = e.clone();
    assert(m@ =~= seq![] + e@);
    Some(TaskStatus::Failed(m))
}

/// The next step of a compaction (see [`compact_step_spec`]).
pub fn compact_step(event: &CompactEvent) -> (r: CompactStep)
    ensures
        compact_step_spec(*event, r),
{
    match event {
        CompactEvent::Started => CompactStep { status: Some(TaskStatus::Processing), action: CompactAction::ListSegments },
        CompactEvent::SegmentsListed(Err(e)) => CompactStep { status: None, action: CompactAction::Abort(e.clone()) },
        CompactEvent::SegmentsListed(Ok(n)) => CompactStep {
            status: None,
            action: if *n > 1 {
                CompactAction::MergeSegments
            } else {
                CompactAction::CollectGarbage
            },
        },
        CompactEvent::Merged(None) => CompactStep { status: None, action: CompactAction::CollectGarbage },
        CompactEvent::Collected(None) => CompactStep { status: None, action: CompactAction::ReloadReader },
        CompactEvent::Reloaded(None) => CompactStep { status: Some(TaskStatus::Succeeded), action: CompactAction::Finish },
        CompactEvent::Merged(Some(e)) => CompactStep { status: failed_status(e), action: CompactAction::Finish },
        CompactEvent::Collected(Some(e)) => CompactStep { status: failed_status(e), action: CompactAction::Finish },
        CompactEvent::Reloaded(Some(e)) => CompactStep { status: failed_status(e), action: CompactAction::Finish },
    }
}

/// A compaction succeeds only after the reader was reloaded; a single segment is
/// never merged; and every finishing step settles the task.
pub proof fn law_compaction_settles(event: CompactEvent, r: CompactStep)
    requires
        compact_step_spec(event, r),
    ensures
        r.status == Some(TaskStatus::Succeeded) ==> event == CompactEvent::Reloaded(None),
        event matches CompactEvent::SegmentsListed(Ok(n)) && n <= 1 ==> r.action != CompactAction::MergeSegments,
        r.action == CompactAction::Finish ==> (r.status matches Some(s) && !is_pending(s)),
        r.action is Abort ==> r.status is None,
{
}

proof fn lemma_tenant_count_step(t: Seq<TaskRecord>, p: Seq<char>, i: int)
    requires
        0 <= i < t.len(),
    ensures
        tenant_count(t.take(i + 1), p) == tenant_count(t.take(i), p) + if has_prefix(t[i].key@, p) {
            1nat
        } else {
            0nat
        },
{
    assert(t.take(i + 1).drop_last() =~= t.take(i));
}

/// The keys to remove from the task table before one more of the tenant's tasks
/// is added, when at most `max_tasks` of them are kept: when the tenant has
/// `max_tasks` or more, its oldest tasks (by creation time, ties in table order)
/// until `max_tasks - 1` are left, each by its key and by its numeric alias.
pub fn evict_old_tasks(tasks: &Vec<TaskRecord>, tenant_id: &str, max_tasks: usize) -> (r: Vec<String>)
    ensures
        exists|sel: Seq<int>|
            oldest_first(tasks@, task_prefix(tenant_id@), max_tasks as nat, sel) && strs_view(r@) == evicted_keys(
                tasks@,
                sel,
            ),
{
    let prefix = task_prefix_chars(tenant_id);
    let ghost t = tasks@;
    let ghost p = prefix@;
    // The positions of the tenant's tasks, in table order.
    let mut rest: Vec<usize> = Vec::new();
    let mut i: usize = 0;
    while i < tasks.len()
        invariant
            i <= t.len(),
            t == tasks@,
            p == prefix@,
            rest@.len() == tenant_count(t.take(i as int), p),
            forall|k: int| 0 <= k < rest@.len() ==> of_tenant(t, p, #[trigger] rest@[k] as int),
            forall|k: int| 0 <= k < rest@.len() ==> #[trigger] rest@[k] < i,
            forall|a: int, b: int| 0 <= a < b < rest@.len() ==> #[trigger] rest@[a] < #[trigger] rest@[b],
            forall|j: int| 0 <= j < i && of_tenant(t, p, j) ==> rest@.contains(j as usize),
        decreases t.len() - i,
    {
        let key = chars_of(tasks[i].key.as_str());
        proof {
            lemma_tenant_count_step(t, p, i as int);
        }
        if starts_with_chars(key.as_slice(), prefix.as_slice()) {
            let ghost old_rest = rest@;
            rest.push(i);
            assert forall|j: int| 0 <= j < i + 1 && of_tenant(t, p, j) implies rest@.contains(j as usize) by {
                if j < i {
                    let k = choose|k: int| 0 <= k < old_rest.len() && old_rest[k] == j as usize;
                    assert(rest@[k] == j as usize);
                } else {
                    assert(rest@[rest@.len() - 1] == j as usize);
                }
            }
        }
        i = i + 1;
    }
    assert(t.take(t.len() as int) =~= t);
    let n = rest.len();
    let evict: usize = if n < max_tasks {
        0
    } else if n - max_tasks < n {
        n - max_tasks + 1
    } else {
        n
    };
    assert(evict == evict_count(tenant_count(t, p), max_tasks as nat));
    // Take the oldest remaining task, `evict` times.
    let mut sel: Vec<usize> = Vec::new();
    let mut out: Vec<String> = Vec::new();
    while sel.len() < evict
        invariant
            t == tasks@,
            evict <= n,
            evict == evict_count(tenant_count(t, p), max_tasks as nat),
            sel@.len() <= evict,
            sel@.len() + rest@.len() == n,
            forall|k: int| 0 <= k < rest@.len() ==> of_tenant(t, p, #[trigger] rest@[k] as int),
            forall|k: int| 0 <= k < sel@.len() ==> of_tenant(t, p, #[trigger] sel@[k] as int),
            forall|a: int, b: int| 0 <= a < b < rest@.len() ==> #[trigger] rest@[a] != #[trigger] rest@[b],
            forall|a: int, b: int|
                0 <= a < b < sel@.len() ==> older(t, #[trigger] sel@[a] as int, #[trigger] sel@[b] as int),
            forall|a: int, b: int|
                0 <= a < sel@.len() && 0 <= b < rest@.len() ==> older(t, #[trigger] sel@[a] as int, #[trigger] rest@[b] as int),
            forall|j: int| of_tenant(t, p, j) ==> rest@.contains(j as usize) || sel@.contains(j as usize),
            strs_view(out@) == evicted_keys(t, sel@.map_values(|x: usize| x as int)),
        decreases evict - sel@.len(),
    {
        // The oldest of the remaining tasks.
        let mut m: usize = 0;
        let mut k: usize = 1;
        while k < rest.len()
            invariant
                t == tasks@,
                0 < rest@.len(),
                m < rest@.len(),
                1 <= k <= rest@.len(),
                forall|k: int| 0 <= k < rest@.len() ==> of_tenant(t, p, #[trigger] rest@[k] as int),
                forall|a: int, b: int| 0 <= a < b < rest@.len() ==> #[trigger] rest@[a] != #[trigger] rest@[b],
                forall|j: int| 0 <= j < k && j != m ==> older(t, rest@[m as int] as int, #[trigger] rest@[j] as int),
            decreases rest@.len() - k,
        {
            let a = rest[m];
            let b = rest[k];
            if tasks[b].created_at < tasks[a].created_at || (tasks[b].created_at == tasks[a].created_at && b < a) {
                m = k;
            }
            k = k + 1;
        }
        let ghost old_rest = rest@;
        let ghost old_sel = sel@;
        let chosen = rest.remove(m);
        let idx = chosen;
        sel.push(idx);
        out.push(tasks[idx].key.clone());
        out.push(i64_to_decimal(tasks[idx].numeric_id));
        proof {
            assert(old_rest[m as int] == idx);
            assert forall|a: int, b: int| 0 <= a < b < rest@.len() implies #[trigger] rest@[a] != #[trigger] rest@[b] by {
                let a0 = if a < m { a } else { a + 1 };
                let b0 = if b < m { b } else { b + 1 };
                assert(rest@[a] == old_rest[a0] && rest@[b] == old_rest[b0]);
            }
            assert forall|k: int| 0 <= k < rest@.len() implies of_tenant(t, p, #[trigger] rest@[k] as int) by {
                let k0 = if k < m { k } else { k + 1 };
                assert(rest@[k] == old_rest[k0]);
            }
            assert forall|a: int, b: int|
                0 <= a < sel@.len() && 0 <= b < rest@.len() implies older(t, #[trigger] sel@[a] as int, #[trigger] rest@[b] as int) by {
                let b0 = if b < m { b } else { b + 1 };
                assert(rest@[b] == old_rest[b0]);
                assert(b0 != m);
                assert(old_rest[b0] != old_rest[m as int]);
                if a < old_sel.len() {
                    assert(sel@[a] == old_sel[a]);
                }
            }
            assert forall|a: int, b: int|
                0 <= a < b < sel@.len() implies older(t, #[trigger] sel@[a] as int, #[trigger] sel@[b] as int) by {
                if b < old_sel.len() {
                    assert(sel@[a] == old_sel[a] && sel@[b] == old_sel[b]);
                } else {
                    assert(sel@[b] == old_rest[m as int]);
                    assert(sel@[a] == old_sel[a]);
                }
            }
            assert forall|j: int| of_tenant(t, p, j) implies rest@.contains(j as usize) || sel@.contains(j as usize) by {
                if old_sel.contains(j as usize) {
                    let q = choose|q: int| 0 <= q < old_sel.len() && old_sel[q] == j as usize;
                    assert(sel@[q] == j as usize);
                } else {
                    let q = choose|q: int| 0 <= q < old_rest.len() && old_rest[q] == j as usize;
                    if q == m {
                        assert(sel@[sel@.len() - 1] == j as usize);
                    } else if q < m {
                        assert(rest@[q] == j as usize);
                    } else {
                        assert(rest@[q - 1] == j as usize);
                    }
                }
            }
            let sv = sel@.map_values(|x: usize| x as int);
            assert(sv.drop_last() =~= old_sel.map_values(|x: usize| x as int));
            assert(strs_view(out@) =~= evicted_keys(t, sv));
        }
    }
    proof {
        let sv = sel@.map_values(|x: usize| x as int);
        assert forall|k: int, j: int|
            0 <= k < sv.len() && of_tenant(t, p, j) && !sv.contains(j) implies #[trigger] older(t, sv[k], j) by {
            if !rest@.contains(j as usize) {
                let q = choose|q: int| 0 <= q < sel@.len() && sel@[q] == j as usize;
                assert(sv[q] == j);
            }
            let q = choose|q: int| 0 <= q < rest@.len() && rest@[q] == j as usize;
            assert(older(t, sel@[k] as int, rest@[q] as int));
        }
        assert forall|k: int| 0 <= k < sv.len() implies of_tenant(t, p, #[trigger] sv[k]) by {
            assert(sv[k] == sel@[k] as int);
        }
        assert forall|a: int, b: int| 0 <= a < b < sv.len() implies older(t, #[trigger] sv[a], #[trigger] sv[b]) by {
            assert(sv[a] == sel@[a] as int && sv[b] == sel@[b] as int);
        }
        assert(oldest_first(t, p, max_tasks as nat, sv));
    }
    out
}

/// When the tenant has `max_tasks` or more tasks (`max_tasks >= 1`), eviction
/// leaves exactly `max_tasks - 1`, so that the new task brings it back to the
/// limit; below the limit nothing is evicted.
pub proof fn law_eviction_leaves_room(n: nat, max_tasks: nat)
    ensures
        n < max_tasks ==> evict_count(n, max_tasks) == 0,
        1 <= max_tasks <= n ==> n - evict_count(n, max_tasks) == max_tasks - 1,
        max_tasks == 0 ==> evict_count(n, max_tasks) == n,
{
}

proof fn lemma_same_prefix(t: Seq<TaskRecord>, p: Seq<char>, max_tasks: nat, s1: Seq<int>, s2: Seq<int>, k: int)
    requires
        oldest_first(t, p, max_tasks, s1),
        oldest_first(t, p, max_tasks, s2),
        0 <= k <= s1.len(),
    ensures
        forall|q: int| 0 <= q < k ==> s1[q] == s2[q],
    decreases k,
{
    if k > 0 {
        lemma_same_prefix(t, p, max_tasks, s1, s2, k - 1);
        let x = s1[k - 1];
        let y = s2[k - 1];
        if x != y {
            // y comes after x in s1's order, and x after y in s2's order.
            assert(of_tenant(t, p, y));
            assert(older(t, x, y)) by {
                if s1.contains(y) {
                    let q = choose|q: int| 0 <= q < s1.len() && s1[q] == y;
                    if q < k - 1 {
                        assert(s2[q] == y);
                        assert(older(t, s2[q], s2[k - 1]));
                    } else {
                        assert(q != k - 1);
                        assert(older(t, s1[k - 1], s1[q]));
                    }
                } else {
                    assert(older(t, s1[k - 1], y));
                }
            }
            assert(older(t, y, x)) by {
                if s2.contains(x) {
                    let q = choose|q: int| 0 <= q < s2.len() && s2[q] == x;
                    if q < k - 1 {
                        assert(s1[q] == x);
                        assert(older(t, s1[q], s1[k - 1]));
                    } else {
                        assert(q != k - 1);
                        assert(older(t, s2[k - 1], s2[q]));
                    }
                } else {
                    assert(older(t, s2[k - 1], x));
                }
            }
        }
    }
}

/// Which tasks are evicted, and in which order, is fully determined: two
/// selections that both list the oldest tasks, oldest first, are the same.
pub proof fn law_eviction_choice_is_unique(
    t: Seq<TaskRecord>,
    p: Seq<char>,
    max_tasks: nat,
    s1: Seq<int>,
    s2: Seq<int>,
)
    requires
        oldest_first(t, p, max_tasks, s1),
        oldest_first(t, p, max_tasks, s2),
    ensures
        s1 == s2,
{
    lemma_same_prefix(t, p, max_tasks, s1, s2, s1.len() as int);
    assert(s1 =~= s2);
}

} // verus!
