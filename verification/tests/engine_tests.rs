use flapjack::error::FlapjackError;
use flapjack::memory::{MemoryBudget, MemoryBudgetConfig, MIB};
use flapjack::recovery::{
    parse_committed_seq, plan_replay, rebuild_lww, BodyOutcome, LwwTable, OpLogEntry, WriterOp,
};
use flapjack::s3::{
    snapshot_key, snapshot_prefix, snapshots_to_delete, sort_snapshot_keys, RegionChoice, S3Config,
};
use flapjack::tasks::{
    evict_old_tasks, export_step, i64_to_decimal, pending_task_count, ExportAction, ExportEvent, StepOutcome,
    TaskRecord, TaskStatus,
};
use flapjack::text::{
    chars_lt, chars_of, parse_u64_chars, parse_usize_chars, replace_chars, split_whitespace_chars,
    trim_chars, u64_to_decimal,
};
use flapjack::write_queue::{
    next_write_step, plan_commit, rejection_codes, task_outcome, DocumentInput, WriteAction,
    WriteEvent, WriteOp, BATCH_SIZE, MAX_LISTED_REJECTIONS,
};

fn task(key: &str, numeric_id: i64, created_at: i64, status: TaskStatus) -> TaskRecord {
    TaskRecord { key: key.to_string(), numeric_id, created_at, status }
}

fn entry(seq: u64, op: &str, id: Option<&str>, ts: u64, node: &str, body: BodyOutcome) -> OpLogEntry {
    OpLogEntry {
        seq,
        op_type: op.to_string(),
        object_id: id.map(|s| s.to_string()),
        timestamp_ms: ts,
        node_id: node.to_string(),
        body,
    }
}

fn doc(id: &str, size: usize) -> DocumentInput {
    DocumentInput { id: id.to_string(), json_size: size, conversion: Ok(()) }
}

fn small_budget() -> MemoryBudget {
    MemoryBudget::new(MemoryBudgetConfig { max_buffer_mb: 31, max_concurrent_writers: 4, max_doc_mb: 1 })
}

// -- tasks --

#[test]
fn pending_count_only_counts_the_tenants_waiting_tasks() {
    let tasks = vec![
        task("task_shop_a", 1, 10, TaskStatus::Enqueued),
        task("task_shop_b", 2, 11, TaskStatus::Processing),
        task("task_shop_c", 3, 12, TaskStatus::Succeeded),
        task("task_shop_d", 4, 13, TaskStatus::Failed("boom".to_string())),
        task("task_shops_e", 5, 14, TaskStatus::Enqueued),
        task("1", 1, 10, TaskStatus::Enqueued),
    ];
    assert_eq!(pending_task_count(&tasks, "shop"), 2);
    assert_eq!(pending_task_count(&tasks, "shops"), 1);
    assert_eq!(pending_task_count(&tasks, "other"), 0);
}

#[test]
fn eviction_drops_oldest_to_leave_room() {
    let tasks = vec![
        task("task_t_c", 300, 30, TaskStatus::Succeeded),
        task("task_t_a", 100, 10, TaskStatus::Succeeded),
        task("task_u_x", 900, 1, TaskStatus::Succeeded),
        task("task_t_b", 200, 20, TaskStatus::Succeeded),
        task("100", 100, 10, TaskStatus::Succeeded),
    ];
    let removed = evict_old_tasks(&tasks, "t", 2);
    assert_eq!(removed, vec!["task_t_a", "100", "task_t_b", "200"]);
}

#[test]
fn eviction_below_limit_removes_nothing() {
    let tasks = vec![task("task_t_a", 1, 10, TaskStatus::Enqueued)];
    assert!(evict_old_tasks(&tasks, "t", 2).is_empty());
    assert_eq!(evict_old_tasks(&tasks, "t", 1), vec!["task_t_a", "1"]);
}

#[test]
fn eviction_ties_keep_table_order() {
    let tasks = vec![
        task("task_t_b", 2, 5, TaskStatus::Succeeded),
        task("task_t_a", 1, 5, TaskStatus::Succeeded),
        task("task_t_c", -3, 9, TaskStatus::Succeeded),
    ];
    assert_eq!(evict_old_tasks(&tasks, "t", 3), vec!["task_t_b", "2"]);
    assert_eq!(
        evict_old_tasks(&tasks, "t", 0),
        vec!["task_t_b", "2", "task_t_a", "1", "task_t_c", "-3"]
    );
}

#[test]
fn signed_decimal_text() {
    assert_eq!(i64_to_decimal(0), "0");
    assert_eq!(i64_to_decimal(1712345678901), "1712345678901");
    assert_eq!(i64_to_decimal(-42), "-42");
    assert_eq!(i64_to_decimal(i64::MIN), i64::MIN.to_string());
    assert_eq!(i64_to_decimal(i64::MAX), i64::MAX.to_string());
}

// -- last writer wins and replay --

#[test]
fn lww_table_keeps_the_latest_stamp() {
    let mut t = LwwTable::new();
    assert!(t.get("d").is_none());
    t.observe("d", 10, "n1".to_string());
    t.observe("d", 5, "n9".to_string());
    assert_eq!(t.get("d"), Some((10, "n1".to_string())));
    t.observe("d", 10, "n2".to_string());
    assert_eq!(t.get("d"), Some((10, "n2".to_string())));
    t.observe("d", 10, "n0".to_string());
    assert_eq!(t.get("d"), Some((10, "n2".to_string())));
    t.record("d", 1, "n0".to_string());
    assert_eq!(t.get("d"), Some((1, "n0".to_string())));
}

#[test]
fn rebuild_ignores_order_of_writes() {
    let entries = vec![
        entry(1, "upsert", Some("a"), 20, "n1", BodyOutcome::Converted),
        entry(2, "delete", Some("a"), 15, "n1", BodyOutcome::Absent),
        entry(3, "settings", None, 99, "n1", BodyOutcome::Absent),
        entry(4, "upsert", Some("b"), 7, "n2", BodyOutcome::Converted),
        entry(5, "delete", None, 50, "n2", BodyOutcome::Absent),
    ];
    let mut t = LwwTable::new();
    rebuild_lww(&mut t, &entries);
    assert_eq!(t.get("a"), Some((20, "n1".to_string())));
    assert_eq!(t.get("b"), Some((7, "n2".to_string())));
    assert!(t.get("c").is_none());
}

#[test]
fn committed_seq_parsing() {
    assert_eq!(parse_committed_seq(Some("42\n")), 42);
    assert_eq!(parse_committed_seq(Some("  7  ")), 7);
    assert_eq!(parse_committed_seq(Some("x")), 0);
    assert_eq!(parse_committed_seq(Some("")), 0);
    assert_eq!(parse_committed_seq(None), 0);
}

#[test]
fn replay_plan_orders_changes() {
    let entries = vec![
        entry(11, "upsert", Some("a"), 1, "n", BodyOutcome::Converted),
        entry(12, "upsert", Some("b"), 1, "n", BodyOutcome::Failed),
        entry(13, "delete", Some("c"), 1, "n", BodyOutcome::Absent),
        entry(14, "settings", None, 1, "n", BodyOutcome::Absent),
        entry(15, "clear", None, 1, "n", BodyOutcome::Absent),
        entry(16, "unknown", None, 1, "n", BodyOutcome::Absent),
        entry(17, "upsert", None, 1, "n", BodyOutcome::Converted),
    ];
    let plan = plan_replay(&entries);
    assert_eq!(
        plan.writer_ops,
        vec![
            WriterOp::DeleteTerm("a".to_string()),
            WriterOp::AddEntry(0),
            WriterOp::DeleteTerm("b".to_string()),
            WriterOp::DeleteTerm("c".to_string()),
            WriterOp::DeleteAll,
        ]
    );
    assert_eq!(plan.settings_entries, vec![3]);
    assert_eq!(plan.replayed, 4);
    assert_eq!(plan.failed, 1);
    assert_eq!(plan.new_committed_seq, Some(17));
}

#[test]
fn empty_replay_keeps_committed_seq() {
    let plan = plan_replay(&Vec::new());
    assert_eq!(plan.replayed, 0);
    assert_eq!(plan.new_committed_seq, None);
    let skipped = vec![entry(3, "noise", None, 1, "n", BodyOutcome::Absent)];
    assert_eq!(plan_replay(&skipped).new_committed_seq, None);
}

// -- write queue --

#[test]
fn write_steps() {
    let s = next_write_step(0, WriteEvent::Received { is_compact: false });
    assert!(s.queue_op && !s.commit_pending && !s.stop);
    let full = next_write_step(BATCH_SIZE - 1, WriteEvent::Received { is_compact: false });
    assert!(full.queue_op && full.commit_pending && full.reset_deadline);
    let compact = next_write_step(3, WriteEvent::Received { is_compact: true });
    assert!(!compact.queue_op && compact.commit_pending && compact.compact);
    let compact_empty = next_write_step(0, WriteEvent::Received { is_compact: true });
    assert!(!compact_empty.commit_pending && compact_empty.compact);
    let closed = next_write_step(2, WriteEvent::ChannelClosed);
    assert!(closed.commit_pending && closed.stop);
    let idle = next_write_step(0, WriteEvent::DeadlinePassed);
    assert!(!idle.commit_pending && idle.reset_deadline && !idle.stop);
}

#[test]
fn commit_plan_of_mixed_actions() {
    let op = WriteOp {
        task_id: "task_t_1".to_string(),
        actions: vec![
            WriteAction::Add(doc("a", 10)),
            WriteAction::Upsert(doc("b", 10)),
            WriteAction::UpsertNoLwwUpdate(doc("c", 10)),
            WriteAction::Delete("d".to_string()),
            WriteAction::DeleteNoLwwUpdate("e".to_string()),
            WriteAction::Compact,
            WriteAction::Add(doc("big", 2 * MIB)),
            WriteAction::Upsert(DocumentInput {
                id: "bad".to_string(),
                json_size: 5,
                conversion: Err(FlapjackError::MissingField("objectID".to_string())),
            }),
        ],
    };
    let plan = plan_commit(&op.actions, &small_budget());
    assert_eq!(plan.delete_terms, vec!["b", "c", "d", "e", "bad"]);
    assert_eq!(plan.adds, vec![0, 1, 2]);
    assert_eq!(plan.deleted_ids, vec!["d", "e"]);
    assert_eq!(plan.primary_upsert_ids, vec!["a", "b"]);
    assert_eq!(plan.primary_delete_ids, vec!["d"]);
    assert_eq!(plan.rejected.len(), 2);
    assert_eq!(plan.rejected[0].doc_id, "big");
    assert_eq!(
        plan.rejected[0].error,
        FlapjackError::DocumentTooLarge { size: 2 * MIB, max: MIB }
    );
    assert_eq!(rejection_codes(&plan.rejected), vec!["document_too_large", "missing_field"]);
    let outcome = task_outcome(plan);
    assert_eq!(outcome.indexed_documents, 5);
    assert_eq!(outcome.rejected_count, 2);
    assert_eq!(outcome.rejected_documents.len(), 2);
}

#[test]
fn task_outcome_lists_at_most_the_limit() {
    let mut actions = Vec::new();
    for i in 0..(MAX_LISTED_REJECTIONS + 5) {
        actions.push(WriteAction::Add(doc(&format!("d{}", i), 2 * MIB)));
    }
    let plan = plan_commit(&actions, &small_budget());
    let outcome = task_outcome(plan);
    assert_eq!(outcome.indexed_documents, 0);
    assert_eq!(outcome.rejected_count, MAX_LISTED_REJECTIONS + 5);
    assert_eq!(outcome.rejected_documents.len(), MAX_LISTED_REJECTIONS);
    assert_eq!(outcome.rejected_documents[0].doc_id, "d0");
}

// -- text --

#[test]
fn text_helpers() {
    let s = chars_of("  Hello World\t");
    assert_eq!(trim_chars(&s), chars_of("Hello World"));
    let words = split_whitespace_chars(&chars_of(" a  bc\nd "));
    assert_eq!(words, vec![chars_of("a"), chars_of("bc"), chars_of("d")]);
    assert_eq!(
        replace_chars(&chars_of("aXbXc"), &chars_of("X"), &chars_of("--")),
        chars_of("a--b--c")
    );
    assert_eq!(replace_chars(&chars_of("ab"), &chars_of(""), &chars_of("-")), chars_of("-a-b-"));
    assert!(chars_lt(&chars_of("abc"), &chars_of("abd")));
    assert!(chars_lt(&chars_of("ab"), &chars_of("abc")));
    assert!(!chars_lt(&chars_of("b"), &chars_of("abc")));
    assert_eq!(parse_usize_chars(&chars_of("+15")), Some(15));
    assert_eq!(parse_usize_chars(&chars_of("+")), None);
    assert_eq!(parse_u64_chars(&chars_of("18446744073709551615")), Some(u64::MAX));
    assert_eq!(parse_u64_chars(&chars_of("18446744073709551616")), None);
    assert_eq!(u64_to_decimal(0), "0");
    assert_eq!(u64_to_decimal(907), "907");
}

// -- export steps --

#[test]
fn export_steps() {
    let gone = export_step(&ExportEvent::ManagerGone);
    assert_eq!(gone.status, Some(TaskStatus::Failed("Manager dropped".to_string())));
    assert_eq!(gone.action, ExportAction::Shutdown);
    let started = export_step(&ExportEvent::Started);
    assert_eq!(started.status, Some(TaskStatus::Processing));
    assert_eq!(started.action, ExportAction::StopWriter);
    assert_eq!(export_step(&ExportEvent::WriterStopped(None)).action, ExportAction::CopyFiles);
    assert_eq!(export_step(&ExportEvent::WriterStopped(Some(StepOutcome::Done))).status, None);
    let commit_failed = export_step(&ExportEvent::WriterStopped(Some(StepOutcome::Failed("disk full".to_string()))));
    assert_eq!(commit_failed.status, Some(TaskStatus::Failed("Commit failed: disk full".to_string())));
    assert_eq!(commit_failed.action, ExportAction::NextCommand);
    let panicked = export_step(&ExportEvent::WriterStopped(Some(StepOutcome::Crashed("JoinError".to_string()))));
    assert_eq!(panicked.status, Some(TaskStatus::Failed("Write task panicked: JoinError".to_string())));
    let copied = export_step(&ExportEvent::CopyFinished(StepOutcome::Done));
    assert_eq!(copied.status, None);
    assert_eq!(copied.action, ExportAction::UnloadTenant);
    let unloaded = export_step(&ExportEvent::TenantUnloaded(StepOutcome::Done));
    assert_eq!(unloaded.status, Some(TaskStatus::Succeeded));
    assert_eq!(unloaded.action, ExportAction::NextCommand);
    let copy_failed = export_step(&ExportEvent::CopyFinished(StepOutcome::Failed("no space".to_string())));
    assert_eq!(copy_failed.status, None);
    let copy_failed = export_step(&ExportEvent::TenantUnloaded(StepOutcome::Failed("no space".to_string())));
    assert_eq!(copy_failed.status, Some(TaskStatus::Failed("Copy failed: no space".to_string())));
    let spawn_failed = export_step(&ExportEvent::TenantUnloaded(StepOutcome::Crashed("cancelled".to_string())));
    assert_eq!(spawn_failed.status, Some(TaskStatus::Failed("Spawn blocking failed: cancelled".to_string())));
}

// -- snapshots --

#[test]
fn s3_config_and_region() {
    assert!(S3Config::from_values(None, Some("eu-west-1".to_string()), None).is_none());
    let c = S3Config::from_values(Some("bkt".to_string()), None, None).unwrap();
    assert_eq!(c.bucket_name, "bkt");
    assert_eq!(c.region, "us-east-1");
    assert_eq!(c.region_choice(), RegionChoice::Named("us-east-1".to_string()));
    let m = S3Config::from_values(
        Some("bkt".to_string()),
        Some("local".to_string()),
        Some("http://minio:9000".to_string()),
    )
    .unwrap();
    assert_eq!(
        m.region_choice(),
        RegionChoice::Custom { region: "local".to_string(), endpoint: "http://minio:9000".to_string() }
    );
}

#[test]
fn snapshot_keys_sort_and_retention() {
    assert_eq!(snapshot_prefix("movies"), "snapshots/movies/");
    assert_eq!(
        snapshot_key("movies", "20240102T030405Z"),
        "snapshots/movies/20240102T030405Z.tar.gz"
    );
    let keys = vec![
        "snapshots/m/20240103T000000Z.tar.gz".to_string(),
        "snapshots/m/20240101T000000Z.tar.gz".to_string(),
        "snapshots/m/20240102T000000Z.tar.gz".to_string(),
        "snapshots/m/20240101T000000Z.tar.gz".to_string(),
    ];
    let mut expected = keys.clone();
    expected.sort();
    let sorted = sort_snapshot_keys(keys);
    assert_eq!(sorted, expected);
    assert_eq!(snapshots_to_delete(&sorted, 2), sorted[..2].to_vec());
    assert!(snapshots_to_delete(&sorted, 4).is_empty());
    assert!(snapshots_to_delete(&sorted, 9).is_empty());
    assert_eq!(snapshots_to_delete(&sorted, 0), sorted);
}
