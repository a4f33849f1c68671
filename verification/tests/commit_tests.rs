use flapjack::memory::{MemoryBudget, MemoryBudgetConfig};
use flapjack::recovery::LwwTable;
use flapjack::tasks::TaskStatus;
use flapjack::write_queue::{plan_commit, record_commit_stamps, settle_commit, DocumentInput, WriteAction};

fn doc(id: &str) -> DocumentInput {
    DocumentInput { id: id.to_string(), json_size: 10, conversion: Ok(()) }
}

fn budget() -> MemoryBudget {
    MemoryBudget::new(MemoryBudgetConfig { max_buffer_mb: 31, max_concurrent_writers: 4, max_doc_mb: 1 })
}

fn actions() -> Vec<WriteAction> {
    vec![
        WriteAction::Add(doc("a")),
        WriteAction::UpsertNoLwwUpdate(doc("c")),
        WriteAction::Delete("d".to_string()),
    ]
}

#[test]
fn committed_task_succeeds_under_id_and_alias() {
    let plan = plan_commit(&actions(), &budget());
    let (keys, record) = settle_commit("task_t_7", Some(42), plan);
    assert_eq!(keys, vec!["task_t_7".to_string(), "42".to_string()]);
    assert_eq!(record.status, TaskStatus::Succeeded);
    assert_eq!(record.indexed_documents, 3);
    assert_eq!(record.rejected_count, 0);
    let plan = plan_commit(&actions(), &budget());
    let (keys, _) = settle_commit("task_t_8", None, plan);
    assert_eq!(keys, vec!["task_t_8".to_string(), "task_t_8".to_string()]);
}

#[test]
fn commit_stamps_only_primary_writes() {
    let plan = plan_commit(&actions(), &budget());
    let mut t = LwwTable::new();
    t.record("c", 1, "old".to_string());
    record_commit_stamps(&mut t, &plan, 500, "node-1");
    assert_eq!(t.get("a"), Some((500, "node-1".to_string())));
    assert_eq!(t.get("d"), Some((500, "node-1".to_string())));
    assert_eq!(t.get("c"), Some((1, "old".to_string())));
}
