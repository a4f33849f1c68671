use flapjack::memory_observer::{MemoryObserver, PressureLevel};
use flapjack::recovery::{rebuild_lww, BodyOutcome, LwwTable, OpLogEntry};
use flapjack::synonyms::{Synonym, SynonymStore};
use flapjack::write_queue::{next_write_step, WriteEvent};

fn entry(seq: u64, op: &str, id: Option<&str>, ts: u64, node: &str) -> OpLogEntry {
    OpLogEntry {
        seq,
        op_type: op.to_string(),
        object_id: id.map(|s| s.to_string()),
        timestamp_ms: ts,
        node_id: node.to_string(),
        body: BodyOutcome::Absent,
    }
}

fn regular(id: &str, words: &[&str]) -> Synonym {
    Synonym::Regular { object_id: id.to_string(), synonyms: words.iter().map(|w| w.to_string()).collect() }
}

#[test]
fn rebuild_from_a_filled_table_keeps_later_stamps() {
    let mut t = LwwTable::new();
    t.observe("a", 50, "n1".to_string());
    t.observe("b", 5, "n1".to_string());
    t.observe("c", 9, "n3".to_string());
    let entries = vec![
        entry(1, "upsert", Some("a"), 40, "n2"),
        entry(2, "upsert", Some("b"), 6, "n2"),
        entry(3, "delete", Some("d"), 1, "n2"),
    ];
    rebuild_lww(&mut t, &entries);
    assert_eq!(t.get("a"), Some((50, "n1".to_string())));
    assert_eq!(t.get("b"), Some((6, "n2".to_string())));
    assert_eq!(t.get("c"), Some((9, "n3".to_string())));
    assert_eq!(t.get("d"), Some((1, "n2".to_string())));
}

#[test]
fn write_run_commits_every_operation_in_order() {
    // Twelve ordinary operations, a compaction, one more, then the channel closes.
    let mut events = vec![WriteEvent::Received { is_compact: false }; 12];
    events.push(WriteEvent::Received { is_compact: true });
    events.push(WriteEvent::Received { is_compact: false });
    events.push(WriteEvent::ChannelClosed);
    let mut waiting: Vec<usize> = Vec::new();
    let mut committed: Vec<usize> = Vec::new();
    let mut compacted_after: Vec<usize> = Vec::new();
    let mut stopped = false;
    for (pos, ev) in events.iter().enumerate() {
        let step = next_write_step(waiting.len(), *ev);
        if step.queue_op {
            waiting.push(pos);
        }
        if step.commit_pending {
            committed.append(&mut waiting);
        }
        if step.compact {
            compacted_after.push(committed.len());
        }
        if step.stop {
            stopped = true;
            break;
        }
    }
    assert!(stopped);
    assert!(waiting.is_empty());
    let mut plain: Vec<usize> = (0..12).collect();
    plain.push(13);
    assert_eq!(committed, plain);
    assert_eq!(compacted_after, vec![12]);
}

#[test]
fn successive_synonym_pages_list_each_match_once() {
    let mut store = SynonymStore::new();
    for i in 0..7 {
        store.insert(regular(&format!("s{}", i), &["car", "auto"]));
    }
    let mut seen: Vec<String> = Vec::new();
    for page in 0..4 {
        let (hits, total) = store.search("", None, page, 3);
        assert_eq!(total, 7);
        assert!(hits.len() <= 3);
        for h in hits {
            seen.push(h.object_id().to_string());
        }
    }
    let expected: Vec<String> = (0..7).map(|i| format!("s{}", i)).collect();
    assert_eq!(seen, expected);
}

#[test]
fn synonym_insert_replaces_in_place_or_appends() {
    let mut store = SynonymStore::new();
    store.insert(regular("a", &["x"]));
    store.insert(regular("b", &["y"]));
    store.insert(regular("a", &["z"]));
    let all = store.all();
    assert_eq!(all.len(), 2);
    assert_eq!(all[0].object_id(), "a");
    assert_eq!(all[1].object_id(), "b");
    assert!(matches!(&all[0], Synonym::Regular { synonyms, .. } if synonyms == &vec!["z".to_string()]));
}

#[test]
fn forced_level_ignores_usage_and_clearing_restores_it() {
    let mut o = MemoryObserver::new(None, None, 1000, "cgroup".to_string());
    o.set_pressure_override(Some(PressureLevel::Elevated));
    assert_eq!(o.pressure_level(None, usize::MAX), PressureLevel::Elevated);
    assert_eq!(o.system_memory_limit(), (1000, "cgroup"));
    o.set_pressure_override(None);
    assert_eq!(o.pressure_level(None, 100), PressureLevel::Normal);
    assert_eq!(o.system_memory_limit(), (1000, "cgroup"));
}
