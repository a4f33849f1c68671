use flapjack::tasks::{compact_step, CompactAction, CompactEvent, TaskStatus};

#[test]
fn compaction_starts_processing_and_counts_segments() {
    let r = compact_step(&CompactEvent::Started);
    assert_eq!(r.status, Some(TaskStatus::Processing));
    assert_eq!(r.action, CompactAction::ListSegments);
}

#[test]
fn compaction_merges_only_several_segments() {
    assert_eq!(compact_step(&CompactEvent::SegmentsListed(Ok(3))).action, CompactAction::MergeSegments);
    assert_eq!(compact_step(&CompactEvent::SegmentsListed(Ok(1))).action, CompactAction::CollectGarbage);
    assert_eq!(compact_step(&CompactEvent::SegmentsListed(Ok(0))).action, CompactAction::CollectGarbage);
}

#[test]
fn compaction_abandons_when_segments_cannot_be_counted() {
    let r = compact_step(&CompactEvent::SegmentsListed(Err("io".to_string())));
    assert_eq!(r.status, None);
    assert_eq!(r.action, CompactAction::Abort("io".to_string()));
}

#[test]
fn compaction_succeeds_after_reload() {
    assert_eq!(compact_step(&CompactEvent::Merged(None)).action, CompactAction::CollectGarbage);
    assert_eq!(compact_step(&CompactEvent::Collected(None)).action, CompactAction::ReloadReader);
    let r = compact_step(&CompactEvent::Reloaded(None));
    assert_eq!(r.status, Some(TaskStatus::Succeeded));
    assert_eq!(r.action, CompactAction::Finish);
}

#[test]
fn compaction_failure_fails_task_with_engine_error() {
    let r = compact_step(&CompactEvent::Merged(Some("merge broke".to_string())));
    assert_eq!(r.status, Some(TaskStatus::Failed("merge broke".to_string())));
    assert_eq!(r.action, CompactAction::Finish);
    let r = compact_step(&CompactEvent::Collected(Some("gc".to_string())));
    assert_eq!(r.status, Some(TaskStatus::Failed("gc".to_string())));
    let r = compact_step(&CompactEvent::Reloaded(Some("reload".to_string())));
    assert_eq!(r.status, Some(TaskStatus::Failed("reload".to_string())));
}
