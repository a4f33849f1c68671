use flapjack::error::{classify_error, FlapjackError};
use flapjack::memory::{parse_setting, MemoryBudget, MemoryBudgetConfig, MIB};
use flapjack::memory_observer::{select_memory_limit, MemoryObserver, PressureLevel};

fn budget(buffer_mb: usize, writers: usize, doc_mb: usize) -> MemoryBudget {
    MemoryBudget::new(MemoryBudgetConfig {
        max_buffer_mb: buffer_mb,
        max_concurrent_writers: writers,
        max_doc_mb: doc_mb,
    })
}

#[test]
fn config_defaults() {
    let c = MemoryBudgetConfig::default();
    assert_eq!(c.max_buffer_mb, 31);
    assert_eq!(c.max_concurrent_writers, 40);
    assert_eq!(c.max_doc_mb, 3);
    assert_eq!(c.to_bytes(), (31 * MIB, 40, 3 * MIB));
}

#[test]
fn config_from_values_falls_back_on_unparsable_text() {
    let c = MemoryBudgetConfig::from_values(Some("64"), Some("abc"), None);
    assert_eq!(c.max_buffer_mb, 64);
    assert_eq!(c.max_concurrent_writers, 40);
    assert_eq!(c.max_doc_mb, 3);
    let d = MemoryBudgetConfig::from_values(Some(""), Some("+7"), Some("-1"));
    assert_eq!(d, MemoryBudgetConfig { max_buffer_mb: 31, max_concurrent_writers: 7, max_doc_mb: 3 });
}

#[test]
fn parse_setting_cases() {
    assert_eq!(parse_setting(Some("12"), 5), 12);
    assert_eq!(parse_setting(Some(" 12"), 5), 5);
    assert_eq!(parse_setting(Some("99999999999999999999999"), 5), 5);
    assert_eq!(parse_setting(None, 5), 5);
}

#[test]
fn acquire_until_full_then_refuse() {
    let mut b = budget(31, 2, 3);
    let g1 = b.acquire_writer().unwrap();
    let _g2 = b.acquire_writer().unwrap();
    assert_eq!(b.active_writers(), 2);
    let refused = b.acquire_writer();
    assert_eq!(
        refused.unwrap_err(),
        FlapjackError::TooManyConcurrentWrites { current: 3, max: 2 }
    );
    assert_eq!(b.active_writers(), 2);
    b.release_writer(g1);
    assert_eq!(b.active_writers(), 1);
    assert!(b.acquire_writer().is_ok());
    assert_eq!(b.max_concurrent_writers(), 2);
}

#[test]
fn acquire_then_release_restores_the_count() {
    let mut b = budget(31, 40, 3);
    let before = b.active_writers();
    let g = b.acquire_writer().unwrap();
    b.release_writer(g);
    assert_eq!(b.active_writers(), before);
}

#[test]
fn reset_forgets_writers() {
    let mut b = budget(31, 40, 3);
    let _g = b.acquire_writer().unwrap();
    b.reset_for_test();
    assert_eq!(b.active_writers(), 0);
}

#[test]
fn buffer_size_validation() {
    let b = budget(1, 1, 1);
    assert_eq!(b.validate_buffer_size(MIB), Ok(MIB));
    assert_eq!(
        b.validate_buffer_size(MIB + 1),
        Err(FlapjackError::BufferSizeExceeded { requested: MIB + 1, max: MIB })
    );
}

#[test]
fn document_size_validation() {
    let b = budget(1, 1, 2);
    assert_eq!(b.validate_document_size(2 * MIB), Ok(()));
    assert_eq!(
        b.validate_document_size(2 * MIB + 1),
        Err(FlapjackError::DocumentTooLarge { size: 2 * MIB + 1, max: 2 * MIB })
    );
}

#[test]
fn error_codes() {
    assert_eq!(classify_error(&FlapjackError::FieldNotFound("f".into())), "field_not_found");
    assert_eq!(
        classify_error(&FlapjackError::TypeMismatch { field: "f".into(), expected: "int".into() }),
        "type_mismatch"
    );
    assert_eq!(classify_error(&FlapjackError::MissingField("id".into())), "missing_field");
    assert_eq!(
        classify_error(&FlapjackError::DocumentTooLarge { size: 2, max: 1 }),
        "document_too_large"
    );
    assert_eq!(classify_error(&FlapjackError::QueueFull), "validation_error");
    assert_eq!(classify_error(&FlapjackError::InvalidDocument("x".into())), "validation_error");
}

#[test]
fn memory_limit_prefers_env_then_cgroup_then_system() {
    assert_eq!(
        select_memory_limit(Some("512"), Some("1000"), Some(2000)),
        (512 * MIB, "env".to_string())
    );
    assert_eq!(
        select_memory_limit(None, Some(" 1000\n"), Some(2000)),
        (1000, "cgroup".to_string())
    );
    assert_eq!(
        select_memory_limit(Some("lots"), Some("max\n"), Some(2000)),
        (2000, "sysinfo".to_string())
    );
    assert_eq!(select_memory_limit(None, None, Some(0)), (0, "unknown".to_string()));
    assert_eq!(select_memory_limit(None, Some("garbage"), None), (0, "unknown".to_string()));
}

#[test]
fn observer_defaults_and_limits() {
    let o = MemoryObserver::new(None, Some("95"), 1000, "cgroup".to_string());
    assert_eq!(o.system_memory_limit(), (1000, "cgroup"));
    assert_eq!(o.effective_limit(None), (1000, "cgroup".to_string()));
    assert_eq!(o.effective_limit(Some("2")), (2 * MIB, "env".to_string()));
    let s = o.stats(None, 500);
    assert_eq!(s.high_watermark_pct, 80);
    assert_eq!(s.critical_pct, 95);
    assert_eq!(s.heap_allocated_bytes, 500);
    assert_eq!(s.system_limit_bytes, 1000);
    assert_eq!(s.limit_source, "cgroup");
    assert_eq!(s.allocator, "system");
    assert_eq!(MemoryObserver::allocator_name(), "system");
}

#[test]
fn pressure_levels_follow_usage() {
    let o = MemoryObserver::new(None, None, 1000, "sysinfo".to_string());
    assert_eq!(o.pressure_level(None, 0), PressureLevel::Normal);
    assert_eq!(o.pressure_level(None, 799), PressureLevel::Normal);
    assert_eq!(o.pressure_level(None, 800), PressureLevel::Elevated);
    assert_eq!(o.pressure_level(None, 899), PressureLevel::Elevated);
    assert_eq!(o.pressure_level(None, 900), PressureLevel::Critical);
    assert_eq!(o.pressure_level(None, 5000), PressureLevel::Critical);
    let unknown = MemoryObserver::new(None, None, 0, "unknown".to_string());
    assert_eq!(unknown.pressure_level(None, 5000), PressureLevel::Normal);
}

#[test]
fn forced_pressure_level_wins_until_cleared() {
    let mut o = MemoryObserver::new(None, None, 1000, "sysinfo".to_string());
    o.set_pressure_override(Some(PressureLevel::Critical));
    assert_eq!(o.pressure_level(None, 0), PressureLevel::Critical);
    o.set_pressure_override(Some(PressureLevel::Normal));
    assert_eq!(o.pressure_level(None, 999), PressureLevel::Normal);
    o.set_pressure_override(None);
    assert_eq!(o.pressure_level(None, 999), PressureLevel::Critical);
    assert_eq!(o.stats(None, 999).pressure_level, PressureLevel::Critical);
}

#[test]
fn pressure_level_names() {
    assert_eq!(PressureLevel::Normal.name(), "normal");
    assert_eq!(PressureLevel::Elevated.name(), "elevated");
    assert_eq!(PressureLevel::Critical.name(), "critical");
}

#[test]
fn reserve_writer_checks_size_before_slots() {
    let mut b = budget(1, 1, 1);
    assert_eq!(
        b.reserve_writer(MIB + 1).unwrap_err(),
        FlapjackError::BufferSizeExceeded { requested: MIB + 1, max: MIB }
    );
    assert_eq!(b.active_writers(), 0);
    let (size, g) = b.reserve_writer(MIB).unwrap();
    assert_eq!(size, MIB);
    assert_eq!(b.active_writers(), 1);
    assert_eq!(
        b.reserve_writer(10).unwrap_err(),
        FlapjackError::TooManyConcurrentWrites { current: 2, max: 1 }
    );
    assert_eq!(
        b.reserve_writer(MIB + 1).unwrap_err(),
        FlapjackError::BufferSizeExceeded { requested: MIB + 1, max: MIB }
    );
    b.release_writer(g);
    assert_eq!(b.active_writers(), 0);
}
