use ners::tuner::{TuningLog, TuningResult};

#[test]
fn log_keeps_latest_entries() {
    let mut log = TuningLog::new(2);
    assert!(log.is_empty());
    log.record("a", TuningResult::Applied);
    log.record("b", TuningResult::Rejected);
    log.record("c", TuningResult::Applied);
    assert_eq!(log.len(), 2);
    assert_eq!(log.get(0).unwrap().action, "b");
    assert_eq!(log.get(1).unwrap().action, "c");
    assert!(log.get(2).is_none());
    assert_eq!(log.last().unwrap().result, TuningResult::Applied);
}

#[test]
fn rollback_marks_only_an_applied_last_entry_once() {
    let mut log = TuningLog::new(10);
    assert!(!log.rollback_last());
    log.record(1u32, TuningResult::Rejected);
    assert!(!log.rollback_last());
    assert_eq!(log.last().unwrap().result, TuningResult::Rejected);
    log.record(2u32, TuningResult::Applied);
    assert!(log.rollback_last());
    assert_eq!(log.last().unwrap().result, TuningResult::RolledBack);
    assert_eq!(log.last().unwrap().action, 2);
    assert_eq!(log.get(0).unwrap().result, TuningResult::Rejected);
    assert!(!log.rollback_last());
    assert_eq!(log.len(), 2);
}

#[test]
fn log_of_size_zero_keeps_the_latest() {
    let mut log = TuningLog::new(0);
    log.record('x', TuningResult::Applied);
    log.record('y', TuningResult::Applied);
    assert_eq!(log.len(), 1);
    assert_eq!(log.last().unwrap().action, 'y');
}
