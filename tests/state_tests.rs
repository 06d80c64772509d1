use oxide_flow::backend::{LockAttempt, MemoryBackend, LOCK_RETRY_DELAY_MS};
use oxide_flow::backend::BackupType;
use oxide_flow::repair::{apply_fixes, newest_backup, plan_repair, repair_result, validation_of, BackupInfo, RepairAction, HOUR_MS};
use oxide_flow::state::{ErrorRecord, ErrorType, PipelineState, PipelineStatus, StateError, StepState, StepStatus};
use oxide_flow::manager::{after_save_failure, SaveRetry, StateManagerConfig};
use oxide_flow::cache::{cleanup_cutoff, summarize_storage, swept, StateCache};
use oxide_flow::repair::{backup_checksum, integrity_report, FileCheck};

fn s(x: &str) -> String {
    x.to_string()
}

fn now_ms() -> i64 {
    chrono::Utc::now().timestamp_millis()
}

#[test]
fn test_pipeline_state_creation() {
    let state = PipelineState::new("test_pipeline".to_string(), "run_123".to_string());
    assert_eq!(state.pipeline_id, "test_pipeline");
    assert_eq!(state.run_id, "run_123");
    assert_eq!(state.version, 1);
    assert_eq!(state.records_processed, 0);
    assert_eq!(state.status, PipelineStatus::Pending);
    assert!(state.step_states.is_empty());
    assert!(state.errors.is_empty());
}

#[test]
fn test_pipeline_state_version_increment() {
    let mut state = PipelineState::new_at("test".to_string(), "run".to_string(), 1_000);
    let initial_version = state.version;
    let initial_updated_at = state.metadata.updated_at;
    state.increment_version_at(1_010);
    assert_eq!(state.version, initial_version + 1);
    assert!(state.metadata.updated_at > initial_updated_at);
}

#[test]
fn test_step_state_lifecycle() {
    let mut step = StepState::new("step_1".to_string(), "read_file".to_string());
    assert_eq!(step.step_id, "step_1");
    assert_eq!(step.step_name, "read_file");
    assert_eq!(step.status, StepStatus::Pending);
    step.start();
    assert!(step.is_running());
    assert!(!step.is_completed());
    assert!(!step.is_failed());
    step.complete();
    assert!(!step.is_running());
    assert!(step.is_completed());
    assert!(!step.is_failed());
}

#[test]
fn test_step_state_failure() {
    let mut step = StepState::new("step_1".to_string(), "parse_json".to_string());
    step.start();
    step.fail("Invalid JSON format".to_string());
    assert!(!step.is_running());
    assert!(!step.is_completed());
    assert!(step.is_failed());
    assert_eq!(step.error_count, 1);
}

#[test]
fn test_error_record_creation() {
    let error = ErrorRecord::config_error("Missing required field".to_string(), "pipeline validation".to_string());
    assert!(error.error_id.len() > 0);
    assert_eq!(error.step_id, None);
    assert_eq!(error.error_type, ErrorType::Configuration);
    assert!(!error.retryable);
    let processing_error = ErrorRecord::processing_error(
        "step_1".to_string(),
        "Data transformation failed".to_string(),
        "invalid data format".to_string(),
        true,
    );
    assert_eq!(processing_error.step_id, Some("step_1".to_string()));
    assert_eq!(processing_error.error_type, ErrorType::Processing);
    assert!(processing_error.retryable);
}

#[test]
fn test_pipeline_state_add_error() {
    let mut state = PipelineState::new("test".to_string(), "run".to_string());
    let initial_version = state.version;
    let error = ErrorRecord::config_error("Test error".to_string(), "Unit test".to_string());
    state.add_error(error);
    assert_eq!(state.errors.len(), 1);
    assert_eq!(state.version, initial_version + 1);
    assert_eq!(state.errors[0].message, "Test error");
}

#[test]
fn test_state_staleness() {
    let mut state = PipelineState::new("test".to_string(), "run".to_string());
    assert!(!state.is_stale(1000));
    state.last_heartbeat = now_ms() - 10_000;
    assert!(state.is_stale(5000));
    assert!(!state.is_stale(15000));
}

#[test]
fn validation_rules() {
    let now = 1_000_000;
    let mut state = PipelineState::new_at(s("p"), s("r"), now - 10);
    assert!(state.validate_at(now).is_ok());
    state.status = PipelineStatus::Running { started_at: now - 10 };
    let errs = state.validate_at(now).unwrap_err();
    assert_eq!(errs, vec![s("Running pipeline must have a current step")]);
    state.current_step = s("a");
    state.status = PipelineStatus::Completed { completed_at: now + 5 };
    assert!(state.validate_at(now).is_err());
    state.status = PipelineStatus::Pending;
    let mut step = StepState::new_at(s("a"), s("read_file"), now);
    step.complete_at(now);
    state.step_states.push(step);
    let errs = state.validate_at(now).unwrap_err();
    assert_eq!(errs, vec![s("Completed step 'a' should have processing metrics")]);
    let empty = PipelineState::new_at(s(""), s(""), now);
    assert_eq!(empty.validate_at(now).unwrap_err().len(), 2);
}

#[test]
fn save_keeps_versions_increasing() {
    let mut b = MemoryBackend::new();
    let st = PipelineState::new_at(s("orders"), s("r"), 5);
    assert!(b.save_state(st).is_ok());
    let loaded = b.load_state("orders").unwrap().clone();
    assert_eq!(loaded.version, 1);
    // Saving what was just loaded changes nothing.
    match b.save_state(loaded.clone()) {
        Err(StateError::VersionConflict { expected, actual }) => {
            assert_eq!(expected, 1);
            assert_eq!(actual, 1);
        }
        other => panic!("unexpected {:?}", other),
    }
    let mut next = loaded;
    next.increment_version_at(6);
    assert!(b.save_state(next).is_ok());
    assert_eq!(b.load_state("orders").unwrap().version, 2);
    assert!(matches!(b.load_state("unknown"), Err(StateError::PipelineNotFound { pipeline_id }) if pipeline_id == "unknown"));
    assert_eq!(b.list_pipelines(), vec![s("orders")]);
    b.delete_state("orders").unwrap();
    assert!(b.load_state("orders").is_err());
    assert!(b.list_pipelines().is_empty());
}

#[test]
fn lock_contention_scenario() {
    let mut b = MemoryBackend::new();
    let t0 = 1_000_000;
    match b.acquire_lock_attempt("orders", "A", 30_000, t0, 0) {
        LockAttempt::Acquired(l) => {
            assert_eq!(l.worker_id, "A");
            assert_eq!(l.expires_at, Some(t0 + 30_000));
        }
        other => panic!("unexpected {:?}", other),
    }
    // B waits: retries until its 100 ms are used up.
    assert!(matches!(b.acquire_lock_attempt("orders", "B", 100, t0 + 10, 10), LockAttempt::Retry { delay_ms } if delay_ms == LOCK_RETRY_DELAY_MS));
    match b.acquire_lock_attempt("orders", "B", 100, t0 + 100, 100) {
        LockAttempt::Failed(StateError::LockTimeout { timeout_ms }) => assert_eq!(timeout_ms, 100),
        other => panic!("unexpected {:?}", other),
    }
    // Only the holder releases.
    match b.release_lock("orders", "B") {
        Err(StateError::LockAlreadyHeld { worker_id }) => assert_eq!(worker_id, "A"),
        other => panic!("unexpected {:?}", other),
    }
    assert_eq!(b.is_locked("orders", t0 + 200).unwrap().worker_id, "A");
    b.release_lock("orders", "A").unwrap();
    assert!(b.is_locked("orders", t0 + 200).is_none());
    assert!(matches!(b.acquire_lock_attempt("orders", "B", 1000, t0 + 300, 0), LockAttempt::Acquired(_)));
    assert_eq!(b.is_locked("orders", t0 + 300).unwrap().worker_id, "B");
    // Releasing a lock that is not there is no error.
    assert!(b.release_lock("nothing", "A").is_ok());
}

#[test]
fn zero_timeout_gives_up_on_first_contested_probe() {
    let mut b = MemoryBackend::new();
    assert!(matches!(b.acquire_lock_attempt("p", "A", 5_000, 0, 0), LockAttempt::Acquired(_)));
    assert!(matches!(b.acquire_lock_attempt("p", "B", 0, 1, 0), LockAttempt::Failed(StateError::LockTimeout { timeout_ms: 0 })));
}

#[test]
fn lapsed_lock_is_cleared_by_probe() {
    let mut b = MemoryBackend::new();
    assert!(matches!(b.acquire_lock_attempt("p", "A", 50, 0, 0), LockAttempt::Acquired(_)));
    assert!(b.is_locked("p", 50).is_some());
    assert!(b.is_locked("p", 51).is_none());
    // It is gone for good: a later probe at an earlier time sees nothing.
    assert!(b.is_locked("p", 10).is_none());
    assert!(matches!(b.acquire_lock_attempt("p", "B", 50, 60, 0), LockAttempt::Acquired(_)));
    b.force_release_lock("p").unwrap();
    assert!(b.is_locked("p", 61).is_none());
}

#[test]
fn stale_runs_are_found() {
    let mut b = MemoryBackend::new();
    let mut old = PipelineState::new_at(s("old"), s("r"), 0);
    old.last_heartbeat = 0;
    let fresh = PipelineState::new_at(s("fresh"), s("r"), 9_000);
    b.save_state(old).unwrap();
    b.save_state(fresh).unwrap();
    assert_eq!(b.find_stale_pipelines(5_000, 10_000), vec![s("old")]);
    assert!(b.find_stale_pipelines(20_000, 10_000).is_empty());
}

#[test]
fn save_retry_schedule() {
    assert_eq!(after_save_failure(0, 3), SaveRetry::Retry { retries: 1, delay_ms: 100 });
    assert_eq!(after_save_failure(1, 3), SaveRetry::Retry { retries: 2, delay_ms: 200 });
    assert_eq!(after_save_failure(2, 3), SaveRetry::Retry { retries: 3, delay_ms: 400 });
    assert_eq!(after_save_failure(3, 3), SaveRetry::GiveUp);
    assert_eq!(after_save_failure(0, 0), SaveRetry::GiveUp);
    assert_eq!(after_save_failure(70, 100), SaveRetry::Retry { retries: 71, delay_ms: u64::MAX });
    let c = StateManagerConfig::default_config();
    assert!(c.worker_id.starts_with("worker_"));
    assert_eq!(c.worker_id.len(), 43);
    assert_eq!(c.max_retries, 3);
}

fn backup(id: &str, at: i64) -> BackupInfo {
    BackupInfo {
        backup_id: s(id),
        pipeline_id: s("orders"),
        created_at: at,
        file_size_bytes: 10,
        backup_type: BackupType::Automatic,
        state_version: 1,
    }
}

#[test]
fn repair_from_backup_scenario() {
    let now = 5_000_000;
    // A truncated file does not parse.
    let v = validation_of(Err(s("EOF while parsing")), 0, now, now);
    assert!(v.corruption_detected);
    assert!(!v.valid);
    // The defensive copy just taken is the newest; the prior backup is restored.
    let backups = vec![backup("backup_prior", now - 1000), backup("backup_defensive", now)];
    let action = plan_repair(&v, &backups, &Some(s("backup_defensive")));
    assert_eq!(action, RepairAction::RestoreBackup(0));
    let result = repair_result(Some(s("backup_defensive")), vec![s("Restored from backup: backup_prior")], v.validation_errors.clone(), false);
    assert!(result.success);
    assert!(!result.manual_intervention_required);
    assert!(result.backup_created);
    // Without an earlier backup, a person has to step in.
    let only = vec![backup("backup_defensive", now)];
    assert_eq!(plan_repair(&v, &only, &Some(s("backup_defensive"))), RepairAction::ManualIntervention);
    assert_eq!(newest_backup(&backups, &None), Some(1));
}

#[test]
fn repair_fixes_fields() {
    let now = 10 * HOUR_MS;
    let mut st = PipelineState::new_at(s(""), s(""), now + 1000);
    st.version = 0;
    st.last_heartbeat = now + 1000;
    let v = validation_of(Ok(&st), 100, now, now);
    assert!(!v.valid && !v.corruption_detected);
    assert_eq!(plan_repair(&v, &vec![], &None), RepairAction::FixFields);
    let notes = apply_fixes(&mut st, "orders", s("repaired_1"), now);
    assert_eq!(st.pipeline_id, "orders");
    assert_eq!(st.run_id, "repaired_1");
    assert_eq!(st.version, 1);
    assert_eq!(st.started_at, now - HOUR_MS);
    assert_eq!(st.last_heartbeat, now + 1000);
    assert_eq!(notes.len(), 4);
    let fixed = validation_of(Ok(&st), 100, now, now);
    assert!(!fixed.corruption_detected);
}

#[test]
fn cache_evicts_least_recently_used() {
    let mut c = StateCache::new(2);
    c.store(PipelineState::new_at(s("a"), s("r"), 0), 10);
    c.store(PipelineState::new_at(s("b"), s("r"), 0), 20);
    assert_eq!(c.get("a", 30).unwrap().pipeline_id, "a");
    // "b" is now the least recently used and makes room for "c".
    c.store(PipelineState::new_at(s("c"), s("r"), 0), 40);
    assert_eq!(c.len(), 2);
    assert!(c.get("b", 50).is_none());
    assert!(c.get("a", 60).is_some());
    assert!(c.get("c", 70).is_some());
    // Replacing an entry evicts nothing.
    let mut newer = PipelineState::new_at(s("c"), s("r"), 0);
    newer.version = 5;
    c.store(newer, 80);
    assert_eq!(c.len(), 2);
    assert_eq!(c.get("c", 90).unwrap().version, 5);
    c.invalidate("a");
    assert!(c.get("a", 100).is_none());
    c.clear();
    assert_eq!(c.len(), 0);
    let mut none = StateCache::new(0);
    none.store(PipelineState::new_at(s("x"), s("r"), 0), 1);
    assert_eq!(none.len(), 0);
}

#[test]
fn integrity_sweep_tallies() {
    let checks = vec![
        (s("states/a.json"), FileCheck::Checked { pipeline_id: s("a"), corruption_detected: false, checksum_match: true }),
        (s("states/b.json"), FileCheck::Checked { pipeline_id: s("b"), corruption_detected: true, checksum_match: false }),
        (s("states/c.json"), FileCheck::Missing),
        (s("states/d.json"), FileCheck::PermissionDenied),
        (s("states/e.json"), FileCheck::Failed),
    ];
    let r = integrity_report(&checks);
    assert_eq!(r.total_files_checked, 5);
    assert_eq!(r.corrupted_files, vec![s("states/b.json"), s("states/e.json")]);
    assert_eq!(r.missing_files, vec![s("states/c.json")]);
    assert_eq!(r.permission_errors, vec![s("states/d.json")]);
    assert!(r.checksum_mismatches.is_empty());
    assert_eq!(r.total_issues, 4);
    assert!(r.total_issues <= r.total_files_checked);
    assert_eq!(r.repair_recommendations[0], "Run repair on pipeline: b");
    assert_eq!(r.repair_recommendations.len(), 4);
    // One corrupt file out of one is one issue, not two.
    let one = integrity_report(&vec![(
        s("states/x.json"),
        FileCheck::Checked { pipeline_id: s("x"), corruption_detected: true, checksum_match: false },
    )]);
    assert_eq!(one.total_issues, 1);
    let mismatch = integrity_report(&vec![(
        s("states/y.json"),
        FileCheck::Checked { pipeline_id: s("y"), corruption_detected: false, checksum_match: false },
    )]);
    assert_eq!(mismatch.checksum_mismatches, vec![s("states/y.json")]);
    let clean = integrity_report(&vec![]);
    assert_eq!(clean.total_issues, 0);
    assert!(clean.repair_recommendations.is_empty());
}

#[test]
fn backup_checksum_is_md5_hex() {
    assert_eq!(backup_checksum(&b"hello".to_vec()), "5d41402abc4b2a76b9719d911017c592");
}

#[test]
fn cleanup_drops_lapsed_locks_and_old_states() {
    let mut b = MemoryBackend::new();
    b.save_state(PipelineState::new_at(s("a"), s("r"), 0)).unwrap();
    assert!(matches!(b.acquire_lock_attempt("a", "w", 10, 0, 0), LockAttempt::Acquired(_)));
    assert!(matches!(b.acquire_lock_attempt("b", "w", 1000, 0, 0), LockAttempt::Acquired(_)));
    let r = b.cleanup(1, 100);
    assert_eq!(r.expired_locks_removed, 1);
    assert_eq!(r.total_states_checked, 1);
    assert_eq!(r.stale_states_removed, 0);
    assert!(b.is_locked("a", 5).is_none());
    assert_eq!(b.is_locked("b", 100).unwrap().worker_id, "w");
    assert!(b.load_state("a").is_ok());
    // With no age allowed, a state last updated before now is swept.
    let r = b.cleanup(0, 100);
    assert_eq!(r.stale_states_removed, 1);
    assert!(b.load_state("a").is_err());
}

#[test]
fn memory_validation() {
    let mut b = MemoryBackend::new();
    let mut st = PipelineState::new_at(s("v"), s("r"), 100);
    st.status = PipelineStatus::Running { started_at: 100 };
    b.save_state(st).unwrap();
    let v = b.validate_state("v", 200).unwrap();
    assert!(!v.valid);
    assert!(!v.corruption_detected);
    assert_eq!(v.validation_errors, vec![s("Running pipeline must have a current step")]);
    assert!(matches!(b.validate_state("w", 200), Err(StateError::PipelineNotFound { .. })));
}

#[test]
fn pipeline_initialization() {
    let c = StateManagerConfig::with_worker(s("worker_7"));
    let st = c.initialize_pipeline(s("orders"), None, 42);
    assert_eq!(st.pipeline_id, "orders");
    assert_eq!(st.run_id.len(), 36);
    assert_eq!(st.worker_id.as_deref(), Some("worker_7"));
    assert_eq!(st.version, 1);
    let named = c.initialize_pipeline(s("orders"), Some(s("run-9")), 42);
    assert_eq!(named.run_id, "run-9");
}

#[test]
fn storage_summary_and_diagnostics() {
    let sum = summarize_storage(&vec![(10, 5), (30, 2), (20, 9)]);
    assert_eq!(sum.count, 3);
    assert_eq!(sum.total_bytes, 60);
    assert_eq!(sum.average_bytes, 20);
    assert_eq!(sum.oldest, Some(2));
    assert_eq!(sum.newest, Some(9));
    let none = summarize_storage(&vec![]);
    assert_eq!(none.average_bytes, 0);
    assert!(none.oldest.is_none());
    let mut b = MemoryBackend::new();
    b.save_state(PipelineState::new_at(s("ab"), s("r"), 100)).unwrap();
    b.save_state(PipelineState::new_at(s("cde"), s("r"), 50)).unwrap();
    assert!(matches!(b.acquire_lock_attempt("ab", "w", 10, 0, 0), LockAttempt::Acquired(_)));
    let d = b.get_diagnostics();
    assert_eq!(d.backend_type, "memory");
    assert_eq!(d.total_states, 2);
    assert_eq!(d.total_locks, 1);
    let base = std::mem::size_of::<PipelineState>() as u64;
    assert_eq!(d.storage.total_bytes, 2 * base + 7);
    assert_eq!(d.storage.oldest, Some(50));
    assert_eq!(d.storage.newest, Some(100));
    assert_eq!(PipelineState::new_at(s("ab"), s("r"), 0).estimated_memory_usage(), base + 3);
}

#[test]
fn cleanup_cutoff_and_sweep() {
    assert_eq!(cleanup_cutoff(10 * 3_600_000, 2), 8 * 3_600_000);
    assert_eq!(cleanup_cutoff(i64::MIN + 5, 1), i64::MIN);
    assert!(swept(Some(1), 2));
    assert!(!swept(Some(2), 2));
    assert!(!swept(None, 2));
}

#[test]
fn pipelines_are_listed_in_ascending_order() {
    let mut b = MemoryBackend::new();
    for id in ["zeta", "alpha", "mid", "Alpha", "al"] {
        b.save_state(PipelineState::new_at(s(id), s("r"), 0)).unwrap();
    }
    assert_eq!(b.list_pipelines(), vec![s("Alpha"), s("al"), s("alpha"), s("mid"), s("zeta")]);
}

#[test]
fn test_state_memory_estimation() {
    let state = PipelineState::new("test_pipeline".to_string(), "run_123".to_string());
    let memory_usage = state.estimated_memory_usage();
    assert!(memory_usage > 100);
    assert!(memory_usage < 10000);
}

#[test]
fn validation_counts_each_broken_rule() {
    let now = 1_000;
    let mut st = PipelineState::new_at(s(""), s(""), now);
    st.version = 0;
    st.last_heartbeat = now - 1;
    let mut step = StepState::new_at(s("a"), s("n"), now);
    step.complete_at(now + 5);
    st.step_states.push(step);
    // empty ids (2), version 0, completed step without metrics and in the future (2), heartbeat before start
    assert_eq!(st.validate_at(now).unwrap_err().len(), 6);
    let mut early = PipelineState::new_at(s("p"), s("r"), now);
    let mut step = StepState::new_at(s("b"), s("n"), now);
    step.start_at(now - 10);
    early.step_states.push(step);
    assert_eq!(early.validate_at(now).unwrap_err(), vec![s("Step 'b' start time cannot be before pipeline start")]);
}
