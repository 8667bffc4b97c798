use convergio::evidence::{
    has_evidence, list_commit_matches, list_evidence, record_commit_match, record_evidence,
};
use convergio::evidence_gates::{
    default_target, run_all_gates, run_checklist_gate, run_test_gate, run_validator_gate,
};
use convergio::preflight::run_preflight;
use convergio::rows::{PlanRow, QueueRow, TaskRow, VerdictRow, WaveRow};
use convergio::store::{Moment, Store};
use convergio::types::{
    default_closure_checklist, EvidenceKind, PreflightCheck, PreflightResult,
};
use convergio::workflow::{
    check_active_waves, check_wave_completion, detect_stale_tasks, match_commit_to_task,
    find_task_refs, resolve_stale_notification,
};

const NOW: &str = "2025-01-01 00:00:00";

fn moment(secs: i64) -> Moment {
    Moment { secs, text: NOW.to_string() }
}

fn plan(db: &mut Store, id: i64) {
    assert!(db.plans.put(PlanRow {
        id,
        project_id: "proj".into(),
        name: "plan".into(),
        ..PlanRow::default()
    }));
}

fn wave(db: &mut Store, id: i64, name: &str, plan_id: i64, status: &str) {
    assert!(db.waves.put(WaveRow {
        id,
        wave_id: name.into(),
        plan_id,
        status: status.into(),
        ..WaveRow::default()
    }));
}

fn task(db: &mut Store, id: i64, plan_id: i64, wave_id: Option<i64>, status: &str) {
    assert!(db.tasks.put(TaskRow {
        id,
        plan_id,
        wave_id,
        status: status.into(),
        ..TaskRow::default()
    }));
}

fn setup() -> Store {
    let mut db = Store::new();
    plan(&mut db, 1);
    task(&mut db, 1, 1, None, "in_progress");
    db
}

fn record(db: &mut Store, kind: &str, command: &str, output: &str) {
    record_evidence(db, 1, kind, command, output, 0, NOW).unwrap();
}

// ---- kinds and checklist ----

#[test]
fn evidence_kind_roundtrip() {
    for kind in [
        EvidenceKind::TestPass,
        EvidenceKind::BuildPass,
        EvidenceKind::LintPass,
        EvidenceKind::CommitHash,
        EvidenceKind::Artifact,
        EvidenceKind::CurlOutput,
        EvidenceKind::ReviewPass,
        EvidenceKind::Document,
    ] {
        let s = kind.as_str();
        assert_eq!(EvidenceKind::parse(s), Some(kind));
    }
}

#[test]
fn evidence_kind_unknown() {
    assert_eq!(EvidenceKind::parse("unknown"), None);
}

#[test]
fn default_checklist_has_required_items() {
    let cl = default_closure_checklist();
    assert_eq!(cl.len(), 3);
    assert!(cl.iter().all(|i| i.required));
}

#[test]
fn preflight_result_failed_checks() {
    let r = PreflightResult {
        passed: false,
        checks: vec![
            PreflightCheck { name: "a".into(), passed: true, detail: "ok".into() },
            PreflightCheck { name: "b".into(), passed: false, detail: "fail".into() },
        ],
    };
    assert_eq!(r.failed_checks().len(), 1);
    assert_eq!(r.failed_checks()[0].name, "b");
}

// ---- recording ----

#[test]
fn record_and_list_evidence() {
    let mut db = setup();
    let id = record_evidence(&mut db, 1, "test_pass", "cargo test", "ok", 0, NOW).unwrap();
    assert!(id > 0);
    let records = list_evidence(&db, 1);
    assert_eq!(records.len(), 1);
    assert_eq!(records[0].evidence_type, "test_pass");
}

#[test]
fn record_evidence_unknown_type() {
    let mut db = setup();
    let err = record_evidence(&mut db, 1, "magic", "cmd", "out", 0, NOW);
    assert!(err.is_err());
    assert!(err.unwrap_err().contains("unknown"));
}

#[test]
fn record_evidence_task_not_found() {
    let mut db = setup();
    let err = record_evidence(&mut db, 999, "test_pass", "cmd", "out", 0, NOW);
    assert!(err.is_err());
    assert!(err.unwrap_err().contains("not found"));
}

#[test]
fn has_evidence_works() {
    let mut db = setup();
    assert!(!has_evidence(&db, 1, "test_pass"));
    record(&mut db, "test_pass", "cargo test", "ok");
    assert!(has_evidence(&db, 1, "test_pass"));
    assert!(!has_evidence(&db, 1, "build_pass"));
}

#[test]
fn commit_match_idempotent() {
    let mut db = setup();
    record_commit_match(&mut db, 1, "abc123", "feat: something", NOW).unwrap();
    record_commit_match(&mut db, 1, "abc123", "feat: something", NOW).unwrap();
    let matches = list_commit_matches(&db, 1);
    assert_eq!(matches.len(), 1);
}

#[test]
fn evidence_ids_run_out() {
    let mut db = setup();
    db.task_evidence.last_id = i64::MAX;
    assert_eq!(
        record_evidence(&mut db, 1, "test_pass", "c", "o", 0, NOW),
        Err("insert evidence failed: database or disk is full".to_string())
    );
    db.commit_task_matches.last_id = i64::MAX;
    assert_eq!(
        record_commit_match(&mut db, 1, "abc", "m", NOW),
        Err("record commit match failed: database or disk is full".to_string())
    );
}

#[test]
fn recorded_fields_are_read_back() {
    let mut db = setup();
    let id = record_evidence(&mut db, 1, "document", "write", "done", -7, NOW).unwrap();
    let r = &list_evidence(&db, 1)[0];
    assert_eq!((r.id, r.task_id, r.exit_code), (id, 1, -7));
    assert_eq!((r.command.as_str(), r.output_summary.as_str()), ("write", "done"));
    assert_eq!(r.created_at, NOW);
    assert!(list_evidence(&db, 2).is_empty());
    assert_eq!(
        record_evidence(&mut db, 42, "document", "", "", 0, NOW).unwrap_err(),
        "task 42 not found"
    );
    assert_eq!(
        record_evidence(&mut db, 1, "nope", "", "", 0, NOW).unwrap_err(),
        "unknown evidence_type 'nope'"
    );
}

// ---- gates ----

#[test]
fn test_gate_blocks_without_evidence() {
    let db = setup();
    let result = run_test_gate(&db, 1);
    assert!(result.is_err());
    assert_eq!(result.unwrap_err().gate, "TestGate");
}

#[test]
fn test_gate_passes_with_evidence() {
    let mut db = setup();
    record(&mut db, "test_pass", "cargo test", "ok");
    assert!(run_test_gate(&db, 1).is_ok());
}

#[test]
fn gates_validator_gate_blocks_without_verdict() {
    let db = setup();
    let result = run_validator_gate(&db, 1);
    assert!(result.is_err());
    assert_eq!(result.unwrap_err().gate, "ValidatorGate");
}

#[test]
fn validator_gate_passes_with_verdict() {
    let mut db = setup();
    db.validation_queue.put(QueueRow {
        id: 1,
        task_id: Some(1),
        status: "completed".into(),
        ..QueueRow::default()
    });
    db.validation_verdicts.put(VerdictRow { id: 1, queue_id: 1, verdict: "pass".into() });
    assert!(run_validator_gate(&db, 1).is_ok());
}

#[test]
fn checklist_gate_blocks_missing_evidence() {
    let db = setup();
    let result = run_checklist_gate(&db, 1);
    assert!(result.is_err());
    let violation = result.unwrap_err();
    assert_eq!(violation.gate, "ChecklistGate");
    assert!(violation.detail.contains("tests_passed"));
    assert_eq!(
        violation.detail,
        "missing required evidence for task 1: tests_passed, build_passed, commit_recorded"
    );
}

#[test]
fn checklist_gate_passes_with_all_evidence() {
    let mut db = setup();
    record(&mut db, "test_pass", "t", "ok");
    record(&mut db, "build_pass", "b", "ok");
    record(&mut db, "commit_hash", "abc", "");
    assert!(run_checklist_gate(&db, 1).is_ok());
}

#[test]
fn run_all_gates_submitted() {
    let mut db = setup();
    assert!(run_all_gates(&db, 1, "submitted").is_err());
    record(&mut db, "test_pass", "t", "ok");
    assert!(run_all_gates(&db, 1, "submitted").is_ok());
    assert_eq!(default_target(), "submitted");
}

#[test]
fn run_all_gates_pending_always_passes() {
    let db = setup();
    assert!(run_all_gates(&db, 1, "pending").is_ok());
}

#[test]
fn done_needs_checklist_before_verdict() {
    let mut db = setup();
    assert_eq!(run_all_gates(&db, 1, "done").unwrap_err().gate, "ChecklistGate");
    record(&mut db, "test_pass", "t", "ok");
    record(&mut db, "build_pass", "b", "ok");
    record(&mut db, "commit_hash", "abc", "");
    assert_eq!(run_all_gates(&db, 1, "done").unwrap_err().gate, "ValidatorGate");
    db.validation_queue.put(QueueRow { id: 4, task_id: Some(1), ..QueueRow::default() });
    db.validation_verdicts.put(VerdictRow { id: 1, queue_id: 4, verdict: "pass".into() });
    assert!(run_all_gates(&db, 1, "done").is_ok());
}

// ---- preflight ----

fn preflight_setup() -> Store {
    let mut db = Store::new();
    plan(&mut db, 1);
    wave(&mut db, 1, "w1", 1, "active");
    task(&mut db, 1, 1, Some(1), "pending");
    db
}

#[test]
fn preflight_passes_for_ready_task() {
    let db = preflight_setup();
    let result = run_preflight(&db, 1);
    assert!(result.passed);
    assert!(result.failed_checks().is_empty());
}

#[test]
fn preflight_fails_for_nonexistent_task() {
    let db = preflight_setup();
    let result = run_preflight(&db, 999);
    assert!(!result.passed);
    assert!(result.failed_checks().iter().any(|c| c.name == "task_exists"));
}

#[test]
fn preflight_fails_for_in_progress_task() {
    let mut db = preflight_setup();
    db.tasks.rows[0].status = "in_progress".into();
    let result = run_preflight(&db, 1);
    assert!(!result.passed);
}

#[test]
fn preflight_fails_with_incomplete_prior_wave() {
    let mut db = preflight_setup();
    wave(&mut db, 2, "w2", 1, "pending");
    task(&mut db, 2, 1, Some(2), "pending");
    let result = run_preflight(&db, 2);
    assert!(!result.passed);
    let dep_check = result.failed_checks();
    assert!(dep_check.iter().any(|c| c.name == "deps_completed"));
    assert_eq!(dep_check[0].detail, "1 tasks in prior waves still incomplete");
}

#[test]
fn preflight_passes_when_prior_wave_done() {
    let mut db = preflight_setup();
    db.tasks.rows[0].status = "done".into();
    wave(&mut db, 2, "w2", 1, "pending");
    task(&mut db, 2, 1, Some(2), "pending");
    let result = run_preflight(&db, 2);
    assert!(result.passed);
}

// ---- workflow ----

fn workflow_setup() -> Store {
    let mut db = Store::new();
    plan(&mut db, 1);
    wave(&mut db, 1, "w1", 1, "active");
    db
}

#[test]
fn wave_completion_triggers_when_all_done() {
    let mut db = workflow_setup();
    task(&mut db, 1, 1, Some(1), "done");
    task(&mut db, 2, 1, Some(1), "done");
    let completed = check_wave_completion(&mut db, 1).unwrap();
    assert!(completed);
    assert_eq!(db.validation_queue.rows.len(), 1);
    assert_eq!(db.waves.rows[0].status, "completed");
    assert!(check_wave_completion(&mut db, 1).unwrap());
    assert_eq!(db.validation_queue.rows.len(), 1);
}

#[test]
fn wave_not_complete_with_pending_tasks() {
    let mut db = workflow_setup();
    task(&mut db, 1, 1, Some(1), "done");
    task(&mut db, 2, 1, Some(1), "in_progress");
    assert!(!check_wave_completion(&mut db, 1).unwrap());
}

#[test]
fn wave_without_tasks_is_not_complete() {
    let mut db = workflow_setup();
    assert_eq!(check_wave_completion(&mut db, 1), Ok(false));
    task(&mut db, 1, 1, Some(9), "done");
    assert_eq!(
        check_wave_completion(&mut db, 9),
        Err("wave lookup failed: Query returned no rows".to_string())
    );
}

#[test]
fn active_waves_are_completed() {
    let mut db = workflow_setup();
    wave(&mut db, 2, "w2", 1, "pending");
    wave(&mut db, 3, "w3", 1, "done");
    task(&mut db, 1, 1, Some(1), "skipped");
    task(&mut db, 2, 1, Some(2), "pending");
    task(&mut db, 3, 1, Some(3), "done");
    check_active_waves(&mut db);
    let statuses: Vec<&str> = db.waves.rows.iter().map(|w| w.status.as_str()).collect();
    assert_eq!(statuses, vec!["completed", "pending", "done"]);
    assert_eq!(db.validation_queue.rows.len(), 1);
    assert_eq!(db.validation_queue.rows[0].wave_id, Some(1));
}

fn stale_setup(now: i64) -> Store {
    let mut db = workflow_setup();
    task(&mut db, 1, 1, Some(1), "in_progress");
    db.tasks.rows[0].started_at = Some(now - 120 * 60);
    db
}

#[test]
fn stale_detection_records_notification() {
    let now = 1_700_000_000;
    let mut db = stale_setup(now);
    let stale = detect_stale_tasks(&mut db, 60, &moment(now));
    assert_eq!(stale.len(), 1);
    let stale2 = detect_stale_tasks(&mut db, 60, &moment(now));
    assert!(stale2.is_empty());
}

#[test]
fn resolve_stale_allows_re_detection() {
    let now = 1_700_000_000;
    let mut db = stale_setup(now);
    detect_stale_tasks(&mut db, 60, &moment(now));
    resolve_stale_notification(&mut db, 1);
    let stale = detect_stale_tasks(&mut db, 60, &moment(now));
    assert_eq!(stale.len(), 1);
}

#[test]
fn stale_limit_is_exclusive() {
    let now = 1_700_000_000;
    let mut db = stale_setup(now);
    assert!(detect_stale_tasks(&mut db, 120, &moment(now)).is_empty());
    assert_eq!(detect_stale_tasks(&mut db, 120, &moment(now + 1)), vec![(1, String::new())]);
}

#[test]
fn negative_stale_limit_reaches_into_the_future() {
    let now = 1_700_000_000;
    let mut db = stale_setup(now);
    db.tasks.rows[0].started_at = Some(now + 59);
    assert_eq!(detect_stale_tasks(&mut db, -1, &moment(now)).len(), 1);
    resolve_stale_notification(&mut db, 1);
    db.tasks.rows[0].started_at = Some(now + 60);
    assert!(detect_stale_tasks(&mut db, -1, &moment(now)).is_empty());
}

#[test]
fn commit_matching_extracts_task_refs() {
    let mut db = workflow_setup();
    task(&mut db, 1, 1, Some(1), "pending");
    let matched = match_commit_to_task(&mut db, "abc123", "feat: implement task-1 feature", NOW);
    assert_eq!(matched, vec![1]);
    assert!(has_evidence(&db, 1, "commit_hash"));
}

#[test]
fn commit_matching_hash_ref() {
    let mut db = workflow_setup();
    task(&mut db, 1, 1, Some(1), "pending");
    let matched = match_commit_to_task(&mut db, "def456", "fix: resolve #1 bug", NOW);
    assert_eq!(matched, vec![1]);
}

#[test]
fn commit_matching_ignores_nonexistent() {
    let mut db = workflow_setup();
    let matched = match_commit_to_task(&mut db, "abc", "feat: task-999", NOW);
    assert!(matched.is_empty());
}

#[test]
fn commit_named_twice_is_evidence_twice() {
    let mut db = workflow_setup();
    task(&mut db, 1, 1, Some(1), "pending");
    let matched = match_commit_to_task(&mut db, "abc", "task-1 and #1", NOW);
    assert_eq!(matched, vec![1, 1]);
    assert_eq!(list_commit_matches(&db, 1).len(), 1);
    assert_eq!(list_evidence(&db, 1).len(), 2);
}

#[test]
fn task_references() {
    assert_eq!(find_task_refs("task-12"), vec![12]);
    assert_eq!(find_task_refs("#12"), vec![12]);
    assert_eq!(find_task_refs("#12, (task-7) and subtask-3"), vec![12, 7, 3]);
    assert_eq!(find_task_refs("#-3"), vec![-3]);
    assert_eq!(find_task_refs("##4#5"), vec![4, 5]);
    assert_eq!(find_task_refs("task-#6"), vec![6]);
    assert!(find_task_refs("task-").is_empty());
    assert!(find_task_refs("Task-12").is_empty());
    assert!(find_task_refs("#9223372036854775808").is_empty());
    assert_eq!(find_task_refs("#-9223372036854775808"), vec![i64::MIN]);
}

#[test]
fn commit_matching_reads_references_inside_words() {
    let mut db = workflow_setup();
    task(&mut db, 1, 1, Some(1), "pending");
    let matched = match_commit_to_task(&mut db, "abc123", "fix: resolve bug (#1)", NOW);
    assert_eq!(matched, vec![1]);
    assert!(match_commit_to_task(&mut db, "abc123", "fix: resolve bug (#11)", NOW).is_empty());
}

#[test]
fn renewed_notice_is_not_reported_again() {
    let now = 1_700_000_000;
    let mut db = stale_setup(now);
    assert_eq!(detect_stale_tasks(&mut db, 60, &moment(now)).len(), 1);
    resolve_stale_notification(&mut db, 1);
    assert_eq!(detect_stale_tasks(&mut db, 60, &moment(now)).len(), 1);
    assert!(detect_stale_tasks(&mut db, 60, &moment(now)).is_empty());
    assert_eq!(db.stale_task_notifications.rows.len(), 1);
    assert!(!db.stale_task_notifications.rows[0].resolved);
}
