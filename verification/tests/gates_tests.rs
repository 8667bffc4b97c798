use convergio::concurrency_gates::{
    extract_pr_url, task_lock_gate, update_task_lock, wave_pr_dedup_gate,
};
use convergio::file_conflict_gate::{
    file_conflict_check, find_file_conflicts, get_claimed_files, overlapping, shared_files, Claim,
};
use convergio::gates::{
    check_task_transition, evidence_gate, has_pr_or_commit, import_gate, plan_status_gate,
    pr_commit_gate, start_gate, test_gate, validator_gate, wave_sequence_gate, BranchPolicy,
    GateError,
};
use convergio::rows::{PlanRow, QueueRow, TaskRow, VerdictRow, WaveRow};
use convergio::store::Store;
use convergio::types::EvidenceRecord;

fn plan(db: &mut Store, id: i64, status: &str) {
    assert!(db.plans.put(PlanRow { id, status: status.into(), ..PlanRow::default() }));
}

fn wave(db: &mut Store, id: i64, plan_id: i64, status: &str) {
    assert!(db.waves.put(WaveRow { id, plan_id, status: status.into(), ..WaveRow::default() }));
}

fn task(db: &mut Store, id: i64, plan_id: i64, wave_id: Option<i64>, status: &str) {
    assert!(db.tasks.put(TaskRow {
        id,
        plan_id,
        wave_id,
        status: status.into(),
        ..TaskRow::default()
    }));
}

fn noted(db: &mut Store, id: i64, wave_id: Option<i64>, notes: &str) {
    assert!(db.tasks.put(TaskRow {
        id,
        plan_id: 1,
        wave_id,
        notes: Some(notes.into()),
        ..TaskRow::default()
    }));
}

fn evidence(db: &mut Store, task_id: i64, kind: &str) {
    let id = db.task_evidence.last_id + 1;
    assert!(db.task_evidence.put(EvidenceRecord {
        id,
        task_id,
        evidence_type: kind.into(),
        ..EvidenceRecord::default()
    }));
}

fn verdict(db: &mut Store, verdict: &str) {
    db.validation_queue.put(QueueRow { id: 1, task_id: Some(1), ..QueueRow::default() });
    db.validation_verdicts.put(VerdictRow { id: 1, queue_id: 1, verdict: verdict.into() });
}

fn setup_db() -> Store {
    let mut db = Store::new();
    plan(&mut db, 1, "todo");
    plan(&mut db, 2, "in_progress");
    task(&mut db, 1, 1, None, "pending");
    db
}

fn open_policy() -> BranchPolicy {
    BranchPolicy { spec_compliance: Ok(()), direct_to_main: false, wave_branch: Ok(()) }
}

fn refusal(gate: &'static str) -> Result<(), GateError> {
    Err(GateError { gate, reason: "no".into(), expected: "yes".into() })
}

#[test]
fn import_gate_allows_todo() {
    let db = setup_db();
    assert!(import_gate(&db, 1).is_ok());
}

#[test]
fn import_gate_blocks_in_progress() {
    let db = setup_db();
    assert!(import_gate(&db, 2).is_err());
    assert_eq!(
        import_gate(&db, 2).unwrap_err().message(),
        "[ImportGate] cannot add tasks to plan in status 'in_progress'"
    );
    assert_eq!(import_gate(&db, 3).unwrap_err().reason, "plan not found");
}

#[test]
fn start_gate_allows_with_tasks() {
    let db = setup_db();
    assert!(start_gate(&db, 1).is_ok());
}

#[test]
fn start_gate_blocks_without_tasks() {
    let db = setup_db();
    assert!(start_gate(&db, 2).is_err());
}

#[test]
fn has_pr_or_commit_matches_pr_url() {
    assert!(has_pr_or_commit("See https://github.com/Roberdan/convergio/pull/163"));
}

#[test]
fn has_pr_or_commit_matches_commit_hash() {
    assert!(has_pr_or_commit("Fixed in 03d11a3"));
    assert!(has_pr_or_commit("abcdef1234567890abcdef1234567890abcdef12"));
}

#[test]
fn has_pr_or_commit_rejects_empty() {
    assert!(!has_pr_or_commit(""));
    assert!(!has_pr_or_commit("just some notes"));
    assert!(!has_pr_or_commit("abc12")); // too short
}

#[test]
fn commit_hashes_in_punctuation() {
    assert!(has_pr_or_commit("(03D11A3)."));
    assert!(!has_pr_or_commit("abcdef1234567890abcdef1234567890abcdef123"));
    assert!(!has_pr_or_commit("03d1-1a3"));
    assert!(!has_pr_or_commit("github.com/ only"));
}

#[test]
fn pr_commit_gate_blocks_without_reference() {
    let mut db = setup_db();
    noted(&mut db, 10, None, "no ref here");
    let err = pr_commit_gate(&db, 10).unwrap_err();
    assert_eq!(err.gate, "PrCommitGate");
    assert!(err.expected.contains("github.com"));
}

#[test]
fn pr_commit_gate_passes_with_pr_url() {
    let mut db = setup_db();
    noted(&mut db, 11, None, "https://github.com/Roberdan/convergio/pull/163");
    assert!(pr_commit_gate(&db, 11).is_ok());
}

#[test]
fn wave_sequence_allows_first_wave() {
    let mut db = setup_db();
    wave(&mut db, 1, 1, "in_progress");
    task(&mut db, 20, 1, Some(1), "pending");
    assert!(wave_sequence_gate(&db, 20).is_ok());
}

#[test]
fn wave_sequence_blocks_when_predecessor_incomplete() {
    let mut db = setup_db();
    wave(&mut db, 10, 1, "in_progress");
    wave(&mut db, 11, 1, "pending");
    task(&mut db, 30, 1, Some(10), "pending");
    task(&mut db, 31, 1, Some(11), "pending");
    let err = wave_sequence_gate(&db, 31).unwrap_err();
    assert_eq!(err.gate, "WaveSequenceGate");
    assert!(err.expected.contains("done"));
    assert_eq!(
        err.reason,
        "wave 10 has 1 incomplete tasks — cannot start task 31 in wave 11"
    );
}

#[test]
fn wave_sequence_allows_when_predecessor_done() {
    let mut db = setup_db();
    wave(&mut db, 10, 1, "done");
    wave(&mut db, 11, 1, "pending");
    task(&mut db, 30, 1, Some(10), "done");
    task(&mut db, 31, 1, Some(11), "pending");
    assert!(wave_sequence_gate(&db, 31).is_ok());
}

#[test]
fn declared_dependency_comes_before_sequence() {
    let mut db = setup_db();
    wave(&mut db, 10, 1, "in_progress");
    wave(&mut db, 11, 1, "in_progress");
    wave(&mut db, 12, 1, "pending");
    db.waves.rows[0].wave_id = "W1".into();
    db.waves.rows[1].wave_id = "W2".into();
    db.waves.rows[2].wave_id = "W3".into();
    task(&mut db, 30, 1, Some(10), "done");
    task(&mut db, 31, 1, Some(11), "pending");
    task(&mut db, 32, 1, Some(12), "pending");
    assert!(wave_sequence_gate(&db, 32).is_err());
    db.waves.rows[2].depends_on_wave = Some("W1".into());
    assert!(wave_sequence_gate(&db, 32).is_ok());
    db.waves.rows[2].depends_on_wave = Some("W9".into());
    assert!(wave_sequence_gate(&db, 32).is_err());
    assert_eq!(wave_sequence_gate(&db, 99).unwrap_err().reason, "task 99 not found");
}

#[test]
fn evidence_gate_blocks_without_evidence() {
    let db = setup_db();
    let err = evidence_gate(&db, 1).unwrap_err();
    assert_eq!(err.gate, "EvidenceGate");
    assert!(err.expected.contains("cvg_record_evidence"));
}

#[test]
fn evidence_gate_passes_with_evidence() {
    let mut db = setup_db();
    evidence(&mut db, 1, "test_result");
    assert!(evidence_gate(&db, 1).is_ok());
}

#[test]
fn test_gate_blocks_without_test_pass() {
    let mut db = setup_db();
    evidence(&mut db, 1, "test_result");
    let err = test_gate(&db, 1).unwrap_err();
    assert_eq!(err.gate, "TestGate");
    assert!(err.expected.contains("test_pass"));
}

#[test]
fn test_gate_passes_with_test_pass() {
    let mut db = setup_db();
    evidence(&mut db, 1, "test_pass");
    assert!(test_gate(&db, 1).is_ok());
}

#[test]
fn gates_tests_validator_gate_blocks_without_verdict() {
    let db = setup_db();
    let err = validator_gate(&db, 1).unwrap_err();
    assert_eq!(err.gate, "ValidatorGate");
    assert!(err.expected.contains("cvg_validate_plan"));
}

#[test]
fn validator_gate_passes_with_pass_verdict() {
    let mut db = setup_db();
    verdict(&mut db, "pass");
    assert!(validator_gate(&db, 1).is_ok());
}

#[test]
fn validator_gate_blocks_with_fail_verdict() {
    let mut db = setup_db();
    verdict(&mut db, "fail");
    assert!(validator_gate(&db, 1).is_err());
}

#[test]
fn plan_status_gate_names_the_status() {
    let mut db = setup_db();
    task(&mut db, 5, 2, None, "pending");
    task(&mut db, 6, 77, None, "pending");
    assert!(plan_status_gate(&db, 5).is_ok());
    assert_eq!(
        plan_status_gate(&db, 1).unwrap_err().reason,
        "plan 1 is 'todo', not 'in_progress' — task transitions blocked"
    );
    assert_eq!(plan_status_gate(&db, 6).unwrap_err().reason, "task 6 or its plan not found");
}

// ---- transitions ----

fn transition_db() -> Store {
    let mut db = Store::new();
    plan(&mut db, 1, "in_progress");
    task(&mut db, 1, 1, None, "pending");
    db
}

fn submit(db: &Store) -> Result<(), GateError> {
    check_task_transition(db, 1, "submitted", open_policy(), false)
}

#[test]
fn transition_to_submitted_checks_all_gates() {
    let mut db = transition_db();

    // No evidence → EvidenceGate blocks
    let result = submit(&db);
    assert!(result.is_err());
    assert_eq!(result.unwrap_err().gate, "EvidenceGate");

    // Add evidence but no test_pass → TestGate blocks
    evidence(&mut db, 1, "test_result");
    let result = submit(&db);
    assert!(result.is_err());
    assert_eq!(result.unwrap_err().gate, "TestGate");

    // Add test_pass but no PR → PrCommitGate blocks
    evidence(&mut db, 1, "test_pass");
    let result = submit(&db);
    assert!(result.is_err());
    assert_eq!(result.unwrap_err().gate, "PrCommitGate");

    // Add PR URL in notes → passes all
    db.tasks.rows[0].notes = Some("PR https://github.com/Roberdan/convergio/pull/177".into());
    assert!(submit(&db).is_ok());
}

#[test]
fn transition_to_done_requires_validator() {
    let mut db = transition_db();

    // No verdict → blocks
    assert!(check_task_transition(&db, 1, "done", open_policy(), false).is_err());

    // Add pass verdict → allows
    verdict(&mut db, "pass");
    assert!(check_task_transition(&db, 1, "done", open_policy(), false).is_ok());
}

#[test]
fn transition_asks_for_compliance_and_branch() {
    let mut db = transition_db();
    evidence(&mut db, 1, "test_pass");
    let strict = BranchPolicy { spec_compliance: refusal("Spec"), ..open_policy() };
    let r = check_task_transition(&db, 1, "submitted", strict, false);
    assert_eq!(r.unwrap_err().gate, "Spec");
    let direct = BranchPolicy {
        direct_to_main: true,
        wave_branch: refusal("Branch"),
        ..open_policy()
    };
    assert!(check_task_transition(&db, 1, "submitted", direct, false).is_ok());
    db.tasks.rows[0].notes = Some("03d11a3".into());
    let branch = BranchPolicy { wave_branch: refusal("Branch"), ..open_policy() };
    let r = check_task_transition(&db, 1, "submitted", branch, false);
    assert_eq!(r.unwrap_err().gate, "Branch");
    assert!(check_task_transition(&db, 1, "paused", open_policy(), true).is_ok());
}

#[test]
fn transition_to_in_progress_blocks_on_files() {
    let mut db = transition_db();
    task(&mut db, 2, 1, None, "in_progress");
    db.tasks.rows[0].claimed_files = Some("[\"a.rs\"]".into());
    db.tasks.rows[1].claimed_files = Some("[\"a.rs\"]".into());
    assert!(check_task_transition(&db, 1, "in_progress", open_policy(), false).is_ok());
    let r = check_task_transition(&db, 1, "in_progress", open_policy(), true);
    assert_eq!(r.unwrap_err().gate, "FileConflictGate");
    db.plans.rows[0].status = "paused".into();
    let r = check_task_transition(&db, 1, "in_progress", open_policy(), true);
    assert_eq!(r.unwrap_err().gate, "PlanStatusGate");
}

// ---- pull requests and locks ----

#[test]
fn extract_pr_url_works() {
    assert_eq!(
        extract_pr_url("PR https://github.com/org/repo/pull/42 done"),
        Some("https://github.com/org/repo/pull/42".into())
    );
    assert_eq!(extract_pr_url("no pr here"), None);
}

#[test]
fn one_pull_request_per_wave() {
    let mut db = setup_db();
    noted(&mut db, 10, Some(1), "PR https://github.com/o/r/pull/1");
    noted(&mut db, 11, Some(1), "PR https://github.com/o/r/pull/1");
    assert!(wave_pr_dedup_gate(&db, 10).is_ok());
    noted(&mut db, 12, Some(1), "PR https://github.com/o/r/pull/2");
    let err = wave_pr_dedup_gate(&db, 10).unwrap_err();
    assert_eq!(
        err.reason,
        "task 10 PR 'https://github.com/o/r/pull/1' conflicts with task 12 PR \
         'https://github.com/o/r/pull/2' — wave requires one PR"
    );
    assert_eq!(
        err.expected,
        "all tasks in wave 1 must use the same PR. Use 'https://github.com/o/r/pull/2' or \
         batch-complete via cvg_wave_complete"
    );
    noted(&mut db, 13, Some(1), "nothing yet");
    assert!(wave_pr_dedup_gate(&db, 13).is_ok());
    noted(&mut db, 14, None, "PR https://github.com/o/r/pull/9");
    assert!(wave_pr_dedup_gate(&db, 14).is_ok());
    assert_eq!(wave_pr_dedup_gate(&db, 99).unwrap_err().reason, "task 99 not found");
}

#[test]
fn task_lock_keeps_other_agents_out() {
    let mut db = setup_db();
    assert!(task_lock_gate(&db, 1, Some("a")).is_ok());
    update_task_lock(&mut db, 1, "in_progress", "a");
    assert!(task_lock_gate(&db, 1, Some("a")).is_ok());
    assert!(task_lock_gate(&db, 1, None).is_ok());
    assert!(task_lock_gate(&db, 1, Some("")).is_ok());
    let err = task_lock_gate(&db, 1, Some("b")).unwrap_err();
    assert_eq!(err.reason, "task 1 is locked by agent 'a' — agent 'b' cannot claim it");
    update_task_lock(&mut db, 1, "submitted", "a");
    assert!(task_lock_gate(&db, 1, Some("b")).is_ok());
    assert_eq!(db.tasks.rows[0].locked_by.as_deref(), Some(""));
}

// ---- file conflicts ----

fn claiming(db: &mut Store, id: i64, title: &str, status: &str, files: &str) {
    assert!(db.tasks.put(TaskRow {
        id,
        title: title.into(),
        status: status.into(),
        claimed_files: Some(files.into()),
        ..TaskRow::default()
    }));
}

#[test]
fn no_conflict_when_no_overlap() {
    let mut db = Store::new();
    claiming(&mut db, 1, "a", "in_progress", "[\"x.rs\"]");
    claiming(&mut db, 2, "b", "pending", "[\"y.rs\"]");
    assert!(file_conflict_check(&db, 2, false).is_ok());
    assert!(file_conflict_check(&db, 2, true).is_ok());
}

#[test]
fn warns_on_overlap() {
    let mut db = Store::new();
    claiming(&mut db, 1, "a", "in_progress", "[\"shared.rs\"]");
    claiming(&mut db, 2, "b", "pending", "[\"shared.rs\"]");
    // WARN mode (default) — should pass
    assert!(file_conflict_check(&db, 2, false).is_ok());
}

#[test]
fn blocking_names_the_files() {
    let mut db = Store::new();
    claiming(&mut db, 1, "a", "in_progress", "[\"x\\\"y\",\"z\"]");
    claiming(&mut db, 2, "b", "pending", "[\"z\",\"x\\\"y\",\"q\"]");
    claiming(&mut db, 3, "c", "in_progress", "[\"q\"]");
    let text = "task 2 overlaps with: task 1 (a) on [\"z\", \"x\\\"y\"]; task 3 (c) on [\"q\"]";
    assert_eq!(find_file_conflicts(&db, 2), Some(text.to_string()));
    let err = file_conflict_check(&db, 2, true).unwrap_err();
    assert_eq!(err.reason, text);
    claiming(&mut db, 4, "d", "pending", "not json");
    assert!(get_claimed_files(&db, 4).is_empty());
    assert!(file_conflict_check(&db, 4, true).is_ok());
    assert_eq!(get_claimed_files(&db, 2), vec!["z", "x\"y", "q"]);
}

#[test]
fn overlaps_keep_the_order_of_mine() {
    let mine = vec!["c".to_string(), "a".to_string(), "b".to_string()];
    let theirs = vec!["a".to_string(), "c".to_string()];
    assert_eq!(shared_files(&mine, &theirs), vec!["c", "a"]);
    let claims = vec![
        Claim { task_id: 7, title: "t".into(), files: vec!["x".into()] },
        Claim { task_id: 8, title: "u".into(), files: vec!["b".into()] },
    ];
    let found = overlapping(&mine, &claims);
    assert_eq!(found.len(), 1);
    assert_eq!((found[0].task_id, found[0].files.len()), (8, 1));
}
