use convergio::approval::{
    approve, create_approval, get_approval, list_pending, needs_approval, reject, ThresholdRule,
};
use convergio::artifact_bundle::{
    add_to_bundle, create_bundle, get_bundle_with_artifacts, list_bundles, update_bundle_status,
};
use convergio::artifacts::{
    get_artifact, list_artifacts, list_task_artifacts, record_artifact, record_artifact_full,
};
use convergio::audit::{log_status_change, task_history};
use convergio::compensation::{
    build_compensation_plan, execute_compensation, execute_compensation_plan,
    execute_wave_compensations, get_single, get_wave_compensations, list_compensations,
    record_compensation,
};
use convergio::evaluation::{
    count_review_outcomes, default_evaluator, default_limit, list_evaluations,
    list_review_outcomes, record_evaluation, record_review_outcome, sum_evaluated_tasks,
    EvaluationRow,
};
use convergio::evidence::list_evidence;
use convergio::rows::{PlanRow, TaskRow, WaveRow};
use convergio::store::{Store, StoreError};
use convergio::uploads::{
    plan_upload, record_upload, sanitize_filename, UploadError, UploadForm,
};

const NOW: &str = "2025-01-01 00:00:00";

fn setup() -> Store {
    let mut db = Store::new();
    db.plans.put(PlanRow {
        id: 1,
        project_id: "proj-alpha".into(),
        name: "Report Plan".into(),
        ..PlanRow::default()
    });
    db.tasks.put(TaskRow {
        id: 10,
        plan_id: 1,
        status: "in_progress".into(),
        ..TaskRow::default()
    });
    db
}

// ---- approvals ----

#[test]
fn test_create_and_approve() {
    let mut db = Store::new();
    let id = create_approval(&mut db, 1, None, "deploy", "alice", "production release", NOW)
        .unwrap();
    assert!(id > 0);
    let req = get_approval(&db, id).unwrap();
    assert_eq!(req.status, "pending");

    approve(&mut db, id, "bob", NOW).unwrap();
    let req = get_approval(&db, id).unwrap();
    assert_eq!(req.status, "approved");
    assert_eq!(req.reviewer.as_deref(), Some("bob"));
}

#[test]
fn test_create_and_reject() {
    let mut db = Store::new();
    let id = create_approval(&mut db, 2, Some(5), "budget_exceed", "carol", "over limit", NOW)
        .unwrap();
    reject(&mut db, id, "dave", "too expensive", NOW).unwrap();
    let req = get_approval(&db, id).unwrap();
    assert_eq!(req.status, "rejected");
    assert_eq!(req.review_comment.as_deref(), Some("too expensive"));
}

#[test]
fn test_list_pending() {
    let mut db = Store::new();
    create_approval(&mut db, 1, None, "deploy", "a", "r1", NOW).unwrap();
    create_approval(&mut db, 1, None, "wave", "b", "r2", NOW).unwrap();
    let id3 = create_approval(&mut db, 1, None, "budget", "c", "r3", NOW).unwrap();
    approve(&mut db, id3, "d", NOW).unwrap();

    let pending = list_pending(&db);
    assert_eq!(pending.len(), 2);
}

#[test]
fn pending_requests_are_listed_by_age() {
    let mut db = Store::new();
    create_approval(&mut db, 1, None, "a", "x", "", "2025-01-03").unwrap();
    create_approval(&mut db, 1, None, "b", "x", "", "2025-01-01").unwrap();
    create_approval(&mut db, 1, None, "c", "x", "", "2025-01-02").unwrap();
    let kinds: Vec<String> = list_pending(&db).into_iter().map(|a| a.approval_type).collect();
    assert_eq!(kinds, vec!["b", "c", "a"]);
}

#[test]
fn requests_are_decided_once() {
    let mut db = Store::new();
    let id = create_approval(&mut db, 1, None, "deploy", "a", "r", NOW).unwrap();
    approve(&mut db, id, "bob", "t1").unwrap();
    assert_eq!(reject(&mut db, id, "eve", "no", "t2"), Err(StoreError::NoRows));
    assert_eq!(approve(&mut db, 99, "bob", NOW), Err(StoreError::NoRows));
    let req = get_approval(&db, id).unwrap();
    assert_eq!((req.status.as_str(), req.reviewed_at.as_deref()), ("approved", Some("t1")));
    assert_eq!(StoreError::NoRows.message(), "Query returned no rows");
    assert!(get_approval(&db, 99).is_none());
    db.approval_requests.last_id = i64::MAX;
    assert_eq!(
        create_approval(&mut db, 1, None, "d", "a", "r", NOW),
        Err(StoreError::Full)
    );
    assert_eq!(StoreError::Full.message(), "database or disk is full");
}

#[test]
fn test_threshold_check() {
    // The comparison of a value with the floor is the caller's.
    fn check(floor: Option<f64>, value: f64) -> bool {
        needs_approval(floor.map(|f| ThresholdRule {
            require_approval: true,
            below_floor: value < f,
        }))
    }
    // No threshold set — should return false
    assert!(!check(None, 100.0));

    // Set threshold: require approval >= 50, auto-approve below 10
    let floor = Some(10.0);
    assert!(!check(floor, 5.0));
    assert!(check(floor, 50.0));
    assert!(check(floor, 75.0));
    // Between auto_approve_below and threshold — needs approval
    assert!(check(floor, 25.0));
    assert!(!needs_approval(Some(ThresholdRule { require_approval: false, below_floor: false })));
}

// ---- artifacts ----

#[test]
fn test_record_and_list_artifacts() {
    let mut db = setup();
    let id1 = record_artifact(&mut db, 10, 1, "quarterly.pdf", "pdf", "1/quarterly.pdf", 4096, NOW)
        .unwrap();
    let id2 = record_artifact(&mut db, 10, 1, "summary.md", "document", "1/summary.md", 1024, NOW)
        .unwrap();
    assert!(id1 > 0);
    assert!(id2 > id1);

    let arts = list_artifacts(&db, 1);
    assert_eq!(arts.len(), 2);
    assert_eq!(arts[0].name, "quarterly.pdf");
    assert_eq!(arts[1].name, "summary.md");
}

#[test]
fn test_list_task_artifacts() {
    let mut db = setup();
    db.tasks.put(TaskRow { id: 20, plan_id: 1, ..TaskRow::default() });
    record_artifact(&mut db, 10, 1, "report.pdf", "pdf", "1/report.pdf", 2048, NOW).unwrap();
    record_artifact(&mut db, 20, 1, "chart.png", "screenshot", "1/chart.png", 8192, NOW).unwrap();

    let task10 = list_task_artifacts(&db, 10);
    assert_eq!(task10.len(), 1);
    assert_eq!(task10[0].name, "report.pdf");

    let task20 = list_task_artifacts(&db, 20);
    assert_eq!(task20.len(), 1);
    assert_eq!(task20[0].name, "chart.png");
}

#[test]
fn test_get_artifact_by_id() {
    let mut db = setup();
    let id = record_artifact(&mut db, 10, 1, "deck.pptx", "bundle", "1/deck.pptx", 51200, NOW)
        .unwrap();
    let art = get_artifact(&db, id).unwrap();
    assert_eq!(art.name, "deck.pptx");
    assert_eq!(art.size_bytes, 51200);

    assert!(get_artifact(&db, 9999).is_none());
}

#[test]
fn artifacts_keep_type_and_hash() {
    let mut db = setup();
    let id = record_artifact_full(
        &mut db,
        10,
        1,
        "a",
        "pdf",
        "1/a",
        1,
        Some("application/pdf"),
        Some("00ff"),
        NOW,
    )
    .unwrap();
    let art = get_artifact(&db, id).unwrap();
    assert_eq!(art.mime_type.as_deref(), Some("application/pdf"));
    assert_eq!(art.content_hash.as_deref(), Some("00ff"));
}

// ---- bundles ----

#[test]
fn test_create_and_list_bundles() {
    let mut db = setup();
    let id1 = create_bundle(&mut db, 1, "Q4 Deliverable", "deliverable", NOW).unwrap();
    let id2 = create_bundle(&mut db, 1, "Evidence Pack", "evidence-pack", NOW).unwrap();
    assert!(id1 > 0);
    assert!(id2 > id1);

    let bundles = list_bundles(&db, 1);
    assert_eq!(bundles.len(), 2);
    assert_eq!(bundles[0].name, "Q4 Deliverable");
    assert_eq!(bundles[1].bundle_type, "evidence-pack");
    assert_eq!(bundles[0].status, "draft");
}

#[test]
fn test_add_artifact_to_bundle() {
    let mut db = setup();
    let bundle_id = create_bundle(&mut db, 1, "Report Bundle", "deliverable", NOW).unwrap();
    let art_id = record_artifact(&mut db, 10, 1, "report.pdf", "pdf", "1/report.pdf", 4096, NOW)
        .unwrap();
    add_to_bundle(&mut db, bundle_id, art_id);
    // Idempotent — second insert should not fail
    add_to_bundle(&mut db, bundle_id, art_id);

    let (_, ids) = get_bundle_with_artifacts(&db, bundle_id).unwrap();
    assert_eq!(ids, vec![art_id]);
}

#[test]
fn test_bundle_status_transition() {
    let mut db = setup();
    let id = create_bundle(&mut db, 1, "Final Report", "report", NOW).unwrap();
    assert_eq!(list_bundles(&db, 1)[0].status, "draft");

    update_bundle_status(&mut db, id, "reviewed", NOW);
    let (b, _) = get_bundle_with_artifacts(&db, id).unwrap();
    assert_eq!(b.status, "reviewed");
    assert!(b.published_at.is_none());

    update_bundle_status(&mut db, id, "published", NOW);
    let (b, _) = get_bundle_with_artifacts(&db, id).unwrap();
    assert_eq!(b.status, "published");
    assert!(b.published_at.is_some());
}

#[test]
fn test_get_bundle_with_artifacts() {
    let mut db = setup();
    let bundle_id = create_bundle(&mut db, 1, "Mixed Pack", "deliverable", NOW).unwrap();
    let a1 = record_artifact(&mut db, 10, 1, "doc.pdf", "pdf", "1/doc.pdf", 1024, NOW).unwrap();
    let a2 = record_artifact(
        &mut db,
        10,
        1,
        "screenshot.png",
        "image",
        "1/screenshot.png",
        2048,
        NOW,
    )
    .unwrap();
    add_to_bundle(&mut db, bundle_id, a1);
    add_to_bundle(&mut db, bundle_id, a2);

    let (bundle, ids) = get_bundle_with_artifacts(&db, bundle_id).unwrap();
    assert_eq!(bundle.name, "Mixed Pack");
    assert_eq!(ids.len(), 2);
    assert!(ids.contains(&a1));
    assert!(ids.contains(&a2));

    // Non-existent bundle
    assert!(get_bundle_with_artifacts(&db, 9999).is_none());
}

#[test]
fn bundle_ids_ascend() {
    let mut db = setup();
    let id = create_bundle(&mut db, 1, "B", "deliverable", NOW).unwrap();
    for a in [5, 1, 9, 3] {
        add_to_bundle(&mut db, id, a);
    }
    assert_eq!(get_bundle_with_artifacts(&db, id).unwrap().1, vec![1, 3, 5, 9]);
}

// ---- audit ----

#[test]
fn log_inserts_record() {
    let mut db = Store::new();
    log_status_change(&mut db, 1, "pending", "in_progress", "agent-a", None, NOW);
    let count = db.task_status_log.rows.iter().filter(|l| l.task_id == 1).count();
    assert_eq!(count, 1);
}

#[test]
fn log_preserves_fields() {
    let mut db = Store::new();
    log_status_change(&mut db, 42, "in_progress", "submitted", "bot-x", Some("PR #99"), NOW);
    let rows = task_history(&db, 42);
    let row = &rows[0];
    assert_eq!(row.old_status, "in_progress");
    assert_eq!(row.new_status, "submitted");
    assert_eq!(row.agent, "bot-x");
    assert_eq!(row.notes.as_deref(), Some("PR #99"));
}

// ---- compensation ----

fn compensation_setup() -> Store {
    let mut db = Store::new();
    db.plans.put(PlanRow {
        id: 1,
        project_id: "p1".into(),
        name: "Plan Alpha".into(),
        ..PlanRow::default()
    });
    db.waves.put(WaveRow {
        id: 1,
        wave_id: "W1".into(),
        plan_id: 1,
        name: "Wave 1".into(),
        status: "in_progress".into(),
        ..WaveRow::default()
    });
    for (id, title, status) in [(10, "Build API", "done"), (11, "Write tests", "submitted")] {
        db.tasks.put(TaskRow {
            id,
            plan_id: 1,
            wave_id: Some(1),
            title: title.into(),
            status: status.into(),
            ..TaskRow::default()
        });
    }
    db
}

#[test]
fn test_record_and_list() {
    let mut db = compensation_setup();
    let id = record_compensation(&mut db, 1, 1, 10, "revert_commit", "abc123", NOW).unwrap();
    assert!(id > 0);
    let all = list_compensations(&db, 1);
    assert_eq!(all.len(), 1);
    assert_eq!(all[0].action_type, "revert_commit");
    assert_eq!(all[0].target, "abc123");
}

#[test]
fn test_build_compensation_plan() {
    let mut db = compensation_setup();
    let plan = build_compensation_plan(&mut db, 1, "wave failed", NOW).unwrap();
    assert_eq!(plan.plan_id, 1);
    assert_eq!(plan.wave_id, 1);
    assert_eq!(plan.actions.len(), 2);
    assert!(plan.actions.iter().all(|a| a.status == "pending"));
    assert_eq!(plan.trigger_reason, "wave failed");
    assert_eq!(plan.actions[1].target, "Write tests");
    execute_compensation_plan(&mut db, &plan, NOW);
    assert!(get_wave_compensations(&db, 1).iter().all(|a| a.status == "completed"));
}

#[test]
fn test_execute_marks_completed() {
    let mut db = compensation_setup();
    let id = record_compensation(&mut db, 1, 1, 10, "notify", "Build API", NOW).unwrap();
    execute_compensation(&mut db, id, NOW);
    let action = get_single(&db, id).unwrap();
    assert_eq!(action.status, "completed");
    assert!(action.completed_at.is_some());
}

#[test]
fn test_get_wave_compensations() {
    let mut db = compensation_setup();
    record_compensation(&mut db, 1, 1, 10, "notify", "task A", NOW).unwrap();
    record_compensation(&mut db, 1, 1, 11, "notify", "task B", NOW).unwrap();
    let wave_actions = get_wave_compensations(&db, 1);
    assert_eq!(wave_actions.len(), 2);
}

#[test]
fn pending_actions_of_a_wave_are_carried_out() {
    let mut db = compensation_setup();
    record_compensation(&mut db, 1, 1, 10, "notify", "a", NOW).unwrap();
    let other = record_compensation(&mut db, 1, 2, 10, "notify", "b", NOW).unwrap();
    assert_eq!(execute_wave_compensations(&mut db, 1, NOW), 1);
    assert_eq!(execute_wave_compensations(&mut db, 1, NOW), 0);
    assert_eq!(get_single(&db, other).unwrap().status, "pending");
    assert_eq!(get_single(&db, 77).unwrap_err(), StoreError::NoRows);
    assert_eq!(
        build_compensation_plan(&mut db, 9, "r", NOW).unwrap_err(),
        StoreError::NoRows
    );
    db.compensation_actions.last_id = i64::MAX - 1;
    assert_eq!(build_compensation_plan(&mut db, 1, "r", NOW).unwrap_err(), StoreError::Full);
    assert_eq!(db.compensation_actions.rows.len(), 3);
}

// ---- evaluation ----

fn sample_eval(plan_id: i64) -> EvaluationRow {
    EvaluationRow {
        id: 0,
        plan_id,
        evaluator: "system".to_string(),
        tasks_total: 10,
        tasks_completed: 8,
        tasks_failed: 2,
        false_positives: 1,
        false_negatives: 1,
        total_duration_secs: 3600,
        evaluated_at: String::new(),
    }
}

#[test]
fn test_record_and_list_evaluation() {
    let mut db = Store::new();
    let eval = sample_eval(1);
    let id = record_evaluation(&mut db, &eval, NOW).unwrap();
    assert!(id > 0);

    let list = list_evaluations(&db, Some(1), 10);
    assert_eq!(list.len(), 1);
    assert_eq!(list[0].plan_id, 1);
    assert_eq!(list[0].tasks_total, 10);

    // Different plan_id should not appear
    let _ = record_evaluation(&mut db, &sample_eval(2), NOW).unwrap();
    let list1 = list_evaluations(&db, Some(1), 10);
    assert_eq!(list1.len(), 1);
    let all = list_evaluations(&db, None, 10);
    assert_eq!(all.len(), 2);
}

#[test]
fn evaluations_are_limited_to_the_latest() {
    let mut db = Store::new();
    for (plan, at) in [(1, "2025-01-01"), (2, "2025-01-03"), (3, "2025-01-02")] {
        record_evaluation(&mut db, &sample_eval(plan), at).unwrap();
    }
    let plans: Vec<i64> = list_evaluations(&db, None, 2).iter().map(|e| e.plan_id).collect();
    assert_eq!(plans, vec![2, 3]);
    assert!(list_evaluations(&db, None, 0).is_empty());
    assert_eq!(default_limit(), 50);
    assert_eq!(default_evaluator(), "system");
}

#[test]
fn test_compute_thor_accuracy() {
    let mut db = Store::new();
    // 3 correct approvals, 1 false positive, 1 false negative
    record_review_outcome(&mut db, 1, 1, "approved", "success", NOW).unwrap();
    record_review_outcome(&mut db, 1, 2, "approved", "success", NOW).unwrap();
    record_review_outcome(&mut db, 1, 3, "approved", "success", NOW).unwrap();
    record_review_outcome(&mut db, 1, 4, "approved", "failure", NOW).unwrap();
    record_review_outcome(&mut db, 1, 5, "rejected", "success", NOW).unwrap();

    let acc = count_review_outcomes(&db);
    assert_eq!(acc.total_reviews, 5);
    assert_eq!(acc.correct_approvals, 3);
    assert_eq!(acc.correct_rejections, 0);
    assert_eq!(acc.false_positives, 1);
    assert_eq!(acc.false_negatives, 1);
    let (tp, fp, fneg) = (
        acc.correct_approvals as f64,
        acc.false_positives as f64,
        acc.false_negatives as f64,
    );
    let (precision, recall) = (tp / (tp + fp), tp / (tp + fneg));
    // precision = 3/(3+1) = 0.75
    assert!((precision - 0.75).abs() < 0.001);
    // recall = 3/(3+1) = 0.75
    assert!((recall - 0.75).abs() < 0.001);
    // f1 = 2*0.75*0.75/(0.75+0.75) = 0.75
    let f1 = 2.0 * precision * recall / (precision + recall);
    assert!((f1 - 0.75).abs() < 0.001);
}

#[test]
fn test_planner_success_rate() {
    fn rate(db: &Store) -> f64 {
        match sum_evaluated_tasks(db) {
            Some((c, t)) if t > 0 => c as f64 / t as f64,
            _ => 0.0,
        }
    }
    let mut db = Store::new();
    // No data: rate should be 0
    assert!((rate(&db) - 0.0).abs() < 0.001);

    let _ = record_evaluation(&mut db, &sample_eval(1), NOW).unwrap();
    // 8/10 = 0.8
    assert!((rate(&db) - 0.8).abs() < 0.001);

    record_evaluation(&mut db, &EvaluationRow { tasks_total: i64::MAX, ..sample_eval(2) }, NOW)
        .unwrap();
    assert_eq!(sum_evaluated_tasks(&db), None);
}

#[test]
fn test_review_outcome_tracking() {
    let mut db = Store::new();
    record_review_outcome(&mut db, 1, 10, "approved", "success", NOW).unwrap();
    record_review_outcome(&mut db, 1, 11, "rejected", "failure", NOW).unwrap();
    record_review_outcome(&mut db, 2, 20, "approved", "failure", NOW).unwrap();

    let all = list_review_outcomes(&db, None);
    assert_eq!(all.len(), 3);

    let plan1 = list_review_outcomes(&db, Some(1));
    assert_eq!(plan1.len(), 2);
    assert!(plan1[0].is_correct || plan1[1].is_correct);

    let plan2 = list_review_outcomes(&db, Some(2));
    assert_eq!(plan2.len(), 1);
    assert!(!plan2[0].is_correct);
}

// ---- uploads ----

fn form() -> UploadForm {
    UploadForm {
        task_id: Some("10".into()),
        plan_id: Some("1".into()),
        name: None,
        artifact_type: None,
        file_name: Some("../../etc/pass wd.txt".into()),
        has_file: true,
    }
}

#[test]
fn file_names_are_made_safe() {
    assert_eq!(sanitize_filename("report.pdf"), "report.pdf");
    assert_eq!(sanitize_filename("/a/b\\c d?.md"), "cd.md");
    assert_eq!(sanitize_filename("..hidden"), "hidden");
    assert_eq!(sanitize_filename(".env"), "env");
    assert_eq!(sanitize_filename("a..b"), "ab");
    assert_eq!(sanitize_filename("a.?.b"), "a..b");
    assert_eq!(sanitize_filename("übung_2-x.txt"), "übung_2-x.txt");
    assert_eq!(sanitize_filename("dir/"), "");
    assert_eq!(sanitize_filename("..."), "");
}

#[test]
fn uploads_stay_in_the_directory_of_their_plan() {
    let plan = plan_upload(&form()).unwrap();
    assert_eq!(plan.safe_file, "passwd.txt");
    assert_eq!(plan.relative, "1/passwd.txt");
    assert_eq!(plan.display_name, "../../etc/pass wd.txt");
    assert_eq!(plan.artifact_type, "document");
    assert_eq!((plan.task_id, plan.plan_id), (10, 1));
    let path = std::path::Path::new(&plan.relative);
    assert_eq!(path.parent(), Some(std::path::Path::new("1")));
    let named = plan_upload(&UploadForm {
        name: Some("Shown".into()),
        file_name: None,
        artifact_type: Some("pdf".into()),
        ..form()
    })
    .unwrap();
    assert_eq!((named.display_name.as_str(), named.safe_file.as_str()), ("Shown", "Shown"));
    let bare = plan_upload(&UploadForm { file_name: None, ..form() }).unwrap();
    assert_eq!(bare.safe_file, "unnamed");
}

#[test]
fn uploads_are_refused() {
    let bad = |f: UploadForm| plan_upload(&f).err().unwrap();
    assert_eq!(bad(UploadForm { has_file: false, ..form() }), UploadError::MissingFields);
    assert_eq!(bad(UploadForm { task_id: None, ..form() }), UploadError::MissingFields);
    assert_eq!(
        bad(UploadForm { plan_id: Some("one".into()), ..form() }),
        UploadError::MissingFields
    );
    assert_eq!(
        bad(UploadForm { file_name: Some("???".into()), ..form() }),
        UploadError::InvalidName
    );
    assert_eq!(
        UploadError::InvalidName.message(),
        "invalid filename after sanitization"
    );
    assert_eq!(
        UploadError::MissingFields.message(),
        "missing required fields: task_id, plan_id, file"
    );
}

#[test]
fn uploads_are_recorded_as_evidence() {
    let mut db = setup();
    let plan = plan_upload(&form()).unwrap();
    let id = record_upload(&mut db, &plan, 77, NOW).unwrap();
    let art = get_artifact(&db, id).unwrap();
    assert_eq!((art.path.as_str(), art.size_bytes), ("1/passwd.txt", 77));
    let e = &list_evidence(&db, 10)[0];
    assert_eq!(e.evidence_type, "artifact");
    assert_eq!(e.output_summary, format!("artifact_id={id}"));
    db.artifacts.last_id = i64::MAX;
    assert_eq!(record_upload(&mut db, &plan, 1, NOW), Err(StoreError::Full));
}
