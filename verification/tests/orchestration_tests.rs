use convergio::agent_health::{
    check_and_requeue, find_stuck_tasks, handle_stuck_task, health_tick,
};
use convergio::challenger::{challenge, challenge_report, is_output_claim, is_pr_claim};
use convergio::claims::{claim_file, ClaimAnswer};
use convergio::evidence_intake::{create_evidence, heartbeat, EvidenceCreate, EvidenceRefused};
use convergio::executor_routing::{
    extract_section_block, find_base_from_config, handle_spawn_response, is_planner_overlap,
    rebase, remap_repo_path, route_task, settle_spawn, should_use_section, Route, SpawnReply,
};
use convergio::file_conflict_gate::get_claimed_files;
use convergio::file_locks::{
    acquire_lock, expire_locks_sync, list_locks, release_lock, LockAnswer,
};
use convergio::handlers::{
    check_unblocked_plans, on_plan_done, on_plan_ready, on_task_done, on_wave_done,
    on_wave_validated, try_auto_thor, Event,
};
use convergio::learning::{
    collect_metrics, generate_learnings, has_learnings, parse_review_verdicts, split_verdicts,
    store_learnings, Figures, PlanMetrics,
};
use convergio::key_numbers::read_key;
use convergio::merge_guardian::{find_overlaps, list_queue, merge_request};
use convergio::paths::lies_under;
use convergio::plan_executor::{
    batch_size, check_circuit_breaker, cooling_down, find_pending_tasks, mark_stale_plans,
    note_spawn_error, pause_plans_on_boot, PendingTask,
};
use convergio::plan_force_ops::{force_complete, force_resume};
use convergio::plan_hierarchy::{dependencies_met, master_rollup, project_plan_tree};
use convergio::rows::{
    AgentRow, ContextRow, HeartbeatRow, LockRow, PlanMetaRow, PlanRow, ProjectRow, TaskRow,
    UsageRow, WaveRow,
};
use convergio::store::{Moment, Store, StoreError};
use convergio::types::EvidenceRecord;

const NOW: i64 = 1_700_000_000;
const TEXT: &str = "2023-11-14 22:13:20";

fn moment() -> Moment {
    Moment { secs: NOW, text: TEXT.to_string() }
}

fn plan(db: &mut Store, id: i64, name: &str, status: &str) {
    assert!(db.plans.put(PlanRow {
        id,
        project_id: "test".into(),
        name: name.into(),
        status: status.into(),
        ..PlanRow::default()
    }));
}

fn wave(db: &mut Store, id: i64, name: &str, plan_id: i64, status: &str) {
    assert!(db.waves.put(WaveRow {
        id,
        wave_id: name.into(),
        plan_id,
        status: status.into(),
        ..WaveRow::default()
    }));
}

fn task(db: &mut Store, id: i64, plan_id: i64, wave_id: i64, title: &str, status: &str) {
    assert!(db.tasks.put(TaskRow {
        id,
        task_id: Some(format!("T{id}")),
        plan_id,
        wave_id: Some(wave_id),
        title: title.into(),
        status: status.into(),
        ..TaskRow::default()
    }));
}

fn evidence(db: &mut Store, task_id: i64, kind: &str) {
    let id = db.task_evidence.last_id + 1;
    assert!(db.task_evidence.put(EvidenceRecord {
        id,
        task_id,
        evidence_type: kind.into(),
        ..EvidenceRecord::default()
    }));
}

fn status(db: &Store, id: i64) -> String {
    db.tasks.rows.iter().find(|t| t.id == id).unwrap().status.clone()
}

// ---- pending tasks ----

fn seeded() -> Store {
    let mut db = Store::new();
    plan(&mut db, 99, "Test Plan", "in_progress");
    wave(&mut db, 501, "W1", 99, "in_progress");
    task(&mut db, 901, 99, 501, "Test task", "pending");
    db.tasks.rows[0].description = Some("Do something".into());
    task(&mut db, 902, 99, 501, "Another task", "in_progress");
    db
}

#[test]
fn find_pending_tasks_returns_only_pending_in_active_waves() {
    let db = seeded();
    let tasks = find_pending_tasks(&db);
    assert_eq!(tasks.len(), 1);
    assert_eq!(tasks[0].db_id, 901);
    assert_eq!(tasks[0].title, "Test task");
    assert_eq!(tasks[0].description, "Do something");
    assert_eq!(tasks[0].notes, "");
}

#[test]
fn find_pending_tasks_includes_pre_assigned_executor() {
    // Tasks with executor_agent pre-assigned by the planner should still be
    // picked up by the plan executor (claiming is via status = 'pending').
    let mut db = seeded();
    db.tasks.rows[0].executor_agent = Some("baccio".into());
    let tasks = find_pending_tasks(&db);
    assert_eq!(tasks.len(), 1, "pre-assigned tasks must still be found");
    assert_eq!(tasks[0].db_id, 901);
}

#[test]
fn find_pending_tasks_empty_on_no_active_plan() {
    let mut db = Store::new();
    plan(&mut db, 100, "Idle Plan", "todo");
    wave(&mut db, 502, "W1", 100, "in_progress");
    task(&mut db, 903, 100, 502, "Task", "pending");
    let tasks = find_pending_tasks(&db);
    assert!(tasks.is_empty());
}

#[test]
fn pending_tasks_of_the_first_running_wave() {
    let mut db = seeded();
    wave(&mut db, 502, "W2", 99, "in_progress");
    task(&mut db, 910, 99, 502, "later", "pending");
    for id in 911..920 {
        task(&mut db, id, 99, 501, "more", "pending");
    }
    db.tasks.rows.iter_mut().find(|t| t.id == 912).unwrap().task_id = None;
    db.tasks.rows.iter_mut().find(|t| t.id == 911).unwrap().executor_agent = Some("manual".into());
    let ids: Vec<i64> = find_pending_tasks(&db).iter().map(|t| t.db_id).collect();
    assert_eq!(ids, vec![901, 913, 914, 915]);
    db.plans.rows[0].project_id = "_doctor_test_proj".into();
    assert!(find_pending_tasks(&db).is_empty());
    assert_eq!((batch_size(0), batch_size(2), batch_size(9)), (0, 2, 3));
}

#[test]
fn cooldown_lasts_a_minute() {
    assert!(!cooling_down(None));
    assert!(cooling_down(Some(59)));
    assert!(!cooling_down(Some(60)));
}

// ---- boot safety and circuit breaker ----

#[test]
fn idle_plans_are_paused() {
    let mut db = Store::new();
    for id in 1..=4 {
        plan(&mut db, id, "p", "in_progress");
        db.plans.rows[id as usize - 1].updated_at = Some(NOW - 901);
        task(&mut db, id, id, id, "t", "done");
    }
    db.plans.rows[1].updated_at = Some(NOW - 900);
    db.tasks.rows[2].completed_at = Some(NOW - 899);
    db.tasks.rows[3].executor_agent = Some("manual".into());
    assert_eq!(pause_plans_on_boot(&mut db, NOW), 1);
    let statuses: Vec<&str> = db.plans.rows.iter().map(|p| p.status.as_str()).collect();
    assert_eq!(statuses, vec!["paused", "in_progress", "in_progress", "in_progress"]);
}

#[test]
fn plans_with_a_sign_of_life_are_left_running() {
    let mut db = Store::new();
    plan(&mut db, 1, "p", "in_progress");
    db.plans.rows[0].updated_at = Some(NOW - 901);
    task(&mut db, 1, 1, 1, "t", "in_progress");
    db.tasks.rows[0].executor_agent = None;
    db.tasks.rows[0].last_heartbeat = Some(NOW - 60);
    assert_eq!(pause_plans_on_boot(&mut db, NOW), 0);
    assert_eq!(db.plans.rows[0].status, "in_progress");
    db.tasks.rows[0].last_heartbeat = Some(NOW - 900);
    assert_eq!(pause_plans_on_boot(&mut db, NOW), 1);
}

#[test]
fn plans_with_a_completed_task_are_not_stale() {
    let mut db = Store::new();
    plan(&mut db, 1, "p", "in_progress");
    db.plans.rows[0].updated_at = Some(NOW - 25 * 3600);
    task(&mut db, 1, 1, 1, "t", "done");
    db.tasks.rows[0].completed_at = Some(NOW - 3600);
    assert_eq!(mark_stale_plans(&mut db, NOW), 0);
    assert_eq!(db.plans.rows[0].status, "in_progress");
    db.tasks.rows[0].completed_at = Some(NOW - 86400);
    assert_eq!(mark_stale_plans(&mut db, NOW), 1);
}

#[test]
fn plans_without_progress_are_stale() {
    let mut db = Store::new();
    plan(&mut db, 1, "p", "in_progress");
    plan(&mut db, 2, "q", "in_progress");
    plan(&mut db, 3, "r", "todo");
    db.plans.rows[0].updated_at = Some(NOW - 86401);
    db.plans.rows[1].updated_at = Some(NOW - 86400);
    db.plans.rows[2].updated_at = Some(0);
    assert_eq!(mark_stale_plans(&mut db, NOW), 1);
    assert_eq!(db.plans.rows[0].status, "stale");
    assert_eq!(db.plans.rows[1].status, "in_progress");
}

#[test]
fn circuit_breaker_halts_hopeless_plans() {
    let mut db = Store::new();
    plan(&mut db, 1, "p", "in_progress");
    wave(&mut db, 1, "W1", 1, "in_progress");
    task(&mut db, 1, 1, 1, "a", "failed");
    task(&mut db, 2, 1, 1, "b", "pending");
    assert!(check_circuit_breaker(&mut db, NOW).is_empty());
    db.tasks.rows[1].executor_agent = Some("manual".into());
    assert_eq!(check_circuit_breaker(&mut db, NOW), vec![1]);
    assert_eq!(db.plans.rows[0].status, "failed");
    assert_eq!(db.plans.rows[0].updated_at, Some(NOW));
    assert!(check_circuit_breaker(&mut db, NOW).is_empty());
}

// ---- routing ----

fn pending(db_id: i64, agent: Option<&str>) -> PendingTask {
    PendingTask {
        db_id,
        task_id: "T1".into(),
        plan_id: 99,
        wave_db_id: 501,
        title: "Test task".into(),
        description: "Do something".into(),
        notes: String::new(),
        required_capabilities: None,
        executor_agent: agent.map(|a| a.to_string()),
    }
}

#[test]
fn tasks_are_routed_by_executor() {
    let mut db = seeded();
    assert!(matches!(route_task(&mut db, &pending(901, Some("human")), NOW), Route::Manual));
    assert_eq!(status(&db, 901), "awaiting_manual");
    assert_eq!(db.tasks.rows[0].notes.as_deref(), Some(" [auto-routing: manual]"));
    let mut db = seeded();
    assert!(matches!(route_task(&mut db, &pending(901, None), NOW), Route::Local));
    assert_eq!(status(&db, 901), "in_progress");
    assert_eq!(db.tasks.rows[0].executor_agent.as_deref(), Some("plan-executor"));
    assert!(matches!(route_task(&mut db, &pending(901, None), NOW), Route::Taken));
    let mut db = seeded();
    match route_task(&mut db, &pending(901, Some("delegate:macPro")), NOW) {
        Route::Mesh { peer } => assert_eq!(peer, "macPro"),
        _ => panic!("expected the mesh"),
    }
    db.plans.rows[0].planner_agent_id = Some("copilot".into());
    assert!(is_planner_overlap(&db, &pending(901, None)));
    assert!(!is_planner_overlap(&db, &pending(901, Some("x"))));
}

#[test]
fn third_failed_spawn_is_final() {
    let mut db = seeded();
    for (n, expected) in [(1, "pending"), (2, "pending"), (3, "failed")] {
        let reply = SpawnReply {
            error: Some(Some("no slot".into())),
            agent_id: None,
            delegation_id: None,
        };
        assert_eq!(handle_spawn_response(&mut db, 901, reply), Err("no slot".to_string()));
        assert_eq!(db.tasks.rows[0].spawn_failures, Some(n));
        assert_eq!(status(&db, 901), expected);
    }
    let odd = SpawnReply { error: Some(None), agent_id: None, delegation_id: None };
    assert_eq!(handle_spawn_response(&mut db, 902, odd), Err("unknown".to_string()));
    let ok = SpawnReply { error: None, agent_id: None, delegation_id: Some("d-1".into()) };
    assert_eq!(handle_spawn_response(&mut db, 902, ok), Ok("d-1".to_string()));
    assert_eq!(db.tasks.rows[1].executor_agent.as_deref(), Some("d-1"));
    note_spawn_error(&mut db, 902, "boom", true, NOW);
    assert_eq!(db.tasks.rows[1].notes.as_deref(), Some("\n[executor] Spawn error: boom"));
    assert_eq!(db.tasks.rows[1].spawn_failures, Some(1));
    note_spawn_error(&mut db, 902, "gone", false, NOW);
    assert_eq!(db.tasks.rows[1].spawn_failures, Some(2));
}

fn refused() -> SpawnReply {
    SpawnReply { error: Some(Some("x".into())), agent_id: None, delegation_id: None }
}

#[test]
fn failed_spawns_are_counted_once() {
    let mut db = seeded();
    for (n, expected) in [(1, "pending"), (2, "pending"), (3, "failed")] {
        assert!(matches!(route_task(&mut db, &pending(901, None), NOW), Route::Local));
        assert_eq!(settle_spawn(&mut db, 901, Ok(refused()), NOW), Err("x".to_string()));
        assert_eq!(db.tasks.rows[0].spawn_failures, Some(n));
        assert_eq!(status(&db, 901), expected);
        assert_eq!(db.tasks.rows[0].updated_at, Some(NOW));
    }
    assert_eq!(
        db.tasks.rows[0].notes.as_deref(),
        Some(
            "\n[executor] Spawn error: x\n[executor] Spawn error: x\n[executor] Spawn error: x"
        )
    );
}

#[test]
fn spawns_without_an_answer_are_counted_too() {
    let mut db = seeded();
    route_task(&mut db, &pending(901, None), NOW);
    assert_eq!(settle_spawn(&mut db, 901, Err("refused".into()), NOW), Err("refused".into()));
    assert_eq!(db.tasks.rows[0].spawn_failures, Some(1));
    assert_eq!(status(&db, 901), "in_progress");
    assert_eq!(settle_spawn(&mut db, 901, Ok(refused()), NOW), Err("x".into()));
    assert_eq!(status(&db, 901), "pending");
    route_task(&mut db, &pending(901, None), NOW);
    assert_eq!(settle_spawn(&mut db, 901, Err("refused".into()), NOW), Err("refused".into()));
    assert_eq!(db.tasks.rows[0].spawn_failures, Some(3));
    assert_eq!(status(&db, 901), "failed");
    assert_eq!(db.tasks.rows[0].executor_agent, None);
    let ok = SpawnReply { error: None, agent_id: Some("a-1".into()), delegation_id: None };
    assert_eq!(settle_spawn(&mut db, 902, Ok(ok), NOW), Ok("a-1".into()));
    assert_eq!(db.tasks.rows[1].executor_agent.as_deref(), Some("a-1"));
    assert_eq!(db.tasks.rows[1].notes, None);
}

const CONFIG: &str = "[mesh]\nsecret=x\n\n[studio]\naliases=studio,studio.lan\n\
repo_path=/Users/Roberdan/GitHub/convergio\n\n [macProM1] \nssh=mac\n\
repo_path= /Users/roberdandev/GitHub/convergio \n";

#[test]
fn repositories_are_remapped_to_peers() {
    assert_eq!(
        extract_section_block(CONFIG, "studio"),
        "aliases=studio,studio.lan\nrepo_path=/Users/Roberdan/GitHub/convergio\n\n"
    );
    assert!(should_use_section(Some("studio"), "studio", "x", CONFIG));
    assert!(should_use_section(None, "studio", "studio.local", CONFIG));
    assert!(!should_use_section(None, "macProM1", "studio.local", CONFIG));
    assert_eq!(
        find_base_from_config(CONFIG, None, "studio.local").as_deref(),
        Some("/Users/Roberdan/GitHub")
    );
    assert_eq!(
        find_base_from_config(CONFIG, Some("macProM1"), "x").as_deref(),
        Some("/Users/roberdandev/GitHub")
    );
    assert_eq!(find_base_from_config(CONFIG, Some("nobody"), "x"), None);
    let local = "/Users/Roberdan/GitHub/Convergio-Repos/convergio-billing";
    assert_eq!(
        remap_repo_path(CONFIG, local, "macProM1", "studio.local").as_deref(),
        Some("/Users/roberdandev/GitHub/Convergio-Repos/convergio-billing")
    );
    assert_eq!(remap_repo_path(CONFIG, "/elsewhere", "macProM1", "studio.local"), None);
    assert_eq!(rebase(Some("a/b".into()), "/base").as_deref(), Some("/base/a/b"));
    assert_eq!(rebase(Some("a".into()), "/base/").as_deref(), Some("/base/a"));
    assert_eq!(rebase(Some("/a".into()), "/base").as_deref(), Some("/a"));
    assert_eq!(rebase(Some(String::new()), "/base").as_deref(), Some("/base/"));
    assert_eq!(rebase(Some("a".into()), "").as_deref(), Some("a"));
    assert_eq!(rebase(None, "/base"), None);
    for (base, rest) in [("/base", "a/b"), ("/base/", "a"), ("/b", "/a"), ("/b", ""), ("", "a")] {
        let joined = std::path::Path::new(base).join(rest);
        assert_eq!(rebase(Some(rest.into()), base).as_deref(), joined.to_str());
    }
}

// ---- events ----

#[test]
fn check_unblocked_with_no_children() {
    let db = Store::new();
    let result = check_unblocked_plans(&db, 999);
    assert!(result.1.is_none());
    assert!(result.0.is_empty());
}

#[test]
fn task_is_found_by_its_number() {
    for text in ["2", " 2\n", "+2", "02", "2.0", "2.", "2e0", "0.2E+1", "200e-2", ".02e2"] {
        let mut db = Store::new();
        plan(&mut db, 1, "p", "in_progress");
        wave(&mut db, 7, "W1", 1, "in_progress");
        task(&mut db, 2, 1, 7, "b", "done");
        assert_eq!(
            on_task_done(&mut db, text, 1),
            Some(Event::WaveDone { wave_id: 7, plan_id: 1 }),
            "{text}"
        );
    }
}

#[test]
fn texts_stand_for_keys() {
    assert_eq!(read_key("1.0"), Some(1));
    assert_eq!(read_key("1e0"), Some(1));
    assert_eq!(read_key("-1.50e1"), Some(-15));
    assert_eq!(read_key("-0.0"), Some(0));
    assert_eq!(read_key("0e99999999999999999999"), Some(0));
    assert_eq!(read_key("1e18"), Some(1_000_000_000_000_000_000));
    assert_eq!(read_key("1e19"), None);
    assert_eq!(read_key("9223372036854775807"), Some(i64::MAX));
    assert_eq!(read_key("9223372036854775808"), None);
    assert_eq!(read_key("9223372036854775807.0"), None);
    assert_eq!(read_key("9223372036854774784.0"), Some(9_223_372_036_854_774_784));
    assert_eq!(read_key("9007199254740993"), Some(9_007_199_254_740_993));
    assert_eq!(read_key("9007199254740993.0"), Some(9_007_199_254_740_992));
    assert_eq!(read_key("9007199254740995.0"), Some(9_007_199_254_740_996));
    for text in ["", " ", "x", ".", "-", "e1", "1e", "1e+", "1.5", "1 0", "1.0.0", "0x1", "1e1.0"] {
        assert_eq!(read_key(text), None, "{text}");
    }
}

#[test]
fn paths_lie_under_others() {
    assert!(lies_under("/srv/a/b.txt", "/srv/a"));
    assert!(lies_under("/srv/a", "/srv/a/"));
    assert!(!lies_under("/srv/ab", "/srv/a"));
    assert!(!lies_under("a", "/srv"));
}

#[test]
fn texts_are_compared_with_keys_as_the_database_does() {
    let conn = rusqlite::Connection::open_in_memory().unwrap();
    conn.execute_batch("CREATE TABLE t (id INTEGER PRIMARY KEY)").unwrap();
    let ids = [0i64, 1, -15, 1_000_000_000_000_000_000, i64::MAX, 9_007_199_254_740_992,
        9_007_199_254_740_993, 9_007_199_254_740_996, 9_223_372_036_854_774_784];
    for id in ids {
        conn.execute("INSERT INTO t (id) VALUES (?1)", [id]).unwrap();
    }
    let texts = ["1", " 1 ", "\u{b}1", "\u{a0}1", "+1", "01", "1.0", "1.", "1e0", "10e-1", ".1e1",
        "-1.50e1", "-0.0", "0e99999999999999999999", "1e18", "1e19", "9223372036854775807",
        "9223372036854775808", "9223372036854775807.0", "9223372036854774784.0",
        "9007199254740993", "9007199254740993.0", "9007199254740995.0", "", " ", "x", ".", "-",
        "e1", "1e", "1e+", "1.5", "1 0", "1.0.0", "0x1", "1e1.0", "- 1", "1_0"];
    for text in texts {
        let found = conn
            .query_row("SELECT id FROM t WHERE id = ?1", [text], |r| r.get::<usize, i64>(0))
            .ok();
        assert_eq!(read_key(text).filter(|n| ids.contains(n)), found, "{text}");
    }
}

#[test]
fn wave_end_is_told_once() {
    let mut db = Store::new();
    plan(&mut db, 1, "p", "in_progress");
    wave(&mut db, 7, "W1", 1, "in_progress");
    task(&mut db, 1, 1, 7, "a", "submitted");
    task(&mut db, 2, 1, 7, "b", "pending");
    assert_eq!(on_task_done(&mut db, "1", 1), None);
    db.tasks.rows[1].status = "skipped".into();
    assert_eq!(on_task_done(&mut db, "x", 1), None);
    assert_eq!(on_task_done(&mut db, "1", 2), None);
    assert_eq!(on_task_done(&mut db, "\u{a0}2", 1), None);
    assert_eq!(on_task_done(&mut db, "2.5", 1), None);
    assert_eq!(
        on_task_done(&mut db, " 2\n", 1),
        Some(Event::WaveDone { wave_id: 7, plan_id: 1 })
    );
    assert_eq!(db.waves.rows[0].status, "completing");
    assert_eq!(on_task_done(&mut db, "1", 1), None);
    assert_eq!(on_task_done(&mut db, "2", 1), None);
    assert_eq!(
        on_wave_done(7, 1),
        Event::WaveNeedsValidation { wave_id: 7, plan_id: 1 }
    );
    assert_eq!(on_wave_done(7, 1).as_str(), "wave_needs_validation");
}

#[test]
fn validation_promotes_and_moves_on() {
    let mut db = Store::new();
    plan(&mut db, 1, "p", "in_progress");
    wave(&mut db, 1, "W1", 1, "completing");
    wave(&mut db, 2, "W2", 1, "pending");
    wave(&mut db, 3, "W3", 1, "cancelled");
    task(&mut db, 1, 1, 1, "a", "submitted");
    task(&mut db, 2, 1, 1, "b", "submitted");
    task(&mut db, 3, 1, 1, "c", "cancelled");
    evidence(&mut db, 1, "test_pass");
    let r = on_wave_validated(&mut db, 1, 1, &moment());
    assert_eq!(r.promoted, vec![1, 2]);
    assert_eq!(r.without_evidence, vec![2]);
    assert_eq!(r.event, Some(Event::WaveReady { wave_id: 2, plan_id: 1 }));
    assert_eq!(db.tasks.rows[0].completed_at, Some(NOW));
    assert_eq!(status(&db, 3), "cancelled");
    assert_eq!(db.task_status_log.rows.len(), 2);
    assert_eq!(db.task_status_log.rows[1].notes.as_deref(), Some("wave promote"));
    assert_eq!(db.waves.rows[0].status, "done");
    db.waves.rows[1].status = "in_progress".into();
    assert_eq!(on_wave_validated(&mut db, 1, 1, &moment()).event, None);
    let end = on_wave_validated(&mut db, 2, 1, &moment());
    assert_eq!(end.event, Some(Event::PlanDone { plan_id: 1 }));
    assert!(end.promoted.is_empty());
}

#[test]
fn settled_waves_are_validated_at_once() {
    let mut db = Store::new();
    wave(&mut db, 1, "W1", 1, "in_progress");
    task(&mut db, 1, 1, 1, "a", "submitted");
    task(&mut db, 2, 1, 1, "b", "pending");
    assert!(try_auto_thor(&mut db, 1, &moment()).is_none());
    db.tasks.rows[1].status = "done".into();
    let r = try_auto_thor(&mut db, 1, &moment()).unwrap();
    assert_eq!(r.promoted, vec![1]);
    assert!(try_auto_thor(&mut db, 77, &moment()).is_none());
}

#[test]
fn finished_plans_unblock_others() {
    let mut db = Store::new();
    plan(&mut db, 1, "master", "doing");
    plan(&mut db, 2, "first", "in_progress");
    plan(&mut db, 3, "second", "todo");
    plan(&mut db, 4, "third", "todo");
    for k in 1..4 {
        db.plans.rows[k].parent_plan_id = Some(1);
        db.plans.rows[k].tasks_total = 2;
    }
    db.plans.rows[1].tasks_done = 2;
    db.plans.rows[2].depends_on = Some("2".into());
    db.plans.rows[3].depends_on = Some("3".into());
    assert_eq!(on_plan_ready(&db, 3), Ok(Event::PlanBlocked { plan_id: 3 }));
    let r = on_plan_done(&mut db, 2, NOW);
    assert_eq!(r.name, "first");
    assert_eq!(r.master, Some((1, (2, 6, "todo".to_string()))));
    assert_eq!(r.ready, (vec![3], None));
    assert_eq!(on_plan_ready(&db, 3), Ok(Event::PlanReady { plan_id: 3 }));
    assert_eq!(on_plan_ready(&db, 9), Err(StoreError::NoRows));
    db.plans.rows[2].depends_on = Some("77".into());
    assert_eq!(check_unblocked_plans(&db, 1), (vec![], Some(StoreError::NoRows)));
    let orphan = on_plan_done(&mut db, 50, NOW);
    assert_eq!(orphan.name, "Plan #50");
    assert_eq!(orphan.master, None);
}

// ---- hierarchy ----

#[test]
fn dependencies_met_no_deps() {
    let mut db = Store::new();
    plan(&mut db, 1, "plan-a", "todo");
    assert!(dependencies_met(&db, 1).unwrap());
}

#[test]
fn dependencies_met_blocked() {
    let mut db = Store::new();
    plan(&mut db, 1, "dep", "doing");
    plan(&mut db, 2, "child", "todo");
    db.plans.rows[1].depends_on = Some("1".into());
    assert!(!dependencies_met(&db, 2).unwrap());
}

#[test]
fn dependencies_met_satisfied() {
    let mut db = Store::new();
    plan(&mut db, 1, "dep", "done");
    plan(&mut db, 2, "child", "todo");
    db.plans.rows[1].depends_on = Some("1".into());
    assert!(dependencies_met(&db, 2).unwrap());
    db.plans.rows[1].depends_on = Some(" , x, 1 ,".into());
    assert!(dependencies_met(&db, 2).unwrap());
    db.plans.rows[1].depends_on = Some("  ".into());
    assert!(dependencies_met(&db, 2).unwrap());
    db.plans.rows[1].depends_on = Some("1,5".into());
    assert_eq!(dependencies_met(&db, 2), Err(StoreError::NoRows));
}

#[test]
fn master_rollup_empty() {
    let db = Store::new();
    let (done, total, status) = master_rollup(&db, 999);
    assert_eq!((done, total), (0, 0));
    assert_eq!(status, "todo");
}

#[test]
fn master_rollup_statuses() {
    for (a, b, expected) in [
        ("done", "cancelled", "done"),
        ("done", "in_progress", "doing"),
        ("blocked", "doing", "doing"),
        ("blocked", "todo", "blocked"),
        ("done", "todo", "todo"),
    ] {
        let mut db = Store::new();
        plan(&mut db, 1, "a", a);
        plan(&mut db, 2, "b", b);
        for p in db.plans.rows.iter_mut() {
            p.parent_plan_id = Some(9);
            p.tasks_total = 3;
            p.tasks_done = 1;
        }
        assert_eq!(master_rollup(&db, 9), (2, 6, expected.to_string()));
    }
}

#[test]
fn tree_holds_each_plan_once() {
    let mut db = Store::new();
    db.projects.push(ProjectRow { id: "test".into(), name: "The Project".into() });
    plan(&mut db, 1, "loose", "todo");
    plan(&mut db, 2, "master", "doing");
    plan(&mut db, 3, "child", "todo");
    plan(&mut db, 4, "gone", "cancelled");
    plan(&mut db, 5, "lost", "todo");
    db.plans.rows[1].is_master = true;
    db.plans.rows[2].parent_plan_id = Some(2);
    db.plans.rows[4].parent_plan_id = Some(4);
    for p in db.plans.rows.iter_mut() {
        p.tasks_total = p.id;
        p.tasks_done = 1;
    }
    let tree = project_plan_tree(&db, "test");
    assert_eq!(tree.project_name, "The Project");
    let ids: Vec<i64> = tree.plans.iter().map(|n| n.id).collect();
    assert_eq!(ids, vec![2, 1, 5]);
    assert_eq!(tree.plans[0].children.len(), 1);
    assert_eq!(tree.plans[0].children[0].name, "child");
    assert_eq!((tree.total_tasks, tree.done_tasks), (11, 4));
    let copy = tree.plans[0].clone();
    assert_eq!(copy.children[0].id, 3);
    let copy = tree.clone();
    assert_eq!(format!("{copy:?}"), format!("{tree:?}"));
    let other = project_plan_tree(&db, "none");
    assert_eq!((other.project_name.as_str(), other.plans.len()), ("none", 0));
}

// ---- agents ----

#[test]
fn no_stuck_tasks_when_empty() {
    let db = Store::new();
    let stuck = find_stuck_tasks(&db, NOW);
    assert!(stuck.is_empty());
}

#[test]
fn detects_stuck_task() {
    let mut db = Store::new();
    plan(&mut db, 1, "P", "in_progress");
    wave(&mut db, 1, "W1", 1, "in_progress");
    // Task started 2 hours ago (well past threshold)
    task(&mut db, 1, 1, 1, "Stuck task", "in_progress");
    db.tasks.rows[0].executor_agent = Some("dead-agent".into());
    db.tasks.rows[0].started_at = Some(NOW - 7200);
    let stuck = find_stuck_tasks(&db, NOW);
    assert_eq!(stuck.len(), 1);
    assert_eq!(stuck[0].0, 1);
    assert_eq!(stuck[0].2, 7200);
    db.heartbeats.push(HeartbeatRow {
        agent_id: "dead-agent".into(),
        last_seen: NOW - 89,
        interval_s: 30,
    });
    assert!(find_stuck_tasks(&db, NOW).is_empty());
    assert_eq!(find_stuck_tasks(&db, NOW + 1).len(), 1);
}

#[test]
fn handle_stuck_reverts_to_pending() {
    let mut db = Store::new();
    plan(&mut db, 2, "P2", "in_progress");
    wave(&mut db, 2, "W1", 2, "in_progress");
    task(&mut db, 2, 2, 2, "Task", "in_progress");
    db.tasks.rows[0].executor_agent = Some("agent-x".into());
    db.tasks.rows[0].started_at = Some(NOW);
    handle_stuck_task(&mut db, 2, "agent-x").unwrap();
    assert_eq!(status(&db, 2), "pending");
    assert_eq!(db.audit_log.rows[0].details, "agent agent-x stuck, reverting to pending");
    db.audit_log.last_id = i64::MAX;
    assert_eq!(handle_stuck_task(&mut db, 2, "a"), Err(StoreError::Full));
}

#[test]
fn no_orphans_returns_zero() {
    let mut db = Store::new();
    let count = check_and_requeue(&mut db);
    assert_eq!(count, 0);
}

fn orphaned() -> Store {
    let mut db = Store::new();
    plan(&mut db, 1, "P", "in_progress");
    wave(&mut db, 1, "W1", 1, "in_progress");
    db.agents.push(AgentRow {
        id: "agent-1".into(),
        stage: "stopped".into(),
        ..AgentRow::default()
    });
    task(&mut db, 1, 1, 1, "Task", "in_progress");
    db.tasks.rows[0].executor_agent = Some("agent-1".into());
    db.tasks.rows[0].started_at = Some(NOW);
    db
}

#[test]
fn requeues_task_with_dead_agent_no_checkpoint() {
    let mut db = orphaned();
    let count = check_and_requeue(&mut db);
    assert_eq!(count, 1);
    assert_eq!(status(&db, 1), "pending");
    assert_eq!(check_and_requeue(&mut db), 0);
}

#[test]
fn checkpoints_and_successors_keep_tasks() {
    let mut db = orphaned();
    db.agent_context.push(ContextRow {
        agent_id: "agent-1".into(),
        key: "checkpoint_state".into(),
    });
    assert_eq!(check_and_requeue(&mut db), 0);
    let mut db = orphaned();
    db.agents.push(AgentRow {
        id: "agent-2".into(),
        stage: "running".into(),
        parent_agent_id: Some("agent-1".into()),
        ..AgentRow::default()
    });
    assert_eq!(check_and_requeue(&mut db), 0);
    db.tasks.rows[0].started_at = Some(NOW - 4000);
    let report = health_tick(&mut db, NOW);
    assert_eq!((report.requeued, report.stuck.len()), (0, 1));
    assert_eq!(report.failure, None);
    assert_eq!(status(&db, 1), "pending");
}

// ---- challenger ----

fn challenged() -> Store {
    let mut db = Store::new();
    plan(&mut db, 1, "test", "todo");
    wave(&mut db, 1, "WA", 1, "pending");
    task(&mut db, 1, 1, 1, "task1", "done");
    db.tasks.rows[0].description = Some("fix something".into());
    db
}

#[test]
fn challenge_passes_with_evidence() {
    let mut db = challenged();
    evidence(&mut db, 1, "test_pass");
    let (pass, findings) = challenge(&db, 1);
    assert!(pass, "should pass: {findings:?}");
    assert_eq!(challenge_report(&db, 1).challenger_verdict, "pass");
}

#[test]
fn challenge_detects_orphan_wave() {
    let mut db = challenged();
    wave(&mut db, 2, "WB", 1, "pending");
    evidence(&mut db, 1, "test_pass");
    let (pass, findings) = challenge(&db, 1);
    assert!(!pass);
    assert!(findings.iter().any(|f| f.contains("orphan")));
}

#[test]
fn challenge_finds_all_offences() {
    let mut db = challenged();
    db.tasks.rows[0].description = Some("with OUTPUT-Type: pr".into());
    wave(&mut db, 2, "WB", 1, "pending");
    task(&mut db, 2, 1, 2, "stuck", "pending");
    wave(&mut db, 3, "WC", 1, "pending");
    let (pass, findings) = challenge(&db, 1);
    assert!(!pass);
    assert_eq!(
        findings,
        vec![
            "1 wave(s) have zero tasks (orphan)",
            "1 task(s) stuck pending while wave siblings are done",
            "1 wave(s) have tasks but none completed",
            "1 task(s) claim output but have no delivery evidence",
        ]
    );
    assert_eq!(challenge_report(&db, 1).challenger_verdict, "fail");
    assert!(is_output_claim("x output_type"));
    assert!(!is_output_claim("outputtype"));
    assert!(!is_output_claim("output__type"));
}

#[test]
fn challenge_wants_merge_evidence_of_a_pull_request() {
    let mut db = challenged();
    db.tasks.rows[0].description = Some("output_type: pr".into());
    evidence(&mut db, 1, "test_pass");
    let (pass, findings) = challenge(&db, 1);
    assert!(!pass);
    assert_eq!(findings, vec!["1 task(s) claim output but have no delivery evidence"]);
    evidence(&mut db, 1, "commit_hash");
    assert!(challenge(&db, 1).0);
    db.tasks.rows[0].description = Some("output_type: document".into());
    db.task_evidence.rows.pop();
    assert!(challenge(&db, 1).0);
    assert!(is_pr_claim("a task, \"output_type\": \"PR\", and so on"));
    assert!(is_pr_claim("output_type=prose, output_type=pr"));
    assert!(!is_pr_claim("output_type: prose"));
    assert!(!is_pr_claim("output_type"));
    assert!(!is_pr_claim("output_typepr"));
}

// ---- claims, locks, merges ----

#[test]
fn claimed_files_are_read_back() {
    let mut db = Store::new();
    task(&mut db, 1, 1, 1, "t", "in_progress");
    match claim_file(&mut db, 1, "src/\"a\".rs") {
        ClaimAnswer::Added { files } => assert_eq!(files, vec!["src/\"a\".rs"]),
        _ => panic!("expected an addition"),
    }
    assert_eq!(get_claimed_files(&db, 1), vec!["src/\"a\".rs"]);
    assert_eq!(db.tasks.rows[0].claimed_files.as_deref(), Some("[\"src/\\\"a\\\".rs\"]"));
    assert!(matches!(claim_file(&mut db, 1, "src/\"a\".rs"), ClaimAnswer::Known { .. }));
    assert!(matches!(claim_file(&mut db, 9, "x"), ClaimAnswer::NotFound));
    claim_file(&mut db, 1, "b");
    assert_eq!(get_claimed_files(&db, 1), vec!["src/\"a\".rs", "b"]);
}

#[test]
fn expire_locks_removes_expired() {
    let mut db = Store::new();
    // Insert a lock that expired 10 seconds ago
    db.advisory_locks.put(LockRow {
        id: 1,
        file_path: "src/main.rs".into(),
        agent_id: "agent-1".into(),
        acquired_at: NOW - 10,
        ttl_secs: 1,
    });
    expire_locks_sync(&mut db, NOW);
    assert_eq!(db.advisory_locks.rows.len(), 0);
}

#[test]
fn expire_locks_keeps_valid() {
    let mut db = Store::new();
    db.advisory_locks.put(LockRow {
        id: 1,
        file_path: "src/lib.rs".into(),
        agent_id: "agent-2".into(),
        acquired_at: NOW,
        ttl_secs: 3600,
    });
    expire_locks_sync(&mut db, NOW);
    assert_eq!(db.advisory_locks.rows.len(), 1);
}

#[test]
fn lock_with_negative_time_is_over() {
    let mut db = Store::new();
    assert!(matches!(
        acquire_lock(&mut db, "a.rs", "one", Some(-1), NOW),
        LockAnswer::Acquired
    ));
    expire_locks_sync(&mut db, NOW);
    assert!(db.advisory_locks.rows.is_empty());
}

#[test]
fn locks_keep_other_agents_out() {
    let mut db = Store::new();
    assert!(matches!(acquire_lock(&mut db, "f", "a", None, NOW), LockAnswer::Acquired));
    match acquire_lock(&mut db, "f", "b", None, NOW + 3600) {
        LockAnswer::Held { holder } => assert_eq!(holder, "a"),
        _ => panic!("expected a holder"),
    }
    assert!(matches!(acquire_lock(&mut db, "f", "a", Some(5), NOW + 1), LockAnswer::Refreshed));
    assert!(!release_lock(&mut db, "f", "b"));
    assert!(matches!(acquire_lock(&mut db, "f", "b", None, NOW + 7), LockAnswer::Acquired));
    assert!(matches!(acquire_lock(&mut db, "g", "a", None, NOW + 8), LockAnswer::Acquired));
    let files: Vec<String> =
        list_locks(&mut db, NOW + 8).into_iter().map(|l| l.file_path).collect();
    assert_eq!(files, vec!["g", "f"]);
    assert!(release_lock(&mut db, "f", "b"));
    assert!(!release_lock(&mut db, "f", "b"));
    db.advisory_locks.last_id = i64::MAX;
    assert!(matches!(acquire_lock(&mut db, "h", "a", None, NOW + 8), LockAnswer::Failed));
}

#[test]
fn overlapping_merges_are_blocked() {
    let mut db = Store::new();
    let files = |l: &[&str]| l.iter().map(|s| s.to_string()).collect::<Vec<String>>();
    let first = merge_request(&mut db, 1, "one", &files(&["a.rs", "b.rs"]), "t1");
    assert_eq!(first.decision, "allow");
    let second = merge_request(&mut db, 2, "two", &files(&["b.rs", "c.rs"]), "t2");
    assert_eq!(second.decision, "block");
    assert_eq!(second.overlapping_files.len(), 1);
    assert_eq!(second.overlapping_files[0].pr_number, 1);
    assert_eq!(second.overlapping_files[0].shared_files, vec!["b.rs"]);
    assert_eq!(db.merge_queue[0].overlaps_json.as_deref(), Some("[]"));
    let text = db.merge_queue[1].overlaps_json.clone().unwrap();
    let value = serde_json::from_str::<serde_json::Value>(&text).unwrap();
    assert_eq!(text, serde_json::to_string(&value).unwrap());
    assert_eq!(value.as_array().unwrap().len(), 1);
    assert_eq!(text, format!("[{}]", value[0]));
    assert_eq!(value[0].as_object().unwrap().len(), 3);
    assert_eq!(value[0]["pr_number"], 1);
    assert_eq!(value[0]["branch"], "one");
    assert_eq!(value[0]["shared_files"][0], "b.rs");
    assert_eq!(db.merge_queue[1].files_json, "[\"b.rs\",\"c.rs\"]");
    let again = merge_request(&mut db, 2, "two", &files(&["c.rs"]), "t3");
    assert_eq!(again.decision, "allow");
    assert_eq!(db.merge_queue.len(), 2);
    assert_eq!((db.merge_queue[1].created_at.as_str(), db.merge_queue[1].updated_at.as_str()), ("t2", "t3"));
    db.merge_queue[0].status = "merged".into();
    assert!(find_overlaps(&db, 3, &files(&["a.rs"])).is_empty());
    let order: Vec<i64> = list_queue(&db).iter().map(|m| m.pr_number).collect();
    assert_eq!(order, vec![2, 1]);
}

// ---- reports of agents ----

#[test]
fn heartbeat_updates_column() {
    let mut db = Store::new();
    task(&mut db, 1, 1, 1, "t", "in_progress");
    assert!(heartbeat(&mut db, 1, NOW));
    assert!(db.tasks.rows[0].last_heartbeat.is_some());
}

#[test]
fn heartbeat_rejects_non_in_progress() {
    let mut db = Store::new();
    task(&mut db, 1, 1, 1, "t", "pending");
    assert!(!heartbeat(&mut db, 1, NOW));
    assert!(db.tasks.rows[0].last_heartbeat.is_none());
}

fn report(task_db_id: i64, kind: &str) -> EvidenceCreate {
    EvidenceCreate {
        task_db_id,
        evidence_type: kind.into(),
        command: "c".into(),
        output_summary: "o".into(),
        exit_code: -1,
    }
}

#[test]
fn evidence_is_taken_once() {
    let mut db = Store::new();
    task(&mut db, 1, 1, 1, "t", "in_progress");
    assert_eq!(create_evidence(&mut db, &report(1, "pr_url"), TEXT).ok(), Some(1));
    assert!(matches!(
        create_evidence(&mut db, &report(1, "pr_url"), TEXT),
        Err(EvidenceRefused::Duplicate)
    ));
    assert_eq!(create_evidence(&mut db, &report(1, "test_result"), TEXT).ok(), Some(2));
    assert_eq!(create_evidence(&mut db, &report(1, "test_result"), TEXT).ok(), Some(3));
    assert_eq!(db.task_evidence.rows[0].exit_code, -1);
    assert!(matches!(
        create_evidence(&mut db, &report(9, "x"), TEXT),
        Err(EvidenceRefused::NotFound)
    ));
    db.tasks.rows[0].status = "cancelled".into();
    match create_evidence(&mut db, &report(1, "x"), TEXT) {
        Err(EvidenceRefused::Terminal { status }) => assert_eq!(status, "cancelled"),
        _ => panic!("expected a refusal"),
    }
    db.tasks.rows[0].status = "pending".into();
    db.task_evidence.last_id = i64::MAX;
    assert!(matches!(
        create_evidence(&mut db, &report(1, "x"), TEXT),
        Err(EvidenceRefused::Full)
    ));
}

// ---- force operations ----

#[test]
fn force_resume_frees_a_plan() {
    let mut db = Store::new();
    plan(&mut db, 1, "p", "failed");
    wave(&mut db, 1, "W1", 1, "done");
    wave(&mut db, 2, "W2", 1, "pending");
    wave(&mut db, 3, "W3", 1, "pending");
    task(&mut db, 1, 1, 2, "a", "in_progress");
    task(&mut db, 2, 1, 2, "b", "in_progress");
    db.tasks.rows[0].locked_by = Some("x".into());
    db.tasks.rows[1].locked_by = Some("y".into());
    db.tasks.rows[1].last_heartbeat = Some(NOW - 600);
    let r = force_resume(&mut db, 1, None, NOW).ok().unwrap();
    assert_eq!((r.status.as_str(), r.locks_cleared, r.tasks_reset), ("in_progress", 2, 1));
    assert_eq!((status(&db, 1), status(&db, 2)), ("pending".into(), "in_progress".into()));
    assert_eq!(db.tasks.rows[1].locked_by.as_deref(), Some(""));
    let waves: Vec<&str> = db.waves.rows.iter().map(|w| w.status.as_str()).collect();
    assert_eq!(waves, vec!["done", "in_progress", "pending"]);
    let e = force_resume(&mut db, 1, Some("done"), NOW).err().unwrap();
    assert_eq!(e.message(), "invalid target_status 'done'");
    let e = force_resume(&mut db, 8, None, NOW).err().unwrap();
    assert_eq!(e.message(), "plan 8 not found");
}

#[test]
fn force_complete_ends_a_plan() {
    let mut db = Store::new();
    plan(&mut db, 1, "p", "failed");
    wave(&mut db, 1, "W1", 1, "done");
    wave(&mut db, 2, "W2", 1, "pending");
    task(&mut db, 1, 1, 2, "a", "in_progress");
    task(&mut db, 2, 1, 2, "b", "skipped");
    task(&mut db, 3, 2, 5, "c", "pending");
    let r = force_complete(&mut db, 1, NOW).ok().unwrap();
    assert_eq!((r.tasks_completed, r.waves_completed), (1, 1));
    assert_eq!(status(&db, 1), "done");
    assert_eq!(status(&db, 2), "skipped");
    assert_eq!(status(&db, 3), "pending");
    assert_eq!(db.plans.rows[0].status, "done");
    assert!(force_complete(&mut db, 9, NOW).is_err());
}

// ---- learning ----

fn metrics() -> PlanMetrics {
    PlanMetrics {
        tasks_total: 5,
        tasks_done: 5,
        tasks_failed: 0,
        tasks_cancelled: 0,
        waves_total: 2,
        total_tokens: 50000,
        duration_secs: Some(1800),
        agents_used: 3,
        respawn_count: 0,
        tasks_without_evidence: 0,
        pre_review_verdict: Some("pass".into()),
        post_review_verdict: Some("pass".into()),
    }
}

fn figures(m: &PlanMetrics, cost_usd: f64) -> Figures {
    let pct = (m.tasks_done as f64 / m.tasks_total as f64 * 100.0).round();
    Figures {
        completion_pct: format!("{pct}"),
        cost: Some((format!("{cost_usd:.2}"), format!("{:.2}", cost_usd / m.tasks_done as f64))),
        hours: m.duration_secs.map(|s| format!("{:.1}", s as f64 / 3600.0)),
    }
}

#[test]
fn generate_learnings_all_done() {
    let m = metrics();
    let insights = generate_learnings(&m, &figures(&m, 1.50));
    assert!(insights.iter().any(|i| i.contains("5/5")));
    assert!(insights.iter().any(|i| i.contains("$1.50")));
    assert!(!insights.iter().any(|i| i.contains("failed")));
    assert_eq!(
        insights,
        vec![
            "Completion: 5/5 tasks done (100%)",
            "Cost: $1.50 total, $0.30/task",
            "Duration: 0.5h",
        ]
    );
}

#[test]
fn generate_learnings_with_failures() {
    let m = PlanMetrics {
        tasks_total: 10,
        tasks_done: 7,
        tasks_failed: 2,
        tasks_cancelled: 1,
        waves_total: 3,
        total_tokens: 100000,
        duration_secs: Some(7200),
        agents_used: 5,
        respawn_count: 3,
        tasks_without_evidence: 1,
        pre_review_verdict: Some("pass".into()),
        post_review_verdict: Some("fail".into()),
    };
    let insights = generate_learnings(&m, &figures(&m, 5.0));
    assert!(insights.iter().any(|i| i.contains("failed")));
    assert!(insights.iter().any(|i| i.contains("respawn")));
    assert!(insights.iter().any(|i| i.contains("evidence")));
    assert_eq!(insights.len(), 7);
}

#[test]
fn parse_review_verdicts_pre_review() {
    let json = Some(r#"{"type":"pre_review","verdict":"pass"}"#.to_string());
    let (pre, post) = parse_review_verdicts(&json);
    assert_eq!(pre, Some("pass".into()));
    assert_eq!(post, None);
}

#[test]
fn parse_review_verdicts_none() {
    let (pre, post) = parse_review_verdicts(&None);
    assert_eq!(pre, None);
    assert_eq!(post, None);
}

#[test]
fn review_verdicts_by_type() {
    let of = |s: &str| parse_review_verdicts(&Some(s.to_string()));
    let pass = Some("pass".to_string());
    assert_eq!(of(r#"{"type":"post_review","verdict":"pass"}"#), (None, pass.clone()));
    assert_eq!(of(r#"{"verdict":"pass"}"#), (pass.clone(), pass.clone()));
    assert_eq!(of(r#"{"type":7,"verdict":"pass"}"#), (pass.clone(), pass.clone()));
    assert_eq!(of(r#"{"type":"pre_review","verdict":3}"#), (None, None));
    assert_eq!(of("not json"), (None, None));
    assert_eq!(
        split_verdicts(pass.clone(), Some("post_review".into())),
        (None, pass.clone())
    );
    assert_eq!(split_verdicts(pass.clone(), None), (pass.clone(), pass));
}

#[test]
fn metrics_are_collected() {
    let mut db = Store::new();
    plan(&mut db, 1, "p", "done");
    db.plans.rows[0].started_at = Some(NOW);
    db.plans.rows[0].completed_at = Some(NOW + 90);
    wave(&mut db, 1, "W1", 1, "done");
    task(&mut db, 1, 1, 1, "a", "done");
    task(&mut db, 2, 1, 1, "b", "failed");
    task(&mut db, 3, 1, 1, "c", "cancelled");
    task(&mut db, 4, 2, 2, "d", "done");
    evidence(&mut db, 1, "test_pass");
    task(&mut db, 5, 1, 1, "e", "submitted");
    for (id, task_id, n) in [("x", 1, 2), ("y", 2, 1), ("z", 4, 9)] {
        db.agents.push(AgentRow {
            id: id.into(),
            task_id: Some(task_id),
            respawn_count: n,
            ..AgentRow::default()
        });
    }
    for (plan_id, i, o) in [(1, 10, 5), (2, 100, 0), (1, 1, 0)] {
        db.token_usage.push(UsageRow {
            plan_id: Some(plan_id),
            input_tokens: i,
            output_tokens: o,
        });
    }
    db.plan_metadata.push(PlanMetaRow {
        plan_id: 1,
        report_json: Some(r#"{"type":"post_review","verdict":"fail"}"#.into()),
        ..PlanMetaRow::default()
    });
    let m = collect_metrics(&db, 1);
    assert_eq!((m.tasks_total, m.tasks_done, m.tasks_failed, m.tasks_cancelled), (4, 1, 1, 1));
    assert_eq!((m.waves_total, m.agents_used, m.respawn_count), (1, 2, 3));
    assert_eq!((m.total_tokens, m.duration_secs), (16, Some(90)));
    assert_eq!(m.tasks_without_evidence, 1);
    assert_eq!((m.pre_review_verdict, m.post_review_verdict), (None, Some("fail".into())));
    db.token_usage[0].output_tokens = i64::MAX;
    assert_eq!(collect_metrics(&db, 1).total_tokens, 0);

    assert!(!has_learnings(&db, 1));
    assert!(store_learnings(&mut db, 1, "{}", NOW));
    assert!(has_learnings(&db, 1));
    assert!(!store_learnings(&mut db, 1, "{\"a\":1}", NOW + 1));
    assert_eq!(db.plan_metadata[0].key_learnings_json.as_deref(), Some("{}"));
    assert_eq!(db.plan_metadata[0].closed_at, Some(NOW));
}
