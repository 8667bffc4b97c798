use convergio::aggregation::{cost_days, distinct, learnings, project_audit, summary};
use convergio::cleanup::{current_branch, is_merged, mark_cleaned, workspaces_to_clean};
use convergio::file_size_scan::{
    check_file, default_path, exclude_patterns, is_code_file, is_excluded, is_skipped_dir,
    may_scan,
};
use convergio::mcp_defs::{evidence_tools, orchestrator_tools, ParamKind};
use convergio::notify::{html_escape, plan_done_text};
use convergio::paths::{file_name, find_repo_root, parent};
use convergio::peers::{ask_again, choose_peer, Peer};
use convergio::plan_context::{drift_check, next_task, plan_context, validate_task};
use convergio::plan_import::{
    check_import, check_import_mode, default_import_mode, import_spec, ImportRefused,
};
use convergio::plan_import_core::{
    import_task, import_waves_and_tasks, stored_title, ImportStats, SpecTask, SpecWave, SpecYaml,
};
use convergio::rows::{
    ActivityRow, AgentRow, PlanMetaRow, PlanRow, TaskRow, UsageRow, WaveRow,
};
use convergio::sorting::less;
use convergio::store::Store;
use convergio::text::{
    contains, dec_i64, dec_u64, ends_with, join, lines, parse_i64, replace, same, space,
    split_on, split_words, starts_with, strip_prefix, trim,
};
use convergio::types::EvidenceRecord;

// ---- texts ----

const SAMPLES: [&str; 16] = [
    "",
    " ",
    "a",
    "  two  words ",
    "tab\tand\nline\r\n",
    "a\r\nb\n\nc\r",
    "\n",
    "x,y,,z",
    ",",
    "aaa",
    "übung \u{2003}wide\u{3000}space\u{85}",
    "..a...b..",
    "-12",
    "+7",
    "9223372036854775807",
    "-9223372036854775809",
];

#[test]
fn texts_are_handled_as_by_the_standard_library() {
    for s in SAMPLES {
        assert_eq!(split_words(s), s.split_whitespace().collect::<Vec<_>>(), "{s:?}");
        assert_eq!(trim(s), s.trim());
        assert_eq!(lines(s), s.lines().collect::<Vec<_>>(), "{s:?}");
        assert_eq!(split_on(s, ','), s.split(',').collect::<Vec<_>>());
        assert_eq!(parse_i64(s), s.parse::<i64>().ok(), "{s:?}");
        assert_eq!(replace(s, "..", ""), s.replace("..", ""));
        assert_eq!(replace(s, "aa", "b"), s.replace("aa", "b"));
        for t in SAMPLES {
            assert_eq!(same(s, t), s == t);
            assert_eq!(contains(s, t), s.contains(t), "{s:?} {t:?}");
            assert_eq!(starts_with(s, t), s.starts_with(t));
            assert_eq!(ends_with(s, t), s.ends_with(t));
            assert_eq!(strip_prefix(s, t).as_deref(), s.strip_prefix(t));
            assert_eq!(less(s, t), s < t, "{s:?} {t:?}");
        }
    }
    for n in [0, 7, 10, -1, 42, -305, i64::MAX, i64::MIN] {
        assert_eq!(dec_i64(n), n.to_string());
        assert_eq!(parse_i64(&dec_i64(n)), Some(n));
    }
    assert_eq!(dec_u64(u64::MAX), u64::MAX.to_string());
    assert_eq!(join(&vec!["a".into(), "b".into(), "".into()], ", "), "a, b, ");
    assert_eq!(join(&vec![], ", "), "");
}

#[test]
fn white_space_is_that_of_unicode() {
    for n in 0..=0x10ffffu32 {
        if let Some(c) = char::from_u32(n) {
            assert_eq!(space(c), c.is_whitespace(), "{n:x}");
        }
    }
}

// ---- paths ----

#[test]
fn find_repo_root_extracts_parent() {
    let root = find_repo_root("/home/user/project/.worktrees/agent-x");
    assert_eq!(root, Some("/home/user/project".to_string()));
}

#[test]
fn find_repo_root_handles_nested() {
    let root = find_repo_root("/a/b/.worktrees/w1");
    assert_eq!(root, Some("/a/b".to_string()));
}

#[test]
fn paths_are_taken_apart_as_by_the_standard_library() {
    for s in [
        "", "/", "//", ".", "./", "..", "a", "a/", "/a", "/a/", "a/b", "a//b", "a/./b", "a/b/.",
        "./a", "./a/b", ".//a", "/.", "/./a", "a/..", "../a", ".a", ".a/b", "a/.b", "/a/b/c.rs",
        "x.tar.gz", "./.", "././a", "a/./.", "..a", "/..",
    ] {
        let p = std::path::Path::new(s);
        assert_eq!(
            parent(s),
            p.parent().map(|q| q.to_str().unwrap().to_string()),
            "parent of {s:?}"
        );
        assert_eq!(
            file_name(s),
            p.file_name().map(|q| q.to_str().unwrap().to_string()),
            "name of {s:?}"
        );
    }
}

// ---- file sizes ----

#[test]
fn code_files_are_told_by_extension() {
    for s in [
        "a.rs", "b/c.ts", "x.js", "run.sh", "a.rs/", ".rs", "a.py", "rs", "a.", "a.b.rs", "..rs",
        "dir.rs/file", "a.RS",
    ] {
        let std = std::path::Path::new(s)
            .extension()
            .and_then(|e| e.to_str())
            .is_some_and(|e| ["rs", "ts", "js", "sh"].contains(&e));
        assert_eq!(is_code_file(s), std, "{s:?}");
    }
}

#[test]
fn long_files_are_found() {
    let long = "x\n".repeat(301);
    let none: Vec<String> = vec![];
    let v = check_file("src/a.rs", &long, &none).unwrap();
    assert_eq!((v.file.as_str(), v.lines, v.over_by), ("src/a.rs", 301, 1));
    assert!(check_file("src/a.rs", &"x\n".repeat(300), &none).is_none());
    assert!(check_file("src/a.md", &long, &none).is_none());
    let patterns = exclude_patterns("# comment\n\n*generated*\n");
    assert_eq!(patterns.len(), 3);
    assert!(check_file("src/generated/a.rs", &long, &patterns).is_none());
    assert!(is_excluded("x/generated.rs", &patterns));
    assert!(!is_excluded("# comment", &patterns));
    assert_eq!(default_path(), ".");
    assert!(may_scan("src") && may_scan(".") && !may_scan("/etc") && !may_scan("a/../b"));
    assert!(is_skipped_dir(".git") && is_skipped_dir("target") && !is_skipped_dir("targets"));
}

// ---- import ----

fn spec_task(id: Option<&str>, title: Option<&str>) -> SpecTask {
    SpecTask {
        id: id.map(String::from),
        title: title.map(String::from),
        description: None,
        executor_agent: Some("bot".into()),
        model: Some("m".into()),
        effort: Some(3),
        output_type: None,
        validator_agent: None,
        verify: vec!["cargo test".into()],
    }
}

fn spec(tasks: Vec<SpecTask>) -> SpecYaml {
    SpecYaml {
        waves: vec![SpecWave {
            id: "W1".into(),
            name: String::new(),
            depends_on_wave: "W0".into(),
            tasks,
        }],
    }
}

fn importing() -> Store {
    let mut db = Store::new();
    db.plans.put(PlanRow { id: 1, ..PlanRow::default() });
    db
}

fn counts(s: &ImportStats) -> (u32, u32, u32, u32, usize) {
    (s.waves_created, s.tasks_created, s.waves_skipped, s.tasks_skipped, s.errors.len())
}

#[test]
fn append_adds_what_is_new() {
    let mut db = importing();
    let y = spec(vec![spec_task(Some("T1"), Some("one")), spec_task(None, None)]);
    let first = import_waves_and_tasks(&mut db, 1, &y, "append");
    assert_eq!(counts(&first), (1, 2, 0, 0, 0));
    assert_eq!(db.plans.rows[0].tasks_total, 2);
    let w = &db.waves.rows[0];
    assert_eq!((w.name.as_str(), w.status.as_str()), ("W1", "pending"));
    assert_eq!(w.depends_on_wave.as_deref(), Some("W0"));
    let t = &db.tasks.rows[0];
    assert_eq!((t.title.as_str(), t.status.as_str(), t.wave_id), ("one", "pending", Some(1)));
    assert_eq!(db.tasks.rows[1].title, "untitled");
    assert_eq!(db.tasks.rows[1].task_id.as_deref(), Some(""));
    let meta =
        serde_json::from_str::<serde_json::Value>(t.metadata.as_deref().unwrap()).unwrap();
    assert_eq!(meta["effort"], 3);
    assert_eq!(meta["model"], "m");
    assert_eq!(meta["description"], serde_json::Value::Null);
    assert_eq!(meta["verify"][0], "cargo test");
    assert_eq!(meta["order"], 0);
    assert_eq!(meta["output_type"], serde_json::Value::Null);
    assert_eq!(meta["validator_agent"], serde_json::Value::Null);
    assert_eq!(meta.as_object().unwrap().len(), 7);
    assert_eq!(t.metadata.as_deref(), Some(meta.to_string().as_str()));
    let second = import_waves_and_tasks(&mut db, 1, &y, "append");
    assert_eq!(counts(&second), (0, 1, 1, 1, 0));
    assert_eq!(db.plans.rows[0].tasks_total, 3);
}

#[test]
fn append_of_identified_tasks_again_changes_nothing() {
    let mut db = importing();
    let y = spec(vec![spec_task(Some("T1"), Some("one")), spec_task(Some("T2"), Some("two"))]);
    import_waves_and_tasks(&mut db, 1, &y, "merge");
    let again = import_waves_and_tasks(&mut db, 1, &y, "append");
    assert_eq!(counts(&again), (0, 0, 1, 2, 0));
    assert_eq!(db.tasks.rows.len(), 2);
}

#[test]
fn merge_of_identified_tasks_again_creates_nothing() {
    for mode in ["append", "merge", "replace"] {
        let mut db = importing();
        let y = spec(vec![spec_task(Some("T1"), Some("one")), spec_task(Some("T2"), None)]);
        let first = import_waves_and_tasks(&mut db, 1, &y, mode);
        assert_eq!(counts(&first), (1, 2, 0, 0, 0));
        let again = import_waves_and_tasks(&mut db, 1, &y, "merge");
        assert_eq!(counts(&again), (0, 0, 1, 2, 0));
        assert_eq!(db.plans.rows[0].tasks_total, 2);
    }
}

#[test]
fn merge_brings_tasks_up_to_date() {
    let mut db = importing();
    import_waves_and_tasks(&mut db, 1, &spec(vec![spec_task(Some("T1"), Some("old"))]), "append");
    let mut y = spec(vec![spec_task(Some("T1"), Some("new"))]);
    y.waves[0].name = "Named".into();
    let s = import_waves_and_tasks(&mut db, 1, &y, "merge");
    assert_eq!(counts(&s), (0, 0, 1, 1, 0));
    assert_eq!(db.tasks.rows[0].title, "new");
    assert_eq!(db.waves.rows[0].name, "Named");
}

#[test]
fn replace_spares_tasks_with_evidence() {
    let mut db = importing();
    let y = spec(vec![spec_task(Some("T1"), Some("one"))]);
    import_waves_and_tasks(&mut db, 1, &y, "append");
    let s = import_spec(&mut db, 1, &y, "replace").ok().unwrap();
    assert_eq!(counts(&s), (1, 1, 0, 0, 0));
    assert_eq!((db.tasks.rows.len(), db.tasks.rows[0].id, db.waves.rows[0].id), (1, 2, 2));
    db.task_evidence.put(EvidenceRecord { id: 1, task_id: 2, ..EvidenceRecord::default() });
    let refused = import_spec(&mut db, 1, &y, "replace").err().unwrap();
    assert_eq!(refused, ImportRefused::HasEvidence);
    assert_eq!(refused.message(), "cannot replace: plan has tasks with recorded evidence");
    assert_eq!(refused.hint(), "Use 'append' or 'merge' mode, or remove evidence first");
    let twice = spec(vec![spec_task(Some("T9"), None), spec_task(Some("T9"), None)]);
    db.task_evidence.rows.clear();
    let s = import_spec(&mut db, 1, &twice, "replace").ok().unwrap();
    assert_eq!(
        s.errors,
        vec!["task T9: UNIQUE constraint failed: tasks.plan_id, tasks.task_id"]
    );
}

#[test]
fn import_reports_exhausted_keys() {
    let mut db = importing();
    db.waves.last_id = i64::MAX;
    let y = spec(vec![spec_task(Some("T1"), None)]);
    let s = import_waves_and_tasks(&mut db, 1, &y, "append");
    assert_eq!(s.errors, vec!["wave W1: database or disk is full"]);
    let mut db = importing();
    db.tasks.last_id = i64::MAX;
    let s = import_waves_and_tasks(&mut db, 1, &y, "append");
    assert_eq!(s.errors, vec!["task T1: database or disk is full"]);
}

#[test]
fn import_is_refused() {
    let mut db = importing();
    assert_eq!(default_import_mode(), "append");
    assert!(check_import_mode("merge").is_ok());
    assert_eq!(
        check_import(&db, 1, "overwrite"),
        Err("invalid import_mode 'overwrite', must be: append, replace, merge".to_string())
    );
    assert!(check_import(&db, 1, "append").is_ok());
    db.plans.rows[0].status = "done".into();
    assert_eq!(
        check_import(&db, 1, "append"),
        Err("ImportGate: cannot add tasks to plan in status 'done'".to_string())
    );
}

#[test]
fn long_titles_are_cut() {
    let long = "é".repeat(251);
    let t = spec_task(None, Some(&long));
    assert_eq!(stored_title(&t), "é".repeat(250));
    let exact = "x".repeat(500);
    assert_eq!(stored_title(&spec_task(None, Some(&exact))), exact);
    let mut db = importing();
    let mut stats = ImportStats {
        waves_created: 0,
        tasks_created: 0,
        waves_skipped: 0,
        tasks_skipped: 0,
        errors: vec![],
    };
    import_task(&mut db, 1, 7, &t, "{}", "append", &mut stats);
    assert_eq!(db.tasks.rows[0].metadata.as_deref(), Some("{}"));
    assert_eq!(db.tasks.rows[0].wave_id, Some(7));
}

// ---- context ----

#[test]
fn context_of_a_plan() {
    let mut db = importing();
    for (id, wave, status) in [(1, 5, "pending"), (2, 4, "pending"), (3, 4, "done")] {
        db.tasks.put(TaskRow {
            id,
            plan_id: 1,
            wave_id: Some(wave),
            status: status.into(),
            ..TaskRow::default()
        });
    }
    assert!(next_task(&db, 1).is_none());
    db.waves.put(WaveRow { id: 5, wave_id: "W5".into(), plan_id: 1, ..WaveRow::default() });
    let n = next_task(&db, 1).unwrap();
    assert_eq!((n.task.id, n.wave.as_str()), (1, "W5"));
    db.waves.put(WaveRow { id: 4, wave_id: "W4".into(), plan_id: 1, ..WaveRow::default() });
    let n = next_task(&db, 1).unwrap();
    assert_eq!((n.task.id, n.wave.as_str()), (2, "W4"));
    db.plan_metadata.push(PlanMetaRow {
        plan_id: 1,
        objective: Some("win".into()),
        ..PlanMetaRow::default()
    });
    let c = plan_context(&db, 1);
    assert_eq!((c.tasks_total, c.tasks_done), (3, 1));
    assert_eq!(c.metadata.unwrap().objective.as_deref(), Some("win"));
    assert!(plan_context(&db, 2).plan.is_none());
    let d = drift_check(&db, 1);
    assert_eq!((d.pending_tasks, d.total_tasks, d.completion_pct), (2, 3, 33));
    assert_eq!(drift_check(&db, 2).completion_pct, 0);
    assert!(drift_check(&db, 2).created_at.is_none());
    let v = validate_task(&db, 3, 1).unwrap();
    assert!(!v.valid && !v.has_evidence && v.status == "done");
    db.tasks.rows[2].status = "submitted".into();
    db.task_evidence.put(EvidenceRecord { id: 1, task_id: 3, ..EvidenceRecord::default() });
    assert!(validate_task(&db, 3, 1).unwrap().valid);
    assert!(validate_task(&db, 3, 2).is_none());
}

// ---- aggregation ----

#[test]
fn numbers_over_all_plans() {
    let mut db = Store::new();
    for (id, status) in [(1, "done"), (2, "todo"), (3, "done")] {
        db.plans.put(PlanRow {
            id,
            name: format!("p{id}"),
            project_id: "x".into(),
            status: status.into(),
            ..PlanRow::default()
        });
        db.plan_metadata.push(PlanMetaRow {
            plan_id: id,
            key_learnings_json: Some(if id == 2 { String::new() } else { format!("l{id}") }),
            ..PlanMetaRow::default()
        });
    }
    for (agent, status) in [("a", "started"), ("a", "started"), ("b", "started"), ("c", "done")] {
        db.agent_activity.push(ActivityRow { agent_id: agent.into(), status: status.into() });
    }
    db.token_usage.push(UsageRow { plan_id: None, input_tokens: 3, output_tokens: 4 });
    let s = summary(&db);
    assert_eq!((s.total_plans, s.done_plans, s.total_tasks), (3, 2, 0));
    assert_eq!((s.total_tokens, s.active_agents), (7, 2));
    assert_eq!(s.plan_status_distribution, vec![("done".to_string(), 2), ("todo".to_string(), 1)]);
    let l: Vec<String> = learnings(&db).into_iter().map(|l| l.key_learnings).collect();
    assert_eq!(l, vec!["l3", "l1"]);
    let audit = project_audit(&db, "x");
    assert_eq!(audit.len(), 3);
    assert_eq!(audit[2].plan.name, "p3");
    assert!(audit[0].metadata.is_some());
    assert!(project_audit(&db, "y").is_empty());
    assert_eq!(distinct(&vec!["b".into(), "a".into(), "b".into()]), vec!["b", "a"]);
    assert_eq!((cost_days(None), cost_days(Some(7)), cost_days(Some(999))), (30, 7, 365));
}

// ---- cleanup, peers, messages ----

#[test]
fn workspaces_of_stopped_agents() {
    let mut db = Store::new();
    db.tasks.put(TaskRow { id: 1, plan_id: 1, ..TaskRow::default() });
    for (id, stage, path) in [
        ("a", "stopped", Some("/r/.worktrees/a")),
        ("b", "running", Some("/r/.worktrees/b")),
        ("c", "failed", None),
    ] {
        db.agents.push(AgentRow {
            id: id.into(),
            stage: stage.into(),
            task_id: Some(1),
            workspace_path: path.map(String::from),
            ..AgentRow::default()
        });
    }
    let found = workspaces_to_clean(&db, 1);
    assert_eq!(found, vec![("a".to_string(), "/r/.worktrees/a".to_string())]);
    mark_cleaned(&mut db, "a", 5);
    assert!(workspaces_to_clean(&db, 1).is_empty());
    assert_eq!(db.agents[0].updated_at, Some(5));
    assert_eq!(current_branch(" main\n"), Some("main".to_string()));
    assert_eq!(current_branch("\n"), None);
    let list = "  feature/a\n* main\n  feature/b\n";
    assert!(is_merged(list, "main") && is_merged(list, "feature/b"));
    assert!(!is_merged(list, "feature"));
}

#[test]
fn first_online_peer_is_chosen() {
    let peer = |name: Option<&str>, online| Peer { name: name.map(String::from), online };
    let peers = vec![peer(Some("a"), false), peer(Some("b"), true), peer(Some("c"), true)];
    assert_eq!(choose_peer(&peers, None).as_deref(), Some("b"));
    assert_eq!(choose_peer(&peers, Some("b")).as_deref(), Some("c"));
    let nameless = vec![peer(None, true), peer(Some("b"), true)];
    assert_eq!(choose_peer(&nameless, None), None);
    assert!(ask_again(2) && !ask_again(3));
}

#[test]
fn messages_are_escaped() {
    assert_eq!(html_escape("a<b> & c"), "a&lt;b&gt; &amp; c");
    assert_eq!(html_escape("&lt;"), "&amp;lt;");
    assert_eq!(
        plan_done_text(7, "R&D"),
        "\u{1f7e2} <b>Plan completed</b>\n\nR&amp;D\n\n<code>Plan #7</code>"
    );
}

#[test]
fn tools_name_their_parameters() {
    let tools = orchestrator_tools();
    assert_eq!(tools.len(), 18);
    assert_eq!(tools[0].name, "cvg_list_plans");
    assert_eq!(evidence_tools().len(), 2);
    for t in tools.iter().chain(evidence_tools().iter()) {
        for p in &t.path_params {
            assert!(t.path.contains(&format!(":{p}")));
            assert!(t.required.contains(p));
        }
        for r in &t.required {
            assert!(t.params.iter().any(|p| p.name == *r));
        }
    }
    let update = tools.iter().find(|t| t.name == "cvg_update_task").unwrap();
    assert_eq!(update.params[1].choices, vec!["pending", "in_progress", "submitted"]);
    assert_eq!(update.params[0].kind, ParamKind::Integer);
}

// ---- tables ----

#[test]
fn rows_are_kept_in_the_order_of_their_keys() {
    let mut db = Store::new();
    for id in [5, 1, 3] {
        assert!(db.tasks.put(TaskRow { id, ..TaskRow::default() }));
    }
    assert!(!db.tasks.put(TaskRow { id: 3, plan_id: 9, ..TaskRow::default() }));
    let ids: Vec<i64> = db.tasks.rows.iter().map(|t| t.id).collect();
    assert_eq!(ids, vec![1, 3, 5]);
    assert_eq!(db.tasks.last_id, 5);
}
