//! Agent health: tasks whose agents stopped or fell silent go back to the executor.

use crate::rows::{
    AgentRow, AgentRowView, AuditRow, AuditRowView, ContextRow, ContextRowView, HeartbeatRow,
    HeartbeatRowView, TaskRow, TaskRowView,
};
use crate::store::{sound, Store, StoreError, StoreView};
use crate::table::{
    any, any_where, appended, count, full, lemma_updated_keyed, select_where, update_where, updated,
    views, Duplicate, Row, TableView,
};
use crate::text::{cat3, opt_text, same, text_or_empty};
use vstd::prelude::*;

verus! {

/// After this many seconds a task without a living agent is stuck.
pub const STUCK_THRESHOLD_SECS: i128 = 3600;

// ---- agents that stopped ----

/// The agent with the given id, where it has stopped for good.
pub open spec fn stopped(agent: Seq<char>) -> spec_fn(AgentRowView) -> bool {
    |a: AgentRowView|
        a.id == agent && (a.stage == "stopped"@ || a.stage == "failed"@ || a.stage == "reaped"@)
}

/// A living agent that continues the work of another.
pub open spec fn continues(agent: Seq<char>) -> spec_fn(AgentRowView) -> bool {
    |a: AgentRowView|
        a.parent_agent_id == Some(agent) && (a.stage == "spawning"@ || a.stage == "running"@)
}

/// The checkpoint of an agent.
pub open spec fn checkpoint_of(agent: Seq<char>) -> spec_fn(ContextRowView) -> bool {
    |c: ContextRowView| c.agent_id == agent && c.key == "checkpoint_state"@
}

/// A task in progress whose agent stopped without a successor and without a checkpoint.
pub open spec fn abandoned(s: StoreView) -> spec_fn(TaskRowView) -> bool {
    |t: TaskRowView|
        t.status == "in_progress"@ && (match t.executor_agent {
            Some(agent) => any(s.agents, stopped(agent)) && !any(s.agents, continues(agent))
                && !any(s.agent_context, checkpoint_of(agent)),
            None => false,
        })
}

/// A task that waits for an agent again.
pub open spec fn requeued() -> spec_fn(TaskRowView) -> TaskRowView {
    |t: TaskRowView|
        TaskRowView { status: "pending"@, executor_agent: None, started_at: None, ..t }
}

/// The store in which some tasks wait for an agent again.
pub open spec fn with_requeued(s: StoreView, p: spec_fn(TaskRowView) -> bool) -> StoreView {
    StoreView {
        tasks: TableView {
            rows: updated(s.tasks.rows, p, requeued()),
            last_id: s.tasks.last_id,
        },
        ..s
    }
}

fn has_stopped(agents: &Vec<AgentRow>, agent: &str) -> (r: bool)
    ensures
        r == any(views(agents@), stopped(agent@)),
{
    any_where(
        agents,
        |a: &AgentRow| -> (b: bool) ensures b == stopped(agent@)(a@) {
            same(a.id.as_str(), agent) && (same(a.stage.as_str(), "stopped") || same(
                a.stage.as_str(),
                "failed",
            ) || same(a.stage.as_str(), "reaped"))
        },
        Ghost(stopped(agent@)),
    )
}

fn is_continued(agents: &Vec<AgentRow>, agent: &str) -> (r: bool)
    ensures
        r == any(views(agents@), continues(agent@)),
{
    any_where(
        agents,
        |a: &AgentRow| -> (b: bool) ensures b == continues(agent@)(a@) {
            (match &a.parent_agent_id {
                Some(p) => same(p.as_str(), agent),
                None => false,
            }) && (same(a.stage.as_str(), "spawning") || same(a.stage.as_str(), "running"))
        },
        Ghost(continues(agent@)),
    )
}

fn has_checkpoint(context: &Vec<ContextRow>, agent: &str) -> (r: bool)
    ensures
        r == any(views(context@), checkpoint_of(agent@)),
{
    any_where(
        context,
        |c: &ContextRow| -> (b: bool) ensures b == checkpoint_of(agent@)(c@) {
            same(c.agent_id.as_str(), agent) && same(c.key.as_str(), "checkpoint_state")
        },
        Ghost(checkpoint_of(agent@)),
    )
}

/// Puts the tasks back whose agents stopped without a successor and without a checkpoint, and
/// says how many they are. A task with a checkpoint is left to its respawn.
pub fn check_and_requeue(db: &mut Store) -> (n: usize)
    ensures
        n == count(old(db)@.tasks.rows, abandoned(old(db)@)),
        final(db)@ == with_requeued(old(db)@, abandoned(old(db)@)),
        sound(old(db)@) ==> sound(final(db)@),
{
    let ghost s = db@;
    proof {
        if sound(s) {
            lemma_updated_keyed::<TaskRow>(s.tasks, abandoned(s), requeued());
        }
    }
    let agents = &db.agents;
    let context = &db.agent_context;
    update_where(
        &mut db.tasks.rows,
        |t: &TaskRow| -> (b: bool) ensures b == abandoned(s)(t@) {
            same(t.status.as_str(), "in_progress") && (match &t.executor_agent {
                Some(agent) => has_stopped(agents, agent.as_str()) && !is_continued(
                    agents,
                    agent.as_str(),
                ) && !has_checkpoint(context, agent.as_str()),
                None => false,
            })
        },
        |t: &TaskRow| -> (m: TaskRow) ensures m@ == requeued()(t@) {
            TaskRow {
                status: "pending".to_owned(),
                executor_agent: None,
                started_at: None,
                ..t.duplicate()
            }
        },
        Ghost(abandoned(s)),
        Ghost(requeued()),
    )
}

// ---- agents that fell silent ----

/// A sign of life of an agent: it was seen within three of its intervals.
pub open spec fn alive(agent: Option<Seq<char>>, now: i64) -> spec_fn(HeartbeatRowView) -> bool {
    |h: HeartbeatRowView|
        agent == Some(h.agent_id) && now - h.last_seen < h.interval_s * 3
}

/// A task that has been in progress for too long without a sign of life.
pub open spec fn stuck(s: StoreView, now: i64) -> spec_fn(TaskRowView) -> bool {
    |t: TaskRowView|
        t.status == "in_progress"@ && (match t.started_at {
            Some(start) => now - start > STUCK_THRESHOLD_SECS,
            None => false,
        }) && !any(s.heartbeats, alive(t.executor_agent, now))
}

/// A number of seconds, as far as 64 bits hold it.
pub open spec fn seconds(n: int) -> i64 {
    if n > i64::MAX {
        i64::MAX
    } else {
        n as i64
    }
}

/// A stuck task: its id, its agent, and for how many seconds it has been in progress.
pub open spec fn stuck_entry(t: TaskRowView, now: i64) -> (i64, Seq<char>, i64) {
    (t.id, text_or_empty(t.executor_agent), seconds(now - t.started_at->0))
}

/// The stuck tasks.
pub open spec fn stuck_entries(s: StoreView, now: i64) -> Seq<(i64, Seq<char>, i64)> {
    s.tasks.rows.filter(stuck(s, now)).map_values(|t: TaskRowView| stuck_entry(t, now))
}

/// The entries, the agents by their characters.
pub open spec fn entries(list: Seq<(i64, String, i64)>) -> Seq<(i64, Seq<char>, i64)> {
    list.map_values(|e: (i64, String, i64)| (e.0, e.1@, e.2))
}

fn is_alive(beats: &Vec<HeartbeatRow>, agent: &Option<String>, now: i64) -> (r: bool)
    ensures
        r == any(views(beats@), alive(opt_text(*agent), now)),
{
    any_where(
        beats,
        |h: &HeartbeatRow| -> (b: bool) ensures b == alive(opt_text(*agent), now)(h@) {
            (match agent {
                Some(a) => same(a.as_str(), h.agent_id.as_str()),
                None => false,
            }) && (now as i128) - (h.last_seen as i128) < (h.interval_s as i128) * 3
        },
        Ghost(alive(opt_text(*agent), now)),
    )
}

/// The tasks that have been in progress for more than an hour without a sign of life of their
/// agent.
pub fn find_stuck_tasks(db: &Store, now: i64) -> (r: Vec<(i64, String, i64)>)
    ensures
        entries(r@) == stuck_entries(db@, now),
{
    let rows = select_where(
        &db.tasks.rows,
        |t: &TaskRow| -> (b: bool) ensures b == stuck(db@, now)(t@) {
            same(t.status.as_str(), "in_progress") && (match t.started_at {
                Some(start) => (now as i128) - (start as i128) > STUCK_THRESHOLD_SECS,
                None => false,
            }) && !is_alive(&db.heartbeats, &t.executor_agent, now)
        },
        Ghost(stuck(db@, now)),
    );
    let ghost found = views(rows@);
    let mut out: Vec<(i64, String, i64)> = Vec::new();
    let mut i: usize = 0;
    while i < rows.len()
        invariant
            i <= rows@.len(),
            found == views(rows@),
            found == db@.tasks.rows.filter(stuck(db@, now)),
            out@.len() == i,
            forall|k: int|
                0 <= k < i ==> ((#[trigger] out@[k]).0, out@[k].1@, out@[k].2) == stuck_entry(
                    found[k],
                    now,
                ),
        decreases rows@.len() - i,
    {
        proof {
            db@.tasks.rows.lemma_filter_pred(stuck(db@, now), i as int);
            assert(stuck(db@, now)(found[i as int]));
        }
        let agent = match &rows[i].executor_agent {
            Some(a) => a.clone(),
            None => String::new(),
        };
        let elapsed: i64 = match rows[i].started_at {
            Some(start) => {
                let d: i128 = (now as i128) - (start as i128);
                if d > i64::MAX as i128 {
                    i64::MAX
                } else {
                    d as i64
                }
            },
            None => 0,
        };
        out.push((rows[i].id, agent, elapsed));
        i += 1;
    }
    assert(entries(out@) =~= stuck_entries(db@, now));
    out
}

/// The task with the given id while it is in progress.
pub open spec fn running_task(task_id: i64) -> spec_fn(TaskRowView) -> bool {
    |t: TaskRowView| t.id == task_id && t.status == "in_progress"@
}

/// The entry of the audit log on a task that was put back.
pub open spec fn revert_entry(id: i64, task_id: i64, agent: Seq<char>) -> AuditRowView {
    AuditRowView {
        id,
        action: "stuck_revert"@,
        entity_type: "task"@,
        entity_id: task_id,
        actor: "agent_health"@,
        details: "agent "@ + agent + " stuck, reverting to pending"@,
    }
}

/// The store after a stuck task has been put back.
pub open spec fn after_revert(s: StoreView, task_id: i64, agent: Seq<char>) -> StoreView {
    let n = with_requeued(s, running_task(task_id));
    if full(n.audit_log) {
        n
    } else {
        StoreView {
            audit_log: appended(
                n.audit_log,
                revert_entry((n.audit_log.last_id + 1) as i64, task_id, agent),
            ),
            ..n
        }
    }
}

/// Puts a stuck task back, and notes that in the audit log.
pub fn handle_stuck_task(db: &mut Store, task_id: i64, agent: &str) -> (r: Result<(), StoreError>)
    ensures
        final(db)@ == after_revert(old(db)@, task_id, agent@),
        r == if full(old(db)@.audit_log) {
            Err::<(), StoreError>(StoreError::Full)
        } else {
            Ok(())
        },
        sound(old(db)@) ==> sound(final(db)@),
{
    proof {
        if sound(db@) {
            lemma_updated_keyed::<TaskRow>(db@.tasks, running_task(task_id), requeued());
        }
    }
    update_where(
        &mut db.tasks.rows,
        |t: &TaskRow| -> (b: bool) ensures b == running_task(task_id)(t@) {
            t.id == task_id && same(t.status.as_str(), "in_progress")
        },
        |t: &TaskRow| -> (m: TaskRow) ensures m@ == requeued()(t@) {
            TaskRow {
                status: "pending".to_owned(),
                executor_agent: None,
                started_at: None,
                ..t.duplicate()
            }
        },
        Ghost(running_task(task_id)),
        Ghost(requeued()),
    );
    if db.audit_log.last_id == i64::MAX {
        return Err(StoreError::Full);
    }
    let id: i64 = db.audit_log.last_id + 1;
    db.audit_log.append(
        AuditRow {
            id,
            action: "stuck_revert".to_owned(),
            entity_type: "task".to_owned(),
            entity_id: task_id,
            actor: "agent_health".to_owned(),
            details: cat3("agent ", agent, " stuck, reverting to pending"),
        },
    );
    Ok(())
}

/// The store after some stuck tasks have been put back, up to the first that cannot be noted in
/// the log, and whether there was one.
pub open spec fn after_reverts(s: StoreView, list: Seq<(i64, Seq<char>, i64)>) -> (
    StoreView,
    bool,
)
    decreases list.len(),
{
    if list.len() == 0 {
        (s, false)
    } else {
        let before = after_reverts(s, list.drop_last());
        if before.1 {
            before
        } else {
            (
                after_revert(before.0, list.last().0, list.last().1),
                full(before.0.audit_log),
            )
        }
    }
}

/// A failure to note decides what is done.
proof fn lemma_reverts_stop(s: StoreView, list: Seq<(i64, Seq<char>, i64)>, k: int)
    requires
        0 <= k <= list.len(),
        after_reverts(s, list.take(k)).1,
    ensures
        after_reverts(s, list) == after_reverts(s, list.take(k)),
    decreases list.len(),
{
    if k == list.len() {
        assert(list.take(k) =~= list);
    } else {
        assert(list.drop_last().take(k) =~= list.take(k));
        lemma_reverts_stop(s, list.drop_last(), k);
    }
}

/// What one look at the health of agents found.
pub struct HealthReport {
    /// How many tasks of stopped agents were put back.
    pub requeued: usize,
    /// The tasks that were stuck.
    pub stuck: Vec<(i64, String, i64)>,
    /// Why not all of them were put back, if so.
    pub failure: Option<StoreError>,
}

/// One look at the health of agents: tasks of stopped agents and stuck tasks are put back.
pub fn health_tick(db: &mut Store, now: i64) -> (r: HealthReport)
    ensures
        ({
            let first = with_requeued(old(db)@, abandoned(old(db)@));
            let end = after_reverts(first, stuck_entries(first, now));
            &&& r.requeued == count(old(db)@.tasks.rows, abandoned(old(db)@))
            &&& entries(r.stuck@) == stuck_entries(first, now)
            &&& final(db)@ == end.0
            &&& r.failure == if end.1 {
                Some(StoreError::Full)
            } else {
                None
            }
        }),
        sound(old(db)@) ==> sound(final(db)@),
{
    let requeued = check_and_requeue(db);
    let ghost s = db@;
    let stuck = find_stuck_tasks(db, now);
    let ghost all = entries(stuck@);
    let mut i: usize = 0;
    assert(all.take(0) =~= Seq::empty());
    while i < stuck.len()
        invariant
            i <= stuck@.len(),
            all == entries(stuck@),
            s == with_requeued(old(db)@, abandoned(old(db)@)),
            all == stuck_entries(s, now),
            requeued == count(old(db)@.tasks.rows, abandoned(old(db)@)),
            after_reverts(s, all.take(i as int)) == (db@, false),
            sound(old(db)@) ==> sound(db@),
        decreases stuck@.len() - i,
    {
        proof {
            assert(all.take(i + 1).drop_last() =~= all.take(i as int));
            assert(all.take(i + 1).last() == (
                stuck@[i as int].0,
                stuck@[i as int].1@,
                stuck@[i as int].2,
            ));
        }
        let done = handle_stuck_task(db, stuck[i].0, stuck[i].1.as_str());
        if let Err(e) = done {
            proof {
                lemma_reverts_stop(s, all, i + 1);
            }
            return HealthReport { requeued, stuck, failure: Some(e) };
        }
        i += 1;
    }
    assert(all.take(i as int) =~= all);
    HealthReport { requeued, stuck, failure: None }
}

/// A task of a stopped agent that left a checkpoint, or that another agent continues, is not put
/// back; nor is a task that is not in progress.
pub proof fn law_requeue_spares(s: StoreView, t: TaskRowView)
    ensures
        t.executor_agent matches Some(a) && any(s.agent_context, checkpoint_of(a)) ==> !abandoned(
            s,
        )(t),
        t.executor_agent matches Some(a) && any(s.agents, continues(a)) ==> !abandoned(s)(t),
        t.status != "in_progress"@ ==> !abandoned(s)(t),
{
}

/// To look again for tasks of stopped agents finds none: what was put back stays put back.
pub proof fn law_requeue_once(s: StoreView)
    ensures
        !any(with_requeued(s, abandoned(s)).tasks.rows, abandoned(with_requeued(s, abandoned(s)))),
{
    reveal_strlit("pending");
    reveal_strlit("in_progress");
    assert("pending"@.len() == 7 && "in_progress"@.len() == 11);
    let n = with_requeued(s, abandoned(s));
    assert forall|i: int| 0 <= i < n.tasks.rows.len() implies !abandoned(n)(
        #[trigger] n.tasks.rows[i],
    ) by {
        let o = s.tasks.rows[i];
        if abandoned(s)(o) {
            assert(n.tasks.rows[i] == requeued()(o));
        } else {
            assert(n.tasks.rows[i] == o);
        }
    }
}

/// The tasks that are put back, over the rows: those in progress whose agent is stopped, failed or
/// reaped, that no spawning or running agent continues and that have no checkpoint. They are
/// pending, without an agent and a start. Nothing else changes.
pub proof fn law_requeue_over_rows(s: StoreView, i: int)
    requires
        0 <= i < s.tasks.rows.len(),
    ensures
        ({
            let t = s.tasks.rows[i];
            let n = with_requeued(s, abandoned(s));
            &&& n == (StoreView { tasks: n.tasks, ..s })
            &&& n.tasks.last_id == s.tasks.last_id
            &&& n.tasks.rows.len() == s.tasks.rows.len()
            &&& n.tasks.rows[i] == if t.status == "in_progress"@ && t.executor_agent is Some && (
            exists|a: int|
                0 <= a < s.agents.len() && (#[trigger] s.agents[a]).id == t.executor_agent->0 && (
                s.agents[a].stage == "stopped"@ || s.agents[a].stage == "failed"@
                    || s.agents[a].stage == "reaped"@)) && (forall|a: int|
                0 <= a < s.agents.len() && (#[trigger] s.agents[a]).parent_agent_id
                    == t.executor_agent ==> s.agents[a].stage != "spawning"@ && s.agents[a].stage
                    != "running"@) && (forall|c: int|
                0 <= c < s.agent_context.len() && (#[trigger] s.agent_context[c]).agent_id
                    == t.executor_agent->0 ==> s.agent_context[c].key != "checkpoint_state"@) {
                TaskRowView { status: "pending"@, executor_agent: None, started_at: None, ..t }
            } else {
                t
            }
        }),
{
    let t = s.tasks.rows[i];
    if let Some(agent) = t.executor_agent {
        assert(any(s.agents, stopped(agent)) <==> exists|a: int|
            0 <= a < s.agents.len() && (#[trigger] s.agents[a]).id == agent && (s.agents[a].stage
                == "stopped"@ || s.agents[a].stage == "failed"@ || s.agents[a].stage
                == "reaped"@));
        assert(!any(s.agents, continues(agent)) <==> forall|a: int|
            0 <= a < s.agents.len() && (#[trigger] s.agents[a]).parent_agent_id == Some(agent)
                ==> s.agents[a].stage != "spawning"@ && s.agents[a].stage != "running"@);
        assert(!any(s.agent_context, checkpoint_of(agent)) <==> forall|c: int|
            0 <= c < s.agent_context.len() && (#[trigger] s.agent_context[c]).agent_id == agent
                ==> s.agent_context[c].key != "checkpoint_state"@);
    }
}

/// The stuck tasks, over the rows: those in progress for over an hour whose agent, if any, gave no
/// sign of life within three of its intervals. Each is told of with its agent and its age.
pub proof fn law_stuck_over_rows(s: StoreView, now: i64, i: int)
    requires
        sound(s),
        0 <= i < s.tasks.rows.len(),
    ensures
        ({
            let t = s.tasks.rows[i];
            let is_stuck = t.status == "in_progress"@ && t.started_at is Some && now
                - t.started_at->0 > 3600 && forall|b: int|
                0 <= b < s.heartbeats.len() && t.executor_agent == Some(
                    (#[trigger] s.heartbeats[b]).agent_id,
                ) ==> now - s.heartbeats[b].last_seen >= 3 * s.heartbeats[b].interval_s;
            &&& is_stuck <==> exists|k: int|
                0 <= k < stuck_entries(s, now).len() && (#[trigger] stuck_entries(s, now)[k]).0
                    == t.id
            &&& forall|k: int|
                0 <= k < stuck_entries(s, now).len() && (#[trigger] stuck_entries(s, now)[k]).0
                    == t.id ==> {
                    &&& stuck_entries(s, now)[k].1 == match t.executor_agent {
                        Some(a) => a,
                        None => Seq::empty(),
                    }
                    &&& now - t.started_at->0 <= i64::MAX ==> stuck_entries(s, now)[k].2 == now
                        - t.started_at->0
                }
        }),
{
    let t = s.tasks.rows[i];
    let rows = s.tasks.rows;
    let p = stuck(s, now);
    let f = rows.filter(p);
    let es = stuck_entries(s, now);
    crate::table::lemma_kept(rows, p);
    assert(!any(s.heartbeats, alive(t.executor_agent, now)) <==> forall|b: int|
        0 <= b < s.heartbeats.len() && t.executor_agent == Some(
            (#[trigger] s.heartbeats[b]).agent_id,
        ) ==> now - s.heartbeats[b].last_seen >= 3 * s.heartbeats[b].interval_s);
    assert forall|k: int| 0 <= k < es.len() && (#[trigger] es[k]).0 == t.id implies f[k] == t
        && p(t) by {
        assert(es[k] == stuck_entry(f[k], now));
        assert(p(f[k]) && rows.contains(f[k]));
        let j = choose|j: int| 0 <= j < rows.len() && rows[j] == f[k];
        assert(TaskRow::key(rows[j]) == TaskRow::key(rows[i]));
        assert(j == i);
    }
    if p(t) {
        assert(f.contains(rows[i]));
        let k = choose|k: int| 0 <= k < f.len() && f[k] == rows[i];
        assert(es[k] == stuck_entry(f[k], now));
        assert(es[k].0 == t.id);
    }
}

/// A stuck task that is put back is pending, without an agent and a start, where it was in
/// progress; the log says so. Nothing else changes.
pub proof fn law_revert_over_rows(s: StoreView, task_id: i64, agent: Seq<char>, i: int)
    requires
        0 <= i < s.tasks.rows.len(),
        s.audit_log.last_id < i64::MAX,
    ensures
        ({
            let t = s.tasks.rows[i];
            let n = after_revert(s, task_id, agent);
            let r = n.audit_log.rows.last();
            &&& n == (StoreView { tasks: n.tasks, audit_log: n.audit_log, ..s })
            &&& n.tasks.last_id == s.tasks.last_id
            &&& n.tasks.rows.len() == s.tasks.rows.len()
            &&& n.tasks.rows[i] == if t.id == task_id && t.status == "in_progress"@ {
                TaskRowView { status: "pending"@, executor_agent: None, started_at: None, ..t }
            } else {
                t
            }
            &&& n.audit_log.last_id == s.audit_log.last_id + 1
            &&& n.audit_log.rows.drop_last() == s.audit_log.rows
            &&& r.id == s.audit_log.last_id + 1 && r.action == "stuck_revert"@ && r.entity_type
                == "task"@ && r.entity_id == task_id && r.actor == "agent_health"@ && r.details
                == "agent "@ + agent + " stuck, reverting to pending"@
        }),
{
    let n = after_revert(s, task_id, agent);
    assert(n.audit_log.rows.drop_last() =~= s.audit_log.rows);
}

/// Every task of a list is put back as long as the log has room, and no other task changes.
pub proof fn law_reverts_over_rows(s: StoreView, list: Seq<(i64, Seq<char>, i64)>, i: int)
    requires
        0 <= i < s.tasks.rows.len(),
        0 <= s.audit_log.last_id && s.audit_log.last_id + list.len() <= i64::MAX,
    ensures
        ({
            let t = s.tasks.rows[i];
            let n = after_reverts(s, list);
            let listed = exists|k: int| 0 <= k < list.len() && (#[trigger] list[k]).0 == t.id;
            &&& !n.1
            &&& n.0.tasks.rows.len() == s.tasks.rows.len()
            &&& n.0.audit_log.last_id == s.audit_log.last_id + list.len()
            &&& n.0.tasks.rows[i] == if listed && t.status == "in_progress"@ {
                TaskRowView { status: "pending"@, executor_agent: None, started_at: None, ..t }
            } else {
                t
            }
        }),
    decreases list.len(),
{
    if list.len() > 0 {
        let t = s.tasks.rows[i];
        let before = list.drop_last();
        law_reverts_over_rows(s, before, i);
        let m = after_reverts(s, before).0;
        law_revert_over_rows(m, list.last().0, list.last().1, i);
        let was = exists|k: int| 0 <= k < before.len() && (#[trigger] before[k]).0 == t.id;
        if was {
            let k = choose|k: int| 0 <= k < before.len() && (#[trigger] before[k]).0 == t.id;
            assert(list[k].0 == t.id);
        }
        if exists|k: int| 0 <= k < list.len() && (#[trigger] list[k]).0 == t.id {
            let k = choose|k: int| 0 <= k < list.len() && (#[trigger] list[k]).0 == t.id;
            if k < before.len() {
                assert(before[k].0 == t.id);
            }
        }
        if list.last().0 == t.id {
            assert(list[list.len() - 1].0 == t.id);
        }
    }
}

/// What is handed out of a search is each stuck task's key, its agent and its age.
pub proof fn law_listed_stuck_tasks(
    list: Seq<(i64, String, i64)>,
    found: Seq<(i64, Seq<char>, i64)>,
    i: int,
)
    requires
        entries(list) == found,
        0 <= i < found.len(),
    ensures
        list.len() == found.len(),
        list[i].0 == found[i].0 && list[i].1@ == found[i].1 && list[i].2 == found[i].2,
{
    assert(entries(list).len() == list.len());
    assert(entries(list)[i] == found[i]);
}

} // verus!
