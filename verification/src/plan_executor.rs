//! The plan executor: which tasks are carried out next, and which plans are halted.

use crate::evidence::task_is;
use crate::executor_routing::{count_failure, failures_after};
use crate::rows::{PlanRow, PlanRowView, TaskRow, TaskRowView, WaveRow, WaveRowView};
use crate::store::{sound, Store, StoreView};
use crate::table::{
    any, any_where, count, ids_where, keys, lemma_updated_keyed, select_where, smallest,
    smallest_where, update_where, updated, views, Duplicate, Row, TableView,
};
use crate::text::{copy_opt, opt_text, same, text_or_empty};
use vstd::prelude::*;

verus! {

/// A task that could not be started this often has failed.
pub const MAX_SPAWN_FAILURES: i64 = 3;

/// How many agents are spawned at once, over all plans.
pub const MAX_SPAWNS_PER_TICK: usize = 3;

/// How many seconds after a failed spawn no agent is spawned.
pub const SPAWN_FAILURE_COOLDOWN_SECS: u64 = 60;

/// How many seconds without any activity make a plan idle.
pub const IDLE_SECS: i128 = 900;

/// How many seconds without any progress make a plan stale.
pub const STALE_SECS: i128 = 86400;

/// Whether a time is known and later than another.
pub open spec fn after(time: Option<i64>, limit: int) -> bool {
    match time {
        Some(t) => t > limit,
        None => false,
    }
}

/// Whether a time is known and earlier than another.
pub open spec fn before(time: Option<i64>, limit: int) -> bool {
    match time {
        Some(t) => t < limit,
        None => false,
    }
}

fn is_after(time: Option<i64>, limit: i128) -> (r: bool)
    ensures
        r == after(time, limit as int),
{
    match time {
        Some(t) => t as i128 > limit,
        None => false,
    }
}

fn is_before(time: Option<i64>, limit: i128) -> (r: bool)
    ensures
        r == before(time, limit as int),
{
    match time {
        Some(t) => (t as i128) < limit,
        None => false,
    }
}

// ---- plans on start-up ----

/// A task of a plan on which something happens: it was touched or gave a sign of life lately,
/// or an agent has it.
pub open spec fn lively(plan_id: i64, now: i64) -> spec_fn(TaskRowView) -> bool {
    |t: TaskRowView|
        t.plan_id == plan_id && (after(t.updated_at, now - IDLE_SECS) || after(
            t.started_at,
            now - IDLE_SECS,
        ) || after(t.completed_at, now - IDLE_SECS) || after(
            t.last_heartbeat,
            now - IDLE_SECS,
        ) || (t.executor_agent is Some && (t.status
            == "pending"@ || t.status == "in_progress"@)))
}

/// A task of a plan that a person carries out.
pub open spec fn by_hand(plan_id: i64) -> spec_fn(TaskRowView) -> bool {
    |t: TaskRowView| t.plan_id == plan_id && t.executor_agent == Some("manual"@)
}

/// A plan in progress on which nothing happens.
pub open spec fn idle(s: StoreView, now: i64) -> spec_fn(PlanRowView) -> bool {
    |p: PlanRowView|
        p.status == "in_progress"@ && before(p.updated_at, now - IDLE_SECS) && !any(
            s.tasks.rows,
            lively(p.id, now),
        ) && !any(s.tasks.rows, by_hand(p.id))
}

/// A paused plan.
pub open spec fn as_paused() -> spec_fn(PlanRowView) -> PlanRowView {
    |p: PlanRowView| PlanRowView { status: "paused"@, ..p }
}

/// The store in which some plans are changed.
pub open spec fn with_plans(
    s: StoreView,
    p: spec_fn(PlanRowView) -> bool,
    g: spec_fn(PlanRowView) -> PlanRowView,
) -> StoreView {
    StoreView {
        plans: TableView { rows: updated(s.plans.rows, p, g), last_id: s.plans.last_id },
        ..s
    }
}

fn is_lively(tasks: &Vec<TaskRow>, plan_id: i64, now: i64) -> (r: bool)
    ensures
        r == any(views(tasks@), lively(plan_id, now)),
{
    let limit: i128 = now as i128 - IDLE_SECS;
    any_where(
        tasks,
        |t: &TaskRow| -> (b: bool) ensures b == lively(plan_id, now)(t@) {
            t.plan_id == plan_id && (is_after(t.updated_at, limit) || is_after(t.started_at, limit)
                || is_after(t.completed_at, limit) || is_after(t.last_heartbeat, limit) || (t.executor_agent.is_some() && (same(
                t.status.as_str(),
                "pending",
            ) || same(t.status.as_str(), "in_progress"))))
        },
        Ghost(lively(plan_id, now)),
    )
}

fn is_by_hand(tasks: &Vec<TaskRow>, plan_id: i64) -> (r: bool)
    ensures
        r == any(views(tasks@), by_hand(plan_id)),
{
    any_where(
        tasks,
        |t: &TaskRow| -> (b: bool) ensures b == by_hand(plan_id)(t@) {
            t.plan_id == plan_id && (match &t.executor_agent {
                Some(a) => same(a.as_str(), "manual"),
                None => false,
            })
        },
        Ghost(by_hand(plan_id)),
    )
}

/// Pauses the plans in progress on which nothing has happened lately, and says how many they
/// are. A plan is left running while it, or a task of it, was touched lately, a task of it gave
/// a sign of life lately, an agent has one of its tasks, or a person carries one out.
pub fn pause_plans_on_boot(db: &mut Store, now: i64) -> (n: usize)
    ensures
        n == count(old(db)@.plans.rows, idle(old(db)@, now)),
        final(db)@ == with_plans(old(db)@, idle(old(db)@, now), as_paused()),
        sound(old(db)@) ==> sound(final(db)@),
{
    let ghost s = db@;
    let limit: i128 = now as i128 - IDLE_SECS;
    proof {
        if sound(s) {
            lemma_updated_keyed::<PlanRow>(s.plans, idle(s, now), as_paused());
        }
    }
    let tasks = &db.tasks.rows;
    update_where(
        &mut db.plans.rows,
        |p: &PlanRow| -> (b: bool) ensures b == idle(s, now)(p@) {
            same(p.status.as_str(), "in_progress") && is_before(p.updated_at, limit) && !is_lively(
                tasks,
                p.id,
                now,
            ) && !is_by_hand(tasks, p.id)
        },
        |p: &PlanRow| -> (q: PlanRow) ensures q@ == as_paused()(p@) {
            PlanRow { status: "paused".to_owned(), ..p.duplicate() }
        },
        Ghost(idle(s, now)),
        Ghost(as_paused()),
    )
}

/// A task of a plan that was completed within a day.
pub open spec fn completed_lately(plan_id: i64, now: i64) -> spec_fn(TaskRowView) -> bool {
    |t: TaskRowView| t.plan_id == plan_id && after(t.completed_at, now - STALE_SECS)
}

/// A plan in progress that was not touched for a day, and of which no task was completed within
/// that day.
pub open spec fn stale(s: StoreView, now: i64) -> spec_fn(PlanRowView) -> bool {
    |p: PlanRowView|
        p.status == "in_progress"@ && before(p.updated_at, now - STALE_SECS) && !any(
            s.tasks.rows,
            completed_lately(p.id, now),
        )
}

/// A stale plan.
pub open spec fn as_stale() -> spec_fn(PlanRowView) -> PlanRowView {
    |p: PlanRowView| PlanRowView { status: "stale"@, ..p }
}

fn is_completed_lately(tasks: &Vec<TaskRow>, plan_id: i64, now: i64) -> (r: bool)
    ensures
        r == any(views(tasks@), completed_lately(plan_id, now)),
{
    let limit: i128 = now as i128 - STALE_SECS;
    any_where(
        tasks,
        |t: &TaskRow| -> (b: bool) ensures b == completed_lately(plan_id, now)(t@) {
            t.plan_id == plan_id && is_after(t.completed_at, limit)
        },
        Ghost(completed_lately(plan_id, now)),
    )
}

/// Marks the plans in progress that have made no progress for a day, and says how many they
/// are. A completed task is progress.
pub fn mark_stale_plans(db: &mut Store, now: i64) -> (n: usize)
    ensures
        n == count(old(db)@.plans.rows, stale(old(db)@, now)),
        final(db)@ == with_plans(old(db)@, stale(old(db)@, now), as_stale()),
        sound(old(db)@) ==> sound(final(db)@),
{
    let ghost s = db@;
    let limit: i128 = now as i128 - STALE_SECS;
    proof {
        if sound(s) {
            lemma_updated_keyed::<PlanRow>(s.plans, stale(s, now), as_stale());
        }
    }
    let tasks = &db.tasks.rows;
    update_where(
        &mut db.plans.rows,
        |p: &PlanRow| -> (b: bool) ensures b == stale(s, now)(p@) {
            same(p.status.as_str(), "in_progress") && is_before(p.updated_at, limit)
                && !is_completed_lately(tasks, p.id, now)
        },
        |p: &PlanRow| -> (q: PlanRow) ensures q@ == as_stale()(p@) {
            PlanRow { status: "stale".to_owned(), ..p.duplicate() }
        },
        Ghost(stale(s, now)),
        Ghost(as_stale()),
    )
}

// ---- the circuit breaker ----

/// Whether agents may carry out a task.
pub open spec fn automatic(agent: Option<Seq<char>>) -> bool {
    text_or_empty(agent) != "manual"@
}

/// A task of a wave that agents may still bring to an end.
pub open spec fn hopeful(wave_id: i64) -> spec_fn(TaskRowView) -> bool {
    |t: TaskRowView|
        t.wave_id == Some(wave_id) && t.status != "failed"@ && t.status != "cancelled"@
            && automatic(t.executor_agent)
}

/// A task of a wave on which agents have failed.
pub open spec fn hopeless(wave_id: i64) -> spec_fn(TaskRowView) -> bool {
    |t: TaskRowView|
        t.wave_id == Some(wave_id) && t.status == "failed"@ && automatic(t.executor_agent)
}

/// A running wave of a plan in which all that agents may do has failed.
pub open spec fn broken_wave(s: StoreView, plan_id: i64) -> spec_fn(WaveRowView) -> bool {
    |w: WaveRowView|
        w.plan_id == plan_id && w.status == "in_progress"@ && !any(s.tasks.rows, hopeful(w.id))
            && any(s.tasks.rows, hopeless(w.id))
}

/// A plan in progress with such a wave.
pub open spec fn tripped(s: StoreView) -> spec_fn(PlanRowView) -> bool {
    |p: PlanRowView| p.status == "in_progress"@ && any(s.waves.rows, broken_wave(s, p.id))
}

/// A failed plan.
pub open spec fn as_failed(now: i64) -> spec_fn(PlanRowView) -> PlanRowView {
    |p: PlanRowView| PlanRowView { status: "failed"@, updated_at: Some(now), ..p }
}

fn is_automatic(agent: &Option<String>) -> (r: bool)
    ensures
        r == automatic(opt_text(*agent)),
{
    proof {
        reveal_strlit("manual");
        assert("manual"@.len() == 6);
    }
    match agent {
        Some(a) => !same(a.as_str(), "manual"),
        None => true,
    }
}

fn is_in_wave(t: &TaskRow, wave_id: i64) -> (r: bool)
    ensures
        r == (t@.wave_id == Some(wave_id)),
{
    match t.wave_id {
        Some(w) => w == wave_id,
        None => false,
    }
}

fn has_hopeful(tasks: &Vec<TaskRow>, wave_id: i64) -> (r: bool)
    ensures
        r == any(views(tasks@), hopeful(wave_id)),
{
    any_where(
        tasks,
        |t: &TaskRow| -> (b: bool) ensures b == hopeful(wave_id)(t@) {
            is_in_wave(t, wave_id) && !same(t.status.as_str(), "failed") && !same(
                t.status.as_str(),
                "cancelled",
            ) && is_automatic(&t.executor_agent)
        },
        Ghost(hopeful(wave_id)),
    )
}

fn has_hopeless(tasks: &Vec<TaskRow>, wave_id: i64) -> (r: bool)
    ensures
        r == any(views(tasks@), hopeless(wave_id)),
{
    any_where(
        tasks,
        |t: &TaskRow| -> (b: bool) ensures b == hopeless(wave_id)(t@) {
            is_in_wave(t, wave_id) && same(t.status.as_str(), "failed") && is_automatic(
                &t.executor_agent,
            )
        },
        Ghost(hopeless(wave_id)),
    )
}

fn has_broken_wave(
    waves: &Vec<WaveRow>,
    tasks: &Vec<TaskRow>,
    plan_id: i64,
    Ghost(s): Ghost<StoreView>,
) -> (r: bool)
    requires
        views(waves@) == s.waves.rows,
        views(tasks@) == s.tasks.rows,
    ensures
        r == any(s.waves.rows, broken_wave(s, plan_id)),
{
    any_where(
        waves,
        |w: &WaveRow| -> (b: bool) ensures b == broken_wave(s, plan_id)(w@) {
            w.plan_id == plan_id && same(w.status.as_str(), "in_progress") && !has_hopeful(
                tasks,
                w.id,
            ) && has_hopeless(tasks, w.id)
        },
        Ghost(broken_wave(s, plan_id)),
    )
}

/// Halts the plans in whose running wave all that agents may do has failed, and gives their
/// ids. Tasks that a person carries out do not count.
pub fn check_circuit_breaker(db: &mut Store, now: i64) -> (r: Vec<i64>)
    ensures
        r@ == keys::<PlanRow>(old(db)@.plans.rows.filter(tripped(old(db)@))),
        final(db)@ == with_plans(old(db)@, tripped(old(db)@), as_failed(now)),
        sound(old(db)@) ==> sound(final(db)@),
{
    let ghost s = db@;
    proof {
        if sound(s) {
            lemma_updated_keyed::<PlanRow>(s.plans, tripped(s), as_failed(now));
        }
    }
    let waves = &db.waves.rows;
    let tasks = &db.tasks.rows;
    let halted = ids_where(
        &db.plans.rows,
        |p: &PlanRow| -> (b: bool) ensures b == tripped(s)(p@) {
            same(p.status.as_str(), "in_progress") && has_broken_wave(waves, tasks, p.id, Ghost(s))
        },
        Ghost(tripped(s)),
    );
    update_where(
        &mut db.plans.rows,
        |p: &PlanRow| -> (b: bool) ensures b == tripped(s)(p@) {
            same(p.status.as_str(), "in_progress") && has_broken_wave(waves, tasks, p.id, Ghost(s))
        },
        |p: &PlanRow| -> (q: PlanRow) ensures q@ == as_failed(now)(p@) {
            PlanRow { status: "failed".to_owned(), updated_at: Some(now), ..p.duplicate() }
        },
        Ghost(tripped(s)),
        Ghost(as_failed(now)),
    );
    halted
}

// ---- the tasks that come next ----

/// A pending task that is ready to be carried out.
pub struct PendingTask {
    pub db_id: i64,
    pub task_id: String,
    pub plan_id: i64,
    pub wave_db_id: i64,
    pub title: String,
    pub description: String,
    pub notes: String,
    pub required_capabilities: Option<String>,
    pub executor_agent: Option<String>,
}

/// What a [`PendingTask`] holds.
pub struct PendingTaskView {
    pub db_id: i64,
    pub task_id: Seq<char>,
    pub plan_id: i64,
    pub wave_db_id: i64,
    pub title: Seq<char>,
    pub description: Seq<char>,
    pub notes: Seq<char>,
    pub required_capabilities: Option<Seq<char>>,
    pub executor_agent: Option<Seq<char>>,
}

impl View for PendingTask {
    type V = PendingTaskView;

    open spec fn view(&self) -> PendingTaskView {
        PendingTaskView {
            db_id: self.db_id,
            task_id: self.task_id@,
            plan_id: self.plan_id,
            wave_db_id: self.wave_db_id,
            title: self.title@,
            description: self.description@,
            notes: self.notes@,
            required_capabilities: opt_text(self.required_capabilities),
            executor_agent: opt_text(self.executor_agent),
        }
    }
}

/// The running waves of a plan.
pub open spec fn running_in(plan_id: i64) -> spec_fn(WaveRowView) -> bool {
    |w: WaveRowView| w.plan_id == plan_id && w.status == "in_progress"@
}

/// The plan with the given id, where its tasks may be carried out.
pub open spec fn runnable(plan_id: i64) -> spec_fn(PlanRowView) -> bool {
    |p: PlanRowView|
        p.id == plan_id && p.status == "in_progress"@ && p.project_id != "_doctor_test_proj"@
}

/// The pending tasks in the first running wave of a plan that agents may carry out.
pub open spec fn ready(s: StoreView) -> spec_fn(TaskRowView) -> bool {
    |t: TaskRowView|
        t.status == "pending"@ && t.wave_id is Some && smallest::<WaveRow>(
            s.waves.rows.filter(running_in(t.plan_id)),
        ) == t.wave_id && any(s.plans.rows, runnable(t.plan_id)) && automatic(t.executor_agent)
}

/// The tasks that have an identifier.
pub open spec fn identified() -> spec_fn(TaskRowView) -> bool {
    |t: TaskRowView| t.task_id is Some
}

/// A task as it is handed on.
pub open spec fn as_pending(t: TaskRowView) -> PendingTaskView {
    PendingTaskView {
        db_id: t.id,
        task_id: t.task_id->0,
        plan_id: t.plan_id,
        wave_db_id: t.wave_id->0,
        title: t.title,
        description: text_or_empty(t.description),
        notes: text_or_empty(t.notes),
        required_capabilities: t.required_capabilities,
        executor_agent: t.executor_agent,
    }
}

/// At most the first five of some tasks.
pub open spec fn first_five(rows: Seq<TaskRowView>) -> Seq<TaskRowView> {
    if rows.len() > 5 {
        rows.take(5)
    } else {
        rows
    }
}

/// The tasks that come next: the first five that are ready, without those that have no
/// identifier.
pub open spec fn pending_tasks(s: StoreView) -> Seq<PendingTaskView> {
    first_five(s.tasks.rows.filter(ready(s))).filter(identified()).map_values(
        |t: TaskRowView| as_pending(t),
    )
}

fn first_running(waves: &Vec<WaveRow>, plan_id: i64) -> (r: Option<i64>)
    ensures
        r == smallest::<WaveRow>(views(waves@).filter(running_in(plan_id))),
{
    smallest_where(
        waves,
        |w: &WaveRow| -> (b: bool) ensures b == running_in(plan_id)(w@) {
            w.plan_id == plan_id && same(w.status.as_str(), "in_progress")
        },
        Ghost(running_in(plan_id)),
    )
}

fn is_runnable(plans: &Vec<PlanRow>, plan_id: i64) -> (r: bool)
    ensures
        r == any(views(plans@), runnable(plan_id)),
{
    any_where(
        plans,
        |p: &PlanRow| -> (b: bool) ensures b == runnable(plan_id)(p@) {
            p.id == plan_id && same(p.status.as_str(), "in_progress") && !same(
                p.project_id.as_str(),
                "_doctor_test_proj",
            )
        },
        Ghost(runnable(plan_id)),
    )
}

fn own_or_empty(o: &Option<String>) -> (r: String)
    ensures
        r@ == text_or_empty(opt_text(*o)),
{
    match o {
        Some(s) => s.clone(),
        None => String::new(),
    }
}

/// The tasks that come next, in the order of their ids.
pub fn find_pending_tasks(db: &Store) -> (r: Vec<PendingTask>)
    ensures
        views(r@) == pending_tasks(db@),
{
    let rows = select_where(
        &db.tasks.rows,
        |t: &TaskRow| -> (b: bool) ensures b == ready(db@)(t@) {
            same(t.status.as_str(), "pending") && (match (
                t.wave_id,
                first_running(&db.waves.rows, t.plan_id),
            ) {
                (Some(w), Some(f)) => w == f,
                _ => false,
            }) && is_runnable(&db.plans.rows, t.plan_id) && is_automatic(&t.executor_agent)
        },
        Ghost(ready(db@)),
    );
    let ghost found = views(rows@);
    let ghost some = first_five(found);
    let limit: usize = if rows.len() > 5 {
        5
    } else {
        rows.len()
    };
    let mut out: Vec<PendingTask> = Vec::new();
    let mut i: usize = 0;
    let ghost p = identified();
    assert(some.take(0).filter(p).map_values(|t: TaskRowView| as_pending(t)) =~= views(out@)) by {
        reveal(Seq::filter);
    }
    while i < limit
        invariant
            i <= limit,
            limit <= rows@.len(),
            found == views(rows@),
            found == db@.tasks.rows.filter(ready(db@)),
            some == first_five(found),
            some.len() == limit,
            p == identified(),
            views(out@) == some.take(i as int).filter(p).map_values(
                |t: TaskRowView| as_pending(t),
            ),
        decreases limit - i,
    {
        let row = &rows[i];
        proof {
            crate::table::lemma_count_step(some, p, i as int);
            assert(some[i as int] == row@);
            db@.tasks.rows.lemma_filter_pred(ready(db@), i as int);
            assert(ready(db@)(found[i as int]));
        }
        if let Some(task_id) = &row.task_id {
            if let Some(wave) = row.wave_id {
                let ghost before = some.take(i as int).filter(p);
                let ghost prior = views(out@);
                let next = PendingTask {
                    db_id: row.id,
                    task_id: task_id.clone(),
                    plan_id: row.plan_id,
                    wave_db_id: wave,
                    title: row.title.clone(),
                    description: own_or_empty(&row.description),
                    notes: own_or_empty(&row.notes),
                    required_capabilities: copy_opt(&row.required_capabilities),
                    executor_agent: copy_opt(&row.executor_agent),
                };
                out.push(next);
                proof {
                    assert(next@ == as_pending(row@));
                    assert(views(out@) =~= prior.push(as_pending(row@)));
                    assert(before.push(row@).map_values(|t: TaskRowView| as_pending(t))
                        =~= before.map_values(|t: TaskRowView| as_pending(t)).push(
                        as_pending(row@),
                    ));
                }
            }
        }
        i += 1;
    }
    assert(some.take(i as int) =~= some);
    out
}

/// How many of the tasks that come next are started at once.
pub fn batch_size(pending: usize) -> (r: usize)
    ensures
        r == if pending < MAX_SPAWNS_PER_TICK {
            pending
        } else {
            MAX_SPAWNS_PER_TICK
        },
{
    if pending < MAX_SPAWNS_PER_TICK {
        pending
    } else {
        MAX_SPAWNS_PER_TICK
    }
}

/// Whether a failed spawn is so recent that nothing is spawned yet.
pub fn cooling_down(since_failure: Option<u64>) -> (r: bool)
    ensures
        r == (match since_failure {
            Some(secs) => secs < SPAWN_FAILURE_COOLDOWN_SECS,
            None => false,
        }),
{
    match since_failure {
        Some(secs) => secs < SPAWN_FAILURE_COOLDOWN_SECS,
        None => false,
    }
}

/// The notes of a task with an error of its spawn behind them.
pub open spec fn error_noted(notes: Option<Seq<char>>, error: Seq<char>) -> Seq<char> {
    text_or_empty(notes) + seq!['\n'] + "[executor] Spawn error: "@ + error
}

/// A task whose failed spawn has been counted already: the error is noted.
pub open spec fn with_spawn_error(error: Seq<char>, now: i64) -> spec_fn(
    TaskRowView,
) -> TaskRowView {
    |t: TaskRowView|
        TaskRowView {
            notes: Some(error_noted(t.notes, error)),
            updated_at: Some(now),
            ..t
        }
}

/// A task whose spawn was not answered: the error is noted and the failure is counted. A task
/// that has failed too often has failed for good.
pub open spec fn with_lost_spawn(error: Seq<char>, failures: i64, now: i64) -> spec_fn(
    TaskRowView,
) -> TaskRowView {
    |t: TaskRowView|
        TaskRowView {
            notes: Some(error_noted(t.notes, error)),
            updated_at: Some(now),
            spawn_failures: Some(failures),
            status: if failures >= MAX_SPAWN_FAILURES {
                "failed"@
            } else {
                t.status
            },
            executor_agent: if failures >= MAX_SPAWN_FAILURES {
                None
            } else {
                t.executor_agent
            },
            ..t
        }
}

/// The store in which an error of a spawn is noted on a task. Only a failure that no answer
/// told of is counted here.
pub open spec fn after_spawn_error(
    s: StoreView,
    task_id: i64,
    error: Seq<char>,
    answered: bool,
    now: i64,
) -> StoreView {
    let g = if answered {
        with_spawn_error(error, now)
    } else {
        with_lost_spawn(error, failures_after(s, task_id) as i64, now)
    };
    StoreView {
        tasks: TableView {
            rows: updated(s.tasks.rows, task_is(task_id), g),
            last_id: s.tasks.last_id,
        },
        ..s
    }
}

/// The notes of a task with an error of its spawn behind them.
fn note_error(notes: &Option<String>, error: &str) -> (r: String)
    ensures
        r@ == error_noted(opt_text(*notes), error@),
{
    let mut out = own_or_empty(notes);
    out.push('\n');
    out.append("[executor] Spawn error: ");
    out.append(error);
    assert(out@ =~= error_noted(opt_text(*notes), error@));
    out
}

/// Notes on a task that its spawn has failed. A failure that an answer told of has been counted
/// with the answer; any other is counted here.
pub fn note_spawn_error(db: &mut Store, task_id: i64, error: &str, answered: bool, now: i64)
    requires
        !answered ==> failures_after(old(db)@, task_id) <= i64::MAX,
    ensures
        final(db)@ == after_spawn_error(old(db)@, task_id, error@, answered, now),
        sound(old(db)@) ==> sound(final(db)@),
{
    if answered {
        proof {
            if sound(db@) {
                lemma_updated_keyed::<TaskRow>(
                    db@.tasks,
                    task_is(task_id),
                    with_spawn_error(error@, now),
                );
            }
        }
        update_where(
            &mut db.tasks.rows,
            |t: &TaskRow| -> (b: bool) ensures b == task_is(task_id)(t@) { t.id == task_id },
            |t: &TaskRow| -> (n: TaskRow) ensures n@ == with_spawn_error(error@, now)(t@) {
                TaskRow {
                    notes: Some(note_error(&t.notes, error)),
                    updated_at: Some(now),
                    ..t.duplicate()
                }
            },
            Ghost(task_is(task_id)),
            Ghost(with_spawn_error(error@, now)),
        );
    } else {
        let failures: i64 = count_failure(db, task_id);
        proof {
            if sound(db@) {
                lemma_updated_keyed::<TaskRow>(
                    db@.tasks,
                    task_is(task_id),
                    with_lost_spawn(error@, failures, now),
                );
            }
        }
        update_where(
            &mut db.tasks.rows,
            |t: &TaskRow| -> (b: bool) ensures b == task_is(task_id)(t@) { t.id == task_id },
            |t: &TaskRow| -> (n: TaskRow) ensures n@ == with_lost_spawn(error@, failures, now)(t@) {
                let old_row = t.duplicate();
                TaskRow {
                    notes: Some(note_error(&t.notes, error)),
                    updated_at: Some(now),
                    spawn_failures: Some(failures),
                    status: if failures >= MAX_SPAWN_FAILURES {
                        "failed".to_owned()
                    } else {
                        t.status.clone()
                    },
                    executor_agent: if failures >= MAX_SPAWN_FAILURES {
                        None
                    } else {
                        copy_opt(&t.executor_agent)
                    },
                    ..old_row
                }
            },
            Ghost(task_is(task_id)),
            Ghost(with_lost_spawn(error@, failures, now)),
        );
    }
}

/// A plan with an automatic task in its running wave that is neither failed nor cancelled is
/// not halted on account of that wave, and no plan that is not in progress is ever halted,
/// paused or marked as stale. A plan with a task that was completed within a day is not stale,
/// and one with a task that a person carries out is not idle.
pub proof fn law_breaker_spares(s: StoreView, p: PlanRowView, w: WaveRowView, now: i64)
    ensures
        p.status != "in_progress"@ ==> !tripped(s)(p) && !idle(s, now)(p) && !stale(s, now)(p),
        any(s.tasks.rows, completed_lately(p.id, now)) ==> !stale(s, now)(p),
        any(s.tasks.rows, hopeful(w.id)) ==> !broken_wave(s, p.id)(w),
        !any(s.tasks.rows, hopeless(w.id)) ==> !broken_wave(s, p.id)(w),
        any(s.tasks.rows, by_hand(p.id)) ==> !idle(s, now)(p),
{
}

/// Every task that is handed on is pending, stands in the first running wave of its plan, and
/// is not left to a person; at most five are handed on.
pub proof fn law_pending_tasks_are_ready(s: StoreView, k: int)
    requires
        0 <= k < pending_tasks(s).len(),
    ensures
        pending_tasks(s).len() <= 5,
        exists|t: TaskRowView| #[trigger]
            s.tasks.rows.contains(t) && ready(s)(t) && pending_tasks(s)[k] == as_pending(t),
{
    let found = s.tasks.rows.filter(ready(s));
    let some = first_five(found);
    let kept = some.filter(identified());
    some.lemma_filter_len(identified());
    let t = kept[k];
    assert(kept.contains(t));
    some.lemma_filter_contains_rev(identified(), t);
    let j = choose|j: int| 0 <= j < some.len() && some[j] == t;
    assert(found[j] == t);
    assert(found.contains(t));
    s.tasks.rows.lemma_filter_contains_rev(ready(s), t);
    s.tasks.rows.lemma_filter_pred(ready(s), j);
}

/// The circuit breaker halts exactly the plans in progress of which some wave in progress has a
/// failed task that is not left to a person, and no other such task but failed and cancelled
/// ones. A halted plan is failed as of now; every other plan, and all else, is as it was.
pub proof fn law_circuit_breaker(s: StoreView, now: i64, i: int)
    requires
        0 <= i < s.plans.rows.len(),
    ensures
        ({
            let p = s.plans.rows[i];
            let n = with_plans(s, tripped(s), as_failed(now));
            let halted = keys::<PlanRow>(s.plans.rows.filter(tripped(s)));
            let hopeless = exists|k: int|
                0 <= k < s.waves.rows.len() && (#[trigger] s.waves.rows[k]).plan_id == p.id
                    && s.waves.rows[k].status == "in_progress"@ && (exists|j: int|
                    0 <= j < s.tasks.rows.len() && (#[trigger] s.tasks.rows[j]).wave_id == Some(
                        s.waves.rows[k].id,
                    ) && s.tasks.rows[j].status == "failed"@ && s.tasks.rows[j].executor_agent
                        != Some("manual"@)) && (forall|j: int|
                    0 <= j < s.tasks.rows.len() && (#[trigger] s.tasks.rows[j]).wave_id == Some(
                        s.waves.rows[k].id,
                    ) && s.tasks.rows[j].executor_agent != Some("manual"@)
                        ==> s.tasks.rows[j].status == "failed"@ || s.tasks.rows[j].status
                        == "cancelled"@);
            &&& n == (StoreView { plans: n.plans, ..s })
            &&& n.plans.last_id == s.plans.last_id
            &&& n.plans.rows.len() == s.plans.rows.len()
            &&& p.status == "in_progress"@ && hopeless ==> n.plans.rows[i] == (PlanRowView {
                status: "failed"@,
                updated_at: Some(now),
                ..p
            }) && halted.contains(p.id)
            &&& !(p.status == "in_progress"@ && hopeless) ==> n.plans.rows[i] == p
            &&& !(p.status == "in_progress"@ && hopeless) && sound(s) ==> !halted.contains(p.id)
        }),
{
    reveal_strlit("manual");
    assert("manual"@.len() == 6);
    let rows = s.plans.rows;
    let p = rows[i];
    let q = tripped(s);
    let f = rows.filter(q);
    let halted = keys::<PlanRow>(f);
    let ws = s.waves.rows;
    let ts = s.tasks.rows;
    assert forall|k: int| 0 <= k < ws.len() implies (broken_wave(s, p.id)(#[trigger] ws[k])
        <==> ws[k].plan_id == p.id && ws[k].status == "in_progress"@ && (exists|j: int|
        0 <= j < ts.len() && (#[trigger] ts[j]).wave_id == Some(ws[k].id) && ts[j].status
            == "failed"@ && ts[j].executor_agent != Some("manual"@)) && (forall|j: int|
        0 <= j < ts.len() && (#[trigger] ts[j]).wave_id == Some(ws[k].id)
            && ts[j].executor_agent != Some("manual"@) ==> ts[j].status == "failed"@
            || ts[j].status == "cancelled"@)) by {
        assert(any(ts, hopeful(ws[k].id)) <==> exists|j: int|
            0 <= j < ts.len() && (#[trigger] ts[j]).wave_id == Some(ws[k].id)
                && ts[j].executor_agent != Some("manual"@) && ts[j].status != "failed"@
                && ts[j].status != "cancelled"@);
        assert(any(ts, hopeless(ws[k].id)) <==> exists|j: int|
            0 <= j < ts.len() && (#[trigger] ts[j]).wave_id == Some(ws[k].id) && ts[j].status
                == "failed"@ && ts[j].executor_agent != Some("manual"@));
    }
    if q(p) {
        rows.lemma_filter_contains(q, i);
        let k = choose|k: int| 0 <= k < f.len() && f[k] == p;
        assert(halted[k] == p.id);
    } else if sound(s) && halted.contains(p.id) {
        let k = choose|k: int| 0 <= k < halted.len() && halted[k] == p.id;
        assert(f.contains(f[k]));
        rows.lemma_filter_pred(q, k);
        rows.lemma_filter_contains_rev(q, f[k]);
        let j = choose|j: int| 0 <= j < rows.len() && rows[j] == f[k];
        assert(PlanRow::key(rows[j]) == PlanRow::key(
            rows[i],
        ));
    }
}

/// On start-up exactly those plans in progress are paused that were not touched for a quarter
/// of an hour and have no task that was touched, started or completed, or gave a sign of life,
/// within it, none that an agent has, and none that is left to a person. Nothing else changes.
pub proof fn law_pausing(s: StoreView, now: i64, i: int)
    requires
        0 <= i < s.plans.rows.len(),
    ensures
        ({
            let p = s.plans.rows[i];
            let n = with_plans(s, idle(s, now), as_paused());
            let limit = now - 900;
            let quiet = forall|j: int|
                0 <= j < s.tasks.rows.len() && (#[trigger] s.tasks.rows[j]).plan_id == p.id ==> {
                    let t = s.tasks.rows[j];
                    &&& !(t.updated_at is Some && t.updated_at->0 > limit)
                    &&& !(t.started_at is Some && t.started_at->0 > limit)
                    &&& !(t.completed_at is Some && t.completed_at->0 > limit)
                    &&& !(t.last_heartbeat is Some && t.last_heartbeat->0 > limit)
                    &&& !(t.executor_agent is Some && (t.status == "pending"@ || t.status
                        == "in_progress"@))
                    &&& t.executor_agent != Some("manual"@)
                };
            let pause = p.status == "in_progress"@ && p.updated_at is Some && p.updated_at->0
                < limit && quiet;
            &&& n == (StoreView { plans: n.plans, ..s })
            &&& n.plans.last_id == s.plans.last_id
            &&& n.plans.rows.len() == s.plans.rows.len()
            &&& n.plans.rows[i] == if pause {
                PlanRowView { status: "paused"@, ..p }
            } else {
                p
            }
        }),
{
    let p = s.plans.rows[i];
    let ts = s.tasks.rows;
    assert forall|j: int| 0 <= j < ts.len() implies (lively(p.id, now)(#[trigger] ts[j]) || by_hand(
        p.id,
    )(ts[j]) <==> ts[j].plan_id == p.id && !({
        let t = ts[j];
        let limit = now - 900;
        &&& !(t.updated_at is Some && t.updated_at->0 > limit)
        &&& !(t.started_at is Some && t.started_at->0 > limit)
        &&& !(t.completed_at is Some && t.completed_at->0 > limit)
        &&& !(t.last_heartbeat is Some && t.last_heartbeat->0 > limit)
        &&& !(t.executor_agent is Some && (t.status == "pending"@ || t.status == "in_progress"@))
        &&& t.executor_agent != Some("manual"@)
    })) by {}
}

/// Exactly those plans in progress become stale that were not touched for a day and of which no
/// task was completed within it. Nothing else changes.
pub proof fn law_going_stale(s: StoreView, now: i64, i: int)
    requires
        0 <= i < s.plans.rows.len(),
    ensures
        ({
            let p = s.plans.rows[i];
            let n = with_plans(s, stale(s, now), as_stale());
            let limit = now - 24 * 3600;
            let unproductive = forall|j: int|
                0 <= j < s.tasks.rows.len() && (#[trigger] s.tasks.rows[j]).plan_id == p.id ==> !(
                s.tasks.rows[j].completed_at is Some && s.tasks.rows[j].completed_at->0 > limit);
            &&& n == (StoreView { plans: n.plans, ..s })
            &&& n.plans.last_id == s.plans.last_id
            &&& n.plans.rows.len() == s.plans.rows.len()
            &&& n.plans.rows[i] == if p.status == "in_progress"@ && p.updated_at is Some
                && p.updated_at->0 < limit && unproductive {
                PlanRowView { status: "stale"@, ..p }
            } else {
                p
            }
        }),
{
    let p = s.plans.rows[i];
    let ts = s.tasks.rows;
    assert forall|j: int| 0 <= j < ts.len() implies (completed_lately(p.id, now)(#[trigger] ts[j])
        <==> ts[j].plan_id == p.id && ts[j].completed_at is Some && ts[j].completed_at->0 > now - 24
        * 3600) by {}
}

/// A task is ready exactly where it is pending and not left to a person, its plan is in progress
/// and no project of the self-test, and its wave is in progress and no wave of the same plan in
/// progress has a smaller id, whatever waves other plans have.
pub proof fn law_ready_tasks(s: StoreView, t: TaskRowView)
    ensures
        ready(s)(t) <==> {
            &&& t.status == "pending"@
            &&& t.executor_agent != Some("manual"@)
            &&& exists|i: int|
                0 <= i < s.plans.rows.len() && (#[trigger] s.plans.rows[i]).id == t.plan_id
                    && s.plans.rows[i].status == "in_progress"@ && s.plans.rows[i].project_id
                    != "_doctor_test_proj"@
            &&& exists|k: int|
                0 <= k < s.waves.rows.len() && (#[trigger] s.waves.rows[k]).plan_id == t.plan_id
                    && s.waves.rows[k].status == "in_progress"@ && t.wave_id == Some(
                    s.waves.rows[k].id,
                )
            &&& forall|m: int|
                0 <= m < s.waves.rows.len() && (#[trigger] s.waves.rows[m]).plan_id == t.plan_id
                    && s.waves.rows[m].status == "in_progress"@ ==> t.wave_id is Some
                    && t.wave_id->0 <= s.waves.rows[m].id
        },
{
    reveal_strlit("manual");
    assert("manual"@.len() == 6);
    let ws = s.waves.rows;
    let q = running_in(t.plan_id);
    crate::table::lemma_smallest_of::<WaveRow>(ws, q);
    assert(any(s.plans.rows, runnable(t.plan_id)) <==> exists|i: int|
        0 <= i < s.plans.rows.len() && (#[trigger] s.plans.rows[i]).id == t.plan_id
            && s.plans.rows[i].status == "in_progress"@ && s.plans.rows[i].project_id
            != "_doctor_test_proj"@);
}

/// Each ready task that has an identifier is handed on, as it stands in its row, as long as fewer
/// than five ready tasks stand before it; nothing else is handed on, and what is handed on comes
/// in the order of the ids.
pub proof fn law_ready_tasks_are_handed_on(s: StoreView, i: int)
    requires
        0 <= i < s.tasks.rows.len(),
    ensures
        ({
            let t = s.tasks.rows[i];
            ready(s)(t) && t.task_id is Some && s.tasks.rows.take(i).filter(ready(s)).len() < 5
                ==> pending_tasks(s).contains(
                PendingTaskView {
                    db_id: t.id,
                    task_id: t.task_id->0,
                    plan_id: t.plan_id,
                    wave_db_id: t.wave_id->0,
                    title: t.title,
                    description: match t.description {
                        Some(d) => d,
                        None => Seq::empty(),
                    },
                    notes: match t.notes {
                        Some(n) => n,
                        None => Seq::empty(),
                    },
                    required_capabilities: t.required_capabilities,
                    executor_agent: t.executor_agent,
                },
            )
        }),
        pending_tasks(s).len() <= 5,
        sound(s) ==> forall|a: int, b: int|
            0 <= a < b < pending_tasks(s).len() ==> (#[trigger] pending_tasks(s)[a]).db_id < (
            #[trigger] pending_tasks(s)[b]).db_id,
{
    let rows = s.tasks.rows;
    let q = ready(s);
    let t = rows[i];
    let found = rows.filter(q);
    let some = first_five(found);
    let kept = some.filter(identified());
    some.lemma_filter_len(identified());
    if q(t) && t.task_id is Some && rows.take(i).filter(q).len() < 5 {
        let k = rows.take(i).filter(q).len() as int;
        assert(rows =~= rows.take(i + 1) + rows.skip(i + 1));
        Seq::filter_distributes_over_add(rows.take(i + 1), rows.skip(i + 1), q);
        crate::table::lemma_count_step(rows, q, i);
        assert(found[k] == t);
        assert(some[k] == t);
        some.lemma_filter_contains(identified(), k);
        let m = choose|m: int| 0 <= m < kept.len() && kept[m] == t;
        assert(pending_tasks(s)[m] == as_pending(t));
    }
    if sound(s) {
        crate::table::lemma_filter_keyed::<TaskRow>(s.tasks, q);
        let five = TableView { rows: some, last_id: s.tasks.last_id };
        assert(crate::table::keyed::<TaskRow>(five)) by {
            let all = TableView { rows: found, last_id: s.tasks.last_id };
            assert forall|a: int, b: int| 0 <= a < b < some.len() implies TaskRow::key(#[trigger] some[a]) < TaskRow::key(
                #[trigger] some[b],
            ) by {
                assert(some[a] == all.rows[a] && some[b] == all.rows[b]);
            }
            assert forall|a: int| 0 <= a < some.len() implies TaskRow::key(
                #[trigger] some[a],
            ) <= s.tasks.last_id by {
                assert(some[a] == all.rows[a]);
            }
        }
        crate::table::lemma_filter_keyed::<TaskRow>(five, identified());
        let last = TableView { rows: kept, last_id: s.tasks.last_id };
        assert forall|a: int, b: int| 0 <= a < b < pending_tasks(s).len() implies (
        #[trigger] pending_tasks(s)[a]).db_id < (#[trigger] pending_tasks(s)[b]).db_id by {
            assert(TaskRow::key(last.rows[a]) < TaskRow::key(last.rows[b]));
        }
    }
}

/// To note an error of a spawn puts it behind the notes of the task, and touches the task. Only
/// where no answer told of the failure the count goes up by one, and with the third failure the
/// task has failed and is nobody's. Every other task, and all else, is as it was.
pub proof fn law_spawn_error_is_noted(
    s: StoreView,
    task_id: i64,
    error: Seq<char>,
    answered: bool,
    now: i64,
    i: int,
)
    requires
        0 <= i < s.tasks.rows.len(),
        sound(s),
        s.tasks.rows[i].spawn_failures is Some ==> s.tasks.rows[i].spawn_failures->0 < i64::MAX,
    ensures
        ({
            let t = s.tasks.rows[i];
            let n = after_spawn_error(s, task_id, error, answered, now);
            let r = n.tasks.rows[i];
            let before: int = match t.spawn_failures {
                Some(k) => k as int,
                None => 0,
            };
            let notes = (match t.notes {
                Some(x) => x,
                None => Seq::empty(),
            }) + seq!['\n'] + "[executor] Spawn error: "@ + error;
            &&& n == (StoreView { tasks: n.tasks, ..s })
            &&& n.tasks.last_id == s.tasks.last_id
            &&& n.tasks.rows.len() == s.tasks.rows.len()
            &&& t.id != task_id ==> r == t
            &&& t.id == task_id && answered ==> r == (TaskRowView {
                notes: Some(notes),
                updated_at: Some(now),
                ..t
            })
            &&& t.id == task_id && !answered && before + 1 < 3 ==> r == (TaskRowView {
                notes: Some(notes),
                updated_at: Some(now),
                spawn_failures: Some((before + 1) as i64),
                ..t
            })
            &&& t.id == task_id && !answered && before + 1 >= 3 ==> r == (TaskRowView {
                notes: Some(notes),
                updated_at: Some(now),
                spawn_failures: Some((before + 1) as i64),
                status: "failed"@,
                executor_agent: None,
                ..t
            })
        }),
{
    let rows = s.tasks.rows;
    if rows[i].id == task_id {
        assert forall|j: int| 0 <= j < i implies !task_is(task_id)(#[trigger] rows[j]) by {
            assert(TaskRow::key(rows[j]) < TaskRow::key(rows[i]));
        }
        crate::table::lemma_first_at(rows, task_is(task_id), i);
    }
}

/// At most three tasks are started at once, a task fails for good with its third failure, and after
/// a failure nothing is started for a minute.
pub proof fn law_pace_of_the_executor()
    ensures
        MAX_SPAWNS_PER_TICK == 3,
        MAX_SPAWN_FAILURES == 3,
        SPAWN_FAILURE_COOLDOWN_SECS == 60,
{
}

} // verus!
