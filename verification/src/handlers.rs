//! What follows from the events of a plan's execution.

use crate::audit::{log_status_change, with_transitions};
use crate::evidence::{evidence_of, task_is};
use crate::gates::{
    count_unsettled, find_plan, find_wave, has_any_evidence, plan_is, unsettled_in, wave_is,
};
use crate::key_numbers::{key_number, read_key};
use crate::plan_hierarchy::{
    dependencies_met, dependency_answer, master_rollup, rollup, rollup_fits,
};
use crate::rows::{PlanRow, PlanRowView, TaskRow, TaskRowView, WaveRow, WaveRowView};
use crate::store::{sound, Moment, Store, StoreError, StoreView};
use crate::table::{
    any, any_where, find_where, first, ids_where, keys, lemma_count_any, lemma_updated_keyed,
    smallest, smallest_where, update_where, updated, views, Duplicate, Row, TableView,
};
use crate::text::{cat2, dec, dec_i64, same};
use vstd::prelude::*;

verus! {

/// What the orchestrator tells the channel that drives it.
#[derive(Debug, Clone, Copy, PartialEq, Eq, Structural)]
pub enum Event {
    /// A plan waits for other plans.
    PlanBlocked { plan_id: i64 },
    /// A plan may be carried out.
    PlanReady { plan_id: i64 },
    /// The tasks of a wave are settled.
    WaveDone { wave_id: i64, plan_id: i64 },
    /// A wave is to be validated.
    WaveNeedsValidation { wave_id: i64, plan_id: i64 },
    /// A wave may be carried out.
    WaveReady { wave_id: i64, plan_id: i64 },
    /// All waves of a plan are done.
    PlanDone { plan_id: i64 },
}

impl Event {
    /// The name of the event on the channel.
    pub open spec fn name(self) -> Seq<char> {
        match self {
            Event::PlanBlocked { .. } => "plan_blocked"@,
            Event::PlanReady { .. } => "plan_ready"@,
            Event::WaveDone { .. } => "wave_done"@,
            Event::WaveNeedsValidation { .. } => "wave_needs_validation"@,
            Event::WaveReady { .. } => "wave_ready"@,
            Event::PlanDone { .. } => "plan_done"@,
        }
    }

    /// The name of the event on the channel.
    pub fn as_str(self) -> (r: &'static str)
        ensures
            r@ == self.name(),
    {
        match self {
            Event::PlanBlocked { .. } => "plan_blocked",
            Event::PlanReady { .. } => "plan_ready",
            Event::WaveDone { .. } => "wave_done",
            Event::WaveNeedsValidation { .. } => "wave_needs_validation",
            Event::WaveReady { .. } => "wave_ready",
            Event::PlanDone { .. } => "plan_done",
        }
    }
}

/// A plan that is due: blocked while a plan it depends on is open, and ready otherwise.
pub fn on_plan_ready(db: &Store, plan_id: i64) -> (r: Result<Event, StoreError>)
    ensures
        r == match dependency_answer(db@, plan_id) {
            Ok(true) => Ok(Event::PlanReady { plan_id }),
            Ok(false) => Ok(Event::PlanBlocked { plan_id }),
            Err(e) => Err(e),
        },
{
    match dependencies_met(db, plan_id) {
        Ok(met) => if met {
            Ok(Event::PlanReady { plan_id })
        } else {
            Ok(Event::PlanBlocked { plan_id })
        },
        Err(e) => Err(e),
    }
}

// ---- a task is done ----

/// The task of a plan with the given id.
pub open spec fn task_in_plan(task_id: i64, plan_id: i64) -> spec_fn(TaskRowView) -> bool {
    |t: TaskRowView| t.id == task_id && t.plan_id == plan_id
}

/// Whether a plan has a task with the given id.
pub fn has_task_in_plan(tasks: &Vec<TaskRow>, task_id: i64, plan_id: i64) -> (r: bool)
    ensures
        r == any(views(tasks@), task_in_plan(task_id, plan_id)),
{
    any_where(
        tasks,
        |t: &TaskRow| -> (b: bool) ensures b == task_in_plan(task_id, plan_id)(t@) {
            t.id == task_id && t.plan_id == plan_id
        },
        Ghost(task_in_plan(task_id, plan_id)),
    )
}

/// The wave of a plan's task, where the task is there and has one. The task is named by a text
/// that stands for its number.
pub open spec fn wave_of_task(s: StoreView, task_id: Seq<char>, plan_id: i64) -> Option<i64> {
    match key_number(task_id) {
        Some(id) => match first(s.tasks.rows, task_in_plan(id, plan_id)) {
            Some(t) => t.wave_id,
            None => None,
        },
        None => None,
    }
}

/// The wave with the given id while it is in progress.
pub open spec fn wave_running(wave_id: i64) -> spec_fn(WaveRowView) -> bool {
    |w: WaveRowView| w.id == wave_id && w.status == "in_progress"@
}

/// A wave whose tasks are settled.
pub open spec fn completing() -> spec_fn(WaveRowView) -> WaveRowView {
    |w: WaveRowView| WaveRowView { status: "completing"@, ..w }
}

/// Whether the end of a task ends its wave: the wave runs, and no task of it is open.
pub open spec fn wave_ends(s: StoreView, task_id: Seq<char>, plan_id: i64) -> bool {
    match wave_of_task(s, task_id, plan_id) {
        Some(w) => !any(s.tasks.rows, unsettled_in(plan_id, w)) && any(
            s.waves.rows,
            wave_running(w),
        ),
        None => false,
    }
}

/// The store after the end of a task.
pub open spec fn after_task_done(s: StoreView, task_id: Seq<char>, plan_id: i64) -> StoreView {
    if wave_ends(s, task_id, plan_id) {
        StoreView {
            waves: TableView {
                rows: updated(
                    s.waves.rows,
                    wave_running(wave_of_task(s, task_id, plan_id)->0),
                    completing(),
                ),
                last_id: s.waves.last_id,
            },
            ..s
        }
    } else {
        s
    }
}

/// A task is done. The last one of a running wave ends the wave: the wave is marked, and the
/// event is told once, however many ends of tasks arrive.
pub fn on_task_done(db: &mut Store, task_id: &str, plan_id: i64) -> (r: Option<Event>)
    ensures
        final(db)@ == after_task_done(old(db)@, task_id@, plan_id),
        r == if wave_ends(old(db)@, task_id@, plan_id) {
            Some(
                Event::WaveDone { wave_id: wave_of_task(old(db)@, task_id@, plan_id)->0, plan_id },
            )
        } else {
            None
        },
        sound(old(db)@) ==> sound(final(db)@),
{
    let id: i64 = match read_key(task_id) {
        Some(id) => id,
        None => {
            return None;
        },
    };
    let found = find_where(
        &db.tasks.rows,
        |t: &TaskRow| -> (b: bool) ensures b == task_in_plan(id, plan_id)(t@) {
            t.id == id && t.plan_id == plan_id
        },
        Ghost(task_in_plan(id, plan_id)),
    );
    let wave_id: i64 = match found {
        Some(k) => match db.tasks.rows[k].wave_id {
            Some(w) => w,
            None => {
                return None;
            },
        },
        None => {
            return None;
        },
    };
    let open: usize = count_unsettled(db, plan_id, wave_id);
    proof {
        lemma_count_any(db@.tasks.rows, unsettled_in(plan_id, wave_id));
        lemma_count_any(db@.waves.rows, wave_running(wave_id));
        if sound(db@) {
            lemma_updated_keyed::<WaveRow>(db@.waves, wave_running(wave_id), completing());
        }
    }
    if open > 0 {
        return None;
    }
    let ghost before = db@;
    let flipped: usize = update_where(
        &mut db.waves.rows,
        |w: &WaveRow| -> (b: bool) ensures b == wave_running(wave_id)(w@) {
            w.id == wave_id && same(w.status.as_str(), "in_progress")
        },
        |w: &WaveRow| -> (n: WaveRow) ensures n@ == completing()(w@) {
            WaveRow { status: "completing".to_owned(), ..w.duplicate() }
        },
        Ghost(wave_running(wave_id)),
        Ghost(completing()),
    );
    if flipped > 0 {
        Some(Event::WaveDone { wave_id, plan_id })
    } else {
        proof {
            let rows = before.waves.rows;
            assert forall|i: int| 0 <= i < rows.len() implies !wave_running(wave_id)(
                #[trigger] rows[i],
            ) by {}
            assert(db@.waves.rows =~= rows);
        }
        None
    }
}

/// A wave is settled: it is to be validated.
pub fn on_wave_done(wave_id: i64, plan_id: i64) -> (r: Event)
    ensures
        r == (Event::WaveNeedsValidation { wave_id, plan_id }),
{
    Event::WaveNeedsValidation { wave_id, plan_id }
}

// ---- a wave is validated ----

/// The submitted tasks of a wave.
pub open spec fn submitted_in(plan_id: i64, wave_id: i64) -> spec_fn(TaskRowView) -> bool {
    |t: TaskRowView|
        t.plan_id == plan_id && t.wave_id == Some(wave_id) && t.status == "submitted"@
}

/// The submitted tasks of a wave for which no evidence is recorded.
pub open spec fn unproven_in(s: StoreView, plan_id: i64, wave_id: i64) -> spec_fn(
    TaskRowView,
) -> bool {
    |t: TaskRowView|
        submitted_in(plan_id, wave_id)(t) && !any(s.task_evidence.rows, evidence_of(t.id))
}

/// A task that is done at a given time.
pub open spec fn task_done_at(now: i64) -> spec_fn(TaskRowView) -> TaskRowView {
    |t: TaskRowView| TaskRowView { status: "done"@, completed_at: Some(now), ..t }
}

/// A wave that is done at a given time.
pub open spec fn wave_done_at(now: i64) -> spec_fn(WaveRowView) -> WaveRowView {
    |w: WaveRowView| WaveRowView { status: "done"@, completed_at: Some(now), ..w }
}

/// The waves of a plan after the given one that are still to come.
pub open spec fn to_come(plan_id: i64, wave_id: i64) -> spec_fn(WaveRowView) -> bool {
    |w: WaveRowView|
        w.plan_id == plan_id && w.id > wave_id && w.status != "done"@ && w.status != "cancelled"@
}

/// The store after a wave has been validated: its submitted tasks are done, each with an
/// entry in the log, and the wave is done.
pub open spec fn after_wave_validated(
    s: StoreView,
    wave_id: i64,
    plan_id: i64,
    secs: i64,
    now: Seq<char>,
) -> StoreView {
    StoreView {
        tasks: TableView {
            rows: updated(s.tasks.rows, submitted_in(plan_id, wave_id), task_done_at(secs)),
            last_id: s.tasks.last_id,
        },
        task_status_log: with_transitions(
            s.task_status_log,
            keys::<TaskRow>(s.tasks.rows.filter(submitted_in(plan_id, wave_id))),
            "submitted"@,
            "done"@,
            "orchestrator"@,
            Some("wave promote"@),
            now,
        ),
        waves: TableView {
            rows: updated(s.waves.rows, wave_is(wave_id), wave_done_at(secs)),
            last_id: s.waves.last_id,
        },
        ..s
    }
}

/// What comes after a wave: the next wave that is still to come, where it is pending, or the
/// end of the plan, where no wave is to come.
pub open spec fn after_wave(s: StoreView, wave_id: i64, plan_id: i64) -> Option<Event> {
    match smallest::<WaveRow>(s.waves.rows.filter(to_come(plan_id, wave_id))) {
        None => Some(Event::PlanDone { plan_id }),
        Some(next) => match first(s.waves.rows, wave_is(next)) {
            Some(w) if w.status == "pending"@ => Some(Event::WaveReady { wave_id: next, plan_id }),
            _ => None,
        },
    }
}

/// What the validation of a wave brought about.
pub struct WaveValidated {
    /// The tasks that were promoted to done.
    pub promoted: Vec<i64>,
    /// The tasks among them for which no evidence is recorded.
    pub without_evidence: Vec<i64>,
    /// What comes next.
    pub event: Option<Event>,
}

/// What comes after a wave.
fn next_event(db: &Store, wave_id: i64, plan_id: i64) -> (r: Option<Event>)
    ensures
        r == after_wave(db@, wave_id, plan_id),
{
    let next = smallest_where(
        &db.waves.rows,
        |w: &WaveRow| -> (b: bool) ensures b == to_come(plan_id, wave_id)(w@) {
            w.plan_id == plan_id && w.id > wave_id && !same(w.status.as_str(), "done") && !same(
                w.status.as_str(),
                "cancelled",
            )
        },
        Ghost(to_come(plan_id, wave_id)),
    );
    match next {
        None => Some(Event::PlanDone { plan_id }),
        Some(n) => match find_wave(db, n) {
            Some(k) => if same(db.waves.rows[k].status.as_str(), "pending") {
                Some(Event::WaveReady { wave_id: n, plan_id })
            } else {
                None
            },
            None => None,
        },
    }
}

/// A wave has been validated: its submitted tasks and the wave itself are done, and the next
/// wave or the end of the plan is announced.
pub fn on_wave_validated(db: &mut Store, wave_id: i64, plan_id: i64, now: &Moment) -> (r:
    WaveValidated)
    ensures
        final(db)@ == after_wave_validated(old(db)@, wave_id, plan_id, now.secs, now.text@),
        r.promoted@ == keys::<TaskRow>(old(db)@.tasks.rows.filter(submitted_in(plan_id, wave_id))),
        r.without_evidence@ == keys::<TaskRow>(
            old(db)@.tasks.rows.filter(unproven_in(old(db)@, plan_id, wave_id)),
        ),
        r.event == after_wave(final(db)@, wave_id, plan_id),
        sound(old(db)@) ==> sound(final(db)@),
{
    let ghost s = db@;
    let without_evidence = ids_where(
        &db.tasks.rows,
        |t: &TaskRow| -> (b: bool) ensures b == unproven_in(db@, plan_id, wave_id)(t@) {
            t.plan_id == plan_id && (match t.wave_id {
                Some(w) => w == wave_id,
                None => false,
            }) && same(t.status.as_str(), "submitted") && !has_any_evidence(db, t.id)
        },
        Ghost(unproven_in(db@, plan_id, wave_id)),
    );
    let promoted = ids_where(
        &db.tasks.rows,
        |t: &TaskRow| -> (b: bool) ensures b == submitted_in(plan_id, wave_id)(t@) {
            t.plan_id == plan_id && (match t.wave_id {
                Some(w) => w == wave_id,
                None => false,
            }) && same(t.status.as_str(), "submitted")
        },
        Ghost(submitted_in(plan_id, wave_id)),
    );
    let secs: i64 = now.secs;
    proof {
        if sound(s) {
            lemma_updated_keyed::<TaskRow>(
                s.tasks,
                submitted_in(plan_id, wave_id),
                task_done_at(secs),
            );
            lemma_updated_keyed::<WaveRow>(s.waves, wave_is(wave_id), wave_done_at(secs));
        }
    }
    update_where(
        &mut db.tasks.rows,
        |t: &TaskRow| -> (b: bool) ensures b == submitted_in(plan_id, wave_id)(t@) {
            t.plan_id == plan_id && (match t.wave_id {
                Some(w) => w == wave_id,
                None => false,
            }) && same(t.status.as_str(), "submitted")
        },
        |t: &TaskRow| -> (n: TaskRow) ensures n@ == task_done_at(secs)(t@) {
            TaskRow { status: "done".to_owned(), completed_at: Some(secs), ..t.duplicate() }
        },
        Ghost(submitted_in(plan_id, wave_id)),
        Ghost(task_done_at(secs)),
    );
    let ghost s1 = db@;
    let mut i: usize = 0;
    assert(promoted@.take(0) =~= Seq::<i64>::empty());
    while i < promoted.len()
        invariant
            i <= promoted@.len(),
            db@ == (StoreView {
                task_status_log: with_transitions(
                    s1.task_status_log,
                    promoted@.take(i as int),
                    "submitted"@,
                    "done"@,
                    "orchestrator"@,
                    Some("wave promote"@),
                    now.text@,
                ),
                ..s1
            }),
            sound(s1) ==> sound(db@),
        decreases promoted@.len() - i,
    {
        log_status_change(
            db,
            promoted[i],
            "submitted",
            "done",
            "orchestrator",
            Some("wave promote"),
            now.text.as_str(),
        );
        i += 1;
        assert(promoted@.take(i as int).drop_last() =~= promoted@.take(i - 1));
    }
    assert(promoted@.take(i as int) =~= promoted@);
    update_where(
        &mut db.waves.rows,
        |w: &WaveRow| -> (b: bool) ensures b == wave_is(wave_id)(w@) { w.id == wave_id },
        |w: &WaveRow| -> (n: WaveRow) ensures n@ == wave_done_at(secs)(w@) {
            WaveRow { status: "done".to_owned(), completed_at: Some(secs), ..w.duplicate() }
        },
        Ghost(wave_is(wave_id)),
        Ghost(wave_done_at(secs)),
    );
    let event = next_event(db, wave_id, plan_id);
    WaveValidated { promoted, without_evidence, event }
}

/// When the last open task of a wave ends, the wave is validated at once.
///
/// Gives the wave and the plan of a task whose wave has no open task left.
pub fn settled_wave(db: &Store, task_id: i64) -> (r: Option<(i64, i64)>)
    ensures
        r == settled_wave_of(db@, task_id),
{
    match crate::gates::find_task(db, task_id) {
        Some(k) => match db.tasks.rows[k].wave_id {
            Some(wave_id) => {
                let plan_id: i64 = db.tasks.rows[k].plan_id;
                let open: usize = count_unsettled(db, plan_id, wave_id);
                proof {
                    lemma_count_any(db@.tasks.rows, unsettled_in(plan_id, wave_id));
                }
                if open == 0 {
                    Some((wave_id, plan_id))
                } else {
                    None
                }
            },
            None => None,
        },
        None => None,
    }
}

/// The wave and the plan of a task whose wave has no open task left.
pub open spec fn settled_wave_of(s: StoreView, task_id: i64) -> Option<(i64, i64)> {
    match first(s.tasks.rows, task_is(task_id)) {
        Some(t) => match t.wave_id {
            Some(w) => if any(s.tasks.rows, unsettled_in(t.plan_id, w)) {
                None
            } else {
                Some((w, t.plan_id))
            },
            None => None,
        },
        None => None,
    }
}

/// Validates the wave of a task once no task of the wave is open.
pub fn try_auto_thor(db: &mut Store, task_id: i64, now: &Moment) -> (r: Option<WaveValidated>)
    ensures
        match settled_wave_of(old(db)@, task_id) {
            Some((wave_id, plan_id)) => {
                &&& r is Some
                &&& final(db)@ == after_wave_validated(
                    old(db)@,
                    wave_id,
                    plan_id,
                    now.secs,
                    now.text@,
                )
                &&& r->0.promoted@ == keys::<TaskRow>(
                    old(db)@.tasks.rows.filter(submitted_in(plan_id, wave_id)),
                )
                &&& r->0.without_evidence@ == keys::<TaskRow>(
                    old(db)@.tasks.rows.filter(unproven_in(old(db)@, plan_id, wave_id)),
                )
                &&& r->0.event == after_wave(final(db)@, wave_id, plan_id)
            },
            None => r is None && final(db)@ == old(db)@,
        },
        sound(old(db)@) ==> sound(final(db)@),
{
    match settled_wave(db, task_id) {
        Some((wave_id, plan_id)) => Some(on_wave_validated(db, wave_id, plan_id, now)),
        None => None,
    }
}

// ---- a plan is done ----

/// A plan that is done at a given time.
pub open spec fn plan_done_at(now: i64) -> spec_fn(PlanRowView) -> PlanRowView {
    |p: PlanRowView|
        PlanRowView { status: "done"@, completed_at: Some(now), updated_at: Some(now), ..p }
}

/// The store after the end of a plan.
pub open spec fn after_plan_done(s: StoreView, plan_id: i64, now: i64) -> StoreView {
    StoreView {
        plans: TableView {
            rows: updated(s.plans.rows, plan_is(plan_id), plan_done_at(now)),
            last_id: s.plans.last_id,
        },
        ..s
    }
}

/// The name of a plan, made from its number where it has none.
pub open spec fn plan_title(s: StoreView, plan_id: i64) -> Seq<char> {
    match first(s.plans.rows, plan_is(plan_id)) {
        Some(p) => p.name,
        None => "Plan #"@ + dec(plan_id as int),
    }
}

/// The master plan that a plan belongs to.
pub open spec fn parent_of(s: StoreView, plan_id: i64) -> Option<i64> {
    match first(s.plans.rows, plan_is(plan_id)) {
        Some(p) => p.parent_plan_id,
        None => None,
    }
}

/// The plans of a master that have not started.
pub open spec fn waiting_under(master_id: i64) -> spec_fn(PlanRowView) -> bool {
    |p: PlanRowView| p.parent_plan_id == Some(master_id) && p.status == "todo"@
}

/// The plans among the given ones that may start. A failed look-up ends the walk.
pub open spec fn unblocked(s: StoreView, plan_ids: Seq<i64>) -> (Seq<i64>, Option<StoreError>)
    decreases plan_ids.len(),
{
    if plan_ids.len() == 0 {
        (Seq::empty(), None)
    } else {
        let before = unblocked(s, plan_ids.drop_last());
        match (before.1, dependency_answer(s, plan_ids.last())) {
            (Some(e), _) => before,
            (None, Err(e)) => (before.0, Some(e)),
            (None, Ok(true)) => (before.0.push(plan_ids.last()), None),
            (None, Ok(false)) => before,
        }
    }
}

/// The plans under a master that have not started and that no open plan holds up. A failed
/// look-up ends the walk, and is given beside the plans found until then.
pub fn check_unblocked_plans(db: &Store, master_id: i64) -> (r: (Vec<i64>, Option<StoreError>))
    ensures
        (r.0@, r.1) == unblocked(
            db@,
            keys::<PlanRow>(db@.plans.rows.filter(waiting_under(master_id))),
        ),
{
    let waiting = ids_where(
        &db.plans.rows,
        |p: &PlanRow| -> (b: bool) ensures b == waiting_under(master_id)(p@) {
            (match p.parent_plan_id {
                Some(m) => m == master_id,
                None => false,
            }) && same(p.status.as_str(), "todo")
        },
        Ghost(waiting_under(master_id)),
    );
    let mut ready: Vec<i64> = Vec::new();
    let mut i: usize = 0;
    assert(waiting@.take(0) =~= Seq::<i64>::empty());
    assert(ready@ =~= Seq::<i64>::empty());
    while i < waiting.len()
        invariant
            i <= waiting@.len(),
            waiting@ == keys::<PlanRow>(db@.plans.rows.filter(waiting_under(master_id))),
            unblocked(db@, waiting@.take(i as int)) == (ready@, None::<StoreError>),
        decreases waiting@.len() - i,
    {
        proof {
            assert(waiting@.take(i + 1).drop_last() =~= waiting@.take(i as int));
        }
        match dependencies_met(db, waiting[i]) {
            Ok(met) => {
                if met {
                    ready.push(waiting[i]);
                }
            },
            Err(e) => {
                proof {
                    lemma_unblocked_err(db@, waiting@, i + 1);
                }
                return (ready, Some(e));
            },
        }
        i += 1;
    }
    assert(waiting@.take(i as int) =~= waiting@);
    (ready, None)
}

/// A look-up that fails decides the answer.
proof fn lemma_unblocked_err(s: StoreView, ids: Seq<i64>, k: int)
    requires
        0 <= k <= ids.len(),
        unblocked(s, ids.take(k)).1 is Some,
    ensures
        unblocked(s, ids) == unblocked(s, ids.take(k)),
    decreases ids.len(),
{
    if k < ids.len() {
        assert(ids.drop_last().take(k) =~= ids.take(k));
        lemma_unblocked_err(s, ids.drop_last(), k);
    } else {
        assert(ids.take(k) =~= ids);
    }
}

/// What the end of a plan brought about.
pub struct PlanFinished {
    /// The name of the plan.
    pub name: String,
    /// Where the plan belongs to a master: the master, and what the master's plans add up to.
    pub master: Option<(i64, (i64, i64, String))>,
    /// The plans under the same master that may start now, and the look-up that failed, if
    /// one did.
    pub ready: (Vec<i64>, Option<StoreError>),
}

/// A plan is done: it is marked, and the plans that it held up may start.
pub fn on_plan_done(db: &mut Store, plan_id: i64, now: i64) -> (r: PlanFinished)
    requires
        parent_of(old(db)@, plan_id) matches Some(m) ==> rollup_fits(
            after_plan_done(old(db)@, plan_id, now),
            m,
        ),
    ensures
        final(db)@ == after_plan_done(old(db)@, plan_id, now),
        r.name@ == plan_title(final(db)@, plan_id),
        match parent_of(final(db)@, plan_id) {
            Some(m) => {
                &&& r.master matches Some((id, (done, total, status))) && id == m && (
                done as int, total as int, status@) == rollup(final(db)@, m)
                &&& (r.ready.0@, r.ready.1) == unblocked(
                    final(db)@,
                    keys::<PlanRow>(final(db)@.plans.rows.filter(waiting_under(m))),
                )
            },
            None => r.master is None && r.ready.0@.len() == 0 && r.ready.1 is None,
        },
        sound(old(db)@) ==> sound(final(db)@),
{
    proof {
        if sound(db@) {
            lemma_updated_keyed::<PlanRow>(db@.plans, plan_is(plan_id), plan_done_at(now));
        }
        crate::table::lemma_first_updated(db@.plans.rows, plan_is(plan_id), plan_done_at(now));
    }
    update_where(
        &mut db.plans.rows,
        |p: &PlanRow| -> (b: bool) ensures b == plan_is(plan_id)(p@) { p.id == plan_id },
        |p: &PlanRow| -> (n: PlanRow) ensures n@ == plan_done_at(now)(p@) {
            PlanRow {
                status: "done".to_owned(),
                completed_at: Some(now),
                updated_at: Some(now),
                ..p.duplicate()
            }
        },
        Ghost(plan_is(plan_id)),
        Ghost(plan_done_at(now)),
    );
    let (name, parent) = match find_plan(db, plan_id) {
        Some(k) => (db.plans.rows[k].name.clone(), db.plans.rows[k].parent_plan_id),
        None => (cat2("Plan #", dec_i64(plan_id).as_str()), None),
    };
    match parent {
        Some(m) => {
            let sums = master_rollup(db, m);
            let ready = check_unblocked_plans(db, m);
            PlanFinished { name, master: Some((m, sums)), ready }
        },
        None => PlanFinished { name, master: None, ready: (Vec::new(), None) },
    }
}

/// Whether a wave is not set running in a row of stores: each follows the one before by the end
/// of a task, or does not have the wave running.
pub open spec fn not_restarted(trace: Seq<StoreView>, wave_id: i64) -> bool {
    forall|i: int|
        0 < i < trace.len() ==> follows_task_done(trace[i - 1], #[trigger] trace[i]) || !any(
            trace[i].waves.rows,
            wave_running(wave_id),
        )
}

/// Whether a store follows another by the end of some task.
pub open spec fn follows_task_done(s: StoreView, n: StoreView) -> bool {
    exists|task_id: Seq<char>, plan_id: i64| n == #[trigger] after_task_done(s, task_id, plan_id)
}

/// The end of a task sets no wave running.
proof fn lemma_stays_stopped(s: StoreView, task_id: Seq<char>, plan_id: i64, wave_id: i64)
    requires
        !any(s.waves.rows, wave_running(wave_id)),
    ensures
        !any(after_task_done(s, task_id, plan_id).waves.rows, wave_running(wave_id)),
{
    reveal_strlit("in_progress");
    reveal_strlit("completing");
    assert("in_progress"@.len() == 11 && "completing"@.len() == 10);
    let n = after_task_done(s, task_id, plan_id);
    assert forall|i: int| 0 <= i < n.waves.rows.len() implies !wave_running(wave_id)(
        #[trigger] n.waves.rows[i],
    ) by {
        assert(!wave_running(wave_id)(s.waves.rows[i]));
    }
}

/// A wave whose end has been told stays stopped, as long as it is not set running again.
proof fn lemma_trace_stopped(trace: Seq<StoreView>, wave_id: i64, k: int)
    requires
        0 <= k < trace.len(),
        !any(trace[0].waves.rows, wave_running(wave_id)),
        not_restarted(trace, wave_id),
    ensures
        !any(trace[k].waves.rows, wave_running(wave_id)),
    decreases k,
{
    if k > 0 {
        lemma_trace_stopped(trace, wave_id, k - 1);
        if follows_task_done(trace[k - 1], trace[k]) {
            let (t, p) = choose|t: Seq<char>, p: i64|
                trace[k] == #[trigger] after_task_done(trace[k - 1], t, p);
            lemma_stays_stopped(trace[k - 1], t, p, wave_id);
        }
    }
}

/// The end of a wave is told once: after it has been told, no end of a task of that wave tells
/// it again, however many ends of tasks and other changes come between, as long as none of them
/// sets the wave running again.
pub proof fn law_wave_done_once(
    s: StoreView,
    task_id: Seq<char>,
    plan_id: i64,
    trace: Seq<StoreView>,
    k: int,
    later_task: Seq<char>,
    later_plan: i64,
)
    requires
        wave_ends(s, task_id, plan_id),
        0 <= k < trace.len(),
        trace[0] == after_task_done(s, task_id, plan_id),
        not_restarted(trace, wave_of_task(s, task_id, plan_id)->0),
        wave_of_task(trace[k], later_task, later_plan) == wave_of_task(s, task_id, plan_id),
    ensures
        !wave_ends(trace[k], later_task, later_plan),
{
    reveal_strlit("in_progress");
    reveal_strlit("completing");
    assert("in_progress"@.len() == 11 && "completing"@.len() == 10);
    let w = wave_of_task(s, task_id, plan_id)->0;
    let n = trace[0];
    assert forall|i: int| 0 <= i < n.waves.rows.len() implies !wave_running(w)(
        #[trigger] n.waves.rows[i],
    ) by {
        let old_row = s.waves.rows[i];
        if wave_running(w)(old_row) {
            assert(n.waves.rows[i] == completing()(old_row));
        }
    }
    lemma_trace_stopped(trace, w, k);
}

/// After a wave has been validated no task of it is submitted, every task that was is done,
/// and every other task is as it was.
pub proof fn law_validation_promotes(
    s: StoreView,
    wave_id: i64,
    plan_id: i64,
    secs: i64,
    now: Seq<char>,
    i: int,
)
    requires
        0 <= i < s.tasks.rows.len(),
    ensures
        ({
            let n = after_wave_validated(s, wave_id, plan_id, secs, now);
            &&& n.tasks.rows.len() == s.tasks.rows.len()
            &&& !submitted_in(plan_id, wave_id)(n.tasks.rows[i])
            &&& submitted_in(plan_id, wave_id)(s.tasks.rows[i]) ==> n.tasks.rows[i].status
                == "done"@
            &&& !submitted_in(plan_id, wave_id)(s.tasks.rows[i]) ==> n.tasks.rows[i]
                == s.tasks.rows[i]
        }),
{
    reveal_strlit("submitted");
    reveal_strlit("done");
    assert("submitted"@.len() == 9 && "done"@.len() == 4);
}

/// What follows a wave, over the rows. A wave is announced only where it is a pending wave of the
/// plan behind the validated one, and every wave of the plan between them is done or cancelled.
/// The end of the plan is announced exactly where every wave of the plan behind the validated one
/// is done or cancelled. Nothing is announced exactly where the next open wave of the plan is not
/// pending.
pub proof fn law_next_wave(s: StoreView, wave_id: i64, plan_id: i64)
    requires
        sound(s),
    ensures
        match after_wave(s, wave_id, plan_id) {
            Some(Event::WaveReady { wave_id: n, plan_id: p }) => p == plan_id && exists|i: int|
                {
                    &&& 0 <= i < s.waves.rows.len()
                    &&& (#[trigger] s.waves.rows[i]).id == n
                    &&& n > wave_id
                    &&& s.waves.rows[i].plan_id == plan_id
                    &&& s.waves.rows[i].status == "pending"@
                } && forall|j: int|
                0 <= j < s.waves.rows.len() && (#[trigger] s.waves.rows[j]).plan_id == plan_id
                    && wave_id < s.waves.rows[j].id < n ==> s.waves.rows[j].status == "done"@
                    || s.waves.rows[j].status == "cancelled"@,
            Some(Event::PlanDone { plan_id: p }) => p == plan_id && forall|j: int|
                0 <= j < s.waves.rows.len() && (#[trigger] s.waves.rows[j]).plan_id == plan_id
                    && wave_id < s.waves.rows[j].id ==> s.waves.rows[j].status == "done"@
                    || s.waves.rows[j].status == "cancelled"@,
            None => exists|i: int|
                {
                    &&& 0 <= i < s.waves.rows.len()
                    &&& (#[trigger] s.waves.rows[i]).id > wave_id
                    &&& s.waves.rows[i].plan_id == plan_id
                    &&& s.waves.rows[i].status != "pending"@
                    &&& s.waves.rows[i].status != "done"@
                    &&& s.waves.rows[i].status != "cancelled"@
                    &&& forall|j: int|
                        0 <= j < s.waves.rows.len() && (#[trigger] s.waves.rows[j]).plan_id
                            == plan_id && wave_id < s.waves.rows[j].id < s.waves.rows[i].id
                            ==> s.waves.rows[j].status == "done"@ || s.waves.rows[j].status
                            == "cancelled"@
                },
            _ => false,
        },
{
    let rows = s.waves.rows;
    let p = to_come(plan_id, wave_id);
    crate::table::lemma_smallest_of::<WaveRow>(rows, p);
    if let Some(n) = smallest::<WaveRow>(rows.filter(p)) {
        let i = choose|i: int|
            0 <= i < rows.len() && p(#[trigger] rows[i]) && WaveRow::key(rows[i]) == n;
        crate::table::lemma_first_keyed::<WaveRow>(s.waves, wave_is(n), i);
        assert(rows[i].id == n);
        assert forall|j: int|
            0 <= j < rows.len() && (#[trigger] rows[j]).plan_id == plan_id && wave_id < rows[j].id
                < n implies rows[j].status == "done"@ || rows[j].status == "cancelled"@ by {
            if p(rows[j]) {
                assert(WaveRow::key(rows[j]) >= n);
            }
        }
    } else {
        assert forall|j: int|
            0 <= j < rows.len() && (#[trigger] rows[j]).plan_id == plan_id && wave_id
                < rows[j].id implies rows[j].status == "done"@ || rows[j].status == "cancelled"@ by {
            assert(!p(rows[j]));
        }
    }
}

/// The end of a task, over the rows. It ends the task's wave exactly where the wave is in
/// progress and each task of the plan in it is done, submitted, cancelled or skipped. The wave is
/// then completing; no other wave, and nothing else, changes.
pub proof fn law_end_of_a_task(s: StoreView, text: Seq<char>, i: int, k: int)
    requires
        sound(s),
        0 <= i < s.tasks.rows.len(),
        0 <= k < s.waves.rows.len(),
        key_number(text) == Some(s.tasks.rows[i].id),
    ensures
        ({
            let t = s.tasks.rows[i];
            let w = s.waves.rows[k];
            let n = after_task_done(s, text, t.plan_id);
            let over = t.wave_id == Some(w.id) && w.status == "in_progress"@ && forall|j: int|
                0 <= j < s.tasks.rows.len() && (#[trigger] s.tasks.rows[j]).plan_id == t.plan_id
                    && s.tasks.rows[j].wave_id == Some(w.id) ==> s.tasks.rows[j].status == "done"@
                    || s.tasks.rows[j].status == "submitted"@ || s.tasks.rows[j].status
                    == "cancelled"@ || s.tasks.rows[j].status == "skipped"@;
            &&& t.wave_id == Some(w.id) ==> (wave_ends(s, text, t.plan_id) <==> over)
            &&& t.wave_id == Some(w.id) ==> wave_of_task(s, text, t.plan_id) == Some(w.id)
            &&& n == (StoreView { waves: n.waves, ..s })
            &&& n.waves.last_id == s.waves.last_id
            &&& n.waves.rows.len() == s.waves.rows.len()
            &&& n.waves.rows[k] == if over {
                WaveRowView { status: "completing"@, ..w }
            } else {
                w
            }
        }),
{
    let t = s.tasks.rows[i];
    let w = s.waves.rows[k];
    let rows = s.tasks.rows;
    let ws = s.waves.rows;
    crate::table::lemma_first_keyed::<TaskRow>(s.tasks, task_in_plan(t.id, t.plan_id), i);
    if let Some(x) = t.wave_id {
        assert forall|j: int| 0 <= j < rows.len() implies (unsettled_in(t.plan_id, x)(
            #[trigger] rows[j],
        ) <==> rows[j].plan_id == t.plan_id && rows[j].wave_id == Some(x) && !(rows[j].status
            == "done"@ || rows[j].status == "submitted"@ || rows[j].status == "cancelled"@
            || rows[j].status == "skipped"@)) by {}
        if any(ws, wave_running(x)) && x == w.id {
            let m = choose|m: int| 0 <= m < ws.len() && wave_running(x)(#[trigger] ws[m]);
            assert(WaveRow::key(ws[m]) == WaveRow::key(ws[k]));
            assert(m == k) by {
                if m < k {
                    assert(WaveRow::key(ws[m]) < WaveRow::key(ws[k]));
                } else if k < m {
                    assert(WaveRow::key(ws[k]) < WaveRow::key(ws[m]));
                }
            }
        }
        if w.id == x && w.status == "in_progress"@ {
            assert(wave_running(x)(ws[k]));
        }
    }
}

/// The end of a task that is in no such plan, or whose text stands for no number, changes nothing
/// and ends no wave.
pub proof fn law_end_of_an_unknown_task(s: StoreView, text: Seq<char>, plan_id: i64)
    requires
        forall|i: int|
            0 <= i < s.tasks.rows.len() ==> !(key_number(text) == Some(
                (#[trigger] s.tasks.rows[i]).id,
            ) && s.tasks.rows[i].plan_id == plan_id && s.tasks.rows[i].wave_id is Some),
    ensures
        after_task_done(s, text, plan_id) == s,
        !wave_ends(s, text, plan_id),
{
    if let Some(id) = key_number(text) {
        crate::table::lemma_first_place(s.tasks.rows, task_in_plan(id, plan_id));
    }
}

/// A validated wave, over the rows: its submitted tasks in the plan are done as of now, the wave
/// is done as of now, and no other task or wave changes.
pub proof fn law_validated_wave(
    s: StoreView,
    wave_id: i64,
    plan_id: i64,
    secs: i64,
    now: Seq<char>,
    i: int,
    k: int,
)
    ensures
        ({
            let n = after_wave_validated(s, wave_id, plan_id, secs, now);
            &&& n == (StoreView {
                tasks: n.tasks,
                waves: n.waves,
                task_status_log: n.task_status_log,
                ..s
            })
            &&& n.tasks.last_id == s.tasks.last_id && n.waves.last_id == s.waves.last_id
            &&& n.tasks.rows.len() == s.tasks.rows.len()
            &&& n.waves.rows.len() == s.waves.rows.len()
            &&& 0 <= i < s.tasks.rows.len() ==> n.tasks.rows[i] == if s.tasks.rows[i].plan_id
                == plan_id && s.tasks.rows[i].wave_id == Some(wave_id) && s.tasks.rows[i].status
                == "submitted"@ {
                TaskRowView { status: "done"@, completed_at: Some(secs), ..s.tasks.rows[i] }
            } else {
                s.tasks.rows[i]
            }
            &&& 0 <= k < s.waves.rows.len() ==> n.waves.rows[k] == if s.waves.rows[k].id
                == wave_id {
                WaveRowView { status: "done"@, completed_at: Some(secs), ..s.waves.rows[k] }
            } else {
                s.waves.rows[k]
            }
        }),
{
}

/// The tasks that a validation promotes are exactly the submitted ones of the wave in the plan,
/// and those without evidence are exactly the ones among them for which none is recorded. Each
/// promotion is logged as one from submitted to done by the orchestrator, as long as keys are
/// left.
pub proof fn law_promoted_tasks(
    s: StoreView,
    wave_id: i64,
    plan_id: i64,
    secs: i64,
    now: Seq<char>,
    id: i64,
)
    ensures
        ({
            let promoted = keys::<TaskRow>(s.tasks.rows.filter(submitted_in(plan_id, wave_id)));
            let bare = keys::<TaskRow>(s.tasks.rows.filter(unproven_in(s, plan_id, wave_id)));
            let log = after_wave_validated(s, wave_id, plan_id, secs, now).task_status_log;
            &&& promoted.contains(id) <==> exists|i: int|
                0 <= i < s.tasks.rows.len() && (#[trigger] s.tasks.rows[i]).id == id
                    && s.tasks.rows[i].plan_id == plan_id && s.tasks.rows[i].wave_id == Some(wave_id)
                    && s.tasks.rows[i].status == "submitted"@
            &&& bare.contains(id) <==> exists|i: int|
                0 <= i < s.tasks.rows.len() && (#[trigger] s.tasks.rows[i]).id == id
                    && s.tasks.rows[i].plan_id == plan_id && s.tasks.rows[i].wave_id == Some(wave_id)
                    && s.tasks.rows[i].status == "submitted"@ && forall|e: int|
                    0 <= e < s.task_evidence.rows.len() ==> (
                    #[trigger] s.task_evidence.rows[e]).task_id != id
            &&& s.task_status_log.last_id + promoted.len() <= i64::MAX ==> {
                &&& log.rows.len() == s.task_status_log.rows.len() + promoted.len()
                &&& forall|k: int|
                    0 <= k < promoted.len() ==> {
                        let l = #[trigger] log.rows[s.task_status_log.rows.len() + k];
                        l.task_id == promoted[k] && l.old_status == "submitted"@ && l.new_status
                            == "done"@ && l.agent == "orchestrator"@ && l.notes == Some(
                            "wave promote"@,
                        ) && l.created_at == now
                    }
                &&& forall|k: int|
                    0 <= k < s.task_status_log.rows.len() ==> #[trigger] log.rows[k]
                        == s.task_status_log.rows[k]
            }
        }),
{
    let rows = s.tasks.rows;
    let p = submitted_in(plan_id, wave_id);
    let q = unproven_in(s, plan_id, wave_id);
    crate::table::lemma_kept_keys::<TaskRow>(rows, p, id);
    crate::table::lemma_kept_keys::<TaskRow>(rows, q, id);
    assert forall|i: int| 0 <= i < rows.len() implies (q(#[trigger] rows[i]) <==> p(rows[i]) && forall|
        e: int,
    |
        0 <= e < s.task_evidence.rows.len() ==> (#[trigger] s.task_evidence.rows[e]).task_id
            != rows[i].id) by {
        assert(any(s.task_evidence.rows, evidence_of(rows[i].id)) <==> exists|e: int|
            0 <= e < s.task_evidence.rows.len() && (#[trigger] s.task_evidence.rows[e]).task_id
                == rows[i].id);
    }
    let promoted = keys::<TaskRow>(rows.filter(p));
    if s.task_status_log.last_id + promoted.len() <= i64::MAX {
        crate::audit::law_transitions_are_logged(
            s.task_status_log,
            promoted,
            "submitted"@,
            "done"@,
            "orchestrator"@,
            Some("wave promote"@),
            now,
        );
    }
}

/// The end of a plan, over the rows: the plan is done as of now, and nothing else changes. It is
/// known by its name, and where it is not there by its number.
pub proof fn law_end_of_a_plan(s: StoreView, plan_id: i64, now: i64, i: int)
    requires
        sound(s),
    ensures
        ({
            let n = after_plan_done(s, plan_id, now);
            &&& n == (StoreView { plans: n.plans, ..s })
            &&& n.plans.last_id == s.plans.last_id
            &&& n.plans.rows.len() == s.plans.rows.len()
            &&& 0 <= i < s.plans.rows.len() ==> n.plans.rows[i] == if s.plans.rows[i].id == plan_id {
                PlanRowView {
                    status: "done"@,
                    completed_at: Some(now),
                    updated_at: Some(now),
                    ..s.plans.rows[i]
                }
            } else {
                s.plans.rows[i]
            }
            &&& 0 <= i < s.plans.rows.len() && s.plans.rows[i].id == plan_id ==> plan_title(s, plan_id)
                == s.plans.rows[i].name && parent_of(s, plan_id) == s.plans.rows[i].parent_plan_id
            &&& (forall|k: int|
                0 <= k < s.plans.rows.len() ==> (#[trigger] s.plans.rows[k]).id != plan_id)
                ==> plan_title(s, plan_id) == "Plan #"@ + dec(plan_id as int) && parent_of(s, plan_id)
                is None
        }),
{
    if 0 <= i < s.plans.rows.len() && s.plans.rows[i].id == plan_id {
        crate::table::lemma_first_keyed::<PlanRow>(s.plans, plan_is(plan_id), i);
    }
    crate::table::lemma_first_place(s.plans.rows, plan_is(plan_id));
}

/// The plans that may start once a plan is done, where no look-up fails: exactly those under the
/// master that are to do and whose dependencies are met.
pub proof fn law_unblocked_plans(s: StoreView, master_id: i64, id: i64)
    requires
        unblocked(s, keys::<PlanRow>(s.plans.rows.filter(waiting_under(master_id)))).1 is None,
    ensures
        unblocked(s, keys::<PlanRow>(s.plans.rows.filter(waiting_under(master_id)))).0.contains(id)
            <==> dependency_answer(s, id) == Ok::<bool, StoreError>(true) && exists|i: int|
            0 <= i < s.plans.rows.len() && (#[trigger] s.plans.rows[i]).id == id
                && s.plans.rows[i].parent_plan_id == Some(master_id) && s.plans.rows[i].status
                == "todo"@,
{
    let ids = keys::<PlanRow>(s.plans.rows.filter(waiting_under(master_id)));
    crate::table::lemma_kept_keys::<PlanRow>(s.plans.rows, waiting_under(master_id), id);
    lemma_unblocked(s, ids, id);
}

/// Without a failed look-up, the walk lists the plans whose dependencies are met.
proof fn lemma_unblocked(s: StoreView, ids: Seq<i64>, id: i64)
    requires
        unblocked(s, ids).1 is None,
    ensures
        unblocked(s, ids).0.contains(id) <==> ids.contains(id) && dependency_answer(s, id) == Ok::<
            bool,
            StoreError,
        >(true),
    decreases ids.len(),
{
    if ids.len() > 0 {
        let short = ids.drop_last();
        lemma_unblocked(s, short, id);
        let a = unblocked(s, short).0;
        let b = unblocked(s, ids).0;
        assert(ids =~= short.push(ids.last()));
        if ids.contains(id) {
            let k = choose|k: int| 0 <= k < ids.len() && ids[k] == id;
            if k < short.len() {
                assert(short[k] == id);
            }
        }
        if short.contains(id) {
            let k = choose|k: int| 0 <= k < short.len() && short[k] == id;
            assert(ids[k] == id);
        }
        if a.contains(id) {
            let k = choose|k: int| 0 <= k < a.len() && a[k] == id;
            assert(b[k] == id);
        }
        if b.contains(id) {
            let k = choose|k: int| 0 <= k < b.len() && b[k] == id;
            if k < a.len() {
                assert(a[k] == id);
            }
        }
        if dependency_answer(s, ids.last()) == Ok::<bool, StoreError>(true) {
            assert(b[b.len() - 1] == ids.last());
        }
        assert(ids[ids.len() - 1] == ids.last());
    }
}

/// A task's end validates its wave at once exactly where each task of the plan in the wave is
/// done, submitted, cancelled or skipped.
pub proof fn law_settled_wave(s: StoreView, i: int)
    requires
        sound(s),
        0 <= i < s.tasks.rows.len(),
    ensures
        ({
            let t = s.tasks.rows[i];
            settled_wave_of(s, t.id) == if t.wave_id is Some && forall|j: int|
                0 <= j < s.tasks.rows.len() && (#[trigger] s.tasks.rows[j]).plan_id == t.plan_id
                    && s.tasks.rows[j].wave_id == t.wave_id ==> s.tasks.rows[j].status == "done"@
                    || s.tasks.rows[j].status == "submitted"@ || s.tasks.rows[j].status
                    == "cancelled"@ || s.tasks.rows[j].status == "skipped"@ {
                Some((t.wave_id->0, t.plan_id))
            } else {
                None
            }
        }),
{
    let t = s.tasks.rows[i];
    let rows = s.tasks.rows;
    crate::table::lemma_first_keyed::<TaskRow>(s.tasks, task_is(t.id), i);
    if let Some(x) = t.wave_id {
        assert forall|j: int| 0 <= j < rows.len() implies (unsettled_in(t.plan_id, x)(
            #[trigger] rows[j],
        ) <==> rows[j].plan_id == t.plan_id && rows[j].wave_id == Some(x) && !(rows[j].status
            == "done"@ || rows[j].status == "submitted"@ || rows[j].status == "cancelled"@
            || rows[j].status == "skipped"@)) by {}
    }
}

/// The names under which events go out.
pub proof fn law_event_names(wave_id: i64, plan_id: i64)
    ensures
        (Event::PlanBlocked { plan_id }).name() == "plan_blocked"@,
        (Event::PlanReady { plan_id }).name() == "plan_ready"@,
        (Event::WaveDone { wave_id, plan_id }).name() == "wave_done"@,
        (Event::WaveNeedsValidation { wave_id, plan_id }).name() == "wave_needs_validation"@,
        (Event::WaveReady { wave_id, plan_id }).name() == "wave_ready"@,
        (Event::PlanDone { plan_id }).name() == "plan_done"@,
{
}

} // verus!
