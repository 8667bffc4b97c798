//! Force operations: ways out for plans that are stuck.

use crate::gates::{find_plan, plan_is};
use crate::handlers::plan_done_at;
use crate::preflight::{closed, is_closed};
use crate::rows::{PlanRow, PlanRowView, TaskRow, TaskRowView, WaveRow, WaveRowView};
use crate::store::{sound, Store, StoreView};
use crate::table::{
    any, count, first, lemma_first_any, lemma_first_updated, lemma_updated_keyed, smallest,
    smallest_where, update_where, updated, Duplicate, Row, TableView,
};
use crate::text::{cat3, dec, dec_i64, opt_str, same};
use vstd::prelude::*;

verus! {

/// A task in progress without a sign of life for this many seconds is reset.
pub const SILENT_SECS: i128 = 600;

/// Why a plan was not forced.
pub enum ForceError {
    /// There is no such plan.
    NotFound { plan_id: i64 },
    /// The plan cannot be forced to this status.
    InvalidTarget { target: String },
}

impl ForceError {
    /// The error in words.
    pub open spec fn text(self) -> Seq<char> {
        match self {
            ForceError::NotFound { plan_id } => "plan "@ + dec(plan_id as int) + " not found"@,
            ForceError::InvalidTarget { target } => "invalid target_status '"@ + target@ + "'"@,
        }
    }

    /// The error in words.
    pub fn message(&self) -> (r: String)
        ensures
            r@ == self.text(),
    {
        match self {
            ForceError::NotFound { plan_id } => cat3(
                "plan ",
                dec_i64(*plan_id).as_str(),
                " not found",
            ),
            ForceError::InvalidTarget { target } => cat3(
                "invalid target_status '",
                target.as_str(),
                "'",
            ),
        }
    }
}

/// What a forced resume did.
pub struct Resumed {
    pub status: String,
    pub locks_cleared: usize,
    pub tasks_reset: usize,
}

/// The status that a plan is forced to: in progress, where none is named.
pub open spec fn resume_target(target: Option<Seq<char>>) -> Seq<char> {
    match target {
        Some(t) => t,
        None => "in_progress"@,
    }
}

/// The statuses that a plan can be forced to.
pub open spec fn can_resume_to(status: Seq<char>) -> bool {
    status == "in_progress"@ || status == "approved"@ || status == "todo"@
}

/// A plan that is forced to a status.
pub open spec fn forced(status: Seq<char>, now: i64) -> spec_fn(PlanRowView) -> PlanRowView {
    |p: PlanRowView| PlanRowView { status, updated_at: Some(now), ..p }
}

/// The tasks of a plan that somebody holds.
pub open spec fn held_in(plan_id: i64) -> spec_fn(TaskRowView) -> bool {
    |t: TaskRowView|
        t.plan_id == plan_id && (match t.locked_by {
            Some(holder) => holder.len() > 0,
            None => false,
        })
}

/// A task that nobody holds.
pub open spec fn unlocked() -> spec_fn(TaskRowView) -> TaskRowView {
    |t: TaskRowView| TaskRowView { locked_by: Some(Seq::empty()), ..t }
}

/// The tasks of a plan that are in progress without a sign of life.
pub open spec fn silent_in(plan_id: i64, now: i64) -> spec_fn(TaskRowView) -> bool {
    |t: TaskRowView|
        t.plan_id == plan_id && t.status == "in_progress"@ && (match t.last_heartbeat {
            Some(h) => h < now - SILENT_SECS,
            None => true,
        })
}

/// A task that waits again, and that nobody holds.
pub open spec fn reset() -> spec_fn(TaskRowView) -> TaskRowView {
    |t: TaskRowView| TaskRowView { status: "pending"@, locked_by: Some(Seq::empty()), ..t }
}

/// The pending waves of a plan.
pub open spec fn pending_wave(plan_id: i64) -> spec_fn(WaveRowView) -> bool {
    |w: WaveRowView| w.plan_id == plan_id && w.status == "pending"@
}

/// The first pending wave of a plan.
pub open spec fn first_pending(plan_id: i64, id: Option<i64>) -> spec_fn(WaveRowView) -> bool {
    |w: WaveRowView| pending_wave(plan_id)(w) && Some(w.id) == id
}

/// A wave in progress.
pub open spec fn started() -> spec_fn(WaveRowView) -> WaveRowView {
    |w: WaveRowView| WaveRowView { status: "in_progress"@, ..w }
}

/// The store after a plan has been forced to resume: it has the status, nobody holds a task of
/// it, its silent tasks wait again, and its first pending wave is in progress.
pub open spec fn after_resume(s: StoreView, plan_id: i64, status: Seq<char>, now: i64) -> StoreView {
    let free = updated(s.tasks.rows, held_in(plan_id), unlocked());
    let next = smallest::<WaveRow>(s.waves.rows.filter(pending_wave(plan_id)));
    StoreView {
        plans: TableView {
            rows: updated(s.plans.rows, plan_is(plan_id), forced(status, now)),
            last_id: s.plans.last_id,
        },
        tasks: TableView {
            rows: updated(free, silent_in(plan_id, now), reset()),
            last_id: s.tasks.last_id,
        },
        waves: TableView {
            rows: updated(s.waves.rows, first_pending(plan_id, next), started()),
            last_id: s.waves.last_id,
        },
        ..s
    }
}

/// Forces a plan to resume, whatever its status is. All its task locks are cleared, its tasks in
/// progress without a sign of life wait again, and its first pending wave starts.
pub fn force_resume(db: &mut Store, plan_id: i64, target_status: Option<&str>, now: i64) -> (r:
    Result<Resumed, ForceError>)
    ensures
        ({
            let status = resume_target(opt_str(target_status));
            if !any(old(db)@.plans.rows, plan_is(plan_id)) {
                &&& r == Err::<Resumed, ForceError>(ForceError::NotFound { plan_id })
                &&& final(db)@ == old(db)@
            } else if !can_resume_to(status) {
                &&& r matches Err(ForceError::InvalidTarget { target }) && target@ == status
                &&& final(db)@ == old(db)@
            } else {
                &&& r is Ok
                &&& r->Ok_0.status@ == status
                &&& r->Ok_0.locks_cleared == count(old(db)@.tasks.rows, held_in(plan_id))
                &&& r->Ok_0.tasks_reset == count(
                    updated(old(db)@.tasks.rows, held_in(plan_id), unlocked()),
                    silent_in(plan_id, now),
                )
                &&& final(db)@ == after_resume(old(db)@, plan_id, status, now)
            }
        }),
        sound(old(db)@) ==> sound(final(db)@),
{
    if find_plan(db, plan_id).is_none() {
        return Err(ForceError::NotFound { plan_id });
    }
    let status = match target_status {
        Some(t) => t.to_owned(),
        None => "in_progress".to_owned(),
    };
    if !same(status.as_str(), "in_progress") && !same(status.as_str(), "approved") && !same(
        status.as_str(),
        "todo",
    ) {
        return Err(ForceError::InvalidTarget { target: status });
    }
    let ghost s = db@;
    let limit: i128 = now as i128 - SILENT_SECS;
    let empty = String::new();
    let next = smallest_where(
        &db.waves.rows,
        |w: &WaveRow| -> (b: bool) ensures b == pending_wave(plan_id)(w@) {
            w.plan_id == plan_id && same(w.status.as_str(), "pending")
        },
        Ghost(pending_wave(plan_id)),
    );
    proof {
        if sound(s) {
            lemma_updated_keyed::<PlanRow>(s.plans, plan_is(plan_id), forced(status@, now));
            lemma_updated_keyed::<TaskRow>(s.tasks, held_in(plan_id), unlocked());
            lemma_updated_keyed::<TaskRow>(
                TableView {
                    rows: updated(s.tasks.rows, held_in(plan_id), unlocked()),
                    last_id: s.tasks.last_id,
                },
                silent_in(plan_id, now),
                reset(),
            );
            lemma_updated_keyed::<WaveRow>(s.waves, first_pending(plan_id, next), started());
        }
    }
    update_where(
        &mut db.plans.rows,
        |p: &PlanRow| -> (b: bool) ensures b == plan_is(plan_id)(p@) { p.id == plan_id },
        |p: &PlanRow| -> (q: PlanRow) ensures q@ == forced(status@, now)(p@) {
            PlanRow { status: status.clone(), updated_at: Some(now), ..p.duplicate() }
        },
        Ghost(plan_is(plan_id)),
        Ghost(forced(status@, now)),
    );
    let locks_cleared: usize = update_where(
        &mut db.tasks.rows,
        |t: &TaskRow| -> (b: bool) ensures b == held_in(plan_id)(t@) {
            t.plan_id == plan_id && (match &t.locked_by {
                Some(h) => !h.as_str().is_empty(),
                None => false,
            })
        },
        |t: &TaskRow| -> (m: TaskRow) ensures m@ == unlocked()(t@) {
            TaskRow { locked_by: Some(String::new()), ..t.duplicate() }
        },
        Ghost(held_in(plan_id)),
        Ghost(unlocked()),
    );
    let tasks_reset: usize = update_where(
        &mut db.tasks.rows,
        |t: &TaskRow| -> (b: bool) ensures b == silent_in(plan_id, now)(t@) {
            t.plan_id == plan_id && same(t.status.as_str(), "in_progress") && (
            match t.last_heartbeat {
                Some(h) => (h as i128) < limit,
                None => true,
            })
        },
        |t: &TaskRow| -> (m: TaskRow) ensures m@ == reset()(t@) {
            TaskRow {
                status: "pending".to_owned(),
                locked_by: Some(String::new()),
                ..t.duplicate()
            }
        },
        Ghost(silent_in(plan_id, now)),
        Ghost(reset()),
    );
    update_where(
        &mut db.waves.rows,
        |w: &WaveRow| -> (b: bool) ensures b == first_pending(plan_id, next)(w@) {
            w.plan_id == plan_id && same(w.status.as_str(), "pending") && (match next {
                Some(n) => w.id == n,
                None => false,
            })
        },
        |w: &WaveRow| -> (v: WaveRow) ensures v@ == started()(w@) {
            WaveRow { status: "in_progress".to_owned(), ..w.duplicate() }
        },
        Ghost(first_pending(plan_id, next)),
        Ghost(started()),
    );
    Ok(Resumed { status, locks_cleared, tasks_reset })
}

/// The tasks of a plan that are not closed.
pub open spec fn open_in_plan(plan_id: i64) -> spec_fn(TaskRowView) -> bool {
    |t: TaskRowView| t.plan_id == plan_id && !closed(t.status)
}

/// A task that is done at a given time, and that nobody holds.
pub open spec fn forced_done(now: i64) -> spec_fn(TaskRowView) -> TaskRowView {
    |t: TaskRowView|
        TaskRowView {
            status: "done"@,
            completed_at: Some(now),
            locked_by: Some(Seq::empty()),
            ..t
        }
}

/// The waves of a plan that are not done.
pub open spec fn undone_wave(plan_id: i64) -> spec_fn(WaveRowView) -> bool {
    |w: WaveRowView| w.plan_id == plan_id && w.status != "done"@
}

/// The store after a plan has been forced to its end.
pub open spec fn after_force_complete(s: StoreView, plan_id: i64, now: i64) -> StoreView {
    StoreView {
        plans: TableView {
            rows: updated(s.plans.rows, plan_is(plan_id), plan_done_at(now)),
            last_id: s.plans.last_id,
        },
        tasks: TableView {
            rows: updated(s.tasks.rows, open_in_plan(plan_id), forced_done(now)),
            last_id: s.tasks.last_id,
        },
        waves: TableView {
            rows: updated(
                s.waves.rows,
                undone_wave(plan_id),
                crate::handlers::wave_done_at(now),
            ),
            last_id: s.waves.last_id,
        },
        ..s
    }
}

/// What a forced end did.
pub struct ForceCompleted {
    pub tasks_completed: usize,
    pub waves_completed: usize,
}

/// Forces a plan to its end: all its open tasks, all its waves and the plan itself are done.
pub fn force_complete(db: &mut Store, plan_id: i64, now: i64) -> (r: Result<
    ForceCompleted,
    ForceError,
>)
    ensures
        !any(old(db)@.plans.rows, plan_is(plan_id)) ==> r == Err::<ForceCompleted, ForceError>(
            ForceError::NotFound { plan_id },
        ) && final(db)@ == old(db)@,
        any(old(db)@.plans.rows, plan_is(plan_id)) ==> {
            &&& r is Ok
            &&& r->Ok_0.tasks_completed == count(old(db)@.tasks.rows, open_in_plan(plan_id))
            &&& r->Ok_0.waves_completed == count(old(db)@.waves.rows, undone_wave(plan_id))
            &&& final(db)@ == after_force_complete(old(db)@, plan_id, now)
        },
        sound(old(db)@) ==> sound(final(db)@),
{
    if find_plan(db, plan_id).is_none() {
        return Err(ForceError::NotFound { plan_id });
    }
    proof {
        if sound(db@) {
            lemma_updated_keyed::<PlanRow>(db@.plans, plan_is(plan_id), plan_done_at(now));
            lemma_updated_keyed::<TaskRow>(db@.tasks, open_in_plan(plan_id), forced_done(now));
            lemma_updated_keyed::<WaveRow>(
                db@.waves,
                undone_wave(plan_id),
                crate::handlers::wave_done_at(now),
            );
        }
    }
    let tasks_completed: usize = update_where(
        &mut db.tasks.rows,
        |t: &TaskRow| -> (b: bool) ensures b == open_in_plan(plan_id)(t@) {
            t.plan_id == plan_id && !is_closed(t.status.as_str())
        },
        |t: &TaskRow| -> (m: TaskRow) ensures m@ == forced_done(now)(t@) {
            TaskRow {
                status: "done".to_owned(),
                completed_at: Some(now),
                locked_by: Some(String::new()),
                ..t.duplicate()
            }
        },
        Ghost(open_in_plan(plan_id)),
        Ghost(forced_done(now)),
    );
    let waves_completed: usize = update_where(
        &mut db.waves.rows,
        |w: &WaveRow| -> (b: bool) ensures b == undone_wave(plan_id)(w@) {
            w.plan_id == plan_id && !same(w.status.as_str(), "done")
        },
        |w: &WaveRow| -> (v: WaveRow) ensures v@ == crate::handlers::wave_done_at(now)(w@) {
            WaveRow { status: "done".to_owned(), completed_at: Some(now), ..w.duplicate() }
        },
        Ghost(undone_wave(plan_id)),
        Ghost(crate::handlers::wave_done_at(now)),
    );
    update_where(
        &mut db.plans.rows,
        |p: &PlanRow| -> (b: bool) ensures b == plan_is(plan_id)(p@) { p.id == plan_id },
        |p: &PlanRow| -> (q: PlanRow) ensures q@ == plan_done_at(now)(p@) {
            PlanRow {
                status: "done".to_owned(),
                completed_at: Some(now),
                updated_at: Some(now),
                ..p.duplicate()
            }
        },
        Ghost(plan_is(plan_id)),
        Ghost(plan_done_at(now)),
    );
    Ok(ForceCompleted { tasks_completed, waves_completed })
}

/// After a plan has been forced to its end, every task of it is closed, every wave of it is done
/// and so is the plan. Tasks of other plans, and tasks that were closed, are as they were.
pub proof fn law_forced_plan_is_complete(s: StoreView, plan_id: i64, now: i64)
    requires
        any(s.plans.rows, plan_is(plan_id)),
    ensures
        ({
            let n = after_force_complete(s, plan_id, now);
            &&& !any(n.tasks.rows, open_in_plan(plan_id))
            &&& !any(n.waves.rows, undone_wave(plan_id))
            &&& first(n.plans.rows, plan_is(plan_id)) matches Some(p) && p.status == "done"@
            &&& forall|i: int|
                0 <= i < s.tasks.rows.len() && !open_in_plan(plan_id)(#[trigger] s.tasks.rows[i])
                    ==> n.tasks.rows[i] == s.tasks.rows[i]
        }),
{
    let n = after_force_complete(s, plan_id, now);
    assert forall|i: int| 0 <= i < n.tasks.rows.len() implies !open_in_plan(plan_id)(
        #[trigger] n.tasks.rows[i],
    ) by {
        let o = s.tasks.rows[i];
        if open_in_plan(plan_id)(o) {
            assert(n.tasks.rows[i] == forced_done(now)(o));
        } else {
            assert(n.tasks.rows[i] == o);
        }
    }
    assert forall|i: int| 0 <= i < n.waves.rows.len() implies !undone_wave(plan_id)(
        #[trigger] n.waves.rows[i],
    ) by {
        let o = s.waves.rows[i];
        if !undone_wave(plan_id)(o) {
            assert(n.waves.rows[i] == o);
        }
    }
    lemma_first_any(s.plans.rows, plan_is(plan_id));
    lemma_first_updated(s.plans.rows, plan_is(plan_id), plan_done_at(now));
}

/// After a plan has been forced to resume, nobody holds a task of it, and none of its tasks is
/// in progress without a sign of life.
pub proof fn law_resumed_plan_is_free(s: StoreView, plan_id: i64, status: Seq<char>, now: i64)
    ensures
        !any(after_resume(s, plan_id, status, now).tasks.rows, held_in(plan_id)),
        !any(after_resume(s, plan_id, status, now).tasks.rows, silent_in(plan_id, now)),
{
    reveal_strlit("pending");
    reveal_strlit("in_progress");
    assert("pending"@.len() == 7 && "in_progress"@.len() == 11);
    let free = updated(s.tasks.rows, held_in(plan_id), unlocked());
    let n = updated(free, silent_in(plan_id, now), reset());
    assert forall|i: int| 0 <= i < n.len() implies !held_in(plan_id)(#[trigger] n[i])
        && !silent_in(plan_id, now)(n[i]) by {
        let o = s.tasks.rows[i];
        if held_in(plan_id)(o) {
            assert(free[i] == unlocked()(o));
        } else {
            assert(free[i] == o);
        }
        if silent_in(plan_id, now)(free[i]) {
            assert(n[i] == reset()(free[i]));
        } else {
            assert(n[i] == free[i]);
        }
    }
}

/// A task in progress that has given a sign of life is not reset within the next ten minutes.
pub proof fn law_sign_of_life_counts(
    s: StoreView,
    task_id: i64,
    plan_id: i64,
    now: i64,
    later: i64,
    i: int,
)
    requires
        0 <= i < s.tasks.rows.len(),
        s.tasks.rows[i].id == task_id,
        s.tasks.rows[i].status == "in_progress"@,
        later <= now + SILENT_SECS,
    ensures
        !silent_in(plan_id, later)(
            updated(
                s.tasks.rows,
                crate::evidence_intake::beating(task_id),
                crate::evidence_intake::seen_at(now),
            )[i],
        ),
{
}

/// A forced resumption, over the rows. The plan has the status. A task of the plan that is in
/// progress and was not seen for over ten minutes, or never, is pending again; nobody holds a task
/// of it. The first of its pending waves is in progress. Nothing else changes.
pub proof fn law_resume_over_rows(
    s: StoreView,
    plan_id: i64,
    status: Seq<char>,
    now: i64,
    p: int,
    i: int,
    k: int,
)
    requires
        sound(s),
        0 <= p < s.plans.rows.len(),
        0 <= i < s.tasks.rows.len(),
        0 <= k < s.waves.rows.len(),
    ensures
        ({
            let n = after_resume(s, plan_id, status, now);
            let plan = s.plans.rows[p];
            let t = s.tasks.rows[i];
            let w = s.waves.rows[k];
            &&& n == (StoreView { plans: n.plans, tasks: n.tasks, waves: n.waves, ..s })
            &&& n.plans.last_id == s.plans.last_id && n.tasks.last_id == s.tasks.last_id
                && n.waves.last_id == s.waves.last_id
            &&& n.plans.rows.len() == s.plans.rows.len() && n.tasks.rows.len()
                == s.tasks.rows.len() && n.waves.rows.len() == s.waves.rows.len()
            &&& n.plans.rows[p] == if plan.id == plan_id {
                PlanRowView { status, updated_at: Some(now), ..plan }
            } else {
                plan
            }
            &&& n.tasks.rows[i] == if t.plan_id != plan_id {
                t
            } else if t.status == "in_progress"@ && (t.last_heartbeat is None
                || now - t.last_heartbeat->0 > 600) {
                TaskRowView { status: "pending"@, locked_by: Some(Seq::empty()), ..t }
            } else if t.locked_by is Some {
                TaskRowView { locked_by: Some(Seq::empty()), ..t }
            } else {
                t
            }
            &&& n.waves.rows[k] == if w.plan_id == plan_id && w.status == "pending"@ && forall|
                m: int,
            |
                0 <= m < s.waves.rows.len() && (#[trigger] s.waves.rows[m]).plan_id == plan_id
                    && s.waves.rows[m].status == "pending"@ ==> w.id <= s.waves.rows[m].id {
                WaveRowView { status: "in_progress"@, ..w }
            } else {
                w
            }
        }),
{
    let t = s.tasks.rows[i];
    let w = s.waves.rows[k];
    crate::table::lemma_smallest_of::<WaveRow>(s.waves.rows, pending_wave(plan_id));
    if t.locked_by is Some && t.locked_by->0.len() == 0 {
        assert(t.locked_by->0 =~= Seq::empty());
    }
    if pending_wave(plan_id)(w) {
        let next = smallest::<WaveRow>(s.waves.rows.filter(pending_wave(plan_id)))->0;
        assert(WaveRow::key(s.waves.rows[k]) == w.id);
        let m = choose|m: int|
            0 <= m < s.waves.rows.len() && pending_wave(plan_id)(#[trigger] s.waves.rows[m])
                && WaveRow::key(s.waves.rows[m]) == next;
        assert(s.waves.rows[m].id == next);
        assert forall|m: int|
            0 <= m < s.waves.rows.len() && (#[trigger] s.waves.rows[m]).plan_id == plan_id
                && s.waves.rows[m].status == "pending"@ implies next <= s.waves.rows[m].id by {
            assert(pending_wave(plan_id)(s.waves.rows[m]));
            assert(WaveRow::key(s.waves.rows[m]) == s.waves.rows[m].id);
        }
    }
}

/// A plan can be forced to be in progress, approved or waiting, and to nothing else; where nothing
/// is named, it is in progress.
pub proof fn law_resume_targets(target: Option<Seq<char>>)
    ensures
        can_resume_to(resume_target(target)) <==> target is None || target == Some("in_progress"@)
            || target == Some("approved"@) || target == Some("todo"@),
        target is None ==> resume_target(target) == "in_progress"@,
        target matches Some(t) ==> resume_target(target) == t,
{
}

/// A forced end, over the rows. The plan, its waves and those of its tasks that are not done,
/// skipped or cancelled are done as of now, and nobody holds such a task. Nothing else changes.
pub proof fn law_force_complete_over_rows(
    s: StoreView,
    plan_id: i64,
    now: i64,
    p: int,
    i: int,
    k: int,
)
    requires
        0 <= p < s.plans.rows.len(),
        0 <= i < s.tasks.rows.len(),
        0 <= k < s.waves.rows.len(),
    ensures
        ({
            let n = after_force_complete(s, plan_id, now);
            let plan = s.plans.rows[p];
            let t = s.tasks.rows[i];
            let w = s.waves.rows[k];
            &&& n == (StoreView { plans: n.plans, tasks: n.tasks, waves: n.waves, ..s })
            &&& n.plans.last_id == s.plans.last_id && n.tasks.last_id == s.tasks.last_id
                && n.waves.last_id == s.waves.last_id
            &&& n.plans.rows.len() == s.plans.rows.len() && n.tasks.rows.len()
                == s.tasks.rows.len() && n.waves.rows.len() == s.waves.rows.len()
            &&& plan.id != plan_id ==> n.plans.rows[p] == plan
            &&& plan.id == plan_id ==> n.plans.rows[p].status == "done"@
                && n.plans.rows[p].completed_at == Some(now)
            &&& n.tasks.rows[i] == if t.plan_id == plan_id && t.status != "done"@ && t.status
                != "skipped"@ && t.status != "cancelled"@ {
                TaskRowView {
                    status: "done"@,
                    completed_at: Some(now),
                    locked_by: Some(Seq::empty()),
                    ..t
                }
            } else {
                t
            }
            &&& n.waves.rows[k] == if w.plan_id == plan_id && w.status != "done"@ {
                WaveRowView { status: "done"@, completed_at: Some(now), ..w }
            } else {
                w
            }
        }),
{
}

/// What is said where a plan cannot be forced.
pub proof fn law_why_a_plan_is_not_forced(plan_id: i64, target: String)
    ensures
        (ForceError::NotFound { plan_id }).text() == "plan "@ + dec(plan_id as int)
            + " not found"@,
        (ForceError::InvalidTarget { target }).text() == "invalid target_status '"@ + target@
            + "'"@,
{
}

} // verus!
