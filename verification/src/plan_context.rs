//! What agents and people want to know of a plan in the course of its execution.

use crate::evidence::evidence_of;
use crate::gates::{find_plan, find_wave, has_any_evidence, in_plan, plan_is, wave_is};
use crate::handlers::task_in_plan;
use crate::rows::{PlanMetaRow, PlanMetaRowView, PlanRow, PlanRowView, TaskRow, TaskRowView};
use crate::store::{Store, StoreView};
use crate::table::{any, count, count_where, find_where, first, Duplicate};
use crate::text::{copy_opt, opt_text, same};
use vstd::prelude::*;

verus! {

/// The tasks of a plan in a status.
pub open spec fn in_plan_with(plan_id: i64, status: Seq<char>) -> spec_fn(TaskRowView) -> bool {
    |t: TaskRowView| t.plan_id == plan_id && t.status == status
}

/// How many tasks a plan has.
pub fn count_tasks(db: &Store, plan_id: i64) -> (n: usize)
    ensures
        n == count(db@.tasks.rows, in_plan(plan_id)),
{
    count_where(
        &db.tasks.rows,
        |t: &TaskRow| -> (b: bool) ensures b == in_plan(plan_id)(t@) { t.plan_id == plan_id },
        Ghost(in_plan(plan_id)),
    )
}

/// How many tasks of a plan are in a status.
pub fn count_tasks_with(db: &Store, plan_id: i64, status: &str) -> (n: usize)
    ensures
        n == count(db@.tasks.rows, in_plan_with(plan_id, status@)),
{
    count_where(
        &db.tasks.rows,
        |t: &TaskRow| -> (b: bool) ensures b == in_plan_with(plan_id, status@)(t@) {
            t.plan_id == plan_id && same(t.status.as_str(), status)
        },
        Ghost(in_plan_with(plan_id, status@)),
    )
}

/// What is written down about a plan.
pub open spec fn notes_of(plan_id: i64) -> spec_fn(PlanMetaRowView) -> bool {
    |m: PlanMetaRowView| m.plan_id == plan_id
}

/// The place of what is written down about a plan.
pub fn find_meta(db: &Store, plan_id: i64) -> (r: Option<usize>)
    ensures
        r matches Some(k) ==> k < db.plan_metadata@.len() && first(
            db@.plan_metadata,
            notes_of(plan_id),
        ) == Some(db.plan_metadata@[k as int]@),
        r is None ==> first(db@.plan_metadata, notes_of(plan_id)) is None,
{
    find_where(
        &db.plan_metadata,
        |m: &PlanMetaRow| -> (b: bool) ensures b == notes_of(plan_id)(m@) { m.plan_id == plan_id },
        Ghost(notes_of(plan_id)),
    )
}

/// A plan with what is written down about it, and how far it is.
pub struct PlanContext {
    pub plan: Option<PlanRow>,
    pub metadata: Option<PlanMetaRow>,
    pub tasks_total: usize,
    pub tasks_done: usize,
}

/// A plan, if there is one, by what it holds.
pub open spec fn opt_plan(o: Option<PlanRow>) -> Option<PlanRowView> {
    match o {
        Some(p) => Some(p@),
        None => None,
    }
}

/// What is written down about a plan, if anything is, by what it holds.
pub open spec fn opt_meta(o: Option<PlanMetaRow>) -> Option<PlanMetaRowView> {
    match o {
        Some(m) => Some(m@),
        None => None,
    }
}

/// The context of a plan for the agents that carry it out.
pub fn plan_context(db: &Store, plan_id: i64) -> (r: PlanContext)
    ensures
        opt_plan(r.plan) == first(db@.plans.rows, plan_is(plan_id)),
        opt_meta(r.metadata) == first(db@.plan_metadata, notes_of(plan_id)),
        r.tasks_total == count(db@.tasks.rows, in_plan(plan_id)),
        r.tasks_done == count(db@.tasks.rows, in_plan_with(plan_id, "done"@)),
{
    PlanContext {
        plan: match find_plan(db, plan_id) {
            Some(k) => Some(db.plans.rows[k].duplicate()),
            None => None,
        },
        metadata: match find_meta(db, plan_id) {
            Some(k) => Some(db.plan_metadata[k].duplicate()),
            None => None,
        },
        tasks_total: count_tasks(db, plan_id),
        tasks_done: count_tasks_with(db, plan_id, "done"),
    }
}

// ---- the next task ----

/// The pending tasks of a plan that stand in a wave.
pub open spec fn next_candidate(s: StoreView, plan_id: i64) -> spec_fn(TaskRowView) -> bool {
    |t: TaskRowView|
        t.plan_id == plan_id && t.status == "pending"@ && (match t.wave_id {
            Some(w) => any(s.waves.rows, wave_is(w)),
            None => false,
        })
}

/// Whether one task comes no later than another: in an earlier wave, or in the same one with
/// no larger id.
pub open spec fn no_later(a: TaskRowView, b: TaskRowView) -> bool {
    a.wave_id->0 < b.wave_id->0 || (a.wave_id->0 == b.wave_id->0 && a.id <= b.id)
}

/// The next task of a plan, with the name of its wave.
pub struct NextTask {
    pub task: TaskRow,
    pub wave: String,
}

/// The next pending task of a plan: in the first wave that has any, the one with the smallest
/// id.
pub fn next_task(db: &Store, plan_id: i64) -> (r: Option<NextTask>)
    ensures
        r is Some <==> any(db@.tasks.rows, next_candidate(db@, plan_id)),
        r matches Some(n) ==> {
            &&& db@.tasks.rows.contains(n.task@)
            &&& next_candidate(db@, plan_id)(n.task@)
            &&& forall|i: int|
                0 <= i < db@.tasks.rows.len() && next_candidate(db@, plan_id)(
                    #[trigger] db@.tasks.rows[i],
                ) ==> no_later(n.task@, db@.tasks.rows[i])
            &&& first(db@.waves.rows, wave_is(n.task@.wave_id->0)) matches Some(w) && w.wave_id
                == n.wave@
        },
{
    let ghost rows = db@.tasks.rows;
    let ghost p = next_candidate(db@, plan_id);
    let mut best: Option<(usize, usize)> = None;
    let mut i: usize = 0;
    while i < db.tasks.rows.len()
        invariant
            i <= db.tasks.rows@.len(),
            rows == db@.tasks.rows,
            p == next_candidate(db@, plan_id),
            best is None ==> forall|k: int| 0 <= k < i ==> !p(#[trigger] rows[k]),
            best matches Some((b, w)) ==> {
                &&& b < i
                &&& p(rows[b as int])
                &&& forall|k: int|
                    0 <= k < i && p(#[trigger] rows[k]) ==> no_later(rows[b as int], rows[k])
                &&& w < db.waves.rows@.len()
                &&& first(db@.waves.rows, wave_is(rows[b as int].wave_id->0)) == Some(
                    db.waves.rows@[w as int]@,
                )
            },
        decreases db.tasks.rows@.len() - i,
    {
        let t = &db.tasks.rows[i];
        assert(rows[i as int] == t@);
        if t.plan_id == plan_id && same(t.status.as_str(), "pending") {
            if let Some(wave_id) = t.wave_id {
                if let Some(w) = find_wave(db, wave_id) {
                    assert(p(rows[i as int]));
                    let better = match best {
                        None => true,
                        Some((b, _w)) => {
                            let o = &db.tasks.rows[b];
                            assert(rows[b as int] == o@);
                            match o.wave_id {
                                Some(ow) => wave_id < ow || (wave_id == ow && t.id < o.id),
                                None => true,
                            }
                        },
                    };
                    if better {
                        best = Some((i, w));
                    }
                }
            }
        }
        i += 1;
    }
    match best {
        Some((b, w)) => {
            assert(rows[b as int] == db.tasks.rows@[b as int]@);
            Some(
                NextTask {
                    task: db.tasks.rows[b].duplicate(),
                    wave: db.waves.rows[w].wave_id.clone(),
                },
            )
        },
        None => None,
    }
}

// ---- drift ----

/// How far a plan has come since it was made.
pub struct Drift {
    pub created_at: Option<String>,
    pub pending_tasks: usize,
    pub total_tasks: usize,
    pub completion_pct: u64,
}

/// The share of tasks that are no longer pending, in whole percent.
pub open spec fn completion(total: nat, pending: nat) -> int {
    if total > 0 {
        ((total - pending) * 100) / total as int
    } else {
        0
    }
}

/// A plan has no more tasks in a status than it has tasks.
proof fn lemma_fewer(rows: Seq<TaskRowView>, plan_id: i64, status: Seq<char>)
    ensures
        count(rows, in_plan_with(plan_id, status)) <= count(rows, in_plan(plan_id)),
    decreases rows.len(),
{
    reveal(Seq::filter);
    if rows.len() > 0 {
        lemma_fewer(rows.drop_last(), plan_id, status);
    }
}

/// How far a plan has come since it was made.
pub fn drift_check(db: &Store, plan_id: i64) -> (r: Drift)
    ensures
        opt_text(r.created_at) == (match first(db@.plans.rows, plan_is(plan_id)) {
            Some(p) => Some(p.created_at),
            None => None,
        }),
        r.pending_tasks == count(db@.tasks.rows, in_plan_with(plan_id, "pending"@)),
        r.total_tasks == count(db@.tasks.rows, in_plan(plan_id)),
        r.completion_pct == completion(r.total_tasks as nat, r.pending_tasks as nat),
        0 <= r.completion_pct <= 100,
{
    let created_at = match find_plan(db, plan_id) {
        Some(k) => Some(db.plans.rows[k].created_at.clone()),
        None => None,
    };
    let pending_tasks: usize = count_tasks_with(db, plan_id, "pending");
    let total_tasks: usize = count_tasks(db, plan_id);
    proof {
        lemma_fewer(db@.tasks.rows, plan_id, "pending"@);
    }
    let completion_pct: u64 = if total_tasks > 0 {
        let gone: u128 = (total_tasks - pending_tasks) as u128;
        let share: u128 = (gone * 100) / (total_tasks as u128);
        assert(share <= 100) by (nonlinear_arith)
            requires
                share == (gone * 100) / (total_tasks as u128) as int,
                gone <= total_tasks,
                total_tasks > 0,
        ;
        share as u64
    } else {
        0
    };
    Drift { created_at, pending_tasks, total_tasks, completion_pct }
}

// ---- one task ----

/// Whether a task may be validated.
pub struct TaskValidity {
    pub status: String,
    pub has_evidence: bool,
    pub metadata: Option<String>,
    pub valid: bool,
}

/// Looks at one task of a plan: it may be validated where it is submitted and has evidence.
pub fn validate_task(db: &Store, task_id: i64, plan_id: i64) -> (r: Option<TaskValidity>)
    ensures
        match first(db@.tasks.rows, task_in_plan(task_id, plan_id)) {
            Some(t) => {
                &&& r is Some
                &&& r->0.status@ == t.status
                &&& r->0.has_evidence == any(db@.task_evidence.rows, evidence_of(task_id))
                &&& opt_text(r->0.metadata) == t.metadata
                &&& r->0.valid == (t.status == "submitted"@ && r->0.has_evidence)
            },
            None => r is None,
        },
{
    let found = find_where(
        &db.tasks.rows,
        |t: &TaskRow| -> (b: bool) ensures b == task_in_plan(task_id, plan_id)(t@) {
            t.id == task_id && t.plan_id == plan_id
        },
        Ghost(task_in_plan(task_id, plan_id)),
    );
    match found {
        Some(k) => {
            let t = &db.tasks.rows[k];
            let has_evidence = has_any_evidence(db, task_id);
            Some(
                TaskValidity {
                    status: t.status.clone(),
                    has_evidence,
                    metadata: copy_opt(&t.metadata),
                    valid: same(t.status.as_str(), "submitted") && has_evidence,
                },
            )
        },
        None => None,
    }
}

/// One task more is counted for its plan, and among those of its status, and for no other.
pub proof fn law_counts_over_rows(
    rows: Seq<TaskRowView>,
    t: TaskRowView,
    plan_id: i64,
    status: Seq<char>,
)
    ensures
        count(rows.push(t), in_plan(plan_id)) == count(rows, in_plan(plan_id)) + if t.plan_id
            == plan_id {
            1int
        } else {
            0int
        },
        count(rows.push(t), in_plan_with(plan_id, status)) == count(
            rows,
            in_plan_with(plan_id, status),
        ) + if t.plan_id == plan_id && t.status == status {
            1int
        } else {
            0int
        },
{
    reveal(Seq::filter);
    assert(rows.push(t).drop_last() =~= rows);
}

/// A task comes next in a plan where it is of the plan, pending and in a wave that is there; of two
/// such tasks the one in the wave with the smaller key is first, then the one with the smaller key.
pub proof fn law_next_over_rows(s: StoreView, plan_id: i64, a: TaskRowView, b: TaskRowView)
    ensures
        next_candidate(s, plan_id)(a) <==> a.plan_id == plan_id && a.status == "pending"@
            && exists|k: int|
            0 <= k < s.waves.rows.len() && a.wave_id == Some((#[trigger] s.waves.rows[k]).id),
        a.wave_id is Some && b.wave_id is Some && a.id != b.id ==> (no_later(a, b)
            <==> a.wave_id->0 < b.wave_id->0 || a.wave_id->0 == b.wave_id->0 && a.id < b.id),
{
    if let Some(w) = a.wave_id {
        assert(any(s.waves.rows, wave_is(w)) <==> exists|k: int|
            0 <= k < s.waves.rows.len() && a.wave_id == Some((#[trigger] s.waves.rows[k]).id));
    }
}

/// The share of tasks that are no longer pending is the largest whole number of percent that does
/// not exceed it; a plan without tasks has come nowhere.
pub proof fn law_completion(total: nat, pending: nat)
    requires
        pending <= total,
    ensures
        total == 0 ==> completion(total, pending) == 0,
        total > 0 ==> completion(total, pending) * total <= (total - pending) * 100 < (completion(
            total,
            pending,
        ) + 1) * total,
{
    if total > 0 {
        let n = (total - pending) * 100;
        let d = total as int;
        vstd::arithmetic::div_mod::lemma_fundamental_div_mod(n, d);
        vstd::arithmetic::div_mod::lemma_mod_bound(n, d);
        assert((n / d + 1) * d == (n / d) * d + d) by (nonlinear_arith);
        assert(d * (n / d) == (n / d) * d) by (nonlinear_arith);
    }
}

/// What is written down about a plan is what stands first under its number.
pub proof fn law_notes_of_a_plan(s: StoreView, plan_id: i64)
    ensures
        match first(s.plan_metadata, notes_of(plan_id)) {
            Some(m) => m.plan_id == plan_id && exists|k: int|
                0 <= k < s.plan_metadata.len() && #[trigger] s.plan_metadata[k] == m && forall|
                    j: int,
                |
                    0 <= j < k ==> (#[trigger] s.plan_metadata[j]).plan_id != plan_id,
            None => forall|k: int|
                0 <= k < s.plan_metadata.len() ==> (#[trigger] s.plan_metadata[k]).plan_id
                    != plan_id,
        },
{
    let rows = s.plan_metadata;
    let p = notes_of(plan_id);
    crate::table::lemma_first_place(rows, p);
    if let Some(m) = first(rows, p) {
        let k = choose|k: int|
            0 <= k < rows.len() && #[trigger] rows[k] == m && p(m) && forall|j: int|
                0 <= j < k ==> !p(#[trigger] rows[j]);
        assert forall|j: int| 0 <= j < k implies (#[trigger] rows[j]).plan_id != plan_id by {
            assert(!p(rows[j]));
        }
    }
}

} // verus!
