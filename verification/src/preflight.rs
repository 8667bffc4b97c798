//! Pre-flight validation: no agent is launched while preconditions are not met.

use crate::evidence::{has_task, task_exists, task_is};
use crate::gates::{find_task, find_wave, wave_is};
use crate::rows::{TaskRow, TaskRowView, WaveRow, WaveRowView};
use crate::store::{sound, Store, StoreView};
use crate::table::{any, any_where, count, count_where, first, views};
use crate::text::{cat2, cat3, dec, dec_i64, dec_usize, same};
use crate::types::{PreflightCheck, PreflightCheckView, PreflightResult};
use vstd::prelude::*;

verus! {

/// Whether the task is there.
pub open spec fn exists_check(s: StoreView, task_id: i64) -> PreflightCheckView {
    PreflightCheckView {
        name: "task_exists"@,
        passed: task_exists(s, task_id),
        detail: if task_exists(s, task_id) {
            "task found"@
        } else {
            "task "@ + dec(task_id as int) + " not found"@
        },
    }
}

/// The status of a task, `unknown` where it is not there.
pub open spec fn task_status(s: StoreView, task_id: i64) -> Seq<char> {
    match first(s.tasks.rows, task_is(task_id)) {
        Some(t) => t.status,
        None => "unknown"@,
    }
}

/// Whether the task is ready to be assigned.
pub open spec fn pending_check(s: StoreView, task_id: i64) -> PreflightCheckView {
    let status = task_status(s, task_id);
    PreflightCheckView {
        name: "task_pending"@,
        passed: status == "pending"@,
        detail: if status == "pending"@ {
            "task is pending"@
        } else {
            "task status is '"@ + status + "', expected 'pending'"@
        },
    }
}

/// The statuses of a task on which nothing is left to do.
pub open spec fn closed(status: Seq<char>) -> bool {
    status == "done"@ || status == "skipped"@ || status == "cancelled"@
}

/// Whether a task with this status has nothing left to do.
pub fn is_closed(status: &str) -> (r: bool)
    ensures
        r == closed(status@),
{
    same(status, "done") || same(status, "skipped") || same(status, "cancelled")
}

/// The wave with the given id, where it comes before another one in a plan.
pub open spec fn earlier_wave(id: i64, plan_id: i64, wave_id: i64) -> spec_fn(WaveRowView) -> bool {
    |w: WaveRowView| w.id == id && w.plan_id == plan_id && w.id < wave_id
}

/// The tasks in the waves before a wave that are not closed.
pub open spec fn open_before(s: StoreView, plan_id: i64, wave_id: i64) -> spec_fn(
    TaskRowView,
) -> bool {
    |t: TaskRowView|
        (match t.wave_id {
            Some(w) => any(s.waves.rows, earlier_wave(w, plan_id, wave_id)),
            None => false,
        }) && !closed(t.status)
}

/// The plan that a wave belongs to, zero where the wave is not there.
pub open spec fn plan_of_wave(s: StoreView, wave_id: i64) -> i64 {
    match first(s.waves.rows, wave_is(wave_id)) {
        Some(w) => w.plan_id,
        None => 0,
    }
}

/// Whether the waves before the task's own are completed.
pub open spec fn deps_check(s: StoreView, task_id: i64) -> PreflightCheckView {
    let wave = match first(s.tasks.rows, task_is(task_id)) {
        Some(t) => t.wave_id,
        None => None,
    };
    match wave {
        None => PreflightCheckView {
            name: "deps_completed"@,
            passed: true,
            detail: "no wave assignment, deps check skipped"@,
        },
        Some(wave_id) => {
            let open = count(
                s.tasks.rows,
                open_before(s, plan_of_wave(s, wave_id), wave_id),
            );
            PreflightCheckView {
                name: "deps_completed"@,
                passed: open == 0,
                detail: if open == 0 {
                    "all prior wave tasks completed"@
                } else {
                    dec(open as int) + " tasks in prior waves still incomplete"@
                },
            }
        },
    }
}

/// The status of a task's wave: `pending` for a task without one, `unknown` without the task.
pub open spec fn wave_status(s: StoreView, task_id: i64) -> Seq<char> {
    match first(s.tasks.rows, task_is(task_id)) {
        None => "unknown"@,
        Some(t) => match t.wave_id {
            None => "pending"@,
            Some(w) => match first(s.waves.rows, wave_is(w)) {
                Some(w) => w.status,
                None => "pending"@,
            },
        },
    }
}

/// Whether the task's wave is active, or about to be.
pub open spec fn wave_check(s: StoreView, task_id: i64) -> PreflightCheckView {
    let status = wave_status(s, task_id);
    let passed = status == "pending"@ || status == "active"@;
    PreflightCheckView {
        name: "wave_active"@,
        passed,
        detail: if passed {
            "wave status is '"@ + status + "'"@
        } else {
            "wave status is '"@ + status + "', expected pending/active"@
        },
    }
}

/// All that is looked at before a task is assigned to an agent.
pub open spec fn preflight_checks(s: StoreView, task_id: i64) -> Seq<PreflightCheckView> {
    seq![
        exists_check(s, task_id),
        pending_check(s, task_id),
        deps_check(s, task_id),
        wave_check(s, task_id),
    ]
}

fn check_task_exists(db: &Store, task_id: i64) -> (r: PreflightCheck)
    ensures
        r@ == exists_check(db@, task_id),
{
    let exists = has_task(db, task_id);
    PreflightCheck {
        name: "task_exists".to_owned(),
        passed: exists,
        detail: if exists {
            "task found".to_owned()
        } else {
            cat3("task ", dec_i64(task_id).as_str(), " not found")
        },
    }
}

fn check_task_pending(db: &Store, task_id: i64) -> (r: PreflightCheck)
    ensures
        r@ == pending_check(db@, task_id),
{
    let status = match find_task(db, task_id) {
        Some(k) => db.tasks.rows[k].status.clone(),
        None => "unknown".to_owned(),
    };
    let passed = same(status.as_str(), "pending");
    PreflightCheck {
        name: "task_pending".to_owned(),
        passed,
        detail: if passed {
            "task is pending".to_owned()
        } else {
            cat3("task status is '", status.as_str(), "', expected 'pending'")
        },
    }
}

/// Whether a wave comes before another one in a plan.
fn is_earlier(waves: &Vec<WaveRow>, id: i64, plan_id: i64, wave_id: i64) -> (r: bool)
    ensures
        r == any(views(waves@), earlier_wave(id, plan_id, wave_id)),
{
    any_where(
        waves,
        |w: &WaveRow| -> (b: bool) ensures b == earlier_wave(id, plan_id, wave_id)(w@) {
            w.id == id && w.plan_id == plan_id && w.id < wave_id
        },
        Ghost(earlier_wave(id, plan_id, wave_id)),
    )
}

fn check_deps_completed(db: &Store, task_id: i64) -> (r: PreflightCheck)
    ensures
        r@ == deps_check(db@, task_id),
{
    let wave = match find_task(db, task_id) {
        Some(k) => db.tasks.rows[k].wave_id,
        None => None,
    };
    let wave_id: i64 = match wave {
        Some(w) => w,
        None => {
            return PreflightCheck {
                name: "deps_completed".to_owned(),
                passed: true,
                detail: "no wave assignment, deps check skipped".to_owned(),
            };
        },
    };
    let plan_id: i64 = match find_wave(db, wave_id) {
        Some(k) => db.waves.rows[k].plan_id,
        None => 0,
    };
    let open: usize = count_where(
        &db.tasks.rows,
        |t: &TaskRow| -> (b: bool) ensures b == open_before(db@, plan_id, wave_id)(t@) {
            (match t.wave_id {
                Some(w) => is_earlier(&db.waves.rows, w, plan_id, wave_id),
                None => false,
            }) && !is_closed(t.status.as_str())
        },
        Ghost(open_before(db@, plan_id, wave_id)),
    );
    PreflightCheck {
        name: "deps_completed".to_owned(),
        passed: open == 0,
        detail: if open == 0 {
            "all prior wave tasks completed".to_owned()
        } else {
            cat2(dec_usize(open).as_str(), " tasks in prior waves still incomplete")
        },
    }
}

fn check_wave_active(db: &Store, task_id: i64) -> (r: PreflightCheck)
    ensures
        r@ == wave_check(db@, task_id),
{
    let status = match find_task(db, task_id) {
        None => "unknown".to_owned(),
        Some(k) => match db.tasks.rows[k].wave_id {
            None => "pending".to_owned(),
            Some(w) => match find_wave(db, w) {
                Some(j) => db.waves.rows[j].status.clone(),
                None => "pending".to_owned(),
            },
        },
    };
    let passed = same(status.as_str(), "pending") || same(status.as_str(), "active");
    PreflightCheck {
        name: "wave_active".to_owned(),
        passed,
        detail: if passed {
            cat3("wave status is '", status.as_str(), "'")
        } else {
            cat3("wave status is '", status.as_str(), "', expected pending/active")
        },
    }
}

/// Runs the pre-flight checks before a task is assigned to an agent.
pub fn run_preflight(db: &Store, task_id: i64) -> (r: PreflightResult)
    ensures
        views(r.checks@) == preflight_checks(db@, task_id),
        r.passed <==> (forall|i: int|
            0 <= i < r.checks@.len() ==> (#[trigger] r.checks@[i]).passed),
{
    let a = check_task_exists(db, task_id);
    let b = check_task_pending(db, task_id);
    let c = check_deps_completed(db, task_id);
    let d = check_wave_active(db, task_id);
    let passed = a.passed && b.passed && c.passed && d.passed;
    let checks = vec![a, b, c, d];
    assert(views(checks@) =~= preflight_checks(db@, task_id));
    assert(checks@ =~= seq![a, b, c, d]);
    proof {
        assert(checks@.len() == 4);
        if passed {
            assert forall|i: int| 0 <= i < checks@.len() implies (#[trigger] checks@[i]).passed by {
                assert(i == 0 || i == 1 || i == 2 || i == 3);
            }
        }
        if (forall|i: int| 0 <= i < checks@.len() ==> (#[trigger] checks@[i]).passed) {
            assert(checks@[0].passed && checks@[1].passed && checks@[2].passed
                && checks@[3].passed);
        }
    }
    assert(passed ==> forall|i: int| 0 <= i < checks@.len() ==> (#[trigger] checks@[i]).passed);
    assert((forall|i: int| 0 <= i < checks@.len() ==> (#[trigger] checks@[i]).passed) ==> passed);
    let r = PreflightResult { passed, checks };
    assert(r.checks@ == checks@);
    r
}

/// A task passes exactly where it is pending, every task in earlier waves of its plan is
/// closed, and its wave is pending or active. Then and only then no check is listed as failed.
pub proof fn law_preflight(s: StoreView, task_id: i64)
    ensures
        (forall|i: int|
            0 <= i < 4 ==> (#[trigger] preflight_checks(s, task_id)[i]).passed) <==> {
            &&& first(s.tasks.rows, task_is(task_id)) matches Some(t) && t.status == "pending"@
            &&& deps_check(s, task_id).passed
            &&& wave_status(s, task_id) == "pending"@ || wave_status(s, task_id) == "active"@
        },
        preflight_checks(s, task_id).filter(|c: PreflightCheckView| !c.passed).len() == 0 <==> (
        forall|i: int| 0 <= i < 4 ==> (#[trigger] preflight_checks(s, task_id)[i]).passed),
{
    reveal_strlit("pending");
    reveal_strlit("unknown");
    assert("pending"@[0] == 'p' && "unknown"@[0] == 'u');
    crate::table::lemma_first_any(s.tasks.rows, task_is(task_id));
    let c = preflight_checks(s, task_id);
    assert(c.len() == 4);
    assert(c[0] == exists_check(s, task_id) && c[1] == pending_check(s, task_id) && c[2]
        == deps_check(s, task_id) && c[3] == wave_check(s, task_id));
    let p = |c: PreflightCheckView| !c.passed;
    crate::table::lemma_count_any(c, p);
    if any(c, p) {
        let i = choose|i: int| 0 <= i < c.len() && p(#[trigger] c[i]);
        assert(!c[i].passed);
    } else {
        assert forall|i: int| 0 <= i < 4 implies (#[trigger] c[i]).passed by {
            assert(!p(c[i]));
        }
    }
    if (forall|i: int| 0 <= i < 4 ==> (#[trigger] c[i]).passed) {
        assert(c[0].passed && c[1].passed && c[2].passed && c[3].passed);
    }
}

/// The pre-flight checks of a task, over the rows, in their order: the task is there; it is
/// pending; every task in a wave of the same plan before its own is done, skipped or cancelled;
/// and its wave is pending or active. A task without a wave waits for none.
pub proof fn law_preflight_over_rows(s: StoreView, i: int, k: int)
    requires
        sound(s),
        0 <= i < s.tasks.rows.len(),
        0 <= k < s.waves.rows.len(),
        s.tasks.rows[i].wave_id == Some(s.waves.rows[k].id),
    ensures
        ({
            let t = s.tasks.rows[i];
            let w = s.waves.rows[k];
            let c = preflight_checks(s, t.id);
            &&& c.len() == 4
            &&& c[0].name == "task_exists"@ && c[0].passed
            &&& c[1].name == "task_pending"@ && (c[1].passed <==> t.status == "pending"@)
            &&& c[2].name == "deps_completed"@ && (c[2].passed <==> forall|j: int, m: int|
                0 <= j < s.tasks.rows.len() && 0 <= m < s.waves.rows.len() && (
                #[trigger] s.tasks.rows[j]).wave_id == Some((#[trigger] s.waves.rows[m]).id)
                    && s.waves.rows[m].plan_id == w.plan_id && s.waves.rows[m].id < w.id
                    ==> s.tasks.rows[j].status == "done"@ || s.tasks.rows[j].status == "skipped"@
                    || s.tasks.rows[j].status == "cancelled"@)
            &&& c[3].name == "wave_active"@ && (c[3].passed <==> w.status == "pending"@ || w.status
                == "active"@)
        }),
{
    let t = s.tasks.rows[i];
    let w = s.waves.rows[k];
    let rows = s.tasks.rows;
    crate::table::lemma_first_keyed::<TaskRow>(s.tasks, task_is(t.id), i);
    crate::table::lemma_first_keyed::<WaveRow>(s.waves, wave_is(w.id), k);
    let p = open_before(s, w.plan_id, w.id);
    crate::table::lemma_count_any(rows, p);
    assert(task_exists(s, t.id)) by {
        assert(task_is(t.id)(rows[i]));
    }
    if any(rows, p) {
        let j = choose|j: int| 0 <= j < rows.len() && p(#[trigger] rows[j]);
        let x = rows[j].wave_id->0;
        let m = choose|m: int|
            0 <= m < s.waves.rows.len() && earlier_wave(x, w.plan_id, w.id)(
                #[trigger] s.waves.rows[m],
            );
        assert(rows[j].wave_id == Some(s.waves.rows[m].id));
    }
    assert forall|j: int, m: int|
        0 <= j < rows.len() && 0 <= m < s.waves.rows.len() && (#[trigger] rows[j]).wave_id == Some(
            (#[trigger] s.waves.rows[m]).id,
        ) && s.waves.rows[m].plan_id == w.plan_id && s.waves.rows[m].id < w.id && !(rows[j].status
            == "done"@ || rows[j].status == "skipped"@ || rows[j].status == "cancelled"@) implies any(
        rows,
        p,
    ) by {
        assert(earlier_wave(s.waves.rows[m].id, w.plan_id, w.id)(s.waves.rows[m]));
        assert(p(rows[j]));
    }
}

/// A task that is not there passes only the check on waves before its own, and a task without a
/// wave passes that check and the one on its wave.
pub proof fn law_preflight_without_wave(s: StoreView, task_id: i64)
    ensures
        (forall|i: int| 0 <= i < s.tasks.rows.len() ==> (#[trigger] s.tasks.rows[i]).id != task_id)
            ==> {
            let c = preflight_checks(s, task_id);
            !c[0].passed && !c[1].passed && c[2].passed && !c[3].passed
        },
        forall|i: int|
            sound(s) && 0 <= i < s.tasks.rows.len() && (#[trigger] s.tasks.rows[i]).id == task_id
                && s.tasks.rows[i].wave_id is None ==> {
                let c = preflight_checks(s, task_id);
                c[0].passed && (c[1].passed <==> s.tasks.rows[i].status == "pending"@)
                    && c[2].passed && c[3].passed
            },
{
    reveal_strlit("pending");
    reveal_strlit("unknown");
    reveal_strlit("active");
    assert("pending"@[0] == 'p' && "unknown"@[0] == 'u' && "active"@[0] == 'a');
    crate::table::lemma_first_place(s.tasks.rows, task_is(task_id));
    assert forall|i: int|
        sound(s) && 0 <= i < s.tasks.rows.len() && (#[trigger] s.tasks.rows[i]).id == task_id
            && s.tasks.rows[i].wave_id is None implies {
        let c = preflight_checks(s, task_id);
        c[0].passed && (c[1].passed <==> s.tasks.rows[i].status == "pending"@) && c[2].passed
            && c[3].passed
    } by {
        crate::table::lemma_first_keyed::<TaskRow>(s.tasks, task_is(task_id), i);
        assert(task_is(task_id)(s.tasks.rows[i]));
    }
}

/// What the checks say, whether they pass or not.
pub proof fn law_what_checks_say(s: StoreView, i: int)
    requires
        sound(s),
        0 <= i < s.tasks.rows.len(),
    ensures
        ({
            let t = s.tasks.rows[i];
            let c = preflight_checks(s, t.id);
            &&& c[0].detail == "task found"@
            &&& c[1].detail == if t.status == "pending"@ {
                "task is pending"@
            } else {
                "task status is '"@ + t.status + "', expected 'pending'"@
            }
            &&& t.wave_id is None ==> c[2].detail == "no wave assignment, deps check skipped"@
            &&& t.wave_id is Some && c[2].passed ==> c[2].detail
                == "all prior wave tasks completed"@
            &&& !c[2].passed ==> exists|n: nat|
                n > 0 && c[2].detail == #[trigger] dec(n as int)
                    + " tasks in prior waves still incomplete"@
        }),
{
    let t = s.tasks.rows[i];
    crate::table::lemma_first_keyed::<TaskRow>(s.tasks, task_is(t.id), i);
    assert(task_is(t.id)(s.tasks.rows[i]));
    if let Some(w) = t.wave_id {
        let n = count(s.tasks.rows, open_before(s, plan_of_wave(s, w), w));
        if n > 0 {
            assert(preflight_checks(s, t.id)[2].detail == dec(n as int)
                + " tasks in prior waves still incomplete"@);
        }
    }
}

/// The check on the wave tells its status.
pub proof fn law_what_the_wave_check_says(s: StoreView, i: int, k: int)
    requires
        sound(s),
        0 <= i < s.tasks.rows.len(),
        0 <= k < s.waves.rows.len(),
        s.tasks.rows[i].wave_id == Some(s.waves.rows[k].id),
    ensures
        ({
            let c = preflight_checks(s, s.tasks.rows[i].id)[3];
            let w = s.waves.rows[k];
            c.detail == if c.passed {
                "wave status is '"@ + w.status + "'"@
            } else {
                "wave status is '"@ + w.status + "', expected pending/active"@
            }
        }),
{
    let t = s.tasks.rows[i];
    let w = s.waves.rows[k];
    crate::table::lemma_first_keyed::<TaskRow>(s.tasks, task_is(t.id), i);
    crate::table::lemma_first_keyed::<WaveRow>(s.waves, wave_is(w.id), k);
}

} // verus!
