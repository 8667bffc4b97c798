//! Import of a specification into a plan that has not started.

use crate::gates::{import_error, import_gate, in_plan};
use crate::handlers::{has_task_in_plan, task_in_plan};
use crate::plan_import_core::{
    import_waves_and_tasks, importable, spec_imported, ImportStats, Progress, SpecYaml,
};
use crate::rows::{TaskRow, TaskRowView, WaveRow, WaveRowView};
use crate::store::{sound, Store, StoreView};
use crate::table::{any, any_where, lemma_filter_keyed, remove_where, removed, TableView};
use crate::text::{cat3, same};
use crate::types::{EvidenceRecord, EvidenceRecordView};
use vstd::prelude::*;

verus! {

/// The mode of an import that names none.
pub fn default_import_mode() -> (r: String)
    ensures
        r@ == "append"@,
{
    "append".to_owned()
}

/// The modes of an import.
pub open spec fn is_mode(mode: Seq<char>) -> bool {
    mode == "append"@ || mode == "replace"@ || mode == "merge"@
}

/// Why an import cannot begin, if it cannot: the mode is unknown, or the plan does not take
/// tasks.
pub open spec fn import_refusal(s: StoreView, plan_id: i64, mode: Seq<char>) -> Option<Seq<char>> {
    if !is_mode(mode) {
        Some("invalid import_mode '"@ + mode + "', must be: append, replace, merge"@)
    } else {
        match import_error(s, plan_id) {
            Some(e) => Some(e.gate + ": "@ + e.reason),
            None => None,
        }
    }
}

/// Whether the mode of an import is known.
pub fn check_import_mode(mode: &str) -> (r: Result<(), String>)
    ensures
        r is Ok <==> is_mode(mode@),
        r matches Err(e) ==> e@ == "invalid import_mode '"@ + mode@
            + "', must be: append, replace, merge"@,
{
    if same(mode, "append") || same(mode, "replace") || same(mode, "merge") {
        Ok(())
    } else {
        Err(cat3("invalid import_mode '", mode, "', must be: append, replace, merge"))
    }
}

/// Whether an import can begin.
pub fn check_import(db: &Store, plan_id: i64, mode: &str) -> (r: Result<(), String>)
    ensures
        match import_refusal(db@, plan_id, mode@) {
            Some(why) => r is Err && r->Err_0@ == why,
            None => r is Ok,
        },
{
    if let Err(e) = check_import_mode(mode) {
        return Err(e);
    }
    match import_gate(db, plan_id) {
        Ok(_) => Ok(()),
        Err(e) => Err(cat3(e.gate, ": ", e.reason.as_str())),
    }
}

/// Evidence for a task of a plan.
pub open spec fn plan_evidence(s: StoreView, plan_id: i64) -> spec_fn(EvidenceRecordView) -> bool {
    |e: EvidenceRecordView| any(s.tasks.rows, task_in_plan(e.task_id, plan_id))
}

/// Whether evidence is recorded for any task of a plan.
pub open spec fn has_plan_evidence(s: StoreView, plan_id: i64) -> bool {
    any(s.task_evidence.rows, plan_evidence(s, plan_id))
}

/// The waves of a plan.
pub open spec fn waves_of(plan_id: i64) -> spec_fn(WaveRowView) -> bool {
    |w: WaveRowView| w.plan_id == plan_id
}

/// The store without the tasks and waves of a plan.
pub open spec fn cleared(s: StoreView, plan_id: i64) -> StoreView {
    StoreView {
        tasks: TableView { rows: removed(s.tasks.rows, in_plan(plan_id)), last_id: s.tasks.last_id },
        waves: TableView {
            rows: removed(s.waves.rows, waves_of(plan_id)),
            last_id: s.waves.last_id,
        },
        ..s
    }
}

/// Why a specification was not imported.
#[derive(Debug, Clone, Copy, PartialEq, Eq, Structural)]
pub enum ImportRefused {
    /// A replacement would drop tasks for which evidence is recorded.
    HasEvidence,
}

impl ImportRefused {
    /// The refusal in words.
    pub fn message(self) -> (r: String)
        ensures
            r@ == "cannot replace: plan has tasks with recorded evidence"@,
    {
        "cannot replace: plan has tasks with recorded evidence".to_owned()
    }

    /// What can be done about it.
    pub fn hint(self) -> (r: String)
        ensures
            r@ == "Use 'append' or 'merge' mode, or remove evidence first"@,
    {
        "Use 'append' or 'merge' mode, or remove evidence first".to_owned()
    }
}

/// Imports a specification into a plan. A replacement first drops the plan's waves and tasks,
/// unless evidence is recorded for any of them.
pub fn import_spec(db: &mut Store, plan_id: i64, spec: &SpecYaml, mode: &str) -> (r: Result<
    ImportStats,
    ImportRefused,
>)
    requires
        importable(spec@),
    ensures
        mode@ == "replace"@ && has_plan_evidence(old(db)@, plan_id) ==> r is Err && final(db)@
            == old(db)@,
        mode@ == "replace"@ && !has_plan_evidence(old(db)@, plan_id) ==> r is Ok && (Progress {
            store: final(db)@,
            stats: r->Ok_0@,
        }) == spec_imported(cleared(old(db)@, plan_id), plan_id, spec@, mode@),
        mode@ != "replace"@ ==> r is Ok && (Progress { store: final(db)@, stats: r->Ok_0@ })
            == spec_imported(old(db)@, plan_id, spec@, mode@),
        sound(old(db)@) ==> sound(final(db)@),
{
    if same(mode, "replace") {
        let held = any_where(
            &db.task_evidence.rows,
            |e: &EvidenceRecord| -> (b: bool) ensures b == plan_evidence(db@, plan_id)(e@) {
                has_task_in_plan(&db.tasks.rows, e.task_id, plan_id)
            },
            Ghost(plan_evidence(db@, plan_id)),
        );
        if held {
            return Err(ImportRefused::HasEvidence);
        }
        proof {
            if sound(db@) {
                lemma_filter_keyed::<TaskRow>(db@.tasks, |t: TaskRowView| !in_plan(plan_id)(t));
                lemma_filter_keyed::<WaveRow>(db@.waves, |w: WaveRowView| !waves_of(plan_id)(w));
            }
        }
        remove_where(
            &mut db.tasks.rows,
            |t: &TaskRow| -> (b: bool) ensures b == in_plan(plan_id)(t@) { t.plan_id == plan_id },
            Ghost(in_plan(plan_id)),
        );
        remove_where(
            &mut db.waves.rows,
            |w: &WaveRow| -> (b: bool) ensures b == waves_of(plan_id)(w@) { w.plan_id == plan_id },
            Ghost(waves_of(plan_id)),
        );
    }
    Ok(import_waves_and_tasks(db, plan_id, spec, mode))
}

/// A replacement never drops a task for which evidence is recorded: where it goes ahead, no
/// task of the plan has any.
pub proof fn law_replace_spares_evidence(s: StoreView, plan_id: i64, i: int, j: int)
    requires
        !has_plan_evidence(s, plan_id),
        0 <= i < s.tasks.rows.len(),
        0 <= j < s.task_evidence.rows.len(),
        s.tasks.rows[i].plan_id == plan_id,
    ensures
        s.task_evidence.rows[j].task_id != s.tasks.rows[i].id,
{
    let e = s.task_evidence.rows[j];
    if e.task_id == s.tasks.rows[i].id {
        assert(task_in_plan(e.task_id, plan_id)(s.tasks.rows[i]));
        assert(plan_evidence(s, plan_id)(e));
    }
}

/// A replacement is refused exactly where evidence is recorded for a task of the plan. Where it
/// goes ahead, the tasks and the waves of the plan go, and no other; nothing else changes.
pub proof fn law_replacement_over_rows(s: StoreView, plan_id: i64, i: int, k: int)
    requires
        0 <= i < s.tasks.rows.len(),
        0 <= k < s.waves.rows.len(),
    ensures
        ({
            let n = cleared(s, plan_id);
            &&& has_plan_evidence(s, plan_id) <==> exists|e: int, t: int|
                0 <= e < s.task_evidence.rows.len() && 0 <= t < s.tasks.rows.len() && (
                #[trigger] s.task_evidence.rows[e]).task_id == (#[trigger] s.tasks.rows[t]).id
                    && s.tasks.rows[t].plan_id == plan_id
            &&& n == (StoreView { tasks: n.tasks, waves: n.waves, ..s })
            &&& n.tasks.last_id == s.tasks.last_id && n.waves.last_id == s.waves.last_id
            &&& n.tasks.rows.contains(s.tasks.rows[i]) <==> s.tasks.rows[i].plan_id != plan_id
            &&& n.waves.rows.contains(s.waves.rows[k]) <==> s.waves.rows[k].plan_id != plan_id
        }),
{
    let es = s.task_evidence.rows;
    let ts = s.tasks.rows;
    crate::table::lemma_kept_at(ts, |r: TaskRowView| !in_plan(plan_id)(r), i);
    crate::table::lemma_kept_at(s.waves.rows, |r: WaveRowView| !waves_of(plan_id)(r), k);
    assert forall|e: int| 0 <= e < es.len() implies (plan_evidence(s, plan_id)(#[trigger] es[e])
        <==> exists|t: int|
        0 <= t < ts.len() && es[e].task_id == (#[trigger] ts[t]).id && ts[t].plan_id
            == plan_id) by {
        let q = task_in_plan(es[e].task_id, plan_id);
        assert(any(ts, q) <==> exists|t: int|
            0 <= t < ts.len() && es[e].task_id == (#[trigger] ts[t]).id && ts[t].plan_id
                == plan_id);
    }
}

/// An import is refused for its mode exactly where that is none of the three.
pub proof fn law_import_modes(s: StoreView, plan_id: i64, mode: Seq<char>)
    ensures
        !(mode == "append"@ || mode == "replace"@ || mode == "merge"@) ==> import_refusal(
            s,
            plan_id,
            mode,
        ) == Some("invalid import_mode '"@ + mode + "', must be: append, replace, merge"@),
        mode == "append"@ || mode == "replace"@ || mode == "merge"@ ==> (import_refusal(
            s,
            plan_id,
            mode,
        ) is None <==> import_error(s, plan_id) is None),
        (mode == "append"@ || mode == "replace"@ || mode == "merge"@) && import_error(s, plan_id)
            is Some ==> import_refusal(s, plan_id, mode) == Some(
            import_error(s, plan_id)->0.gate + ": "@ + import_error(s, plan_id)->0.reason,
        ),
{
}

} // verus!
