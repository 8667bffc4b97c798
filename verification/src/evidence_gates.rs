//! Hard gates on status transitions: no evidence, no transition.

use crate::evidence::{has_evidence, recorded};
use crate::store::{Store, StoreView};
use crate::table::{lemma_count_step, views};
use crate::text::{cat2, cat3, dec, dec_i64, join, joined, same, texts};
use crate::types::{
    closure_checklist, default_closure_checklist, ChecklistItemView, GateViolation,
    GateViolationView,
};
use crate::verdicts::{has_passing_verdict, validated};
use vstd::prelude::*;

verus! {

/// The status that gates are run for where none is named.
pub fn default_target() -> (r: String)
    ensures
        r@ == "submitted"@,
{
    "submitted".to_owned()
}

/// The violation in a gate's answer, if there is one.
pub open spec fn violation(r: Result<(), GateViolation>) -> Option<GateViolationView> {
    match r {
        Ok(_) => None,
        Err(v) => Some(v@),
    }
}

/// What the test gate finds.
pub open spec fn test_violation(s: StoreView, task_id: i64) -> Option<GateViolationView> {
    if recorded(s, task_id, "test_pass"@) {
        None
    } else {
        Some(
            GateViolationView {
                gate: "TestGate"@,
                task_id,
                detail: "no test evidence recorded for task "@ + dec(task_id as int)
                    + ". Record evidence_type='test_pass' first."@,
            },
        )
    }
}

/// What the validator gate finds.
pub open spec fn validator_violation(s: StoreView, task_id: i64) -> Option<GateViolationView> {
    if validated(s, task_id) {
        None
    } else {
        Some(
            GateViolationView {
                gate: "ValidatorGate"@,
                task_id,
                detail: "no passing Thor verdict for task "@ + dec(task_id as int)
                    + ". Task must be validated by Thor before transitioning to done."@,
            },
        )
    }
}

/// The required checklist items for which the task has no evidence.
pub open spec fn lacking(s: StoreView, task_id: i64) -> spec_fn(ChecklistItemView) -> bool {
    |i: ChecklistItemView| i.required && !recorded(s, task_id, i.evidence_type)
}

/// The names of the checklist items for which the task has no evidence.
pub open spec fn missing_items(s: StoreView, task_id: i64) -> Seq<Seq<char>> {
    item_names(closure_checklist().filter(lacking(s, task_id)))
}

/// The names of checklist items.
pub open spec fn item_names(items: Seq<ChecklistItemView>) -> Seq<Seq<char>> {
    items.map_values(|i: ChecklistItemView| i.name)
}

/// What the checklist gate finds.
pub open spec fn checklist_violation(s: StoreView, task_id: i64) -> Option<GateViolationView> {
    if missing_items(s, task_id).len() == 0 {
        None
    } else {
        Some(
            GateViolationView {
                gate: "ChecklistGate"@,
                task_id,
                detail: "missing required evidence for task "@ + dec(task_id as int) + ": "@
                    + joined(missing_items(s, task_id), ", "@),
            },
        )
    }
}

/// What the gates on a transition find first.
pub open spec fn gates_violation(s: StoreView, task_id: i64, target: Seq<char>) -> Option<
    GateViolationView,
> {
    if target == "submitted"@ {
        test_violation(s, task_id)
    } else if target == "done"@ {
        if checklist_violation(s, task_id) is Some {
            checklist_violation(s, task_id)
        } else {
            validator_violation(s, task_id)
        }
    } else {
        None
    }
}

/// Blocks submitted while no passing test has been recorded.
pub fn run_test_gate(db: &Store, task_id: i64) -> (r: Result<(), GateViolation>)
    ensures
        violation(r) == test_violation(db@, task_id),
{
    if has_evidence(db, task_id, "test_pass") {
        return Ok(());
    }
    Err(
        GateViolation {
            gate: "TestGate".to_owned(),
            task_id,
            detail: cat3(
                "no test evidence recorded for task ",
                dec_i64(task_id).as_str(),
                ". Record evidence_type='test_pass' first.",
            ),
        },
    )
}

/// Blocks done while no validation of the task has passed.
pub fn run_validator_gate(db: &Store, task_id: i64) -> (r: Result<(), GateViolation>)
    ensures
        violation(r) == validator_violation(db@, task_id),
{
    if has_passing_verdict(db, task_id) {
        return Ok(());
    }
    Err(
        GateViolation {
            gate: "ValidatorGate".to_owned(),
            task_id,
            detail: cat3(
                "no passing Thor verdict for task ",
                dec_i64(task_id).as_str(),
                ". Task must be validated by Thor before transitioning to done.",
            ),
        },
    )
}

/// Blocks done while the closure checklist lacks evidence.
pub fn run_checklist_gate(db: &Store, task_id: i64) -> (r: Result<(), GateViolation>)
    ensures
        violation(r) == checklist_violation(db@, task_id),
{
    let checklist = default_closure_checklist();
    let ghost items = views(checklist@);
    let ghost p = lacking(db@, task_id);
    let mut missing: Vec<String> = Vec::new();
    let mut i: usize = 0;
    assert(texts(missing@) =~= item_names(items.take(0).filter(p))) by {
        reveal(Seq::filter);
    }
    while i < checklist.len()
        invariant
            i <= checklist@.len(),
            items == views(checklist@),
            p == lacking(db@, task_id),
            texts(missing@) == item_names(items.take(i as int).filter(p)),
        decreases checklist@.len() - i,
    {
        proof {
            lemma_count_step(items, p, i as int);
        }
        if checklist[i].required && !has_evidence(db, task_id, checklist[i].evidence_type.as_str()) {
            let ghost before = items.take(i as int).filter(p);
            let ghost names = texts(missing@);
            missing.push(checklist[i].name.clone());
            proof {
                assert(texts(missing@) =~= names.push(items[i as int].name));
                assert(item_names(before.push(items[i as int])) =~= item_names(before).push(
                    items[i as int].name,
                ));
            }
        }
        i += 1;
    }
    assert(items.take(i as int) =~= items);
    if missing.len() == 0 {
        assert(texts(missing@).len() == 0);
        return Ok(());
    }
    assert(texts(missing@).len() > 0);
    let head = cat3("missing required evidence for task ", dec_i64(task_id).as_str(), ": ");
    Err(
        GateViolation {
            gate: "ChecklistGate".to_owned(),
            task_id,
            detail: cat2(head.as_str(), join(&missing, ", ").as_str()),
        },
    )
}

/// Runs all gates of a status transition, and returns the first violation found.
pub fn run_all_gates(db: &Store, task_id: i64, target_status: &str) -> (r: Result<
    (),
    GateViolation,
>)
    ensures
        violation(r) == gates_violation(db@, task_id, target_status@),
{
    proof {
        reveal_strlit("submitted");
        reveal_strlit("done");
        assert("submitted"@.len() == 9 && "done"@.len() == 4);
    }
    if same(target_status, "submitted") {
        run_test_gate(db, task_id)
    } else if same(target_status, "done") {
        match run_checklist_gate(db, task_id) {
            Ok(_) => run_validator_gate(db, task_id),
            Err(v) => Err(v),
        }
    } else {
        Ok(())
    }
}

/// A task becomes submitted exactly where a passing test is recorded, and done exactly
/// where a passing test, a passing build and a commit are recorded and a validation has
/// passed. No other status is guarded.
pub proof fn law_what_gates_ask(s: StoreView, task_id: i64, target: Seq<char>)
    ensures
        target == "submitted"@ ==> (gates_violation(s, task_id, target) is None <==> recorded(
            s,
            task_id,
            "test_pass"@,
        )),
        target == "done"@ ==> (gates_violation(s, task_id, target) is None <==> recorded(
            s,
            task_id,
            "test_pass"@,
        ) && recorded(s, task_id, "build_pass"@) && recorded(s, task_id, "commit_hash"@)
            && validated(s, task_id)),
        target != "submitted"@ && target != "done"@ ==> gates_violation(s, task_id, target) is None,
{
    reveal_strlit("submitted");
    reveal_strlit("done");
    assert("submitted"@.len() == 9 && "done"@.len() == 4);
    let c = closure_checklist();
    let p = lacking(s, task_id);
    assert(c.take(0).filter(p).len() == 0) by {
        reveal(Seq::filter);
    }
    lemma_count_step(c, p, 0);
    lemma_count_step(c, p, 1);
    lemma_count_step(c, p, 2);
    assert(c.take(3) =~= c);
}

/// A violation names its check, the task and what is missing.
pub proof fn law_violations_say(s: StoreView, task_id: i64)
    ensures
        test_violation(s, task_id) matches Some(v) ==> v.gate == "TestGate"@ && v.task_id == task_id
            && v.detail == "no test evidence recorded for task "@ + dec(task_id as int)
            + ". Record evidence_type='test_pass' first."@,
        validator_violation(s, task_id) matches Some(v) ==> v.gate == "ValidatorGate"@ && v.task_id
            == task_id && v.detail == "no passing Thor verdict for task "@ + dec(task_id as int)
            + ". Task must be validated by Thor before transitioning to done."@,
        checklist_violation(s, task_id) matches Some(v) ==> v.gate == "ChecklistGate"@ && v.task_id
            == task_id && v.detail == "missing required evidence for task "@ + dec(task_id as int)
            + ": "@ + joined(missing_items(s, task_id), ", "@),
        missing_items(s, task_id).contains("tests_passed"@) <==> !recorded(
            s,
            task_id,
            "test_pass"@,
        ),
        missing_items(s, task_id).contains("build_passed"@) <==> !recorded(
            s,
            task_id,
            "build_pass"@,
        ),
        missing_items(s, task_id).contains("commit_recorded"@) <==> !recorded(
            s,
            task_id,
            "commit_hash"@,
        ),
{
    reveal_strlit("tests_passed");
    reveal_strlit("build_passed");
    reveal_strlit("commit_recorded");
    assert("tests_passed"@[0] == 't' && "build_passed"@[0] == 'b' && "commit_recorded"@[0] == 'c');
    lemma_missing(s, task_id, 0);
    lemma_missing(s, task_id, 1);
    lemma_missing(s, task_id, 2);
}

/// An item is missing by its name exactly where its evidence is.
proof fn lemma_missing(s: StoreView, task_id: i64, k: int)
    requires
        0 <= k < 3,
        closure_checklist().len() == 3,
        forall|a: int, b: int|
            0 <= a < b < 3 ==> (#[trigger] closure_checklist()[a]).name != (
            #[trigger] closure_checklist()[b]).name,
        forall|a: int| 0 <= a < 3 ==> (#[trigger] closure_checklist()[a]).required,
    ensures
        missing_items(s, task_id).contains(closure_checklist()[k].name) <==> !recorded(
            s,
            task_id,
            closure_checklist()[k].evidence_type,
        ),
{
    let all = closure_checklist();
    let p = lacking(s, task_id);
    let f = all.filter(p);
    let names = item_names(f);
    crate::table::lemma_kept(all, p);
    if names.contains(all[k].name) {
        let j = choose|j: int| 0 <= j < names.len() && names[j] == all[k].name;
        assert(p(f[j]) && all.contains(f[j]));
        let m = choose|m: int| 0 <= m < all.len() && all[m] == f[j];
        assert(m == k) by {
            assert(all[m].name == all[k].name);
        }
    }
    if p(all[k]) {
        assert(f.contains(all[k]));
        let j = choose|j: int| 0 <= j < f.len() && f[j] == all[k];
        assert(names[j] == all[k].name);
    }
}

} // verus!
