//! Lifecycle gates: which status transitions of plans, waves and tasks are allowed.

use crate::evidence::{evidence_of, has_evidence, recorded, task_is};
use crate::file_conflict_gate::{file_conflict_check, file_conflict_error};
use crate::rows::{PlanRow, PlanRowView, TaskRow, TaskRowView, WaveRow, WaveRowView};
use crate::store::{sound, Store, StoreView};
use crate::table::{
    any, any_where, count, count_where, find_where, first, largest, largest_where, Row,
};
use crate::text::{
    cat3, cat5, contains, dec, dec_i64, dec_usize, occurs, same, split_words, text_or_empty, texts,
    to_chars, trim_matches, trimmed_of, words,
};
use crate::types::EvidenceRecord;
use crate::verdicts::{has_passing_verdict, validated};
use vstd::prelude::*;

verus! {

/// Why a gate is closed, with a hint on what it expects.
#[derive(Debug)]
pub struct GateError {
    pub gate: &'static str,
    pub reason: String,
    /// Human-readable hint on what is expected.
    pub expected: String,
}

/// What a [`GateError`] holds.
pub struct GateErrorView {
    pub gate: Seq<char>,
    pub reason: Seq<char>,
    pub expected: Seq<char>,
}

impl View for GateError {
    type V = GateErrorView;

    open spec fn view(&self) -> GateErrorView {
        GateErrorView { gate: self.gate@, reason: self.reason@, expected: self.expected@ }
    }
}

impl GateError {
    /// The name in square brackets, and the reason.
    pub fn message(&self) -> (r: String)
        ensures
            r@ == "["@ + self@.gate + "] "@ + self@.reason,
    {
        let head = cat3("[", self.gate, "] ");
        crate::text::cat2(head.as_str(), self.reason.as_str())
    }
}

/// The error in a gate's answer, if there is one.
pub open spec fn gate_error(r: Result<(), GateError>) -> Option<GateErrorView> {
    match r {
        Ok(_) => None,
        Err(e) => Some(e@),
    }
}

/// The plan with the given id.
pub open spec fn plan_is(plan_id: i64) -> spec_fn(PlanRowView) -> bool {
    |p: PlanRowView| p.id == plan_id
}

/// The wave with the given id.
pub open spec fn wave_is(wave_id: i64) -> spec_fn(WaveRowView) -> bool {
    |w: WaveRowView| w.id == wave_id
}

/// The tasks of a plan.
pub open spec fn in_plan(plan_id: i64) -> spec_fn(TaskRowView) -> bool {
    |t: TaskRowView| t.plan_id == plan_id
}

/// The place of a plan in its table.
pub fn find_plan(db: &Store, plan_id: i64) -> (r: Option<usize>)
    ensures
        r matches Some(k) ==> k < db.plans.rows@.len() && db.plans.rows@[k as int]@.id == plan_id
            && first(db@.plans.rows, plan_is(plan_id)) == Some(db.plans.rows@[k as int]@),
        r is None ==> first(db@.plans.rows, plan_is(plan_id)) is None,
        r is Some <==> any(db@.plans.rows, plan_is(plan_id)),
{
    find_where(
        &db.plans.rows,
        |p: &PlanRow| -> (b: bool) ensures b == plan_is(plan_id)(p@) { p.id == plan_id },
        Ghost(plan_is(plan_id)),
    )
}

/// The place of a wave in its table.
pub fn find_wave(db: &Store, wave_id: i64) -> (r: Option<usize>)
    ensures
        r matches Some(k) ==> k < db.waves.rows@.len() && db.waves.rows@[k as int]@.id == wave_id
            && first(db@.waves.rows, wave_is(wave_id)) == Some(db.waves.rows@[k as int]@),
        r is None ==> first(db@.waves.rows, wave_is(wave_id)) is None,
        r is Some <==> any(db@.waves.rows, wave_is(wave_id)),
{
    find_where(
        &db.waves.rows,
        |w: &WaveRow| -> (b: bool) ensures b == wave_is(wave_id)(w@) { w.id == wave_id },
        Ghost(wave_is(wave_id)),
    )
}

/// The place of a task in its table.
pub fn find_task(db: &Store, task_id: i64) -> (r: Option<usize>)
    ensures
        r matches Some(k) ==> k < db.tasks.rows@.len() && db.tasks.rows@[k as int]@.id == task_id
            && first(db@.tasks.rows, task_is(task_id)) == Some(db.tasks.rows@[k as int]@),
        r is None ==> first(db@.tasks.rows, task_is(task_id)) is None,
        r is Some <==> any(db@.tasks.rows, task_is(task_id)),
{
    find_where(
        &db.tasks.rows,
        |t: &TaskRow| -> (b: bool) ensures b == task_is(task_id)(t@) { t.id == task_id },
        Ghost(task_is(task_id)),
    )
}

// ---- import and start ----

/// What the import gate finds.
pub open spec fn import_error(s: StoreView, plan_id: i64) -> Option<GateErrorView> {
    match first(s.plans.rows, plan_is(plan_id)) {
        None => Some(
            GateErrorView {
                gate: "ImportGate"@,
                reason: "plan not found"@,
                expected: "plan must exist in database"@,
            },
        ),
        Some(p) => if p.status == "todo"@ || p.status == "draft"@ || p.status == "approved"@ {
            None
        } else {
            Some(
                GateErrorView {
                    gate: "ImportGate"@,
                    reason: "cannot add tasks to plan in status '"@ + p.status + "'"@,
                    expected: "plan status must be 'todo', 'draft', or 'approved'"@,
                },
            )
        },
    }
}

/// Tasks may be added to a plan that has not started.
pub fn import_gate(db: &Store, plan_id: i64) -> (r: Result<(), GateError>)
    ensures
        gate_error(r) == import_error(db@, plan_id),
{
    match find_plan(db, plan_id) {
        None => Err(
            GateError {
                gate: "ImportGate",
                reason: "plan not found".to_owned(),
                expected: "plan must exist in database".to_owned(),
            },
        ),
        Some(k) => {
            let status = db.plans.rows[k].status.as_str();
            if same(status, "todo") || same(status, "draft") || same(status, "approved") {
                Ok(())
            } else {
                Err(
                    GateError {
                        gate: "ImportGate",
                        reason: cat3("cannot add tasks to plan in status '", status, "'"),
                        expected: "plan status must be 'todo', 'draft', or 'approved'".to_owned(),
                    },
                )
            }
        },
    }
}

/// What the start gate finds.
pub open spec fn start_error(s: StoreView, plan_id: i64) -> Option<GateErrorView> {
    if any(s.tasks.rows, in_plan(plan_id)) {
        None
    } else {
        Some(
            GateErrorView {
                gate: "StartGate"@,
                reason: "plan has zero tasks — cannot start"@,
                expected: "import at least one task before starting the plan"@,
            },
        )
    }
}

/// A plan without tasks cannot start.
pub fn start_gate(db: &Store, plan_id: i64) -> (r: Result<(), GateError>)
    ensures
        gate_error(r) == start_error(db@, plan_id),
{
    let some = any_where(
        &db.tasks.rows,
        |t: &TaskRow| -> (b: bool) ensures b == in_plan(plan_id)(t@) { t.plan_id == plan_id },
        Ghost(in_plan(plan_id)),
    );
    if some {
        return Ok(());
    }
    Err(
        GateError {
            gate: "StartGate",
            reason: "plan has zero tasks — cannot start".to_owned(),
            expected: "import at least one task before starting the plan".to_owned(),
        },
    )
}

// ---- evidence ----

/// What the test gate finds.
pub open spec fn test_error(s: StoreView, task_id: i64) -> Option<GateErrorView> {
    if recorded(s, task_id, "test_pass"@) {
        None
    } else {
        Some(
            GateErrorView {
                gate: "TestGate"@,
                reason: "task "@ + dec(task_id as int) + " has no test_pass evidence"@,
                expected:
                    "record evidence with evidence_type='test_pass' via cvg_record_evidence or cvg_complete_task"@,
            },
        )
    }
}

/// A task needs evidence of a passing test.
pub fn test_gate(db: &Store, task_id: i64) -> (r: Result<(), GateError>)
    ensures
        gate_error(r) == test_error(db@, task_id),
{
    if has_evidence(db, task_id, "test_pass") {
        return Ok(());
    }
    Err(
        GateError {
            gate: "TestGate",
            reason: cat3("task ", dec_i64(task_id).as_str(), " has no test_pass evidence"),
            expected:
                "record evidence with evidence_type='test_pass' via cvg_record_evidence or cvg_complete_task".to_owned(),
        },
    )
}

/// What the evidence gate finds.
pub open spec fn evidence_error(s: StoreView, task_id: i64) -> Option<GateErrorView> {
    if any(s.task_evidence.rows, evidence_of(task_id)) {
        None
    } else {
        Some(
            GateErrorView {
                gate: "EvidenceGate"@,
                reason: "task "@ + dec(task_id as int) + " has zero evidence records"@,
                expected:
                    "record at least one evidence entry via cvg_record_evidence (evidence_type: 'test_result' or 'test_pass')"@,
            },
        )
    }
}

/// Whether a task has evidence of any type.
pub fn has_any_evidence(db: &Store, task_id: i64) -> (r: bool)
    ensures
        r == any(db@.task_evidence.rows, evidence_of(task_id)),
{
    any_where(
        &db.task_evidence.rows,
        |e: &EvidenceRecord| -> (b: bool) ensures b == evidence_of(task_id)(e@) {
            e.task_id == task_id
        },
        Ghost(evidence_of(task_id)),
    )
}

/// A task needs evidence of some type.
pub fn evidence_gate(db: &Store, task_id: i64) -> (r: Result<(), GateError>)
    ensures
        gate_error(r) == evidence_error(db@, task_id),
{
    if has_any_evidence(db, task_id) {
        return Ok(());
    }
    Err(
        GateError {
            gate: "EvidenceGate",
            reason: cat3("task ", dec_i64(task_id).as_str(), " has zero evidence records"),
            expected:
                "record at least one evidence entry via cvg_record_evidence (evidence_type: 'test_result' or 'test_pass')".to_owned(),
        },
    )
}

/// What the validator gate finds.
pub open spec fn validator_error(s: StoreView, task_id: i64) -> Option<GateErrorView> {
    if validated(s, task_id) {
        None
    } else {
        Some(
            GateErrorView {
                gate: "ValidatorGate"@,
                reason: "task "@ + dec(task_id as int) + " has no passing validation verdict"@,
                expected:
                    "run cvg_validate_plan to trigger Thor validation — all wave tasks must be 'submitted' first"@,
            },
        )
    }
}

/// A task needs a passing validation.
pub fn validator_gate(db: &Store, task_id: i64) -> (r: Result<(), GateError>)
    ensures
        gate_error(r) == validator_error(db@, task_id),
{
    if has_passing_verdict(db, task_id) {
        return Ok(());
    }
    Err(
        GateError {
            gate: "ValidatorGate",
            reason: cat3("task ", dec_i64(task_id).as_str(), " has no passing validation verdict"),
            expected:
                "run cvg_validate_plan to trigger Thor validation — all wave tasks must be 'submitted' first".to_owned(),
        },
    )
}

// ---- pull requests and commits ----

/// Whether the character is a hexadecimal digit of ASCII.
pub open spec fn is_hex(c: char) -> bool {
    '0' <= c <= '9' || 'a' <= c <= 'f' || 'A' <= c <= 'F'
}

/// Every character but the hexadecimal digits.
pub open spec fn not_hex() -> spec_fn(char) -> bool {
    |c: char| !is_hex(c)
}

/// Whether a word, apart from what surrounds it, is 7 to 40 hexadecimal digits.
pub open spec fn hash_like(word: Seq<char>) -> bool {
    let w = trimmed_of(word, not_hex());
    7 <= w.len() <= 40 && forall|i: int| 0 <= i < w.len() ==> is_hex(#[trigger] w[i])
}

/// Whether a text names a pull request of GitHub.
pub open spec fn names_pull_request(text: Seq<char>) -> bool {
    occurs(text, "github.com/"@) && occurs(text, "/pull/"@)
}

/// Whether a text names a pull request, or one of its words is like a commit hash.
pub open spec fn names_change(text: Seq<char>) -> bool {
    names_pull_request(text) || any(words(text), |w: Seq<char>| hash_like(w))
}

/// Whether the character is a hexadecimal digit of ASCII.
fn hex(c: char) -> (r: bool)
    ensures
        r == is_hex(c),
{
    ('0' <= c && c <= '9') || ('a' <= c && c <= 'f') || ('A' <= c && c <= 'F')
}

/// Whether a word is like a commit hash.
fn is_hash_like(word: &str) -> (r: bool)
    ensures
        r == hash_like(word@),
{
    let w = trim_matches(
        word,
        |c: char| -> (b: bool) ensures b == !is_hex(c) { !hex(c) },
        Ghost(not_hex()),
    );
    let cs = to_chars(w.as_str());
    if cs.len() < 7 || cs.len() > 40 {
        return false;
    }
    let mut i: usize = 0;
    while i < cs.len()
        invariant
            i <= cs@.len(),
            cs@ == trimmed_of(word@, not_hex()),
            forall|k: int| 0 <= k < i ==> is_hex(#[trigger] cs@[k]),
        decreases cs@.len() - i,
    {
        if !hex(cs[i]) {
            return false;
        }
        i += 1;
    }
    true
}

/// Whether a text names a pull request, or one of its words is like a commit hash.
pub fn has_pr_or_commit(text: &str) -> (r: bool)
    ensures
        r == names_change(text@),
{
    if contains(text, "github.com/") && contains(text, "/pull/") {
        return true;
    }
    let list = split_words(text);
    let ghost all = words(text@);
    let mut i: usize = 0;
    while i < list.len()
        invariant
            i <= list@.len(),
            all == texts(list@),
            all == words(text@),
            forall|k: int| 0 <= k < i ==> !hash_like(#[trigger] all[k]),
        decreases list@.len() - i,
    {
        if is_hash_like(list[i].as_str()) {
            assert(hash_like(all[i as int]));
            return true;
        }
        assert(all[i as int] == list@[i as int]@);
        i += 1;
    }
    false
}

/// What the pull request gate finds.
pub open spec fn pr_commit_error(s: StoreView, task_id: i64) -> Option<GateErrorView> {
    if names_change(task_notes(s, task_id)) {
        None
    } else {
        Some(
            GateErrorView {
                gate: "PrCommitGate"@,
                reason: "task "@ + dec(task_id as int) + " notes missing PR URL or commit hash"@,
                expected:
                    "task notes must contain a GitHub PR URL (https://github.com/<owner>/<repo>/pull/<N>) or a 7-40 char hex commit hash"@,
            },
        )
    }
}

/// The notes of a task, empty where there are none.
pub open spec fn task_notes(s: StoreView, task_id: i64) -> Seq<char> {
    match first(s.tasks.rows, task_is(task_id)) {
        Some(t) => text_or_empty(t.notes),
        None => Seq::empty(),
    }
}

/// The notes of a task must name a pull request or a commit.
pub fn pr_commit_gate(db: &Store, task_id: i64) -> (r: Result<(), GateError>)
    ensures
        gate_error(r) == pr_commit_error(db@, task_id),
{
    let named = match find_task(db, task_id) {
        Some(k) => match &db.tasks.rows[k].notes {
            Some(n) => has_pr_or_commit(n.as_str()),
            None => has_pr_or_commit(String::new().as_str()),
        },
        None => has_pr_or_commit(String::new().as_str()),
    };
    if named {
        return Ok(());
    }
    Err(
        GateError {
            gate: "PrCommitGate",
            reason: cat3(
                "task ",
                dec_i64(task_id).as_str(),
                " notes missing PR URL or commit hash",
            ),
            expected:
                "task notes must contain a GitHub PR URL (https://github.com/<owner>/<repo>/pull/<N>) or a 7-40 char hex commit hash".to_owned(),
        },
    )
}

// ---- waves ----

/// The statuses in which a task no longer holds up the waves after its own.
pub open spec fn settled(status: Seq<char>) -> bool {
    status == "done"@ || status == "submitted"@ || status == "cancelled"@ || status == "skipped"@
}

/// Whether a task with this status no longer holds up the waves after its own.
pub fn is_settled(status: &str) -> (r: bool)
    ensures
        r == settled(status@),
{
    same(status, "done") || same(status, "submitted") || same(status, "cancelled") || same(
        status,
        "skipped",
    )
}

/// The tasks of a wave that hold up the waves after it.
pub open spec fn unsettled_in(plan_id: i64, wave_id: i64) -> spec_fn(TaskRowView) -> bool {
    |t: TaskRowView| t.plan_id == plan_id && t.wave_id == Some(wave_id) && !settled(t.status)
}

/// How many tasks of a wave hold up the waves after it.
pub fn count_unsettled(db: &Store, plan_id: i64, wave_id: i64) -> (n: usize)
    ensures
        n == count(db@.tasks.rows, unsettled_in(plan_id, wave_id)),
{
    count_where(
        &db.tasks.rows,
        |t: &TaskRow| -> (b: bool) ensures b == unsettled_in(plan_id, wave_id)(t@) {
            t.plan_id == plan_id && (match t.wave_id {
                Some(w) => w == wave_id,
                None => false,
            }) && !is_settled(t.status.as_str())
        },
        Ghost(unsettled_in(plan_id, wave_id)),
    )
}

/// The waves of a plan that are called by the given name.
pub open spec fn wave_named(plan_id: i64, name: Seq<char>) -> spec_fn(WaveRowView) -> bool {
    |w: WaveRowView| w.plan_id == plan_id && w.wave_id == name
}

/// The waves of a plan before the given one.
pub open spec fn wave_before(plan_id: i64, wave_id: i64) -> spec_fn(WaveRowView) -> bool {
    |w: WaveRowView| w.plan_id == plan_id && w.id < wave_id
}

/// The wave that a wave says it depends on, where there is such a wave in the plan.
pub open spec fn declared_dependency(s: StoreView, plan_id: i64, wave_id: i64) -> Option<i64> {
    match first(s.waves.rows, wave_is(wave_id)) {
        Some(w) => match w.depends_on_wave {
            Some(name) => if name.len() == 0 {
                None
            } else {
                match first(s.waves.rows, wave_named(plan_id, name)) {
                    Some(d) => Some(d.id),
                    None => None,
                }
            },
            None => None,
        },
        None => None,
    }
}

/// The wave that has to be finished before a wave: the one it says it depends on, or
/// else the last one before it.
pub open spec fn predecessor(s: StoreView, plan_id: i64, wave_id: i64) -> Option<i64> {
    match declared_dependency(s, plan_id, wave_id) {
        Some(d) => Some(d),
        None => largest::<WaveRow>(s.waves.rows.filter(wave_before(plan_id, wave_id))),
    }
}

/// What the wave sequence gate finds.
pub open spec fn wave_sequence_error(s: StoreView, task_id: i64) -> Option<GateErrorView> {
    match first(s.tasks.rows, task_is(task_id)) {
        None => Some(
            GateErrorView {
                gate: "WaveSequenceGate"@,
                reason: "task "@ + dec(task_id as int) + " not found"@,
                expected: "task must exist in database"@,
            },
        ),
        Some(t) => match t.wave_id {
            None => None,
            Some(wave_id) => match predecessor(s, t.plan_id, wave_id) {
                None => None,
                Some(prev) => {
                    let open = count(s.tasks.rows, unsettled_in(t.plan_id, prev));
                    if open == 0 {
                        None
                    } else {
                        Some(sequence_error(prev, open, task_id, wave_id))
                    }
                },
            },
        },
    }
}

/// The error for a wave that is held up by an earlier one.
pub open spec fn sequence_error(prev: i64, open: nat, task_id: i64, wave_id: i64) -> GateErrorView {
    GateErrorView {
        gate: "WaveSequenceGate"@,
        reason: "wave "@ + dec(prev as int) + " has "@ + dec(open as int)
            + " incomplete tasks — cannot start task "@ + dec(task_id as int) + " in wave "@ + dec(
            wave_id as int,
        ),
        expected: "all tasks in wave "@ + dec(prev as int)
            + " must reach 'done' or 'submitted' before starting tasks in wave "@ + dec(
            wave_id as int,
        ),
    }
}

/// The wave that has to be finished before a wave.
fn find_predecessor(db: &Store, plan_id: i64, wave_id: i64) -> (r: Option<i64>)
    ensures
        r == predecessor(db@, plan_id, wave_id),
{
    if let Some(k) = find_wave(db, wave_id) {
        if let Some(name) = &db.waves.rows[k].depends_on_wave {
            if !name.as_str().is_empty() {
                let declared = find_where(
                    &db.waves.rows,
                    |w: &WaveRow| -> (b: bool) ensures b == wave_named(plan_id, name@)(w@) {
                        w.plan_id == plan_id && same(w.wave_id.as_str(), name.as_str())
                    },
                    Ghost(wave_named(plan_id, name@)),
                );
                if let Some(d) = declared {
                    return Some(db.waves.rows[d].id);
                }
            }
        }
    }
    largest_where(
        &db.waves.rows,
        |w: &WaveRow| -> (b: bool) ensures b == wave_before(plan_id, wave_id)(w@) {
            w.plan_id == plan_id && w.id < wave_id
        },
        Ghost(wave_before(plan_id, wave_id)),
    )
}

/// A task may start once the wave before its own is settled.
pub fn wave_sequence_gate(db: &Store, task_id: i64) -> (r: Result<(), GateError>)
    ensures
        gate_error(r) == wave_sequence_error(db@, task_id),
{
    let k = match find_task(db, task_id) {
        Some(k) => k,
        None => {
            return Err(
                GateError {
                    gate: "WaveSequenceGate",
                    reason: cat3("task ", dec_i64(task_id).as_str(), " not found"),
                    expected: "task must exist in database".to_owned(),
                },
            );
        },
    };
    let plan_id: i64 = db.tasks.rows[k].plan_id;
    let wave_id: i64 = match db.tasks.rows[k].wave_id {
        Some(w) => w,
        None => {
            return Ok(());
        },
    };
    let prev: i64 = match find_predecessor(db, plan_id, wave_id) {
        Some(p) => p,
        None => {
            return Ok(());
        },
    };
    let open: usize = count_unsettled(db, plan_id, prev);
    if open == 0 {
        return Ok(());
    }
    let mut reason = cat5(
        "wave ",
        dec_i64(prev).as_str(),
        " has ",
        dec_usize(open).as_str(),
        " incomplete tasks — cannot start task ",
    );
    reason.append(dec_i64(task_id).as_str());
    reason.append(" in wave ");
    reason.append(dec_i64(wave_id).as_str());
    let mut expected = cat3(
        "all tasks in wave ",
        dec_i64(prev).as_str(),
        " must reach 'done' or 'submitted' before starting tasks in wave ",
    );
    expected.append(dec_i64(wave_id).as_str());
    Err(GateError { gate: "WaveSequenceGate", reason, expected })
}

// ---- plan status ----

/// The plan of a task, where both are there.
pub open spec fn plan_of_task(s: StoreView, task_id: i64) -> Option<PlanRowView> {
    match first(s.tasks.rows, task_is(task_id)) {
        Some(t) => first(s.plans.rows, plan_is(t.plan_id)),
        None => None,
    }
}

/// What the plan status gate finds.
pub open spec fn plan_status_error(s: StoreView, task_id: i64) -> Option<GateErrorView> {
    match plan_of_task(s, task_id) {
        None => Some(
            GateErrorView {
                gate: "PlanStatusGate"@,
                reason: "task "@ + dec(task_id as int) + " or its plan not found"@,
                expected: "task and its parent plan must exist"@,
            },
        ),
        Some(p) => if p.status == "in_progress"@ {
            None
        } else {
            Some(
                GateErrorView {
                    gate: "PlanStatusGate"@,
                    reason: "plan "@ + dec(p.id as int) + " is '"@ + p.status
                        + "', not 'in_progress' — task transitions blocked"@,
                    expected:
                        "start the plan first via cvg_start_plan — plan status must be 'in_progress'"@,
                },
            )
        },
    }
}

/// Tasks move only while their plan is in progress.
pub fn plan_status_gate(db: &Store, task_id: i64) -> (r: Result<(), GateError>)
    ensures
        gate_error(r) == plan_status_error(db@, task_id),
{
    let plan = match find_task(db, task_id) {
        Some(k) => find_plan(db, db.tasks.rows[k].plan_id),
        None => None,
    };
    match plan {
        None => Err(
            GateError {
                gate: "PlanStatusGate",
                reason: cat3("task ", dec_i64(task_id).as_str(), " or its plan not found"),
                expected: "task and its parent plan must exist".to_owned(),
            },
        ),
        Some(k) => {
            let p = &db.plans.rows[k];
            if same(p.status.as_str(), "in_progress") {
                Ok(())
            } else {
                Err(
                    GateError {
                        gate: "PlanStatusGate",
                        reason: cat5(
                            "plan ",
                            dec_i64(p.id).as_str(),
                            " is '",
                            p.status.as_str(),
                            "', not 'in_progress' — task transitions blocked",
                        ),
                        expected:
                            "start the plan first via cvg_start_plan — plan status must be 'in_progress'".to_owned(),
                    },
                )
            }
        },
    }
}

// ---- transitions ----

/// What is known of a task's branch and of its compliance with the plan's rules when a
/// transition is asked for.
pub struct BranchPolicy {
    /// Whether the task complies with the rules of its plan.
    pub spec_compliance: Result<(), GateError>,
    /// Whether the task's project commits straight to the main branch.
    pub direct_to_main: bool,
    /// Whether the branch of the task's wave is accepted.
    pub wave_branch: Result<(), GateError>,
}

/// What the gates on a transition find first.
pub open spec fn transition_error(
    s: StoreView,
    task_id: i64,
    new_status: Seq<char>,
    policy: BranchPolicy,
    block_conflicts: bool,
) -> Option<GateErrorView> {
    if new_status == "submitted"@ {
        if plan_status_error(s, task_id) is Some {
            plan_status_error(s, task_id)
        } else if evidence_error(s, task_id) is Some {
            evidence_error(s, task_id)
        } else if test_error(s, task_id) is Some {
            test_error(s, task_id)
        } else if gate_error(policy.spec_compliance) is Some {
            gate_error(policy.spec_compliance)
        } else if policy.direct_to_main {
            None
        } else if pr_commit_error(s, task_id) is Some {
            pr_commit_error(s, task_id)
        } else {
            gate_error(policy.wave_branch)
        }
    } else if new_status == "in_progress"@ {
        if plan_status_error(s, task_id) is Some {
            plan_status_error(s, task_id)
        } else if wave_sequence_error(s, task_id) is Some {
            wave_sequence_error(s, task_id)
        } else {
            file_conflict_error(s, task_id, block_conflicts)
        }
    } else if new_status == "done"@ {
        validator_error(s, task_id)
    } else {
        None
    }
}

/// Runs all gates that apply to a task's status transition, and returns what the first
/// closed one says.
pub fn check_task_transition(
    db: &Store,
    task_id: i64,
    new_status: &str,
    policy: BranchPolicy,
    block_conflicts: bool,
) -> (r: Result<(), GateError>)
    ensures
        gate_error(r) == transition_error(db@, task_id, new_status@, policy, block_conflicts),
{
    proof {
        reveal_strlit("submitted");
        reveal_strlit("in_progress");
        reveal_strlit("done");
        assert("submitted"@.len() == 9 && "in_progress"@.len() == 11 && "done"@.len() == 4);
    }
    if same(new_status, "submitted") {
        if let Err(e) = plan_status_gate(db, task_id) {
            return Err(e);
        }
        if let Err(e) = evidence_gate(db, task_id) {
            return Err(e);
        }
        if let Err(e) = test_gate(db, task_id) {
            return Err(e);
        }
        if let Err(e) = policy.spec_compliance {
            return Err(e);
        }
        if policy.direct_to_main {
            return Ok(());
        }
        if let Err(e) = pr_commit_gate(db, task_id) {
            return Err(e);
        }
        policy.wave_branch
    } else if same(new_status, "in_progress") {
        if let Err(e) = plan_status_gate(db, task_id) {
            return Err(e);
        }
        if let Err(e) = wave_sequence_gate(db, task_id) {
            return Err(e);
        }
        file_conflict_check(db, task_id, block_conflicts)
    } else if same(new_status, "done") {
        validator_gate(db, task_id)
    } else {
        Ok(())
    }
}

/// What each transition of a task asks for. A task is submitted exactly where its plan is in
/// progress, a passing test is recorded, the plan's rules are met, and its notes name a change
/// on an accepted branch, unless the project commits straight to main. It starts exactly where
/// its plan is in progress, the wave before its own is settled, and no blocking overlap of
/// files is found. It is done exactly where a validation has passed. No other status is guarded.
pub proof fn law_what_transitions_ask(
    s: StoreView,
    task_id: i64,
    new_status: Seq<char>,
    policy: BranchPolicy,
    block: bool,
)
    ensures
        new_status == "submitted"@ ==> (transition_error(s, task_id, new_status, policy, block)
            is None <==> {
            &&& plan_of_task(s, task_id) matches Some(p) && p.status == "in_progress"@
            &&& recorded(s, task_id, "test_pass"@)
            &&& policy.spec_compliance is Ok
            &&& policy.direct_to_main || (names_change(task_notes(s, task_id))
                && policy.wave_branch is Ok)
        }),
        new_status == "in_progress"@ ==> (transition_error(s, task_id, new_status, policy, block)
            is None <==> {
            &&& plan_of_task(s, task_id) matches Some(p) && p.status == "in_progress"@
            &&& predecessor_settled(s, task_id)
            &&& !(block && crate::file_conflict_gate::file_conflicts(s, task_id) is Some)
        }),
        new_status == "done"@ ==> (transition_error(s, task_id, new_status, policy, block) is None
            <==> validated(s, task_id)),
        new_status != "submitted"@ && new_status != "in_progress"@ && new_status != "done"@
            ==> transition_error(s, task_id, new_status, policy, block) is None,
{
    reveal_strlit("submitted");
    reveal_strlit("in_progress");
    reveal_strlit("done");
    assert("submitted"@.len() == 9 && "in_progress"@.len() == 11 && "done"@.len() == 4);
    if recorded(s, task_id, "test_pass"@) {
        let p = crate::evidence::evidence_typed(task_id, "test_pass"@);
        let rows = s.task_evidence.rows;
        let i = choose|i: int| 0 <= i < rows.len() && p(#[trigger] rows[i]);
        assert(evidence_of(task_id)(rows[i]));
    }
    if let Some(t) = first(s.tasks.rows, task_is(task_id)) {
        if let Some(w) = t.wave_id {
            if let Some(prev) = predecessor(s, t.plan_id, w) {
                crate::table::lemma_count_any(s.tasks.rows, unsettled_in(t.plan_id, prev));
            }
        }
    }
}

/// The gates on transitions and the gates on evidence agree on tests and on validation.
pub proof fn law_gates_agree(s: StoreView, task_id: i64)
    ensures
        test_error(s, task_id) is None <==> crate::evidence_gates::test_violation(s, task_id)
            is None,
        validator_error(s, task_id) is None <==> crate::evidence_gates::validator_violation(
            s,
            task_id,
        ) is None,
{
}

/// Whether every task of the wave before a task's own is settled.
pub open spec fn predecessor_settled(s: StoreView, task_id: i64) -> bool {
    match first(s.tasks.rows, task_is(task_id)) {
        Some(t) => match t.wave_id {
            Some(w) => match predecessor(s, t.plan_id, w) {
                Some(prev) => forall|i: int|
                    0 <= i < s.tasks.rows.len() && (#[trigger] s.tasks.rows[i]).plan_id == t.plan_id
                        && s.tasks.rows[i].wave_id == Some(prev) ==> settled(s.tasks.rows[i].status),
                None => true,
            },
            None => true,
        },
        None => false,
    }
}

/// Without a declared dependency, the wave before a wave is the last one of the plan that
/// has a smaller id, and there is none only where no wave of the plan has a smaller id.
pub proof fn law_waves_in_sequence(s: StoreView, plan_id: i64, wave_id: i64)
    requires
        declared_dependency(s, plan_id, wave_id) is None,
    ensures
        match predecessor(s, plan_id, wave_id) {
            Some(prev) => {
                &&& prev < wave_id
                &&& exists|i: int|
                    0 <= i < s.waves.rows.len() && (#[trigger] s.waves.rows[i]).id == prev
                        && s.waves.rows[i].plan_id == plan_id
                &&& forall|i: int|
                    0 <= i < s.waves.rows.len() && (#[trigger] s.waves.rows[i]).plan_id == plan_id
                        && s.waves.rows[i].id < wave_id ==> s.waves.rows[i].id <= prev
            },
            None => forall|i: int|
                0 <= i < s.waves.rows.len() && (#[trigger] s.waves.rows[i]).plan_id == plan_id
                    ==> s.waves.rows[i].id >= wave_id,
        },
{
    let rows = s.waves.rows;
    let p = wave_before(plan_id, wave_id);
    let f = rows.filter(p);
    crate::table::lemma_largest::<WaveRow>(f);
    assert forall|i: int| 0 <= i < rows.len() && p(#[trigger] rows[i]) implies f.contains(
        rows[i],
    ) by {
        rows.lemma_filter_contains(p, i);
    }
    if let Some(prev) = predecessor(s, plan_id, wave_id) {
        let j = choose|j: int| 0 <= j < f.len() && WaveRow::key(#[trigger] f[j]) == prev;
        assert(f.contains(f[j]));
        rows.lemma_filter_contains_rev(p, f[j]);
        let k = choose|k: int| 0 <= k < rows.len() && rows[k] == f[j];
        assert(rows[k].id == prev);
        rows.lemma_filter_pred(p, j);
        assert forall|i: int|
            0 <= i < rows.len() && (#[trigger] rows[i]).plan_id == plan_id && rows[i].id
                < wave_id implies rows[i].id <= prev by {
            assert(p(rows[i]));
            let m = choose|m: int| 0 <= m < f.len() && f[m] == rows[i];
            assert(WaveRow::key(f[m]) <= prev);
        }
    } else {
        assert forall|i: int|
            0 <= i < rows.len() && (#[trigger] rows[i]).plan_id == plan_id implies rows[i].id
            >= wave_id by {
            if rows[i].id < wave_id {
                assert(p(rows[i]));
            }
        }
    }
}

/// A task that stands in the store, in a sound one, is the one that its number finds.
proof fn lemma_task_found(s: StoreView, i: int)
    requires
        sound(s),
        0 <= i < s.tasks.rows.len(),
    ensures
        first(s.tasks.rows, task_is(s.tasks.rows[i].id)) == Some(s.tasks.rows[i]),
{
    crate::table::lemma_first_keyed::<TaskRow>(s.tasks, task_is(s.tasks.rows[i].id), i);
}

/// The wave sequence asks only about the wave that has to be finished before: the task may start
/// exactly where each task of the same plan in that wave is done, submitted, cancelled or
/// skipped.
proof fn lemma_sequence(s: StoreView, i: int, prev: i64)
    requires
        sound(s),
        0 <= i < s.tasks.rows.len(),
        s.tasks.rows[i].wave_id is Some,
        predecessor(s, s.tasks.rows[i].plan_id, s.tasks.rows[i].wave_id->0) == Some(prev),
    ensures
        wave_sequence_error(s, s.tasks.rows[i].id) is None <==> forall|j: int|
            0 <= j < s.tasks.rows.len() && (#[trigger] s.tasks.rows[j]).plan_id
                == s.tasks.rows[i].plan_id && s.tasks.rows[j].wave_id == Some(prev)
                ==> s.tasks.rows[j].status == "done"@ || s.tasks.rows[j].status == "submitted"@
                || s.tasks.rows[j].status == "cancelled"@ || s.tasks.rows[j].status == "skipped"@,
{
    lemma_task_found(s, i);
    let t = s.tasks.rows[i];
    let rows = s.tasks.rows;
    crate::table::lemma_count_any(rows, unsettled_in(t.plan_id, prev));
    assert forall|j: int| 0 <= j < rows.len() implies (unsettled_in(t.plan_id, prev)(
        #[trigger] rows[j],
    ) <==> rows[j].plan_id == t.plan_id && rows[j].wave_id == Some(prev) && !(rows[j].status
        == "done"@ || rows[j].status == "submitted"@ || rows[j].status == "cancelled"@
        || rows[j].status == "skipped"@)) by {}
}

/// A task of a wave that names another wave of its plan as the one it depends on is held up
/// exactly while a task of that wave is neither done, submitted, cancelled nor skipped.
pub proof fn law_declared_wave_holds_up(s: StoreView, i: int, k: int, d: int, name: Seq<char>)
    requires
        sound(s),
        0 <= i < s.tasks.rows.len(),
        0 <= k < s.waves.rows.len(),
        0 <= d < s.waves.rows.len(),
        s.tasks.rows[i].wave_id == Some(s.waves.rows[k].id),
        s.waves.rows[k].depends_on_wave == Some(name),
        name.len() > 0,
        s.waves.rows[d].plan_id == s.tasks.rows[i].plan_id,
        s.waves.rows[d].wave_id == name,
        forall|m: int|
            0 <= m < s.waves.rows.len() && (#[trigger] s.waves.rows[m]).plan_id
                == s.tasks.rows[i].plan_id && s.waves.rows[m].wave_id == name ==> m == d,
    ensures
        wave_sequence_error(s, s.tasks.rows[i].id) is None <==> forall|j: int|
            0 <= j < s.tasks.rows.len() && (#[trigger] s.tasks.rows[j]).plan_id
                == s.tasks.rows[i].plan_id && s.tasks.rows[j].wave_id == Some(s.waves.rows[d].id)
                ==> s.tasks.rows[j].status == "done"@ || s.tasks.rows[j].status == "submitted"@
                || s.tasks.rows[j].status == "cancelled"@ || s.tasks.rows[j].status == "skipped"@,
{
    let t = s.tasks.rows[i];
    let w = s.waves.rows[k];
    crate::table::lemma_first_keyed::<WaveRow>(s.waves, wave_is(w.id), k);
    crate::table::lemma_first_at(s.waves.rows, wave_named(t.plan_id, name), d);
    lemma_sequence(s, i, s.waves.rows[d].id);
}

/// A task of a wave that names no other wave of its plan is held up exactly while a task of the
/// wave before it, the one of the plan with the next smaller id, is neither done, submitted,
/// cancelled nor skipped.
pub proof fn law_wave_before_holds_up(s: StoreView, i: int, w: i64, p: int)
    requires
        sound(s),
        0 <= i < s.tasks.rows.len(),
        0 <= p < s.waves.rows.len(),
        s.tasks.rows[i].wave_id == Some(w),
        forall|m: int|
            0 <= m < s.waves.rows.len() && (#[trigger] s.waves.rows[m]).id == w ==> (
            s.waves.rows[m].depends_on_wave is None || s.waves.rows[m].depends_on_wave->0.len() == 0
                || forall|x: int|
                0 <= x < s.waves.rows.len() && (#[trigger] s.waves.rows[x]).plan_id
                    == s.tasks.rows[i].plan_id ==> s.waves.rows[x].wave_id
                    != s.waves.rows[m].depends_on_wave->0),
        s.waves.rows[p].plan_id == s.tasks.rows[i].plan_id,
        s.waves.rows[p].id < w,
        forall|m: int|
            0 <= m < s.waves.rows.len() && (#[trigger] s.waves.rows[m]).plan_id
                == s.tasks.rows[i].plan_id && s.waves.rows[m].id < w ==> s.waves.rows[m].id
                <= s.waves.rows[p].id,
    ensures
        wave_sequence_error(s, s.tasks.rows[i].id) is None <==> forall|j: int|
            0 <= j < s.tasks.rows.len() && (#[trigger] s.tasks.rows[j]).plan_id
                == s.tasks.rows[i].plan_id && s.tasks.rows[j].wave_id == Some(s.waves.rows[p].id)
                ==> s.tasks.rows[j].status == "done"@ || s.tasks.rows[j].status == "submitted"@
                || s.tasks.rows[j].status == "cancelled"@ || s.tasks.rows[j].status == "skipped"@,
{
    let t = s.tasks.rows[i];
    lemma_undeclared(s, t.plan_id, w);
    law_waves_in_sequence(s, t.plan_id, w);
    let prev = predecessor(s, t.plan_id, w)->0;
    assert(s.waves.rows[p].id <= prev);
    lemma_sequence(s, i, prev);
}

/// A wave that names no wave of the plan declares no dependency.
proof fn lemma_undeclared(s: StoreView, plan_id: i64, w: i64)
    requires
        forall|m: int|
            0 <= m < s.waves.rows.len() && (#[trigger] s.waves.rows[m]).id == w ==> (
            s.waves.rows[m].depends_on_wave is None || s.waves.rows[m].depends_on_wave->0.len() == 0
                || forall|x: int|
                0 <= x < s.waves.rows.len() && (#[trigger] s.waves.rows[x]).plan_id == plan_id
                    ==> s.waves.rows[x].wave_id != s.waves.rows[m].depends_on_wave->0),
    ensures
        declared_dependency(s, plan_id, w) is None,
{
    crate::table::lemma_first_place(s.waves.rows, wave_is(w));
    if let Some(r) = first(s.waves.rows, wave_is(w)) {
        let m = choose|m: int| 0 <= m < s.waves.rows.len() && #[trigger] s.waves.rows[m] == r;
        if let Some(name) = r.depends_on_wave {
            crate::table::lemma_first_place(s.waves.rows, wave_named(plan_id, name));
        }
    }
}

/// A task without a wave, and a task of the first wave of its plan that names no other, is held
/// up by none. A task that is not there is refused.
pub proof fn law_first_wave_is_free(s: StoreView, task_id: i64)
    ensures
        (forall|i: int| 0 <= i < s.tasks.rows.len() ==> (#[trigger] s.tasks.rows[i]).id != task_id)
            ==> wave_sequence_error(s, task_id) is Some && plan_status_error(s, task_id) is Some,
        forall|i: int|
            sound(s) && 0 <= i < s.tasks.rows.len() && (#[trigger] s.tasks.rows[i]).id == task_id
                && s.tasks.rows[i].wave_id is None ==> wave_sequence_error(s, task_id) is None,
        forall|i: int|
            sound(s) && 0 <= i < s.tasks.rows.len() && (#[trigger] s.tasks.rows[i]).id == task_id
                && s.tasks.rows[i].wave_id is Some && (forall|m: int|
                0 <= m < s.waves.rows.len() && (#[trigger] s.waves.rows[m]).plan_id
                    == s.tasks.rows[i].plan_id ==> s.waves.rows[m].id >= s.tasks.rows[i].wave_id->0)
                && (forall|m: int|
                0 <= m < s.waves.rows.len() && (#[trigger] s.waves.rows[m]).id
                    == s.tasks.rows[i].wave_id->0 ==> s.waves.rows[m].depends_on_wave is None)
                ==> wave_sequence_error(s, task_id) is None,
{
    crate::table::lemma_first_place(s.tasks.rows, task_is(task_id));
    assert forall|i: int|
        sound(s) && 0 <= i < s.tasks.rows.len() && (#[trigger] s.tasks.rows[i]).id
            == task_id implies first(s.tasks.rows, task_is(task_id)) == Some(s.tasks.rows[i]) by {
        lemma_task_found(s, i);
    }
    assert forall|i: int|
        sound(s) && 0 <= i < s.tasks.rows.len() && (#[trigger] s.tasks.rows[i]).id == task_id
            && s.tasks.rows[i].wave_id is Some && (forall|m: int|
            0 <= m < s.waves.rows.len() && (#[trigger] s.waves.rows[m]).plan_id
                == s.tasks.rows[i].plan_id ==> s.waves.rows[m].id >= s.tasks.rows[i].wave_id->0) && (
        forall|m: int|
            0 <= m < s.waves.rows.len() && (#[trigger] s.waves.rows[m]).id
                == s.tasks.rows[i].wave_id->0 ==> s.waves.rows[m].depends_on_wave
                is None) implies wave_sequence_error(s, task_id) is None by {
        let t = s.tasks.rows[i];
        lemma_undeclared(s, t.plan_id, t.wave_id->0);
        law_waves_in_sequence(s, t.plan_id, t.wave_id->0);
    }
}

/// Which transitions of a task are let through, over the rows of the store. To be submitted, the
/// task's plan must be in progress, a passing test be recorded, the plan's rules be met, and,
/// unless the project commits straight to main, its notes name a change and its branch be
/// accepted. To start, its plan must be in progress, the wave sequence must let it, and, where
/// overlaps block, no other task in progress may claim one of its files. To be done, a passing
/// verdict on an entry of the queue about the task is needed. Any other status is free.
pub proof fn law_transitions_over_rows(
    s: StoreView,
    i: int,
    new_status: Seq<char>,
    policy: BranchPolicy,
    block: bool,
)
    requires
        sound(s),
        0 <= i < s.tasks.rows.len(),
    ensures
        ({
            let t = s.tasks.rows[i];
            let e = transition_error(s, t.id, new_status, policy, block);
            let runs = exists|k: int|
                0 <= k < s.plans.rows.len() && (#[trigger] s.plans.rows[k]).id == t.plan_id
                    && s.plans.rows[k].status == "in_progress"@;
            let tested = exists|k: int|
                0 <= k < s.task_evidence.rows.len() && (#[trigger] s.task_evidence.rows[k]).task_id
                    == t.id && s.task_evidence.rows[k].evidence_type == "test_pass"@;
            let passed = exists|v: int, q: int|
                0 <= v < s.validation_verdicts.rows.len() && 0 <= q < s.validation_queue.rows.len()
                    && (#[trigger] s.validation_verdicts.rows[v]).verdict == "pass"@ && (
                #[trigger] s.validation_queue.rows[q]).id == s.validation_verdicts.rows[v].queue_id
                    && s.validation_queue.rows[q].task_id == Some(t.id);
            let notes = match t.notes {
                Some(n) => n,
                None => Seq::empty(),
            };
            &&& new_status == "submitted"@ ==> (e is None <==> runs && tested
                && policy.spec_compliance is Ok && (policy.direct_to_main || (names_change(notes)
                && policy.wave_branch is Ok)))
            &&& new_status == "in_progress"@ ==> (e is None <==> runs && wave_sequence_error(s, t.id)
                is None && !(block && crate::file_conflict_gate::file_conflicts(s, t.id) is Some))
            &&& new_status == "done"@ ==> (e is None <==> passed)
            &&& new_status != "submitted"@ && new_status != "in_progress"@ && new_status != "done"@
                ==> e is None
        }),
{
    law_what_transitions_ask(s, s.tasks.rows[i].id, new_status, policy, block);
    lemma_task_found(s, i);
    reveal_strlit("submitted");
    reveal_strlit("in_progress");
    reveal_strlit("done");
    assert("submitted"@.len() == 9 && "in_progress"@.len() == 11 && "done"@.len() == 4);
    let t = s.tasks.rows[i];
    let plans = s.plans.rows;
    crate::table::lemma_first_place(plans, plan_is(t.plan_id));
    if exists|k: int|
        0 <= k < plans.len() && (#[trigger] plans[k]).id == t.plan_id && plans[k].status
            == "in_progress"@ {
        let k = choose|k: int|
            0 <= k < plans.len() && (#[trigger] plans[k]).id == t.plan_id && plans[k].status
                == "in_progress"@;
        crate::table::lemma_first_keyed::<PlanRow>(s.plans, plan_is(t.plan_id), k);
    }
    assert(recorded(s, t.id, "test_pass"@) <==> exists|k: int|
        0 <= k < s.task_evidence.rows.len() && (#[trigger] s.task_evidence.rows[k]).task_id == t.id
            && s.task_evidence.rows[k].evidence_type == "test_pass"@);
    let vs = s.validation_verdicts.rows;
    let qs = s.validation_queue.rows;
    assert forall|v: int| 0 <= v < vs.len() implies (crate::verdicts::passes(s, t.id)(
        #[trigger] vs[v],
    ) <==> vs[v].verdict == "pass"@ && exists|q: int|
        0 <= q < qs.len() && (#[trigger] qs[q]).id == vs[v].queue_id && qs[q].task_id == Some(
            t.id,
        )) by {}
    if new_status == "in_progress"@ {
        if wave_sequence_error(s, t.id) is None {
            assert(predecessor_settled(s, t.id)) by {
                if let Some(w) = t.wave_id {
                    if let Some(prev) = predecessor(s, t.plan_id, w) {
                        crate::table::lemma_count_any(s.tasks.rows, unsettled_in(t.plan_id, prev));
                    }
                }
            }
        } else {
            assert(!predecessor_settled(s, t.id)) by {
                if let Some(w) = t.wave_id {
                    if let Some(prev) = predecessor(s, t.plan_id, w) {
                        crate::table::lemma_count_any(s.tasks.rows, unsettled_in(t.plan_id, prev));
                    }
                }
            }
        }
    }
}

/// Notes name a change where both the host and the path of a pull request stand in them. Notes
/// without the path of a pull request name a change only where seven hexadecimal digits stand
/// side by side in them.
pub proof fn law_notes_that_name_a_change(text: Seq<char>)
    ensures
        (exists|i: int, j: int|
            #![trigger text.subrange(i, i + 11), text.subrange(j, j + 6)]
            0 <= i && i + 11 <= text.len() && 0 <= j && j + 6 <= text.len() && text.subrange(
                i,
                i + 11,
            ) == "github.com/"@ && text.subrange(j, j + 6) == "/pull/"@) ==> names_change(text),
        names_change(text) ==> (exists|j: int|
            0 <= j && j + 6 <= text.len() && #[trigger] text.subrange(j, j + 6) == "/pull/"@) || (
        exists|w: int|
            0 <= w < words(text).len() && seven_hex(#[trigger] words(text)[w])),
        forall|w: int|
            0 <= w < words(text).len() && 7 <= (#[trigger] words(text)[w]).len() <= 40 && (forall|
                k: int,
            |
                0 <= k < words(text)[w].len() ==> '0' <= #[trigger] words(text)[w][k] <= '9' || 'a'
                    <= words(text)[w][k] <= 'f' || 'A' <= words(text)[w][k] <= 'F')
                ==> names_change(text),
{
    reveal_strlit("github.com/");
    reveal_strlit("/pull/");
    assert("github.com/"@.len() == 11 && "/pull/"@.len() == 6);
    if exists|i: int, j: int|
        #![trigger text.subrange(i, i + 11), text.subrange(j, j + 6)]
        0 <= i && i + 11 <= text.len() && 0 <= j && j + 6 <= text.len() && text.subrange(i, i + 11)
            == "github.com/"@ && text.subrange(j, j + 6) == "/pull/"@ {
        let (i, j) = choose|i: int, j: int|
            #![trigger text.subrange(i, i + 11), text.subrange(j, j + 6)]
            0 <= i && i + 11 <= text.len() && 0 <= j && j + 6 <= text.len() && text.subrange(
                i,
                i + 11,
            ) == "github.com/"@ && text.subrange(j, j + 6) == "/pull/"@;
        assert(crate::text::occurs_at(text, "github.com/"@, i));
        assert(crate::text::occurs_at(text, "/pull/"@, j));
    }
    let list = words(text);
    if names_change(text) {
        if occurs(text, "/pull/"@) {
            let j = choose|j: int| crate::text::occurs_at(text, "/pull/"@, j);
            assert(text.subrange(j, j + 6) == "/pull/"@);
        } else {
            let w = choose|w: int| 0 <= w < list.len() && hash_like(#[trigger] list[w]);
            let t = trimmed_of(list[w], not_hex());
            let at = crate::text::run(list[w], not_hex()) as int;
            crate::text::lemma_trimmed_within(list[w], not_hex());
            assert forall|k: int| at <= k < at + 7 implies is_hex(#[trigger] list[w][k]) by {
                assert(t[k - at] == list[w][k]);
            }
            let part = list[w].subrange(at, at + 7);
            assert forall|k: int| 0 <= k < part.len() implies '0' <= #[trigger] part[k] <= '9' || 'a'
                <= part[k] <= 'f' || 'A' <= part[k] <= 'F' by {
                assert(part[k] == list[w][at + k]);
                assert(is_hex(list[w][at + k]));
            }
            assert(all_hex(part));
        }
    }
    assert forall|w: int|
        0 <= w < list.len() && 7 <= (#[trigger] list[w]).len() <= 40 && (forall|k: int|
            0 <= k < list[w].len() ==> '0' <= #[trigger] list[w][k] <= '9' || 'a' <= list[w][k]
                <= 'f' || 'A' <= list[w][k] <= 'F') implies names_change(text) by {
        let word = list[w];
        crate::text::lemma_run(word, not_hex(), 0);
        assert(word.skip(0) =~= word);
        crate::text::lemma_run_back(word, not_hex(), 0);
        assert(trimmed_of(word, not_hex()) =~= word);
        assert(hash_like(list[w]));
    }
}

/// Whether seven hexadecimal digits stand side by side in a text.
pub open spec fn seven_hex(text: Seq<char>) -> bool {
    exists|at: int|
        0 <= at && at + 7 <= text.len() && #[trigger] all_hex(text.subrange(at, at + 7))
}

/// Whether a text consists of hexadecimal digits.
pub open spec fn all_hex(text: Seq<char>) -> bool {
    forall|k: int|
        0 <= k < text.len() ==> '0' <= #[trigger] text[k] <= '9' || 'a' <= text[k] <= 'f' || 'A'
            <= text[k] <= 'F'
}

/// Tasks may be added to a plan exactly while it is to do, a draft or approved, and a plan may
/// start exactly where it has a task.
pub proof fn law_import_and_start(s: StoreView, i: int, plan_id: i64)
    requires
        sound(s),
    ensures
        0 <= i < s.plans.rows.len() ==> (import_error(s, s.plans.rows[i].id) is None
            <==> s.plans.rows[i].status == "todo"@ || s.plans.rows[i].status == "draft"@
            || s.plans.rows[i].status == "approved"@),
        (forall|k: int| 0 <= k < s.plans.rows.len() ==> (#[trigger] s.plans.rows[k]).id != plan_id)
            ==> import_error(s, plan_id) is Some,
        start_error(s, plan_id) is None <==> exists|k: int|
            0 <= k < s.tasks.rows.len() && (#[trigger] s.tasks.rows[k]).plan_id == plan_id,
{
    if 0 <= i < s.plans.rows.len() {
        crate::table::lemma_first_keyed::<PlanRow>(s.plans, plan_is(s.plans.rows[i].id), i);
    }
    crate::table::lemma_first_place(s.plans.rows, plan_is(plan_id));
    assert(any(s.tasks.rows, in_plan(plan_id)) <==> exists|k: int|
        0 <= k < s.tasks.rows.len() && (#[trigger] s.tasks.rows[k]).plan_id == plan_id);
}

/// What a closed gate says: its name, and the number of the task or plan that it is about.
pub proof fn law_what_gates_say(s: StoreView, task_id: i64, plan_id: i64)
    ensures
        test_error(s, task_id) matches Some(e) ==> e.gate == "TestGate"@ && e.reason == "task "@
            + dec(task_id as int) + " has no test_pass evidence"@,
        evidence_error(s, task_id) matches Some(e) ==> e.gate == "EvidenceGate"@ && e.reason
            == "task "@ + dec(task_id as int) + " has zero evidence records"@,
        validator_error(s, task_id) matches Some(e) ==> e.gate == "ValidatorGate"@ && e.reason
            == "task "@ + dec(task_id as int) + " has no passing validation verdict"@,
        pr_commit_error(s, task_id) matches Some(e) ==> e.gate == "PrCommitGate"@ && e.reason
            == "task "@ + dec(task_id as int) + " notes missing PR URL or commit hash"@,
        start_error(s, plan_id) matches Some(e) ==> e.gate == "StartGate"@,
        import_error(s, plan_id) matches Some(e) ==> e.gate == "ImportGate"@,
        plan_status_error(s, task_id) matches Some(e) ==> e.gate == "PlanStatusGate"@,
        wave_sequence_error(s, task_id) matches Some(e) ==> e.gate == "WaveSequenceGate"@,
{
}

/// What is expected where a gate is closed, and why one on a plan or on the order of waves is.
pub proof fn law_what_gates_expect(s: StoreView, task_id: i64, plan_id: i64)
    ensures
        test_error(s, task_id) matches Some(e) ==> e.expected
            == "record evidence with evidence_type='test_pass' via cvg_record_evidence or cvg_complete_task"@,
        evidence_error(s, task_id) matches Some(e) ==> e.expected
            == "record at least one evidence entry via cvg_record_evidence (evidence_type: 'test_result' or 'test_pass')"@,
        validator_error(s, task_id) matches Some(e) ==> e.expected
            == "run cvg_validate_plan to trigger Thor validation — all wave tasks must be 'submitted' first"@,
        pr_commit_error(s, task_id) matches Some(e) ==> e.expected
            == "task notes must contain a GitHub PR URL (https://github.com/<owner>/<repo>/pull/<N>) or a 7-40 char hex commit hash"@,
        start_error(s, plan_id) matches Some(e) ==> e.reason
            == "plan has zero tasks — cannot start"@ && e.expected
            == "import at least one task before starting the plan"@,
        forall|k: int|
            sound(s) && 0 <= k < s.plans.rows.len() && (#[trigger] s.plans.rows[k]).id == plan_id
                ==> (import_error(s, plan_id) matches Some(e) ==> e.reason
                == "cannot add tasks to plan in status '"@ + s.plans.rows[k].status + "'"@
                && e.expected == "plan status must be 'todo', 'draft', or 'approved'"@),
        (forall|k: int|
            0 <= k < s.plans.rows.len() ==> (#[trigger] s.plans.rows[k]).id != plan_id) ==> (
        import_error(s, plan_id) matches Some(e) && e.reason == "plan not found"@ && e.expected
            == "plan must exist in database"@),
{
    crate::table::lemma_first_place(s.plans.rows, plan_is(plan_id));
    assert forall|k: int|
        sound(s) && 0 <= k < s.plans.rows.len() && (#[trigger] s.plans.rows[k]).id
            == plan_id implies (import_error(s, plan_id) matches Some(e) ==> e.reason
        == "cannot add tasks to plan in status '"@ + s.plans.rows[k].status + "'"@ && e.expected
        == "plan status must be 'todo', 'draft', or 'approved'"@) by {
        crate::table::lemma_first_keyed::<PlanRow>(s.plans, plan_is(plan_id), k);
    }
}

/// A task that is not there closes the gates on its plan and on the order of waves.
pub proof fn law_gates_of_no_task(s: StoreView, task_id: i64)
    requires
        forall|i: int| 0 <= i < s.tasks.rows.len() ==> (#[trigger] s.tasks.rows[i]).id != task_id,
    ensures
        plan_status_error(s, task_id) matches Some(e) && e.reason == "task "@ + dec(task_id as int)
            + " or its plan not found"@ && e.expected == "task and its parent plan must exist"@,
        wave_sequence_error(s, task_id) matches Some(e) && e.reason == "task "@ + dec(
            task_id as int,
        ) + " not found"@ && e.expected == "task must exist in database"@,
{
    crate::table::lemma_first_place(s.tasks.rows, task_is(task_id));
}

/// Where a task's plan stands in the way, it is named with its status.
pub proof fn law_what_plan_stands_in_the_way(s: StoreView, i: int, k: int)
    requires
        sound(s),
        0 <= i < s.tasks.rows.len(),
        0 <= k < s.plans.rows.len(),
        s.tasks.rows[i].plan_id == s.plans.rows[k].id,
    ensures
        ({
            let t = s.tasks.rows[i];
            let p = s.plans.rows[k];
            &&& plan_status_error(s, t.id) is None <==> p.status == "in_progress"@
            &&& plan_status_error(s, t.id) matches Some(e) ==> e.reason == "plan "@ + dec(
                p.id as int,
            ) + " is '"@ + p.status + "', not 'in_progress' — task transitions blocked"@
                && e.expected
                == "start the plan first via cvg_start_plan — plan status must be 'in_progress'"@
        }),
{
    let t = s.tasks.rows[i];
    let p = s.plans.rows[k];
    crate::table::lemma_first_keyed::<TaskRow>(s.tasks, task_is(t.id), i);
    crate::table::lemma_first_keyed::<PlanRow>(s.plans, plan_is(p.id), k);
}

/// A wave that stands in the way is named with the number of its open tasks.
pub proof fn law_what_wave_stands_in_the_way(prev: i64, open: nat, task_id: i64, wave_id: i64)
    ensures
        ({
            let e = sequence_error(prev, open, task_id, wave_id);
            &&& e.gate == "WaveSequenceGate"@
            &&& e.reason == "wave "@ + dec(prev as int) + " has "@ + dec(open as int)
                + " incomplete tasks — cannot start task "@ + dec(task_id as int) + " in wave "@
                + dec(wave_id as int)
            &&& e.expected == "all tasks in wave "@ + dec(prev as int)
                + " must reach 'done' or 'submitted' before starting tasks in wave "@ + dec(
                wave_id as int,
            )
        }),
{
}

} // verus!
