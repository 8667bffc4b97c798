//! Quality of planning and of validation.

use crate::sorting::{by_text, keep_first, lemma_by_text, less, sort_rows, sorts, sorts_first};
use crate::store::{sound, Store, StoreError, StoreView};
use crate::table::{
    appended, checked_sum, count, count_where, full, numbers_where, select_where, sum_numbers,
    views, Duplicate, Row, TableView,
};
use crate::text::same;
use vstd::prelude::*;

verus! {

/// What a validation decided, and what became of the task.
#[derive(Debug, Clone)]
pub struct ReviewOutcome {
    pub id: i64,
    pub plan_id: i64,
    pub task_id: i64,
    pub thor_decision: String,
    pub actual_outcome: String,
    pub is_correct: bool,
    pub recorded_at: String,
}

/// What a [`ReviewOutcome`] holds.
pub struct ReviewOutcomeView {
    pub id: i64,
    pub plan_id: i64,
    pub task_id: i64,
    pub thor_decision: Seq<char>,
    pub actual_outcome: Seq<char>,
    pub is_correct: bool,
    pub recorded_at: Seq<char>,
}

impl View for ReviewOutcome {
    type V = ReviewOutcomeView;

    open spec fn view(&self) -> ReviewOutcomeView {
        ReviewOutcomeView {
            id: self.id,
            plan_id: self.plan_id,
            task_id: self.task_id,
            thor_decision: self.thor_decision@,
            actual_outcome: self.actual_outcome@,
            is_correct: self.is_correct,
            recorded_at: self.recorded_at@,
        }
    }
}

impl Duplicate for ReviewOutcome {
    fn duplicate(&self) -> (r: Self) {
        ReviewOutcome {
            id: self.id,
            plan_id: self.plan_id,
            task_id: self.task_id,
            thor_decision: self.thor_decision.clone(),
            actual_outcome: self.actual_outcome.clone(),
            is_correct: self.is_correct,
            recorded_at: self.recorded_at.clone(),
        }
    }
}

impl Row for ReviewOutcome {
    open spec fn key(v: ReviewOutcomeView) -> i64 {
        v.id
    }

    fn id(&self) -> (r: i64) {
        self.id
    }
}

/// The row that an insert with no values gives.
pub open spec fn blank_review_outcome() -> ReviewOutcomeView {
    ReviewOutcomeView {
        id: 0i64,
        plan_id: 0i64,
        task_id: 0i64,
        thor_decision: Seq::<char>::empty(),
        actual_outcome: Seq::<char>::empty(),
        is_correct: false,
        recorded_at: Seq::<char>::empty(),
    }
}

impl Default for ReviewOutcome {
    fn default() -> (r: Self)
        ensures
            r@ == blank_review_outcome(),
    {
        ReviewOutcome {
            id: 0,
            plan_id: 0,
            task_id: 0,
            thor_decision: String::new(),
            actual_outcome: String::new(),
            is_correct: false,
            recorded_at: String::new(),
        }
    }
}

/// The whole numbers of a plan evaluation.
#[derive(Debug, Clone)]
pub struct EvaluationRow {
    pub id: i64,
    pub plan_id: i64,
    pub evaluator: String,
    pub tasks_total: i64,
    pub tasks_completed: i64,
    pub tasks_failed: i64,
    pub false_positives: i64,
    pub false_negatives: i64,
    pub total_duration_secs: i64,
    pub evaluated_at: String,
}

/// What a [`EvaluationRow`] holds.
pub struct EvaluationRowView {
    pub id: i64,
    pub plan_id: i64,
    pub evaluator: Seq<char>,
    pub tasks_total: i64,
    pub tasks_completed: i64,
    pub tasks_failed: i64,
    pub false_positives: i64,
    pub false_negatives: i64,
    pub total_duration_secs: i64,
    pub evaluated_at: Seq<char>,
}

impl View for EvaluationRow {
    type V = EvaluationRowView;

    open spec fn view(&self) -> EvaluationRowView {
        EvaluationRowView {
            id: self.id,
            plan_id: self.plan_id,
            evaluator: self.evaluator@,
            tasks_total: self.tasks_total,
            tasks_completed: self.tasks_completed,
            tasks_failed: self.tasks_failed,
            false_positives: self.false_positives,
            false_negatives: self.false_negatives,
            total_duration_secs: self.total_duration_secs,
            evaluated_at: self.evaluated_at@,
        }
    }
}

impl Duplicate for EvaluationRow {
    fn duplicate(&self) -> (r: Self) {
        EvaluationRow {
            id: self.id,
            plan_id: self.plan_id,
            evaluator: self.evaluator.clone(),
            tasks_total: self.tasks_total,
            tasks_completed: self.tasks_completed,
            tasks_failed: self.tasks_failed,
            false_positives: self.false_positives,
            false_negatives: self.false_negatives,
            total_duration_secs: self.total_duration_secs,
            evaluated_at: self.evaluated_at.clone(),
        }
    }
}

impl Row for EvaluationRow {
    open spec fn key(v: EvaluationRowView) -> i64 {
        v.id
    }

    fn id(&self) -> (r: i64) {
        self.id
    }
}

/// The row that an insert with no values gives.
pub open spec fn blank_evaluation_row() -> EvaluationRowView {
    EvaluationRowView {
        id: 0i64,
        plan_id: 0i64,
        evaluator: Seq::<char>::empty(),
        tasks_total: 0i64,
        tasks_completed: 0i64,
        tasks_failed: 0i64,
        false_positives: 0i64,
        false_negatives: 0i64,
        total_duration_secs: 0i64,
        evaluated_at: Seq::<char>::empty(),
    }
}

impl Default for EvaluationRow {
    fn default() -> (r: Self)
        ensures
            r@ == blank_evaluation_row(),
    {
        EvaluationRow {
            id: 0,
            plan_id: 0,
            evaluator: String::new(),
            tasks_total: 0,
            tasks_completed: 0,
            tasks_failed: 0,
            false_positives: 0,
            false_negatives: 0,
            total_duration_secs: 0,
            evaluated_at: String::new(),
        }
    }
}

// ---- reviews ----

/// Whether a decision was right: what was approved succeeded, or what was rejected failed.
pub open spec fn right_decision(decision: Seq<char>, outcome: Seq<char>) -> bool {
    (decision == "approved"@ && outcome == "success"@) || (decision == "rejected"@ && outcome
        == "failure"@)
}

/// Reviews with a given decision and outcome.
pub open spec fn review_of(decision: Seq<char>, outcome: Seq<char>) -> spec_fn(
    ReviewOutcomeView,
) -> bool {
    |r: ReviewOutcomeView| r.thor_decision == decision && r.actual_outcome == outcome
}

/// Records what a validation decided, and what became of the task.
pub fn record_review_outcome(
    db: &mut Store,
    plan_id: i64,
    task_id: i64,
    thor_decision: &str,
    actual_outcome: &str,
    now: &str,
) -> (r: Result<(), StoreError>)
    ensures
        full(old(db)@.review_outcomes) ==> r == Err::<(), StoreError>(StoreError::Full) && final(
            db)@ == old(db)@,
        !full(old(db)@.review_outcomes) ==> {
            &&& r is Ok
            &&& final(db)@ == (StoreView {
                review_outcomes: appended(
                    old(db)@.review_outcomes,
                    ReviewOutcomeView {
                        id: (old(db)@.review_outcomes.last_id + 1) as i64,
                        plan_id,
                        task_id,
                        thor_decision: thor_decision@,
                        actual_outcome: actual_outcome@,
                        is_correct: right_decision(thor_decision@, actual_outcome@),
                        recorded_at: now@,
                    },
                ),
                ..old(db)@
            })
        },
        sound(old(db)@) ==> sound(final(db)@),
{
    let is_correct = (same(thor_decision, "approved") && same(actual_outcome, "success")) || (same(
        thor_decision,
        "rejected",
    ) && same(actual_outcome, "failure"));
    if db.review_outcomes.last_id == i64::MAX {
        return Err(StoreError::Full);
    }
    let id: i64 = db.review_outcomes.last_id + 1;
    db.review_outcomes.append(
        ReviewOutcome {
            id,
            plan_id,
            task_id,
            thor_decision: thor_decision.to_owned(),
            actual_outcome: actual_outcome.to_owned(),
            is_correct,
            recorded_at: now.to_owned(),
        },
    );
    Ok(())
}

/// The reviews of a plan, or all of them.
pub open spec fn reviews_in(plan_id: Option<i64>) -> spec_fn(ReviewOutcomeView) -> bool {
    |r: ReviewOutcomeView|
        match plan_id {
            Some(p) => r.plan_id == p,
            None => true,
        }
}

/// When a review was recorded.
pub open spec fn reviewed_at() -> spec_fn(ReviewOutcomeView) -> Seq<char> {
    |r: ReviewOutcomeView| r.recorded_at
}

/// The reviews of a plan, or all of them, the latest first.
pub fn list_review_outcomes(db: &Store, plan_id: Option<i64>) -> (r: Vec<ReviewOutcome>)
    ensures
        sorts(
            views(r@),
            db@.review_outcomes.rows.filter(reviews_in(plan_id)),
            by_text(reviewed_at(), true),
        ),
{
    let rows = select_where(
        &db.review_outcomes.rows,
        |r: &ReviewOutcome| -> (b: bool) ensures b == reviews_in(plan_id)(r@) {
            match plan_id {
                Some(p) => r.plan_id == p,
                None => true,
            }
        },
        Ghost(reviews_in(plan_id)),
    );
    proof {
        lemma_by_text(reviewed_at(), true);
    }
    sort_rows(
        &rows,
        |a: &ReviewOutcome, b: &ReviewOutcome| -> (r: bool)
            ensures r == by_text(reviewed_at(), true)(a@, b@)
        { less(b.recorded_at.as_str(), a.recorded_at.as_str()) },
        Ghost(by_text(reviewed_at(), true)),
    )
}

/// How often validations were right and wrong.
#[derive(Debug, Clone, Copy, PartialEq, Eq, Structural)]
pub struct ReviewCounts {
    pub total_reviews: usize,
    pub correct_approvals: usize,
    pub correct_rejections: usize,
    pub false_positives: usize,
    pub false_negatives: usize,
}

fn count_reviews(db: &Store, decision: &str, outcome: &str) -> (n: usize)
    ensures
        n == count(db@.review_outcomes.rows, review_of(decision@, outcome@)),
{
    count_where(
        &db.review_outcomes.rows,
        |r: &ReviewOutcome| -> (b: bool) ensures b == review_of(decision@, outcome@)(r@) {
            same(r.thor_decision.as_str(), decision) && same(r.actual_outcome.as_str(), outcome)
        },
        Ghost(review_of(decision@, outcome@)),
    )
}

/// Counts how often validations were right and wrong, over all reviews.
pub fn count_review_outcomes(db: &Store) -> (r: ReviewCounts)
    ensures
        r.total_reviews == db@.review_outcomes.rows.len(),
        r.correct_approvals == count(
            db@.review_outcomes.rows,
            review_of("approved"@, "success"@),
        ),
        r.correct_rejections == count(
            db@.review_outcomes.rows,
            review_of("rejected"@, "failure"@),
        ),
        r.false_positives == count(db@.review_outcomes.rows, review_of("approved"@, "failure"@)),
        r.false_negatives == count(db@.review_outcomes.rows, review_of("rejected"@, "success"@)),
{
    ReviewCounts {
        total_reviews: db.review_outcomes.rows.len(),
        correct_approvals: count_reviews(db, "approved", "success"),
        correct_rejections: count_reviews(db, "rejected", "failure"),
        false_positives: count_reviews(db, "approved", "failure"),
        false_negatives: count_reviews(db, "rejected", "success"),
    }
}

/// Right and wrong decisions are counted apart: together they are no more than all reviews.
pub proof fn law_reviews_counted_apart(rows: Seq<ReviewOutcomeView>)
    ensures
        count(rows, review_of("approved"@, "success"@)) + count(
            rows,
            review_of("rejected"@, "failure"@),
        ) + count(rows, review_of("approved"@, "failure"@)) + count(
            rows,
            review_of("rejected"@, "success"@),
        ) <= rows.len(),
    decreases rows.len(),
{
    reveal_strlit("approved");
    reveal_strlit("rejected");
    reveal_strlit("success");
    reveal_strlit("failure");
    assert("approved"@[0] == 'a' && "rejected"@[0] == 'r');
    assert("success"@[0] == 's' && "failure"@[0] == 'f');
    reveal(Seq::filter);
    if rows.len() > 0 {
        law_reviews_counted_apart(rows.drop_last());
    }
}

// ---- evaluations ----

/// Who evaluates where nobody is named.
pub fn default_evaluator() -> (r: String)
    ensures
        r@ == "system"@,
{
    "system".to_owned()
}

/// How many evaluations are listed where no limit is named.
pub fn default_limit() -> (r: u32)
    ensures
        r == 50,
{
    50
}

/// Records the whole numbers of an evaluation under the next key, and gives the key.
pub fn record_evaluation(db: &mut Store, eval: &EvaluationRow, now: &str) -> (r: Result<
    i64,
    StoreError,
>)
    ensures
        full(old(db)@.plan_evaluations) ==> r == Err::<i64, StoreError>(StoreError::Full) && final(
            db)@ == old(db)@,
        !full(old(db)@.plan_evaluations) ==> {
            let id = (old(db)@.plan_evaluations.last_id + 1) as i64;
            &&& r == Ok::<i64, StoreError>(id)
            &&& final(db)@ == (StoreView {
                plan_evaluations: appended(
                    old(db)@.plan_evaluations,
                    EvaluationRowView { id, evaluated_at: now@, ..eval@ },
                ),
                ..old(db)@
            })
        },
        sound(old(db)@) ==> sound(final(db)@),
{
    if db.plan_evaluations.last_id == i64::MAX {
        return Err(StoreError::Full);
    }
    let id: i64 = db.plan_evaluations.last_id + 1;
    db.plan_evaluations.append(
        EvaluationRow { id, evaluated_at: now.to_owned(), ..eval.duplicate() },
    );
    Ok(id)
}

/// The evaluations of a plan, or all of them.
pub open spec fn evaluations_in(plan_id: Option<i64>) -> spec_fn(EvaluationRowView) -> bool {
    |e: EvaluationRowView|
        match plan_id {
            Some(p) => e.plan_id == p,
            None => true,
        }
}

/// When an evaluation was made.
pub open spec fn evaluated() -> spec_fn(EvaluationRowView) -> Seq<char> {
    |e: EvaluationRowView| e.evaluated_at
}

/// The evaluations of a plan, or all of them, the latest first, at most as many as the limit.
pub fn list_evaluations(db: &Store, plan_id: Option<i64>, limit: u32) -> (r: Vec<EvaluationRow>)
    ensures
        sorts_first(
            views(r@),
            db@.plan_evaluations.rows.filter(evaluations_in(plan_id)),
            by_text(evaluated(), true),
            limit as nat,
        ),
{
    let rows = select_where(
        &db.plan_evaluations.rows,
        |e: &EvaluationRow| -> (b: bool) ensures b == evaluations_in(plan_id)(e@) {
            match plan_id {
                Some(p) => e.plan_id == p,
                None => true,
            }
        },
        Ghost(evaluations_in(plan_id)),
    );
    proof {
        lemma_by_text(evaluated(), true);
    }
    let mut sorted = sort_rows(
        &rows,
        |a: &EvaluationRow, b: &EvaluationRow| -> (r: bool)
            ensures r == by_text(evaluated(), true)(a@, b@)
        { less(b.evaluated_at.as_str(), a.evaluated_at.as_str()) },
        Ghost(by_text(evaluated(), true)),
    );
    let ghost all = views(sorted@);
    assert(sorts(all, db@.plan_evaluations.rows.filter(evaluations_in(plan_id)), by_text(
        evaluated(),
        true,
    )));
    keep_first(&mut sorted, limit as usize);
    sorted
}

/// All evaluations.
pub open spec fn every() -> spec_fn(EvaluationRowView) -> bool {
    |e: EvaluationRowView| true
}

/// The completed tasks of an evaluation.
pub open spec fn completed_tasks() -> spec_fn(EvaluationRowView) -> i64 {
    |e: EvaluationRowView| e.tasks_completed
}

/// All tasks of an evaluation.
pub open spec fn all_tasks() -> spec_fn(EvaluationRowView) -> i64 {
    |e: EvaluationRowView| e.tasks_total
}

/// The completed tasks and all tasks over all evaluations, where the sums fit in 64 bits.
pub open spec fn task_sums(s: StoreView) -> Option<(i64, i64)> {
    let rows = s.plan_evaluations.rows.filter(every());
    match (
        checked_sum(rows.map_values(completed_tasks())),
        checked_sum(rows.map_values(all_tasks())),
    ) {
        (Some(c), Some(t)) => Some((c, t)),
        _ => None,
    }
}

/// The completed tasks and all tasks over all evaluations, from which the planner's success
/// rate is made. There is nothing where a sum does not fit in 64 bits.
pub fn sum_evaluated_tasks(db: &Store) -> (r: Option<(i64, i64)>)
    ensures
        r == task_sums(db@),
{
    let done = numbers_where(
        &db.plan_evaluations.rows,
        |e: &EvaluationRow| -> (b: bool) ensures b == every()(e@) { true },
        |e: &EvaluationRow| -> (n: i64) ensures n == completed_tasks()(e@) { e.tasks_completed },
        Ghost(every()),
        Ghost(completed_tasks()),
    );
    let total = numbers_where(
        &db.plan_evaluations.rows,
        |e: &EvaluationRow| -> (b: bool) ensures b == every()(e@) { true },
        |e: &EvaluationRow| -> (n: i64) ensures n == all_tasks()(e@) { e.tasks_total },
        Ghost(every()),
        Ghost(all_tasks()),
    );
    match (sum_numbers(&done), sum_numbers(&total)) {
        (Some(c), Some(t)) => Some((c, t)),
        _ => None,
    }
}

/// One review more is counted under its decision and its outcome, and under no other. A decision
/// is right exactly where what was approved succeeded or what was rejected failed.
pub proof fn law_review_is_counted(
    rows: Seq<ReviewOutcomeView>,
    r: ReviewOutcomeView,
    decision: Seq<char>,
    outcome: Seq<char>,
)
    ensures
        count(rows.push(r), review_of(decision, outcome)) == count(
            rows,
            review_of(decision, outcome),
        ) + if r.thor_decision == decision && r.actual_outcome == outcome {
            1int
        } else {
            0int
        },
        right_decision(decision, outcome) <==> (decision, outcome) == ("approved"@, "success"@) || (
        decision,
        outcome,
    ) == ("rejected"@, "failure"@),
{
    reveal(Seq::filter);
    assert(rows.push(r).drop_last() =~= rows);
}

/// The reviews and evaluations of a plan are those that name it; where no plan is named, all are
/// listed. They are ordered by when they were made.
pub proof fn law_listed_over_rows(s: StoreView, plan_id: i64, i: int, k: int)
    requires
        0 <= i < s.review_outcomes.rows.len(),
        0 <= k < s.plan_evaluations.rows.len(),
    ensures
        ({
            let r = s.review_outcomes.rows[i];
            let e = s.plan_evaluations.rows[k];
            &&& s.review_outcomes.rows.filter(reviews_in(Some(plan_id))).contains(r)
                <==> r.plan_id == plan_id
            &&& s.review_outcomes.rows.filter(reviews_in(None)).contains(r)
            &&& s.plan_evaluations.rows.filter(evaluations_in(Some(plan_id))).contains(e)
                <==> e.plan_id == plan_id
            &&& s.plan_evaluations.rows.filter(evaluations_in(None)).contains(e)
            &&& reviewed_at()(r) == r.recorded_at
            &&& evaluated()(e) == e.evaluated_at
        }),
{
    crate::table::lemma_kept_at(s.review_outcomes.rows, reviews_in(Some(plan_id)), i);
    crate::table::lemma_kept_at(s.review_outcomes.rows, reviews_in(None), i);
    crate::table::lemma_kept_at(s.plan_evaluations.rows, evaluations_in(Some(plan_id)), k);
    crate::table::lemma_kept_at(s.plan_evaluations.rows, evaluations_in(None), k);
}

/// One evaluation more adds its completed tasks and its tasks to the sums, as long as they fit;
/// without any the sums are nothing.
pub proof fn law_sums_add(s: StoreView, e: EvaluationRowView)
    ensures
        s.plan_evaluations.rows.len() == 0 ==> task_sums(s) == Some((0i64, 0i64)),
        task_sums(s) matches Some((c, t)) ==> i64::MIN <= c + e.tasks_completed <= i64::MAX
            && i64::MIN <= t + e.tasks_total <= i64::MAX ==> task_sums(
            StoreView {
                plan_evaluations: TableView {
                    rows: s.plan_evaluations.rows.push(e),
                    last_id: s.plan_evaluations.last_id,
                },
                ..s
            },
        ) == Some(((c + e.tasks_completed) as i64, (t + e.tasks_total) as i64)),
{
    reveal(Seq::filter);
    let rows = s.plan_evaluations.rows;
    let more = rows.push(e);
    assert(more.drop_last() =~= rows);
    let f = rows.filter(every());
    let g = more.filter(every());
    assert(g == f.push(e));
    assert(g.map_values(completed_tasks()).drop_last() =~= f.map_values(completed_tasks()));
    assert(g.map_values(all_tasks()).drop_last() =~= f.map_values(all_tasks()));
    assert(g.map_values(completed_tasks()).last() == e.tasks_completed);
    assert(g.map_values(all_tasks()).last() == e.tasks_total);
    if rows.len() == 0 {
        assert(f.len() == 0);
    }
}

} // verus!
