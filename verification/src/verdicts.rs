//! Validation verdicts and the queue they answer.

use crate::rows::{QueueRow, QueueRowView, VerdictRow, VerdictRowView};
use crate::store::{Store, StoreView};
use crate::table::{any, any_where};
use crate::text::same;
use vstd::prelude::*;

verus! {

/// The queue entry with the given id, where it is about the given task.
pub open spec fn queued_as(queue_id: i64, task_id: i64) -> spec_fn(QueueRowView) -> bool {
    |q: QueueRowView| q.id == queue_id && q.task_id == Some(task_id)
}

/// A passing verdict on a queue entry about the given task.
pub open spec fn passes(s: StoreView, task_id: i64) -> spec_fn(VerdictRowView) -> bool {
    |v: VerdictRowView|
        v.verdict == "pass"@ && any(s.validation_queue.rows, queued_as(v.queue_id, task_id))
}

/// Whether a validation of the task has passed.
pub open spec fn validated(s: StoreView, task_id: i64) -> bool {
    any(s.validation_verdicts.rows, passes(s, task_id))
}

/// Whether the queue entry with the given id is about the given task.
fn is_queued_as(queue: &Vec<QueueRow>, queue_id: i64, task_id: i64) -> (r: bool)
    ensures
        r == any(crate::table::views(queue@), queued_as(queue_id, task_id)),
{
    any_where(
        queue,
        |q: &QueueRow| -> (b: bool) ensures b == queued_as(queue_id, task_id)(q@) {
            q.id == queue_id && match q.task_id {
                Some(t) => t == task_id,
                None => false,
            }
        },
        Ghost(queued_as(queue_id, task_id)),
    )
}

/// Whether a validation of the task has passed.
pub fn has_passing_verdict(db: &Store, task_id: i64) -> (r: bool)
    ensures
        r == validated(db@, task_id),
{
    any_where(
        &db.validation_verdicts.rows,
        |v: &VerdictRow| -> (b: bool) ensures b == passes(db@, task_id)(v@) {
            same(v.verdict.as_str(), "pass") && is_queued_as(
                &db.validation_queue.rows,
                v.queue_id,
                task_id,
            )
        },
        Ghost(passes(db@, task_id)),
    )
}

/// A task is validated exactly where a verdict says `pass` on an entry of the queue that is about
/// the task.
pub proof fn law_validated_over_rows(s: StoreView, task_id: i64)
    ensures
        validated(s, task_id) <==> exists|v: int, q: int|
            0 <= v < s.validation_verdicts.rows.len() && 0 <= q < s.validation_queue.rows.len() && (
            #[trigger] s.validation_verdicts.rows[v]).verdict == "pass"@ && (
            #[trigger] s.validation_queue.rows[q]).id == s.validation_verdicts.rows[v].queue_id
                && s.validation_queue.rows[q].task_id == Some(task_id),
{
    let vs = s.validation_verdicts.rows;
    let qs = s.validation_queue.rows;
    assert forall|v: int| 0 <= v < vs.len() implies (passes(s, task_id)(#[trigger] vs[v])
        <==> vs[v].verdict == "pass"@ && exists|q: int|
        0 <= q < qs.len() && (#[trigger] qs[q]).id == vs[v].queue_id && qs[q].task_id == Some(
            task_id,
        )) by {}
}

} // verus!
