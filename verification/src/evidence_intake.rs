//! What agents report on their tasks: evidence, and signs of life.

use crate::evidence::{has_evidence, insert_evidence, recorded, task_is, with_evidence};
use crate::gates::find_task;
use crate::rows::{TaskRow, TaskRowView};
use crate::store::{sound, Store, StoreView};
use crate::table::{
    any, first, full, lemma_count_any, lemma_updated_keyed, update_where, updated, Duplicate,
    TableView,
};
use crate::text::same;
use vstd::prelude::*;

verus! {

/// A report of evidence.
#[derive(Debug)]
pub struct EvidenceCreate {
    pub task_db_id: i64,
    pub evidence_type: String,
    pub command: String,
    pub output_summary: String,
    pub exit_code: i32,
}

/// Why evidence was not taken.
pub enum EvidenceRefused {
    /// There is no such task.
    NotFound,
    /// The task is done or cancelled.
    Terminal { status: String },
    /// The task has evidence of this type already.
    Duplicate,
    /// No key is left for another piece of evidence.
    Full,
}

/// What an [`EvidenceRefused`] says.
pub enum EvidenceRefusedView {
    NotFound,
    Terminal { status: Seq<char> },
    Duplicate,
    Full,
}

impl View for EvidenceRefused {
    type V = EvidenceRefusedView;

    open spec fn view(&self) -> EvidenceRefusedView {
        match self {
            EvidenceRefused::NotFound => EvidenceRefusedView::NotFound,
            EvidenceRefused::Terminal { status } => EvidenceRefusedView::Terminal {
                status: status@,
            },
            EvidenceRefused::Duplicate => EvidenceRefusedView::Duplicate,
            EvidenceRefused::Full => EvidenceRefusedView::Full,
        }
    }
}

/// Why evidence is not taken, where it is not. Results of tests may be reported again and
/// again, any other type once.
pub open spec fn intake_refusal(s: StoreView, task_id: i64, kind: Seq<char>) -> Option<
    EvidenceRefusedView,
> {
    match first(s.tasks.rows, task_is(task_id)) {
        None => Some(EvidenceRefusedView::NotFound),
        Some(t) => if t.status == "done"@ || t.status == "cancelled"@ {
            Some(EvidenceRefusedView::Terminal { status: t.status })
        } else if kind != "test_result"@ && recorded(s, task_id, kind) {
            Some(EvidenceRefusedView::Duplicate)
        } else if full(s.task_evidence) {
            Some(EvidenceRefusedView::Full)
        } else {
            None
        },
    }
}

/// Takes a report of evidence, and gives the id of the evidence.
pub fn create_evidence(db: &mut Store, body: &EvidenceCreate, now: &str) -> (r: Result<
    i64,
    EvidenceRefused,
>)
    ensures
        match intake_refusal(old(db)@, body.task_db_id, body.evidence_type@) {
            Some(why) => r is Err && r->Err_0@ == why && final(db)@ == old(db)@,
            None => {
                &&& r == Ok::<i64, EvidenceRefused>((old(db)@.task_evidence.last_id + 1) as i64)
                &&& final(db)@ == with_evidence(
                    old(db)@,
                    body.task_db_id,
                    body.evidence_type@,
                    body.command@,
                    body.output_summary@,
                    body.exit_code as i64,
                    now@,
                )
            },
        },
        sound(old(db)@) ==> sound(final(db)@),
{
    let status = match find_task(db, body.task_db_id) {
        Some(k) => db.tasks.rows[k].status.clone(),
        None => {
            return Err(EvidenceRefused::NotFound);
        },
    };
    if same(status.as_str(), "done") || same(status.as_str(), "cancelled") {
        return Err(EvidenceRefused::Terminal { status });
    }
    if !same(body.evidence_type.as_str(), "test_result") && has_evidence(
        db,
        body.task_db_id,
        body.evidence_type.as_str(),
    ) {
        return Err(EvidenceRefused::Duplicate);
    }
    if db.task_evidence.last_id == i64::MAX {
        return Err(EvidenceRefused::Full);
    }
    Ok(
        insert_evidence(
            db,
            body.task_db_id,
            body.evidence_type.as_str(),
            body.command.as_str(),
            body.output_summary.as_str(),
            body.exit_code as i64,
            now,
        ),
    )
}

/// Evidence of one type is taken once: after it has been taken, the same report is refused as a
/// duplicate. Only results of tests may be reported again.
pub proof fn law_evidence_taken_once(
    s: StoreView,
    task_id: i64,
    kind: Seq<char>,
    command: Seq<char>,
    output_summary: Seq<char>,
    exit_code: i64,
    now: Seq<char>,
)
    requires
        intake_refusal(s, task_id, kind) is None,
        kind != "test_result"@,
    ensures
        intake_refusal(
            with_evidence(s, task_id, kind, command, output_summary, exit_code, now),
            task_id,
            kind,
        ) == Some(EvidenceRefusedView::Duplicate),
{
    crate::evidence::law_evidence_is_kept(
        s,
        task_id,
        kind,
        command,
        output_summary,
        exit_code,
        now,
        task_id,
        kind,
    );
}

/// The task with the given id while it is in progress.
pub open spec fn beating(task_id: i64) -> spec_fn(TaskRowView) -> bool {
    |t: TaskRowView| t.id == task_id && t.status == "in_progress"@
}

/// A task that has given a sign of life.
pub open spec fn seen_at(now: i64) -> spec_fn(TaskRowView) -> TaskRowView {
    |t: TaskRowView| TaskRowView { last_heartbeat: Some(now), ..t }
}

/// Takes a sign of life of a task, and says whether there is such a task in progress.
pub fn heartbeat(db: &mut Store, task_id: i64, now: i64) -> (r: bool)
    ensures
        r == any(old(db)@.tasks.rows, beating(task_id)),
        final(db)@ == (StoreView {
            tasks: TableView {
                rows: updated(old(db)@.tasks.rows, beating(task_id), seen_at(now)),
                last_id: old(db)@.tasks.last_id,
            },
            ..old(db)@
        }),
        sound(old(db)@) ==> sound(final(db)@),
{
    proof {
        lemma_count_any(db@.tasks.rows, beating(task_id));
        if sound(db@) {
            lemma_updated_keyed::<TaskRow>(db@.tasks, beating(task_id), seen_at(now));
        }
    }
    let n: usize = update_where(
        &mut db.tasks.rows,
        |t: &TaskRow| -> (b: bool) ensures b == beating(task_id)(t@) {
            t.id == task_id && same(t.status.as_str(), "in_progress")
        },
        |t: &TaskRow| -> (m: TaskRow) ensures m@ == seen_at(now)(t@) {
            TaskRow { last_heartbeat: Some(now), ..t.duplicate() }
        },
        Ghost(beating(task_id)),
        Ghost(seen_at(now)),
    );
    n > 0
}

/// A report on a task is refused exactly where the task is done or cancelled, where evidence of
/// the type is there already and is no result of a test, or where no key is left.
pub proof fn law_intake_over_rows(s: StoreView, i: int, kind: Seq<char>)
    requires
        sound(s),
        0 <= i < s.tasks.rows.len(),
    ensures
        ({
            let t = s.tasks.rows[i];
            let known = exists|k: int|
                0 <= k < s.task_evidence.rows.len() && (#[trigger] s.task_evidence.rows[k]).task_id
                    == t.id && s.task_evidence.rows[k].evidence_type == kind;
            intake_refusal(s, t.id, kind) == if t.status == "done"@ || t.status == "cancelled"@ {
                Some(EvidenceRefusedView::Terminal { status: t.status })
            } else if known && kind != "test_result"@ {
                Some(EvidenceRefusedView::Duplicate)
            } else if s.task_evidence.last_id == i64::MAX {
                Some(EvidenceRefusedView::Full)
            } else {
                None
            }
        }),
{
    let t = s.tasks.rows[i];
    crate::table::lemma_first_keyed::<TaskRow>(s.tasks, task_is(t.id), i);
    crate::evidence::law_evidence_over_rows(s, t.id, kind, 0);
}

/// A report on a task that is not there is refused.
pub proof fn law_intake_of_no_task(s: StoreView, task_id: i64, kind: Seq<char>)
    requires
        forall|i: int| 0 <= i < s.tasks.rows.len() ==> (#[trigger] s.tasks.rows[i]).id != task_id,
    ensures
        intake_refusal(s, task_id, kind) == Some(EvidenceRefusedView::NotFound),
{
    crate::table::lemma_first_place(s.tasks.rows, task_is(task_id));
}

/// A sign of life is noted on the task where it is in progress, and changes nothing else.
pub proof fn law_heartbeat_over_rows(rows: Seq<TaskRowView>, task_id: i64, now: i64, i: int)
    requires
        0 <= i < rows.len(),
    ensures
        updated(rows, beating(task_id), seen_at(now))[i] == if rows[i].id == task_id
            && rows[i].status == "in_progress"@ {
            TaskRowView { last_heartbeat: Some(now), ..rows[i] }
        } else {
            rows[i]
        },
        any(rows, beating(task_id)) <==> exists|k: int|
            0 <= k < rows.len() && (#[trigger] rows[k]).id == task_id && rows[k].status
                == "in_progress"@,
{
    assert(any(rows, beating(task_id)) <==> exists|k: int|
        0 <= k < rows.len() && (#[trigger] rows[k]).id == task_id && rows[k].status
            == "in_progress"@);
}

} // verus!
