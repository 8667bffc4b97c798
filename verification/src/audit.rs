//! Audit trail of task statuses: every transition is logged.

use crate::rows::{StatusLogRow, StatusLogRowView};
use crate::store::{sound, Store, StoreView};
use crate::table::{appended, full, select_where, views, TableView};
use crate::text::{opt_str, own_opt};
use vstd::prelude::*;

verus! {

/// The log with one more transition. A log without free keys stays as it is.
pub open spec fn with_transition(
    log: TableView<StatusLogRowView>,
    task_id: i64,
    old_status: Seq<char>,
    new_status: Seq<char>,
    agent: Seq<char>,
    notes: Option<Seq<char>>,
    now: Seq<char>,
) -> TableView<StatusLogRowView> {
    if full(log) {
        log
    } else {
        appended(
            log,
            StatusLogRowView {
                id: (log.last_id + 1) as i64,
                task_id,
                old_status,
                new_status,
                agent,
                notes,
                created_at: now,
            },
        )
    }
}

/// The log with one more transition for each of the tasks, in their order.
pub open spec fn with_transitions(
    log: TableView<StatusLogRowView>,
    task_ids: Seq<i64>,
    old_status: Seq<char>,
    new_status: Seq<char>,
    agent: Seq<char>,
    notes: Option<Seq<char>>,
    now: Seq<char>,
) -> TableView<StatusLogRowView>
    decreases task_ids.len(),
{
    if task_ids.len() == 0 {
        log
    } else {
        with_transition(
            with_transitions(log, task_ids.drop_last(), old_status, new_status, agent, notes, now),
            task_ids.last(),
            old_status,
            new_status,
            agent,
            notes,
            now,
        )
    }
}

/// Records a task's status transition in the audit log.
pub fn log_status_change(
    db: &mut Store,
    task_id: i64,
    old_status: &str,
    new_status: &str,
    agent: &str,
    notes: Option<&str>,
    now: &str,
)
    ensures
        final(db)@ == (StoreView {
            task_status_log: with_transition(
                old(db)@.task_status_log,
                task_id,
                old_status@,
                new_status@,
                agent@,
                opt_str(notes),
                now@,
            ),
            ..old(db)@
        }),
        sound(old(db)@) ==> sound(final(db)@),
{
    if db.task_status_log.last_id == i64::MAX {
        return ;
    }
    let id: i64 = db.task_status_log.last_id + 1;
    db.task_status_log.append(
        StatusLogRow {
            id,
            task_id,
            old_status: old_status.to_owned(),
            new_status: new_status.to_owned(),
            agent: agent.to_owned(),
            notes: own_opt(notes),
            created_at: now.to_owned(),
        },
    );
}

/// The transitions of a task.
pub open spec fn transitions_of(task_id: i64) -> spec_fn(StatusLogRowView) -> bool {
    |l: StatusLogRowView| l.task_id == task_id
}

/// The transitions of a task, in the order of logging.
pub fn task_history(db: &Store, task_id: i64) -> (r: Vec<StatusLogRow>)
    ensures
        views(r@) == db@.task_status_log.rows.filter(transitions_of(task_id)),
{
    select_where(
        &db.task_status_log.rows,
        |l: &StatusLogRow| -> (b: bool) ensures b == transitions_of(task_id)(l@) {
            l.task_id == task_id
        },
        Ghost(transitions_of(task_id)),
    )
}

/// A logged transition ends its task's history, and no other task's history changes.
pub proof fn law_history_grows(
    log: TableView<StatusLogRowView>,
    task_id: i64,
    old_status: Seq<char>,
    new_status: Seq<char>,
    agent: Seq<char>,
    notes: Option<Seq<char>>,
    now: Seq<char>,
    other: i64,
)
    requires
        !full(log),
    ensures
        ({
            let n = with_transition(log, task_id, old_status, new_status, agent, notes, now);
            &&& n.rows.filter(transitions_of(task_id)) == log.rows.filter(
                transitions_of(task_id),
            ).push(n.rows.last())
            &&& n.rows.last().task_id == task_id
            &&& n.rows.last().created_at == now
            &&& n.rows.last().old_status == old_status
            &&& n.rows.last().new_status == new_status
            &&& n.rows.last().agent == agent
            &&& n.rows.last().notes == notes
            &&& other != task_id ==> n.rows.filter(transitions_of(other)) == log.rows.filter(
                transitions_of(other),
            )
        }),
{
    let n = with_transition(log, task_id, old_status, new_status, agent, notes, now);
    assert(n.rows.drop_last() =~= log.rows);
    reveal(Seq::filter);
}

/// Transitions of several tasks are logged one behind the other, each with the task, the two
/// statuses, the agent, the notes and the time that were given, and what was logged before stays.
pub proof fn law_transitions_are_logged(
    log: TableView<StatusLogRowView>,
    task_ids: Seq<i64>,
    old_status: Seq<char>,
    new_status: Seq<char>,
    agent: Seq<char>,
    notes: Option<Seq<char>>,
    now: Seq<char>,
)
    requires
        log.last_id + task_ids.len() <= i64::MAX,
    ensures
        ({
            let n = with_transitions(log, task_ids, old_status, new_status, agent, notes, now);
            &&& n.rows.len() == log.rows.len() + task_ids.len()
            &&& n.last_id == log.last_id + task_ids.len()
            &&& forall|k: int| 0 <= k < log.rows.len() ==> #[trigger] n.rows[k] == log.rows[k]
            &&& forall|k: int|
                0 <= k < task_ids.len() ==> #[trigger] n.rows[log.rows.len() + k] == (
                StatusLogRowView {
                    id: (log.last_id + 1 + k) as i64,
                    task_id: task_ids[k],
                    old_status,
                    new_status,
                    agent,
                    notes,
                    created_at: now,
                })
        }),
    decreases task_ids.len(),
{
    if task_ids.len() > 0 {
        let short = task_ids.drop_last();
        law_transitions_are_logged(log, short, old_status, new_status, agent, notes, now);
        let a = with_transitions(log, short, old_status, new_status, agent, notes, now);
        let n = with_transitions(log, task_ids, old_status, new_status, agent, notes, now);
        assert forall|k: int| 0 <= k < task_ids.len() implies #[trigger] n.rows[log.rows.len() + k]
            == (StatusLogRowView {
            id: (log.last_id + 1 + k) as i64,
            task_id: task_ids[k],
            old_status,
            new_status,
            agent,
            notes,
            created_at: now,
        }) by {
            if k < short.len() {
                assert(n.rows[log.rows.len() + k] == a.rows[log.rows.len() + k]);
            }
        }
    }
}

/// The history of a task holds exactly the logged transitions of that task.
pub proof fn law_history_is_the_task_s(log: TableView<StatusLogRowView>, task_id: i64, i: int)
    requires
        0 <= i < log.rows.len(),
    ensures
        log.rows.filter(transitions_of(task_id)).contains(log.rows[i]) <==> log.rows[i].task_id
            == task_id,
{
    crate::table::lemma_kept(log.rows, transitions_of(task_id));
    let f = log.rows.filter(transitions_of(task_id));
    if f.contains(log.rows[i]) {
        let k = choose|k: int| 0 <= k < f.len() && f[k] == log.rows[i];
        assert(transitions_of(task_id)(f[k]));
    }
}

} // verus!
