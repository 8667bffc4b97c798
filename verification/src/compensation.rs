//! Compensation: undoing what a failed wave left behind.

use crate::challenger::completed_in;
use crate::gates::{find_wave, wave_is};
use crate::rows::{TaskRow, TaskRowView};
use crate::store::{sound, Store, StoreError, StoreView};
use crate::table::{
    appended, find_where, first, full, ids_where, keys, lemma_updated_keyed, select_where,
    update_where, updated, views, Duplicate, Row, TableView,
};
use crate::text::{copy_opt, opt_text, same};
use vstd::prelude::*;

verus! {

/// One step of a compensation.
#[derive(Debug, Clone)]
pub struct CompensationAction {
    pub id: i64,
    pub plan_id: i64,
    pub wave_id: i64,
    pub task_id: i64,
    pub action_type: String,
    pub target: String,
    pub status: String,
    pub error_message: Option<String>,
    pub created_at: String,
    pub completed_at: Option<String>,
}

/// What a [`CompensationAction`] holds.
pub struct CompensationActionView {
    pub id: i64,
    pub plan_id: i64,
    pub wave_id: i64,
    pub task_id: i64,
    pub action_type: Seq<char>,
    pub target: Seq<char>,
    pub status: Seq<char>,
    pub error_message: Option<Seq<char>>,
    pub created_at: Seq<char>,
    pub completed_at: Option<Seq<char>>,
}

impl View for CompensationAction {
    type V = CompensationActionView;

    open spec fn view(&self) -> CompensationActionView {
        CompensationActionView {
            id: self.id,
            plan_id: self.plan_id,
            wave_id: self.wave_id,
            task_id: self.task_id,
            action_type: self.action_type@,
            target: self.target@,
            status: self.status@,
            error_message: opt_text(self.error_message),
            created_at: self.created_at@,
            completed_at: opt_text(self.completed_at),
        }
    }
}

impl Duplicate for CompensationAction {
    fn duplicate(&self) -> (r: Self) {
        CompensationAction {
            id: self.id,
            plan_id: self.plan_id,
            wave_id: self.wave_id,
            task_id: self.task_id,
            action_type: self.action_type.clone(),
            target: self.target.clone(),
            status: self.status.clone(),
            error_message: copy_opt(&self.error_message),
            created_at: self.created_at.clone(),
            completed_at: copy_opt(&self.completed_at),
        }
    }
}

impl Row for CompensationAction {
    open spec fn key(v: CompensationActionView) -> i64 {
        v.id
    }

    fn id(&self) -> (r: i64) {
        self.id
    }
}

/// The row that an insert with no values gives.
pub open spec fn blank_compensation_action() -> CompensationActionView {
    CompensationActionView {
        id: 0i64,
        plan_id: 0i64,
        wave_id: 0i64,
        task_id: 0i64,
        action_type: Seq::<char>::empty(),
        target: Seq::<char>::empty(),
        status: "pending"@,
        error_message: None::<Seq<char>>,
        created_at: Seq::<char>::empty(),
        completed_at: None::<Seq<char>>,
    }
}

impl Default for CompensationAction {
    fn default() -> (r: Self)
        ensures
            r@ == blank_compensation_action(),
    {
        CompensationAction {
            id: 0,
            plan_id: 0,
            wave_id: 0,
            task_id: 0,
            action_type: String::new(),
            target: String::new(),
            status: "pending".to_owned(),
            error_message: None,
            created_at: String::new(),
            completed_at: None,
        }
    }
}

/// The steps that undo what a failed wave left behind.
#[derive(Debug, Clone)]
pub struct CompensationPlan {
    pub wave_id: i64,
    pub plan_id: i64,
    pub trigger_reason: String,
    pub actions: Vec<CompensationAction>,
}

/// The action with the given id.
pub open spec fn action_is(id: i64) -> spec_fn(CompensationActionView) -> bool {
    |a: CompensationActionView| a.id == id
}

/// The actions of a plan.
pub open spec fn actions_of_plan(plan_id: i64) -> spec_fn(CompensationActionView) -> bool {
    |a: CompensationActionView| a.plan_id == plan_id
}

/// The actions of a wave.
pub open spec fn actions_of_wave(wave_id: i64) -> spec_fn(CompensationActionView) -> bool {
    |a: CompensationActionView| a.wave_id == wave_id
}

/// The actions of a wave that have not been carried out.
pub open spec fn pending_in_wave(wave_id: i64) -> spec_fn(CompensationActionView) -> bool {
    |a: CompensationActionView| a.wave_id == wave_id && a.status == "pending"@
}

/// An action that has just been recorded.
pub open spec fn new_action(
    id: i64,
    plan_id: i64,
    wave_id: i64,
    task_id: i64,
    action_type: Seq<char>,
    target: Seq<char>,
    now: Seq<char>,
) -> CompensationActionView {
    CompensationActionView {
        id,
        plan_id,
        wave_id,
        task_id,
        action_type,
        target,
        status: "pending"@,
        error_message: None,
        created_at: now,
        completed_at: None,
    }
}

/// Records an action, and gives its id.
pub fn record_compensation(
    db: &mut Store,
    plan_id: i64,
    wave_id: i64,
    task_id: i64,
    action_type: &str,
    target: &str,
    now: &str,
) -> (r: Result<i64, StoreError>)
    ensures
        full(old(db)@.compensation_actions) ==> r == Err::<i64, StoreError>(StoreError::Full)
            && final(db)@ == old(db)@,
        !full(old(db)@.compensation_actions) ==> {
            let id = (old(db)@.compensation_actions.last_id + 1) as i64;
            &&& r == Ok::<i64, StoreError>(id)
            &&& final(db)@ == (StoreView {
                compensation_actions: appended(
                    old(db)@.compensation_actions,
                    new_action(id, plan_id, wave_id, task_id, action_type@, target@, now@),
                ),
                ..old(db)@
            })
        },
        sound(old(db)@) ==> sound(final(db)@),
{
    if db.compensation_actions.last_id == i64::MAX {
        return Err(StoreError::Full);
    }
    let id: i64 = db.compensation_actions.last_id + 1;
    db.compensation_actions.append(
        CompensationAction {
            id,
            plan_id,
            wave_id,
            task_id,
            action_type: action_type.to_owned(),
            target: target.to_owned(),
            status: "pending".to_owned(),
            error_message: None,
            created_at: now.to_owned(),
            completed_at: None,
        },
    );
    Ok(id)
}

/// An action that has been carried out.
pub open spec fn carried_out(now: Seq<char>) -> spec_fn(
    CompensationActionView,
) -> CompensationActionView {
    |a: CompensationActionView|
        CompensationActionView { status: "completed"@, completed_at: Some(now), ..a }
}

/// The store after an action has been carried out.
pub open spec fn after_execution(s: StoreView, id: i64, now: Seq<char>) -> StoreView {
    StoreView {
        compensation_actions: TableView {
            rows: updated(s.compensation_actions.rows, action_is(id), carried_out(now)),
            last_id: s.compensation_actions.last_id,
        },
        ..s
    }
}

/// Carries out an action. What it stands for has no effect beyond its own row.
pub fn execute_compensation(db: &mut Store, id: i64, now: &str)
    ensures
        final(db)@ == after_execution(old(db)@, id, now@),
        sound(old(db)@) ==> sound(final(db)@),
{
    proof {
        if sound(db@) {
            lemma_updated_keyed::<CompensationAction>(
                db@.compensation_actions,
                action_is(id),
                carried_out(now@),
            );
        }
    }
    update_where(
        &mut db.compensation_actions.rows,
        |a: &CompensationAction| -> (b: bool) ensures b == action_is(id)(a@) { a.id == id },
        |a: &CompensationAction| -> (n: CompensationAction) ensures n@ == carried_out(now@)(a@) {
            CompensationAction {
                status: "completed".to_owned(),
                completed_at: Some(now.to_owned()),
                ..a.duplicate()
            }
        },
        Ghost(action_is(id)),
        Ghost(carried_out(now@)),
    );
}

/// The actions of a plan, in the order of recording.
pub fn list_compensations(db: &Store, plan_id: i64) -> (r: Vec<CompensationAction>)
    ensures
        views(r@) == db@.compensation_actions.rows.filter(actions_of_plan(plan_id)),
{
    select_where(
        &db.compensation_actions.rows,
        |a: &CompensationAction| -> (b: bool) ensures b == actions_of_plan(plan_id)(a@) {
            a.plan_id == plan_id
        },
        Ghost(actions_of_plan(plan_id)),
    )
}

/// The actions of a wave, in the order of recording.
pub fn get_wave_compensations(db: &Store, wave_id: i64) -> (r: Vec<CompensationAction>)
    ensures
        views(r@) == db@.compensation_actions.rows.filter(actions_of_wave(wave_id)),
{
    select_where(
        &db.compensation_actions.rows,
        |a: &CompensationAction| -> (b: bool) ensures b == actions_of_wave(wave_id)(a@) {
            a.wave_id == wave_id
        },
        Ghost(actions_of_wave(wave_id)),
    )
}

/// The action with the given id.
pub fn get_single(db: &Store, id: i64) -> (r: Result<CompensationAction, StoreError>)
    ensures
        match first(db@.compensation_actions.rows, action_is(id)) {
            Some(a) => r is Ok && r->Ok_0@ == a,
            None => r == Err::<CompensationAction, StoreError>(StoreError::NoRows),
        },
{
    let found = find_where(
        &db.compensation_actions.rows,
        |a: &CompensationAction| -> (b: bool) ensures b == action_is(id)(a@) { a.id == id },
        Ghost(action_is(id)),
    );
    match found {
        Some(k) => Ok(db.compensation_actions.rows[k].duplicate()),
        None => Err(StoreError::NoRows),
    }
}

/// One notice for each of some tasks, under the keys that come next.
pub open spec fn notices(
    last_id: int,
    plan_id: i64,
    wave_id: i64,
    tasks: Seq<TaskRowView>,
    now: Seq<char>,
) -> Seq<CompensationActionView> {
    Seq::new(
        tasks.len(),
        |i: int|
            new_action(
                (last_id + 1 + i) as i64,
                plan_id,
                wave_id,
                tasks[i].id,
                "notify"@,
                tasks[i].title,
                now,
            ),
    )
}

/// The completed tasks of a wave.
pub open spec fn to_undo(s: StoreView, wave_id: i64) -> Seq<TaskRowView> {
    s.tasks.rows.filter(completed_in(wave_id))
}

/// How many of some tasks there are keys for.
pub open spec fn keys_for(last_id: i64, tasks: int) -> int {
    if last_id + tasks <= i64::MAX {
        tasks
    } else {
        i64::MAX - last_id
    }
}

/// The store with the notices on the completed tasks of a wave, as many as there are keys for.
pub open spec fn with_notices(
    s: StoreView,
    plan_id: i64,
    wave_id: i64,
    k: int,
    now: Seq<char>,
) -> StoreView {
    StoreView {
        compensation_actions: TableView {
            rows: s.compensation_actions.rows + notices(
                s.compensation_actions.last_id as int,
                plan_id,
                wave_id,
                to_undo(s, wave_id),
                now,
            ).take(k),
            last_id: (s.compensation_actions.last_id + k) as i64,
        },
        ..s
    }
}

/// Makes the plan that undoes a failed wave: one notice for each completed task. Where the keys
/// run out, the notices made until then stay.
pub fn build_compensation_plan(db: &mut Store, wave_id: i64, reason: &str, now: &str) -> (r: Result<
    CompensationPlan,
    StoreError,
>)
    ensures
        match first(old(db)@.waves.rows, wave_is(wave_id)) {
            None => r == Err::<CompensationPlan, StoreError>(StoreError::NoRows) && final(db)@
                == old(db)@,
            Some(w) => {
                let n = to_undo(old(db)@, wave_id).len() as int;
                let last_id = old(db)@.compensation_actions.last_id;
                &&& final(db)@ == with_notices(
                    old(db)@,
                    w.plan_id,
                    wave_id,
                    keys_for(last_id, n),
                    now@,
                )
                &&& last_id + n > i64::MAX ==> r == Err::<CompensationPlan, StoreError>(
                    StoreError::Full,
                )
                &&& last_id + n <= i64::MAX ==> {
                    &&& r is Ok
                    &&& r->Ok_0.wave_id == wave_id
                    &&& r->Ok_0.plan_id == w.plan_id
                    &&& r->Ok_0.trigger_reason@ == reason@
                    &&& views(r->Ok_0.actions@) == notices(
                        last_id as int,
                        w.plan_id,
                        wave_id,
                        to_undo(old(db)@, wave_id),
                        now@,
                    )
                }
            },
        },
        sound(old(db)@) ==> sound(final(db)@),
{
    let plan_id: i64 = match find_wave(db, wave_id) {
        Some(k) => db.waves.rows[k].plan_id,
        None => {
            return Err(StoreError::NoRows);
        },
    };
    let ghost s = db@;
    let tasks = select_where(
        &db.tasks.rows,
        |t: &TaskRow| -> (b: bool) ensures b == completed_in(wave_id)(t@) {
            (match t.wave_id {
                Some(w) => w == wave_id,
                None => false,
            }) && (same(t.status.as_str(), "done") || same(t.status.as_str(), "submitted"))
        },
        Ghost(completed_in(wave_id)),
    );
    let ghost list = views(tasks@);
    let ghost all = notices(
        s.compensation_actions.last_id as int,
        plan_id,
        wave_id,
        list,
        now@,
    );
    let mut actions: Vec<CompensationAction> = Vec::new();
    let mut i: usize = 0;
    assert(views(actions@) =~= all.take(0));
    assert(s.compensation_actions.rows + all.take(0) =~= s.compensation_actions.rows);
    while i < tasks.len()
        invariant
            i <= tasks@.len(),
            list == views(tasks@),
            list == to_undo(s, wave_id),
            all == notices(
                s.compensation_actions.last_id as int,
                plan_id,
                wave_id,
                list,
                now@,
            ),
            s.compensation_actions.last_id + i <= i64::MAX,
            db@ == with_notices(s, plan_id, wave_id, i as int, now@),
            views(actions@) == all.take(i as int),
            s == old(db)@,
            first(s.waves.rows, wave_is(wave_id)) matches Some(w) && w.plan_id == plan_id,
            sound(s) ==> sound(db@),
        decreases tasks@.len() - i,
    {
        let recorded = record_compensation(
            db,
            plan_id,
            wave_id,
            tasks[i].id,
            "notify",
            tasks[i].title.as_str(),
            now,
        );
        match recorded {
            Ok(id) => {
                let ghost before = views(actions@);
                let action = CompensationAction {
                    id,
                    plan_id,
                    wave_id,
                    task_id: tasks[i].id,
                    action_type: "notify".to_owned(),
                    target: tasks[i].title.clone(),
                    status: "pending".to_owned(),
                    error_message: None,
                    created_at: now.to_owned(),
                    completed_at: None,
                };
                actions.push(action);
                proof {
                    assert(action@ == all[i as int]);
                    assert(views(actions@) =~= before.push(action@));
                    assert(all.take(i + 1) =~= all.take(i as int).push(all[i as int]));
                    assert((s.compensation_actions.rows + all.take(i as int)).push(all[i as int])
                        =~= s.compensation_actions.rows + all.take(i + 1));
                }
            },
            Err(e) => {
                return Err(e);
            },
        }
        i += 1;
    }
    assert(all.take(i as int) =~= all);
    Ok(CompensationPlan { wave_id, plan_id, trigger_reason: reason.to_owned(), actions })
}

/// The store after some actions have been carried out.
pub open spec fn after_executions(s: StoreView, ids: Seq<i64>, now: Seq<char>) -> StoreView
    decreases ids.len(),
{
    if ids.len() == 0 {
        s
    } else {
        after_execution(after_executions(s, ids.drop_last(), now), ids.last(), now)
    }
}

/// Actions that are pending.
pub open spec fn action_pending() -> spec_fn(CompensationActionView) -> bool {
    |a: CompensationActionView| a.status == "pending"@
}

fn execute_ids(db: &mut Store, ids: &Vec<i64>, now: &str)
    ensures
        final(db)@ == after_executions(old(db)@, ids@, now@),
        sound(old(db)@) ==> sound(final(db)@),
{
    let ghost s = db@;
    let mut i: usize = 0;
    assert(ids@.take(0) =~= Seq::<i64>::empty());
    while i < ids.len()
        invariant
            i <= ids@.len(),
            db@ == after_executions(s, ids@.take(i as int), now@),
            sound(s) ==> sound(db@),
        decreases ids@.len() - i,
    {
        execute_compensation(db, ids[i], now);
        i += 1;
        assert(ids@.take(i as int).drop_last() =~= ids@.take(i - 1));
    }
    assert(ids@.take(i as int) =~= ids@);
}

/// Carries out every pending action of a compensation plan.
pub fn execute_compensation_plan(db: &mut Store, plan: &CompensationPlan, now: &str)
    ensures
        final(db)@ == after_executions(
            old(db)@,
            keys::<CompensationAction>(views(plan.actions@).filter(action_pending())),
            now@,
        ),
        sound(old(db)@) ==> sound(final(db)@),
{
    let ids = ids_where(
        &plan.actions,
        |a: &CompensationAction| -> (b: bool) ensures b == action_pending()(a@) {
            same(a.status.as_str(), "pending")
        },
        Ghost(action_pending()),
    );
    execute_ids(db, &ids, now);
}

/// Carries out every pending action of a wave, and says how many they were.
pub fn execute_wave_compensations(db: &mut Store, wave_id: i64, now: &str) -> (n: usize)
    ensures
        n == old(db)@.compensation_actions.rows.filter(pending_in_wave(wave_id)).len(),
        final(db)@ == after_executions(
            old(db)@,
            keys::<CompensationAction>(
                old(db)@.compensation_actions.rows.filter(pending_in_wave(wave_id)),
            ),
            now@,
        ),
        sound(old(db)@) ==> sound(final(db)@),
{
    let ids = ids_where(
        &db.compensation_actions.rows,
        |a: &CompensationAction| -> (b: bool) ensures b == pending_in_wave(wave_id)(a@) {
            a.wave_id == wave_id && same(a.status.as_str(), "pending")
        },
        Ghost(pending_in_wave(wave_id)),
    );
    execute_ids(db, &ids, now);
    ids.len()
}

/// Actions that have been carried out are not pending, and no other action becomes pending.
proof fn lemma_executions(s: StoreView, ids: Seq<i64>, now: Seq<char>)
    ensures
        ({
            let o = s.compensation_actions.rows;
            let n = after_executions(s, ids, now).compensation_actions.rows;
            &&& n.len() == o.len()
            &&& forall|i: int|
                0 <= i < n.len() ==> (#[trigger] n[i]).id == o[i].id && n[i].wave_id == o[i].wave_id
                    && (n[i] == o[i] || n[i].status == "completed"@)
            &&& forall|i: int, k: int|
                0 <= i < n.len() && 0 <= k < ids.len() && (#[trigger] n[i]).id == #[trigger] ids[k]
                    ==> n[i].status == "completed"@
        }),
    decreases ids.len(),
{
    if ids.len() > 0 {
        let short = ids.drop_last();
        lemma_executions(s, short, now);
        let m = after_executions(s, short, now).compensation_actions.rows;
        let n = after_executions(s, ids, now).compensation_actions.rows;
        assert forall|i: int, k: int|
            0 <= i < n.len() && 0 <= k < ids.len() && (#[trigger] n[i]).id
                == #[trigger] ids[k] implies n[i].status == "completed"@ by {
            assert(m[i].id == n[i].id);
            if k < short.len() {
                assert(short[k] == ids[k]);
                assert(m[i].status == "completed"@);
            }
        }
        assert forall|i: int| 0 <= i < n.len() implies (#[trigger] n[i]).id
            == s.compensation_actions.rows[i].id && n[i].wave_id
            == s.compensation_actions.rows[i].wave_id && (n[i] == s.compensation_actions.rows[i]
            || n[i].status == "completed"@) by {
            assert(m[i].id == s.compensation_actions.rows[i].id);
        }
    }
}

/// After the actions of a wave have been carried out, none of them is pending.
pub proof fn law_wave_is_compensated(s: StoreView, wave_id: i64, now: Seq<char>)
    ensures
        !crate::table::any(
            after_executions(
                s,
                keys::<CompensationAction>(
                    s.compensation_actions.rows.filter(pending_in_wave(wave_id)),
                ),
                now,
            ).compensation_actions.rows,
            pending_in_wave(wave_id),
        ),
{
    reveal_strlit("pending");
    reveal_strlit("completed");
    assert("pending"@.len() == 7 && "completed"@.len() == 9);
    let o = s.compensation_actions.rows;
    let p = pending_in_wave(wave_id);
    let f = o.filter(p);
    let ids = keys::<CompensationAction>(f);
    lemma_executions(s, ids, now);
    let n = after_executions(s, ids, now).compensation_actions.rows;
    assert forall|i: int| 0 <= i < n.len() implies !p(#[trigger] n[i]) by {
        if p(n[i]) {
            assert(n[i] == o[i]);
            o.lemma_filter_contains(p, i);
            let k = choose|k: int| 0 <= k < f.len() && f[k] == o[i];
            assert(ids[k] == n[i].id);
        }
    }
}

/// What becomes of an action when some are carried out: it is completed where it is among them, and
/// stays as it is where it is not.
proof fn lemma_execution_of(s: StoreView, ids: Seq<i64>, now: Seq<char>, i: int)
    requires
        0 <= i < s.compensation_actions.rows.len(),
    ensures
        ({
            let n = after_executions(s, ids, now);
            let a = s.compensation_actions.rows[i];
            &&& n == (StoreView { compensation_actions: n.compensation_actions, ..s })
            &&& n.compensation_actions.last_id == s.compensation_actions.last_id
            &&& n.compensation_actions.rows.len() == s.compensation_actions.rows.len()
            &&& n.compensation_actions.rows[i] == if ids.contains(a.id) {
                CompensationActionView { status: "completed"@, completed_at: Some(now), ..a }
            } else {
                a
            }
        }),
    decreases ids.len(),
{
    if ids.len() > 0 {
        let before = ids.drop_last();
        let a = s.compensation_actions.rows[i];
        lemma_execution_of(s, before, now, i);
        if before.contains(a.id) {
            let k = choose|k: int| 0 <= k < before.len() && before[k] == a.id;
            assert(ids[k] == a.id);
        }
        if ids.contains(a.id) && ids.last() != a.id {
            let k = choose|k: int| 0 <= k < ids.len() && ids[k] == a.id;
            assert(before[k] == a.id);
        }
        if ids.last() == a.id {
            assert(ids[ids.len() - 1] == a.id);
        }
    }
}

/// To compensate a wave completes exactly its pending actions, as of now. Nothing else changes.
pub proof fn law_wave_compensation_over_rows(s: StoreView, wave_id: i64, now: Seq<char>, i: int)
    requires
        sound(s),
        0 <= i < s.compensation_actions.rows.len(),
    ensures
        ({
            let ids = keys::<CompensationAction>(
                s.compensation_actions.rows.filter(pending_in_wave(wave_id)),
            );
            let n = after_executions(s, ids, now);
            let a = s.compensation_actions.rows[i];
            &&& n == (StoreView { compensation_actions: n.compensation_actions, ..s })
            &&& n.compensation_actions.last_id == s.compensation_actions.last_id
            &&& n.compensation_actions.rows.len() == s.compensation_actions.rows.len()
            &&& n.compensation_actions.rows[i] == if a.wave_id == wave_id && a.status
                == "pending"@ {
                CompensationActionView { status: "completed"@, completed_at: Some(now), ..a }
            } else {
                a
            }
        }),
{
    let rows = s.compensation_actions.rows;
    let a = rows[i];
    let p = pending_in_wave(wave_id);
    let ids = keys::<CompensationAction>(rows.filter(p));
    lemma_execution_of(s, ids, now, i);
    crate::table::lemma_kept_keys::<CompensationAction>(rows, p, a.id);
    assert(CompensationAction::key(rows[i]) == a.id);
    if ids.contains(a.id) {
        let j = choose|j: int|
            0 <= j < rows.len() && p(#[trigger] rows[j]) && CompensationAction::key(rows[j])
                == a.id;
        assert(CompensationAction::key(rows[j]) == CompensationAction::key(rows[i]));
        assert(i == j);
    }
    if p(a) {
        assert(p(rows[i]));
    }
}

/// A plan that is carried out completes those of its actions that it lists as pending, and no
/// other.
pub proof fn law_listed_actions_are_carried_out(
    s: StoreView,
    actions: Seq<CompensationActionView>,
    now: Seq<char>,
    i: int,
)
    requires
        0 <= i < s.compensation_actions.rows.len(),
    ensures
        ({
            let ids = keys::<CompensationAction>(actions.filter(action_pending()));
            let n = after_executions(s, ids, now);
            let a = s.compensation_actions.rows[i];
            n.compensation_actions.rows[i] == if exists|k: int|
                0 <= k < actions.len() && (#[trigger] actions[k]).id == a.id && actions[k].status
                    == "pending"@ {
                CompensationActionView { status: "completed"@, completed_at: Some(now), ..a }
            } else {
                a
            }
        }),
{
    let a = s.compensation_actions.rows[i];
    let p = action_pending();
    let ids = keys::<CompensationAction>(actions.filter(p));
    lemma_execution_of(s, ids, now, i);
    crate::table::lemma_kept_keys::<CompensationAction>(actions, p, a.id);
    assert(ids.contains(a.id) <==> exists|k: int|
        0 <= k < actions.len() && (#[trigger] actions[k]).id == a.id && actions[k].status
            == "pending"@) by {
        if exists|k: int|
            0 <= k < actions.len() && (#[trigger] actions[k]).id == a.id && actions[k].status
                == "pending"@ {
            let k = choose|k: int|
                0 <= k < actions.len() && (#[trigger] actions[k]).id == a.id && actions[k].status
                    == "pending"@;
            assert(p(actions[k]) && CompensationAction::key(actions[k]) == a.id);
        }
    }
}

/// The tasks that a failed wave undoes are its done and its submitted ones. Each gets a notice
/// with its key and its title, pending, under the next key.
pub proof fn law_notices_over_rows(
    s: StoreView,
    plan_id: i64,
    wave_id: i64,
    now: Seq<char>,
    i: int,
    k: int,
)
    requires
        0 <= i < s.tasks.rows.len(),
        0 <= k < to_undo(s, wave_id).len(),
        s.compensation_actions.last_id + to_undo(s, wave_id).len() <= i64::MAX,
        0 <= s.compensation_actions.last_id,
    ensures
        ({
            let t = s.tasks.rows[i];
            let tasks = to_undo(s, wave_id);
            let last_id = s.compensation_actions.last_id;
            let n = with_notices(s, plan_id, wave_id, tasks.len() as int, now);
            let at = s.compensation_actions.rows.len() + k;
            let a = n.compensation_actions.rows[at as int];
            &&& tasks.contains(t) <==> t.wave_id == Some(wave_id) && (t.status == "done"@
                || t.status == "submitted"@)
            &&& n == (StoreView { compensation_actions: n.compensation_actions, ..s })
            &&& n.compensation_actions.last_id == last_id + tasks.len()
            &&& n.compensation_actions.rows.len() == s.compensation_actions.rows.len()
                + tasks.len()
            &&& n.compensation_actions.rows.take(s.compensation_actions.rows.len() as int)
                == s.compensation_actions.rows
            &&& a.id == last_id + 1 + k
            &&& a.plan_id == plan_id && a.wave_id == wave_id && a.task_id == tasks[k].id
            &&& a.action_type == "notify"@ && a.target == tasks[k].title
            &&& a.status == "pending"@ && a.error_message is None && a.completed_at is None
            &&& a.created_at == now
        }),
{
    let tasks = to_undo(s, wave_id);
    let n = with_notices(s, plan_id, wave_id, tasks.len() as int, now);
    crate::table::lemma_kept_at(s.tasks.rows, completed_in(wave_id), i);
    assert(n.compensation_actions.rows.take(s.compensation_actions.rows.len() as int)
        =~= s.compensation_actions.rows);
}

/// The actions of a plan and of a wave are those that name it, an action is found by its key, and a
/// new one is pending.
pub proof fn law_actions_over_rows(
    s: StoreView,
    plan_id: i64,
    wave_id: i64,
    task_id: i64,
    id: i64,
    kind: Seq<char>,
    target: Seq<char>,
    now: Seq<char>,
    i: int,
)
    requires
        sound(s),
        0 <= i < s.compensation_actions.rows.len(),
    ensures
        ({
            let rows = s.compensation_actions.rows;
            let a = rows[i];
            let n = new_action(id, plan_id, wave_id, task_id, kind, target, now);
            &&& rows.filter(actions_of_plan(plan_id)).contains(a) <==> a.plan_id == plan_id
            &&& rows.filter(actions_of_wave(wave_id)).contains(a) <==> a.wave_id == wave_id
            &&& rows.filter(pending_in_wave(wave_id)).contains(a) <==> a.wave_id == wave_id
                && a.status == "pending"@
            &&& first(rows, action_is(a.id)) == Some(a)
            &&& n.id == id && n.plan_id == plan_id && n.wave_id == wave_id && n.task_id == task_id
            &&& n.action_type == kind && n.target == target && n.status == "pending"@
            &&& n.error_message is None && n.completed_at is None && n.created_at == now
        }),
{
    let rows = s.compensation_actions.rows;
    crate::table::lemma_kept_at(rows, actions_of_plan(plan_id), i);
    crate::table::lemma_kept_at(rows, actions_of_wave(wave_id), i);
    crate::table::lemma_kept_at(rows, pending_in_wave(wave_id), i);
    crate::table::lemma_first_keyed::<CompensationAction>(
        s.compensation_actions,
        action_is(rows[i].id),
        i,
    );
}

/// There are notices for all tasks where the keys are enough, and else for as many as there are
/// keys.
pub proof fn law_keys_for_notices(last_id: i64, tasks: int)
    requires
        0 <= last_id,
        0 <= tasks,
    ensures
        0 <= keys_for(last_id, tasks) <= tasks,
        last_id + keys_for(last_id, tasks) <= i64::MAX,
        keys_for(last_id, tasks) < tasks ==> last_id + keys_for(last_id, tasks) == i64::MAX,
{
}

} // verus!
