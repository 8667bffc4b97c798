//! Concurrency gates: no two agents on one task, no two pull requests for one wave.

use crate::evidence::task_is;
use crate::gates::{find_task, gate_error, names_pull_request, GateError, GateErrorView};
use crate::rows::{TaskRow, TaskRowView};
use crate::store::{sound, Store, StoreView};
use crate::table::{
    any, find_where, first, lemma_first_any, lemma_first_updated, lemma_updated_keyed, update_where, updated, views,
    Duplicate, TableView,
};
use crate::text::{
    cat3, cat5, contains, dec, dec_i64, opt_str, opt_text, same, split_words, text_or_empty, texts, words,
};
use vstd::prelude::*;

verus! {

/// Who holds a task, empty where nobody does.
pub open spec fn lock_holder(s: StoreView, task_id: i64) -> Seq<char> {
    match first(s.tasks.rows, task_is(task_id)) {
        Some(t) => text_or_empty(t.locked_by),
        None => Seq::empty(),
    }
}

/// What the task lock gate finds.
pub open spec fn task_lock_error(s: StoreView, task_id: i64, agent: Option<Seq<char>>) -> Option<
    GateErrorView,
> {
    let holder = lock_holder(s, task_id);
    let requesting = text_or_empty(agent);
    if holder.len() == 0 || requesting.len() == 0 || holder == requesting {
        None
    } else {
        Some(
            GateErrorView {
                gate: "TaskLockGate"@,
                reason: "task "@ + dec(task_id as int) + " is locked by agent '"@ + holder
                    + "' — agent '"@ + requesting + "' cannot claim it"@,
                expected: "wait for agent '"@ + holder
                    + "' to release the task (submit or fail), or ask an admin to clear the lock"@,
            },
        )
    }
}

/// No two agents claim the same task.
pub fn task_lock_gate(db: &Store, task_id: i64, agent_id: Option<&str>) -> (r: Result<
    (),
    GateError,
>)
    ensures
        gate_error(r) == task_lock_error(db@, task_id, opt_str(agent_id)),
{
    let holder = match find_task(db, task_id) {
        Some(k) => match &db.tasks.rows[k].locked_by {
            Some(h) => h.clone(),
            None => String::new(),
        },
        None => String::new(),
    };
    if holder.as_str().is_empty() {
        return Ok(());
    }
    let requesting = match agent_id {
        Some(a) => a.to_owned(),
        None => String::new(),
    };
    if requesting.as_str().is_empty() || same(holder.as_str(), requesting.as_str()) {
        return Ok(());
    }
    let mut reason = cat5(
        "task ",
        dec_i64(task_id).as_str(),
        " is locked by agent '",
        holder.as_str(),
        "' — agent '",
    );
    reason.append(requesting.as_str());
    reason.append("' cannot claim it");
    Err(
        GateError {
            gate: "TaskLockGate",
            reason,
            expected: cat3(
                "wait for agent '",
                holder.as_str(),
                "' to release the task (submit or fail), or ask an admin to clear the lock",
            ),
        },
    )
}

/// A task held by `holder`.
pub open spec fn held_by(holder: Seq<char>) -> spec_fn(TaskRowView) -> TaskRowView {
    |t: TaskRowView| TaskRowView { locked_by: Some(holder), ..t }
}

/// The store after a task has moved to a status: the agent holds a task in progress, and
/// nobody holds any other.
pub open spec fn with_task_lock(
    s: StoreView,
    task_id: i64,
    new_status: Seq<char>,
    agent: Seq<char>,
) -> StoreView {
    let holder = if new_status == "in_progress"@ {
        agent
    } else {
        Seq::empty()
    };
    StoreView {
        tasks: TableView {
            rows: updated(s.tasks.rows, task_is(task_id), held_by(holder)),
            last_id: s.tasks.last_id,
        },
        ..s
    }
}

/// Locks a task that moves to in_progress, and unlocks one that moves to any other status.
pub fn update_task_lock(db: &mut Store, task_id: i64, new_status: &str, agent_id: &str)
    ensures
        final(db)@ == with_task_lock(old(db)@, task_id, new_status@, agent_id@),
        sound(old(db)@) ==> sound(final(db)@),
{
    let holder = if same(new_status, "in_progress") {
        agent_id.to_owned()
    } else {
        String::new()
    };
    proof {
        if sound(old(db)@) {
            lemma_updated_keyed::<TaskRow>(db@.tasks, task_is(task_id), held_by(holder@));
        }
    }
    update_where(
        &mut db.tasks.rows,
        |t: &TaskRow| -> (b: bool) ensures b == task_is(task_id)(t@) { t.id == task_id },
        |t: &TaskRow| -> (n: TaskRow) ensures n@ == held_by(holder@)(t@) {
            TaskRow { locked_by: Some(holder.clone()), ..t.duplicate() }
        },
        Ghost(task_is(task_id)),
        Ghost(held_by(holder@)),
    );
}

/// The first word of a text that names a pull request.
pub open spec fn pull_request_in(text: Seq<char>) -> Option<Seq<char>> {
    first(words(text), |w: Seq<char>| names_pull_request(w))
}

/// The first word of a text that names a pull request.
pub fn extract_pr_url(text: &str) -> (r: Option<String>)
    ensures
        opt_text(r) == pull_request_in(text@),
{
    let list = split_words(text);
    let ghost p = |w: Seq<char>| names_pull_request(w);
    assert(views(list@) =~= texts(list@));
    let found = find_where(
        &list,
        |w: &String| -> (b: bool) ensures b == names_pull_request(w@) {
            contains(w.as_str(), "github.com/") && contains(w.as_str(), "/pull/")
        },
        Ghost(p),
    );
    match found {
        Some(k) => Some(list[k].clone()),
        None => None,
    }
}

/// The pull request that a task's notes name.
pub open spec fn pull_request_of(t: TaskRowView) -> Option<Seq<char>> {
    match t.notes {
        Some(n) => pull_request_in(n),
        None => None,
    }
}

/// Another task of the wave whose notes name another pull request.
pub open spec fn other_pull_request(wave_id: i64, task_id: i64, mine: Seq<char>) -> spec_fn(
    TaskRowView,
) -> bool {
    |t: TaskRowView|
        t.wave_id == Some(wave_id) && t.id != task_id && (match pull_request_of(t) {
            Some(url) => url != mine,
            None => false,
        })
}

/// What the wave pull request gate finds.
pub open spec fn wave_pr_error(s: StoreView, task_id: i64) -> Option<GateErrorView> {
    match first(s.tasks.rows, task_is(task_id)) {
        None => Some(
            GateErrorView {
                gate: "WavePrDedupGate"@,
                reason: "task "@ + dec(task_id as int) + " not found"@,
                expected: "task must exist"@,
            },
        ),
        Some(t) => match (t.wave_id, pull_request_in(text_or_empty(t.notes))) {
            (Some(wave_id), Some(mine)) => {
                match first(s.tasks.rows, other_pull_request(wave_id, task_id, mine)) {
                    Some(o) => Some(
                        pr_conflict(task_id, mine, o.id, pull_request_of(o)->0, wave_id),
                    ),
                    None => None,
                }
            },
            _ => None,
        },
    }
}

/// The error for two pull requests in one wave.
pub open spec fn pr_conflict(
    task_id: i64,
    mine: Seq<char>,
    other_id: i64,
    other: Seq<char>,
    wave_id: i64,
) -> GateErrorView {
    GateErrorView {
        gate: "WavePrDedupGate"@,
        reason: "task "@ + dec(task_id as int) + " PR '"@ + mine + "' conflicts with task "@ + dec(
            other_id as int,
        ) + " PR '"@ + other + "' — wave requires one PR"@,
        expected: "all tasks in wave "@ + dec(wave_id as int) + " must use the same PR. Use '"@
            + other + "' or batch-complete via cvg_wave_complete"@,
    }
}

/// All tasks of a wave use the same pull request.
pub fn wave_pr_dedup_gate(db: &Store, task_id: i64) -> (r: Result<(), GateError>)
    ensures
        gate_error(r) == wave_pr_error(db@, task_id),
{
    let k = match find_task(db, task_id) {
        Some(k) => k,
        None => {
            return Err(
                GateError {
                    gate: "WavePrDedupGate",
                    reason: cat3("task ", dec_i64(task_id).as_str(), " not found"),
                    expected: "task must exist".to_owned(),
                },
            );
        },
    };
    let wave_id: i64 = match db.tasks.rows[k].wave_id {
        Some(w) => w,
        None => {
            return Ok(());
        },
    };
    let named = match &db.tasks.rows[k].notes {
        Some(n) => extract_pr_url(n.as_str()),
        None => extract_pr_url(String::new().as_str()),
    };
    let mine = match named {
        Some(m) => m,
        None => {
            return Ok(());
        },
    };
    let found = find_where(
        &db.tasks.rows,
        |t: &TaskRow| -> (b: bool) ensures b == other_pull_request(wave_id, task_id, mine@)(t@) {
            (match t.wave_id {
                Some(w) => w == wave_id,
                None => false,
            }) && t.id != task_id && (match &t.notes {
                Some(n) => match extract_pr_url(n.as_str()) {
                    Some(url) => !same(url.as_str(), mine.as_str()),
                    None => false,
                },
                None => false,
            })
        },
        Ghost(other_pull_request(wave_id, task_id, mine@)),
    );
    match found {
        None => Ok(()),
        Some(o) => {
            let other = match &db.tasks.rows[o].notes {
                Some(n) => match extract_pr_url(n.as_str()) {
                    Some(url) => url,
                    None => String::new(),
                },
                None => String::new(),
            };
            let mut reason = cat5(
                "task ",
                dec_i64(task_id).as_str(),
                " PR '",
                mine.as_str(),
                "' conflicts with task ",
            );
            reason.append(dec_i64(db.tasks.rows[o].id).as_str());
            reason.append(" PR '");
            reason.append(other.as_str());
            reason.append("' — wave requires one PR");
            Err(
                GateError {
                    gate: "WavePrDedupGate",
                    reason,
                    expected: cat5(
                        "all tasks in wave ",
                        dec_i64(wave_id).as_str(),
                        " must use the same PR. Use '",
                        other.as_str(),
                        "' or batch-complete via cvg_wave_complete",
                    ),
                },
            )
        },
    }
}

/// Once an agent has started a task, every other named agent is refused and the agent itself
/// is not. Once the task has moved on, nobody is refused.
pub proof fn law_one_agent_per_task(
    s: StoreView,
    task_id: i64,
    agent: Seq<char>,
    other: Seq<char>,
    later: Seq<char>,
)
    requires
        any(s.tasks.rows, task_is(task_id)),
        agent.len() > 0,
    ensures
        ({
            let started = with_task_lock(s, task_id, "in_progress"@, agent);
            let ended = with_task_lock(started, task_id, later, agent);
            &&& lock_holder(started, task_id) == agent
            &&& task_lock_error(started, task_id, Some(agent)) is None
            &&& other.len() > 0 && other != agent ==> task_lock_error(started, task_id, Some(other))
                is Some
            &&& later != "in_progress"@ ==> task_lock_error(ended, task_id, Some(other)) is None
        }),
{
    let started = with_task_lock(s, task_id, "in_progress"@, agent);
    lemma_first_any(s.tasks.rows, task_is(task_id));
    lemma_first_updated(s.tasks.rows, task_is(task_id), held_by(agent));
    lemma_first_updated(started.tasks.rows, task_is(task_id), held_by(Seq::empty()));
}

/// Where the wave pull request gate is open for a task of a wave that names a pull request,
/// every other task of the wave that names one names the same.
pub proof fn law_one_pull_request_per_wave(s: StoreView, task_id: i64, i: int)
    requires
        wave_pr_error(s, task_id) is None,
        0 <= i < s.tasks.rows.len(),
        ({
            let t = first(s.tasks.rows, task_is(task_id))->0;
            &&& t.wave_id is Some
            &&& pull_request_of(t) is Some
            &&& s.tasks.rows[i].wave_id == t.wave_id
            &&& s.tasks.rows[i].id != task_id
            &&& pull_request_of(s.tasks.rows[i]) is Some
        }),
    ensures
        pull_request_of(s.tasks.rows[i]) == pull_request_of(
            first(s.tasks.rows, task_is(task_id))->0,
        ),
{
    let t = first(s.tasks.rows, task_is(task_id))->0;
    let p = other_pull_request(t.wave_id->0, task_id, pull_request_of(t)->0);
    lemma_first_any(s.tasks.rows, p);
    if pull_request_of(s.tasks.rows[i]) != pull_request_of(t) {
        assert(p(s.tasks.rows[i]));
    }
}

/// A task that somebody holds is refused exactly to a named agent that is not the holder. A move
/// to in_progress gives the task to the agent, any other move takes it from everybody; no other
/// task, and nothing else, changes.
pub proof fn law_task_locks_over_rows(
    s: StoreView,
    i: int,
    agent: Option<Seq<char>>,
    task_id: i64,
    new_status: Seq<char>,
    name: Seq<char>,
)
    requires
        sound(s),
        0 <= i < s.tasks.rows.len(),
    ensures
        ({
            let t = s.tasks.rows[i];
            let n = with_task_lock(s, task_id, new_status, name);
            &&& task_lock_error(s, t.id, agent) is Some <==> {
                &&& t.locked_by is Some && t.locked_by->0.len() > 0
                &&& agent is Some && agent->0.len() > 0
                &&& agent->0 != t.locked_by->0
            }
            &&& n == (StoreView { tasks: n.tasks, ..s })
            &&& n.tasks.last_id == s.tasks.last_id
            &&& n.tasks.rows.len() == s.tasks.rows.len()
            &&& n.tasks.rows[i] == if t.id != task_id {
                t
            } else if new_status == "in_progress"@ {
                TaskRowView { locked_by: Some(name), ..t }
            } else {
                TaskRowView { locked_by: Some(Seq::empty()), ..t }
            }
        }),
{
    crate::table::lemma_first_keyed::<TaskRow>(s.tasks, task_is(s.tasks.rows[i].id), i);
}

/// The pull request gate is closed for a task exactly where its notes and the notes of another
/// task of its wave name different pull requests, or the task is not there. The pull request that
/// notes name is the first word with the host and the path of one.
pub proof fn law_pull_requests_over_rows(s: StoreView, i: int, text: Seq<char>)
    requires
        sound(s),
        0 <= i < s.tasks.rows.len(),
    ensures
        ({
            let t = s.tasks.rows[i];
            wave_pr_error(s, t.id) is Some <==> t.wave_id is Some && t.notes is Some
                && pull_request_in(t.notes->0) is Some && exists|j: int|
                0 <= j < s.tasks.rows.len() && (#[trigger] s.tasks.rows[j]).id != t.id
                    && s.tasks.rows[j].wave_id == t.wave_id && s.tasks.rows[j].notes is Some
                    && pull_request_in(s.tasks.rows[j].notes->0) is Some && pull_request_in(
                    s.tasks.rows[j].notes->0,
                ) != pull_request_in(t.notes->0)
        }),
        match pull_request_in(text) {
            Some(url) => exists|k: int|
                0 <= k < words(text).len() && #[trigger] words(text)[k] == url && crate::text::occurs(
                    url,
                    "github.com/"@,
                ) && crate::text::occurs(url, "/pull/"@) && forall|m: int|
                    0 <= m < k ==> !(crate::text::occurs(#[trigger] words(text)[m], "github.com/"@)
                        && crate::text::occurs(words(text)[m], "/pull/"@)),
            None => forall|m: int|
                0 <= m < words(text).len() ==> !(crate::text::occurs(
                    #[trigger] words(text)[m],
                    "github.com/"@,
                ) && crate::text::occurs(words(text)[m], "/pull/"@)),
        },
{
    let t = s.tasks.rows[i];
    let rows = s.tasks.rows;
    crate::table::lemma_first_keyed::<TaskRow>(s.tasks, task_is(t.id), i);
    crate::table::lemma_first_place(words(text), |w: Seq<char>| names_pull_request(w));
    if t.notes is None {
        assert(pull_request_in(Seq::<char>::empty()) is None) by {
            assert(words(Seq::<char>::empty()).len() == 0);
        }
    }
    if let Some(w) = t.wave_id {
        if let Some(mine) = pull_request_in(text_or_empty(t.notes)) {
            lemma_first_any(rows, other_pull_request(w, t.id, mine));
            assert(any(rows, other_pull_request(w, t.id, mine)) <==> exists|j: int|
                0 <= j < rows.len() && (#[trigger] rows[j]).id != t.id && rows[j].wave_id
                    == t.wave_id && rows[j].notes is Some && pull_request_in(rows[j].notes->0)
                    is Some && pull_request_in(rows[j].notes->0) != Some(mine));
        }
    }
}

/// A task that another agent holds is refused with both names, and a task that is not there has no
/// pull request.
pub proof fn law_what_locks_say(s: StoreView, i: int, agent: Seq<char>, task_id: i64)
    requires
        sound(s),
        0 <= i < s.tasks.rows.len(),
    ensures
        ({
            let t = s.tasks.rows[i];
            task_lock_error(s, t.id, Some(agent)) matches Some(e) ==> e.gate == "TaskLockGate"@
                && e.reason == "task "@ + dec(t.id as int) + " is locked by agent '"@
                + t.locked_by->0 + "' — agent '"@ + agent + "' cannot claim it"@ && e.expected
                == "wait for agent '"@ + t.locked_by->0
                + "' to release the task (submit or fail), or ask an admin to clear the lock"@
        }),
        (forall|k: int| 0 <= k < s.tasks.rows.len() ==> (#[trigger] s.tasks.rows[k]).id != task_id)
            ==> (wave_pr_error(s, task_id) matches Some(e) && e.gate == "WavePrDedupGate"@
            && e.reason == "task "@ + dec(task_id as int) + " not found"@ && e.expected
            == "task must exist"@),
{
    let t = s.tasks.rows[i];
    crate::table::lemma_first_keyed::<TaskRow>(s.tasks, task_is(t.id), i);
    crate::table::lemma_first_place(s.tasks.rows, task_is(task_id));
}

/// Two pull requests in a wave are both named, with their tasks, and the other is to be used.
pub proof fn law_what_pull_requests_say(
    task_id: i64,
    mine: Seq<char>,
    other_id: i64,
    other: Seq<char>,
    wave_id: i64,
)
    ensures
        ({
            let e = pr_conflict(task_id, mine, other_id, other, wave_id);
            &&& e.gate == "WavePrDedupGate"@
            &&& e.reason == "task "@ + dec(task_id as int) + " PR '"@ + mine
                + "' conflicts with task "@ + dec(other_id as int) + " PR '"@ + other
                + "' — wave requires one PR"@
            &&& e.expected == "all tasks in wave "@ + dec(wave_id as int)
                + " must use the same PR. Use '"@ + other
                + "' or batch-complete via cvg_wave_complete"@
        }),
{
}

} // verus!
