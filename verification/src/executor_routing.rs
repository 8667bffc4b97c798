//! Executor routing: who carries out a task, and where on a peer its repository stands.

use crate::evidence::task_is;
use crate::gates::{find_plan, find_task, plan_is};
use crate::paths::{
    join_paths, joined_path, parent, parent_path, path_below, path_strip_prefix,
};
use crate::plan_executor::{
    after_spawn_error, note_spawn_error, with_lost_spawn, with_spawn_error, PendingTask,
    PendingTaskView, MAX_SPAWN_FAILURES,
};
use crate::rows::{PlanRow, TaskRow, TaskRowView};
use crate::store::{sound, Store, StoreView};
use crate::table::{
    any, first, lemma_count_any, lemma_updated_keyed, update_where, updated, Duplicate, Row,
    TableView,
};
use crate::text::{
    after_prefix, begins, cat2, cat3, contains, ends, ends_with, from_chars, line_list, lines,
    occurs, opt_str, opt_text, replace, replaced, same, starts_with, strip_prefix, text_or_empty,
    texts, to_chars, trim, trimmed,
};
use vstd::prelude::*;

verus! {

// ---- routing ----

/// Who is to carry out a task.
pub open spec fn executor_of(agent: Option<Seq<char>>) -> Seq<char> {
    match agent {
        Some(a) => a,
        None => "copilot"@,
    }
}

/// What is to be done about a task.
pub enum Route {
    /// A person takes it.
    Manual,
    /// Somebody else has it already.
    Taken,
    /// An agent on a peer of the mesh takes it.
    Mesh { peer: String },
    /// An agent on this machine takes it.
    Local,
}

/// What a [`Route`] says.
pub enum RouteView {
    Manual,
    Taken,
    Mesh { peer: Seq<char> },
    Local,
}

impl View for Route {
    type V = RouteView;

    open spec fn view(&self) -> RouteView {
        match self {
            Route::Manual => RouteView::Manual,
            Route::Taken => RouteView::Taken,
            Route::Mesh { peer } => RouteView::Mesh { peer: peer@ },
            Route::Local => RouteView::Local,
        }
    }
}

/// A task that waits for a person.
pub open spec fn as_manual() -> spec_fn(TaskRowView) -> TaskRowView {
    |t: TaskRowView|
        TaskRowView {
            status: "awaiting_manual"@,
            notes: Some(text_or_empty(t.notes) + " [auto-routing: manual]"@),
            ..t
        }
}

/// The task with the given id while it is pending.
pub open spec fn claimable(task_id: i64) -> spec_fn(TaskRowView) -> bool {
    |t: TaskRowView| t.id == task_id && t.status == "pending"@
}

/// A task that the executor has claimed.
pub open spec fn as_claimed(now: i64) -> spec_fn(TaskRowView) -> TaskRowView {
    |t: TaskRowView|
        TaskRowView {
            status: "in_progress"@,
            started_at: Some(now),
            executor_agent: Some("plan-executor"@),
            ..t
        }
}

/// Whether a task is left to a person.
pub open spec fn is_manual(executor: Seq<char>) -> bool {
    executor == "manual"@ || executor == "human"@
}

/// What is to be done about a task.
pub open spec fn route_of(s: StoreView, task: PendingTaskView) -> RouteView {
    let executor = executor_of(task.executor_agent);
    if is_manual(executor) {
        RouteView::Manual
    } else if !any(s.tasks.rows, claimable(task.db_id)) {
        RouteView::Taken
    } else {
        match after_prefix(executor, "delegate:"@) {
            Some(peer) => RouteView::Mesh { peer },
            None => RouteView::Local,
        }
    }
}

/// The store after a task has been routed.
pub open spec fn after_routing(s: StoreView, task: PendingTaskView, now: i64) -> StoreView {
    let rows = if is_manual(executor_of(task.executor_agent)) {
        updated(s.tasks.rows, task_is(task.db_id), as_manual())
    } else {
        updated(s.tasks.rows, claimable(task.db_id), as_claimed(now))
    };
    StoreView { tasks: TableView { rows, last_id: s.tasks.last_id }, ..s }
}

/// Routes a task by its executor: `manual` and `human` leave it to a person, `delegate:<peer>`
/// hands it to a peer, anything else to an agent on this machine. A task that an agent is to
/// carry out is claimed, unless it is no longer pending.
pub fn route_task(db: &mut Store, task: &PendingTask, now: i64) -> (r: Route)
    ensures
        r@ == route_of(old(db)@, task@),
        final(db)@ == after_routing(old(db)@, task@, now),
        sound(old(db)@) ==> sound(final(db)@),
{
    let executor = match &task.executor_agent {
        Some(a) => a.clone(),
        None => "copilot".to_owned(),
    };
    let id: i64 = task.db_id;
    proof {
        if sound(db@) {
            lemma_updated_keyed::<TaskRow>(db@.tasks, task_is(id), as_manual());
            lemma_updated_keyed::<TaskRow>(db@.tasks, claimable(id), as_claimed(now));
        }
        lemma_count_any(db@.tasks.rows, claimable(id));
    }
    if same(executor.as_str(), "manual") || same(executor.as_str(), "human") {
        update_where(
            &mut db.tasks.rows,
            |t: &TaskRow| -> (b: bool) ensures b == task_is(id)(t@) { t.id == id },
            |t: &TaskRow| -> (n: TaskRow) ensures n@ == as_manual()(t@) {
                let before = match &t.notes {
                    Some(s) => s.clone(),
                    None => String::new(),
                };
                TaskRow {
                    status: "awaiting_manual".to_owned(),
                    notes: Some(cat2(before.as_str(), " [auto-routing: manual]")),
                    ..t.duplicate()
                }
            },
            Ghost(task_is(id)),
            Ghost(as_manual()),
        );
        return Route::Manual;
    }
    let claimed: usize = update_where(
        &mut db.tasks.rows,
        |t: &TaskRow| -> (b: bool) ensures b == claimable(id)(t@) {
            t.id == id && same(t.status.as_str(), "pending")
        },
        |t: &TaskRow| -> (n: TaskRow) ensures n@ == as_claimed(now)(t@) {
            TaskRow {
                status: "in_progress".to_owned(),
                started_at: Some(now),
                executor_agent: Some("plan-executor".to_owned()),
                ..t.duplicate()
            }
        },
        Ghost(claimable(id)),
        Ghost(as_claimed(now)),
    );
    if claimed == 0 {
        return Route::Taken;
    }
    match strip_prefix(executor.as_str(), "delegate:") {
        Some(peer) => Route::Mesh { peer },
        None => Route::Local,
    }
}

/// Whether the agent that planned a plan is the one that is to carry out a task of it.
pub open spec fn planner_overlap(s: StoreView, task: PendingTaskView) -> bool {
    match first(s.plans.rows, plan_is(task.plan_id)) {
        Some(p) => {
            let planner = text_or_empty(p.planner_agent_id);
            planner.len() > 0 && planner == executor_of(task.executor_agent)
        },
        None => false,
    }
}

/// Whether the agent that planned a plan is the one that is to carry out a task of it. Such an
/// agent is not used: the task goes to a fresh one.
pub fn is_planner_overlap(db: &Store, task: &PendingTask) -> (r: bool)
    ensures
        r == planner_overlap(db@, task@),
{
    match find_plan(db, task.plan_id) {
        Some(k) => match &db.plans.rows[k].planner_agent_id {
            Some(p) => {
                let executor = match &task.executor_agent {
                    Some(a) => a.clone(),
                    None => "copilot".to_owned(),
                };
                !p.as_str().is_empty() && same(p.as_str(), executor.as_str())
            },
            None => false,
        },
        None => false,
    }
}

// ---- the answer of a spawn ----

/// The answer to a request to spawn an agent.
pub struct SpawnReply {
    /// The error, if the answer has one. It may be no text.
    pub error: Option<Option<String>>,
    /// The agent that was spawned, if it is named.
    pub agent_id: Option<String>,
    /// The delegation that was started, if it is named.
    pub delegation_id: Option<String>,
}

/// The failed spawns of a task, this one among them.
pub open spec fn failures_after(s: StoreView, task_id: i64) -> int {
    match first(s.tasks.rows, task_is(task_id)) {
        Some(t) => match t.spawn_failures {
            Some(n) => n + 1,
            None => 1,
        },
        None => 1,
    }
}

/// The failed spawns of a task, this one among them.
pub fn count_failure(db: &Store, task_id: i64) -> (r: i64)
    requires
        failures_after(db@, task_id) <= i64::MAX,
    ensures
        r == failures_after(db@, task_id),
{
    match find_task(db, task_id) {
        Some(k) => match db.tasks.rows[k].spawn_failures {
            Some(n) => n + 1,
            None => 1,
        },
        None => 1,
    }
}

/// A task after a failed spawn: it is pending again, until it has failed too often.
pub open spec fn after_failure(failures: i64) -> spec_fn(TaskRowView) -> TaskRowView {
    |t: TaskRowView|
        TaskRowView {
            status: if failures >= MAX_SPAWN_FAILURES {
                "failed"@
            } else {
                "pending"@
            },
            spawn_failures: Some(failures),
            executor_agent: None,
            ..t
        }
}

/// A task that an agent carries out.
pub open spec fn assigned_to(agent: Seq<char>) -> spec_fn(TaskRowView) -> TaskRowView {
    |t: TaskRowView| TaskRowView { executor_agent: Some(agent), ..t }
}

/// The agent that an answer names.
pub open spec fn spawned_agent(reply: SpawnReply) -> Seq<char> {
    match reply.agent_id {
        Some(a) => a@,
        None => match reply.delegation_id {
            Some(d) => d@,
            None => "unknown"@,
        },
    }
}

/// The store after the answer to a spawn.
pub open spec fn after_reply(s: StoreView, task_id: i64, reply: SpawnReply) -> StoreView {
    let g = match reply.error {
        Some(_) => after_failure(failures_after(s, task_id) as i64),
        None => assigned_to(spawned_agent(reply)),
    };
    StoreView {
        tasks: TableView {
            rows: updated(s.tasks.rows, task_is(task_id), g),
            last_id: s.tasks.last_id,
        },
        ..s
    }
}

/// Takes the answer to a spawn: a failure is counted and the task is pending again, until it
/// has failed too often; a success names the agent that carries out the task.
pub fn handle_spawn_response(db: &mut Store, task_id: i64, reply: SpawnReply) -> (r: Result<
    String,
    String,
>)
    requires
        failures_after(old(db)@, task_id) <= i64::MAX,
    ensures
        final(db)@ == after_reply(old(db)@, task_id, reply),
        match reply.error {
            Some(Some(text)) => r is Err && r->Err_0@ == text@,
            Some(None) => r is Err && r->Err_0@ == "unknown"@,
            None => r is Ok && r->Ok_0@ == spawned_agent(reply),
        },
        sound(old(db)@) ==> sound(final(db)@),
{
    match reply.error {
        Some(error) => {
            let failures: i64 = count_failure(db, task_id);
            proof {
                if sound(db@) {
                    lemma_updated_keyed::<TaskRow>(
                        db@.tasks,
                        task_is(task_id),
                        after_failure(failures),
                    );
                }
            }
            update_where(
                &mut db.tasks.rows,
                |t: &TaskRow| -> (b: bool) ensures b == task_is(task_id)(t@) { t.id == task_id },
                |t: &TaskRow| -> (n: TaskRow) ensures n@ == after_failure(failures)(t@) {
                    TaskRow {
                        status: if failures >= MAX_SPAWN_FAILURES {
                            "failed".to_owned()
                        } else {
                            "pending".to_owned()
                        },
                        spawn_failures: Some(failures),
                        executor_agent: None,
                        ..t.duplicate()
                    }
                },
                Ghost(task_is(task_id)),
                Ghost(after_failure(failures)),
            );
            match error {
                Some(text) => Err(text),
                None => Err("unknown".to_owned()),
            }
        },
        None => {
            let agent = match reply.agent_id {
                Some(a) => a,
                None => match reply.delegation_id {
                    Some(d) => d,
                    None => "unknown".to_owned(),
                },
            };
            proof {
                if sound(db@) {
                    lemma_updated_keyed::<TaskRow>(
                        db@.tasks,
                        task_is(task_id),
                        assigned_to(agent@),
                    );
                }
            }
            update_where(
                &mut db.tasks.rows,
                |t: &TaskRow| -> (b: bool) ensures b == task_is(task_id)(t@) { t.id == task_id },
                |t: &TaskRow| -> (n: TaskRow) ensures n@ == assigned_to(agent@)(t@) {
                    TaskRow { executor_agent: Some(agent.clone()), ..t.duplicate() }
                },
                Ghost(task_is(task_id)),
                Ghost(assigned_to(agent@)),
            );
            Ok(agent)
        },
    }
}

/// What became of a request to spawn an agent: its answer, or why there is none.
pub type SpawnOutcome = Result<SpawnReply, String>;

/// The error of a request to spawn an agent, if it failed.
pub open spec fn spawn_error(outcome: SpawnOutcome) -> Option<Seq<char>> {
    match outcome {
        Ok(reply) => match reply.error {
            Some(Some(text)) => Some(text@),
            Some(None) => Some("unknown"@),
            None => None,
        },
        Err(e) => Some(e@),
    }
}

/// The store after a request to spawn an agent: a failure is counted once and noted, a success
/// names the agent.
pub open spec fn after_spawn(
    s: StoreView,
    task_id: i64,
    outcome: SpawnOutcome,
    now: i64,
) -> StoreView {
    match (outcome, spawn_error(outcome)) {
        (Ok(reply), None) => after_reply(s, task_id, reply),
        (Ok(reply), Some(e)) => after_spawn_error(
            after_reply(s, task_id, reply),
            task_id,
            e,
            true,
            now,
        ),
        (Err(_), Some(e)) => after_spawn_error(s, task_id, e, false, now),
        (Err(_), None) => s,
    }
}

/// Takes what became of a request to spawn an agent for a task. A failure is counted once, told
/// of by an answer or not, and noted on the task.
pub fn settle_spawn(db: &mut Store, task_id: i64, outcome: SpawnOutcome, now: i64) -> (r: Result<
    String,
    String,
>)
    requires
        failures_after(old(db)@, task_id) <= i64::MAX,
    ensures
        final(db)@ == after_spawn(old(db)@, task_id, outcome, now),
        match spawn_error(outcome) {
            Some(e) => r is Err && r->Err_0@ == e,
            None => r is Ok && r->Ok_0@ == spawned_agent(outcome->Ok_0),
        },
        sound(old(db)@) ==> sound(final(db)@),
{
    match outcome {
        Ok(reply) => match handle_spawn_response(db, task_id, reply) {
            Ok(agent) => Ok(agent),
            Err(e) => {
                note_spawn_error(db, task_id, e.as_str(), true, now);
                Err(e)
            },
        },
        Err(e) => {
            note_spawn_error(db, task_id, e.as_str(), false, now);
            Err(e)
        },
    }
}

// ---- peers and their repositories ----

/// The lines of a section, trimmed, each ended by a line feed: those behind its header, up to
/// the next line that begins with a bracket. A repeated header goes on with the section.
pub open spec fn section_block(list: Seq<Seq<char>>, header: Seq<char>, inside: bool) -> Seq<char>
    decreases list.len(),
{
    if list.len() == 0 {
        Seq::empty()
    } else {
        let line = trimmed(list[0]);
        if line == header {
            section_block(list.skip(1), header, true)
        } else if inside && begins(line, "["@) {
            Seq::empty()
        } else if inside {
            line + seq!['\n'] + section_block(list.skip(1), header, true)
        } else {
            section_block(list.skip(1), header, false)
        }
    }
}

/// The header of a section.
pub open spec fn header_of(section: Seq<char>) -> Seq<char> {
    "["@ + section + "]"@
}

/// The lines of a section.
pub fn extract_section_block(config_text: &str, section: &str) -> (r: String)
    ensures
        r@ == section_block(line_list(config_text@), header_of(section@), false),
{
    let header = cat3("[", section, "]");
    let list = lines(config_text);
    let ghost all = texts(list@);
    let mut inside = false;
    let mut block = String::new();
    let mut i: usize = 0;
    assert(all.skip(0) =~= all);
    assert(block@ + section_block(all, header@, false) =~= section_block(all, header@, false));
    while i < list.len()
        invariant
            i <= list@.len(),
            all == texts(list@),
            header@ == header_of(section@),
            all == line_list(config_text@),
            block@ + section_block(all.skip(i as int), header@, inside) == section_block(
                all,
                header@,
                false,
            ),
        decreases list@.len() - i,
    {
        let ghost rest = all.skip(i as int);
        let ghost before = block@;
        let line = trim(list[i].as_str());
        assert(rest[0] == list@[i as int]@);
        assert(rest.skip(1) =~= all.skip(i + 1));
        if same(line.as_str(), header.as_str()) {
            inside = true;
        } else if inside && starts_with(line.as_str(), "[") {
            assert(before + section_block(rest, header@, true) =~= before);
            return block;
        } else if inside {
            block.append(line.as_str());
            block.push('\n');
            assert(block@ =~= before + (line@ + seq!['\n']));
            assert(before + (line@ + seq!['\n'] + section_block(rest.skip(1), header@, true))
                =~= block@ + section_block(rest.skip(1), header@, true));
        }
        i += 1;
    }
    assert(section_block(all.skip(i as int), header@, inside) =~= Seq::<char>::empty());
    assert(block@ =~= section_block(all, header@, false));
    block
}

/// Whether a section is the one that is looked for: that of the peer, or, without a peer, the
/// one that mentions the name of this machine, with or without `.local`.
pub open spec fn wanted_section(
    peer: Option<Seq<char>>,
    section: Seq<char>,
    hostname: Seq<char>,
    config: Seq<char>,
) -> bool {
    match peer {
        Some(id) => section == id,
        None => {
            let block = section_block(line_list(config), header_of(section), false);
            occurs(block, hostname) || occurs(block, replaced(hostname, ".local"@, Seq::empty()))
        },
    }
}

/// Whether a section is the one that is looked for.
pub fn should_use_section(
    peer_id: Option<&str>,
    section: &str,
    local_hostname: &str,
    config_text: &str,
) -> (r: bool)
    ensures
        r == wanted_section(opt_str(peer_id), section@, local_hostname@, config_text@),
{
    match peer_id {
        Some(id) => same(section, id),
        None => {
            proof {
                reveal_strlit(".local");
            }
            let block = extract_section_block(config_text, section);
            let empty = String::new();
            contains(block.as_str(), local_hostname) || contains(
                block.as_str(),
                replace(local_hostname, ".local", empty.as_str()).as_str(),
            )
        },
    }
}

/// Whether a line is the header of a peer's section.
pub open spec fn is_header(line: Seq<char>) -> bool {
    begins(line, "["@) && ends(line, "]"@) && line != "[mesh]"@
}

/// The directory that holds a peer's repositories, looked for in the lines that are left. The
/// section and the repository seen last are those that a header or the end closes.
pub open spec fn base_in(
    list: Seq<Seq<char>>,
    section: Seq<char>,
    repo: Option<Seq<char>>,
    peer: Option<Seq<char>>,
    hostname: Seq<char>,
    config: Seq<char>,
) -> Option<Seq<char>>
    decreases list.len(),
{
    if list.len() == 0 {
        if repo is Some && wanted_section(peer, section, hostname, config) {
            parent_path(repo->0)
        } else {
            None
        }
    } else {
        let line = trimmed(list[0]);
        if is_header(line) && repo is Some && wanted_section(peer, section, hostname, config) {
            parent_path(repo->0)
        } else {
            let next_section = if is_header(line) {
                line.subrange(1, line.len() - 1)
            } else {
                section
            };
            let next_repo = match after_prefix(line, "repo_path="@) {
                Some(v) => Some(trimmed(v)),
                None => if is_header(line) {
                    None
                } else {
                    repo
                },
            };
            base_in(list.skip(1), next_section, next_repo, peer, hostname, config)
        }
    }
}

/// The directory that holds a peer's repositories: the parent of the repository that the
/// peer's section names. Without a peer, the section of this machine is looked for.
pub open spec fn base_of(
    config: Seq<char>,
    peer: Option<Seq<char>>,
    hostname: Seq<char>,
) -> Option<Seq<char>> {
    base_in(line_list(config), Seq::empty(), None, peer, hostname, config)
}

/// The directory that holds a peer's repositories, from the text of the peers' configuration.
pub fn find_base_from_config(
    config_text: &str,
    peer_id: Option<&str>,
    local_hostname: &str,
) -> (r: Option<String>)
    ensures
        opt_text(r) == base_of(config_text@, opt_str(peer_id), local_hostname@),
{
    let list = lines(config_text);
    let ghost all = texts(list@);
    let mut section = String::new();
    let mut repo: Option<String> = None;
    let mut i: usize = 0;
    assert(all.skip(0) =~= all);
    while i < list.len()
        invariant
            i <= list@.len(),
            all == texts(list@),
            base_of(config_text@, opt_str(peer_id), local_hostname@) == base_in(
                all.skip(i as int),
                section@,
                opt_text(repo),
                opt_str(peer_id),
                local_hostname@,
                config_text@,
            ),
        decreases list@.len() - i,
    {
        let ghost rest = all.skip(i as int);
        let line = trim(list[i].as_str());
        assert(rest[0] == list@[i as int]@);
        assert(rest.skip(1) =~= all.skip(i + 1));
        if starts_with(line.as_str(), "[") && ends_with(line.as_str(), "]") && !same(
            line.as_str(),
            "[mesh]",
        ) {
            if let Some(rp) = &repo {
                if should_use_section(peer_id, section.as_str(), local_hostname, config_text) {
                    return parent(rp.as_str());
                }
            }
            let cs = to_chars(line.as_str());
            proof {
                reveal_strlit("[");
                reveal_strlit("]");
                assert(line@.subrange(0, 1)[0] == '[');
                assert(line@.subrange(line@.len() - 1, line@.len() as int)[0] == ']');
                assert(line@.len() >= 2);
            }
            section = from_chars(&cs, 1, cs.len() - 1);
            repo = None;
        }
        if let Some(value) = strip_prefix(line.as_str(), "repo_path=") {
            repo = Some(trim(value.as_str()));
        }
        i += 1;
    }
    if let Some(rp) = &repo {
        if should_use_section(peer_id, section.as_str(), local_hostname, config_text) {
            return parent(rp.as_str());
        }
    }
    None
}

/// Where a path of this machine stands on a peer: the same place below the directory that
/// holds the repositories.
pub open spec fn remapped(
    config: Seq<char>,
    path: Seq<char>,
    peer: Seq<char>,
    hostname: Seq<char>,
) -> Option<Seq<char>> {
    match (base_of(config, None, hostname), base_of(config, Some(peer), hostname)) {
        (Some(local), Some(remote)) => rebased(path_below(path, local), remote),
        _ => None,
    }
}

/// A relative path, where there is one, below another directory.
pub open spec fn rebased(rest: Option<Seq<char>>, base: Seq<char>) -> Option<Seq<char>> {
    match rest {
        Some(r) => Some(joined_path(base, r)),
        None => None,
    }
}

/// A relative path, where there is one, below another directory.
pub fn rebase(rest: Option<String>, base: &str) -> (r: Option<String>)
    ensures
        opt_text(r) == rebased(opt_text(rest), base@),
{
    match rest {
        Some(p) => Some(join_paths(base, p.as_str())),
        None => None,
    }
}

/// Where a path of this machine stands on a peer, by the text of the peers' configuration.
pub fn remap_repo_path(
    config_text: &str,
    local_path: &str,
    peer_id: &str,
    local_hostname: &str,
) -> (r: Option<String>)
    ensures
        opt_text(r) == remapped(config_text@, local_path@, peer_id@, local_hostname@),
{
    let local = match find_base_from_config(config_text, None, local_hostname) {
        Some(b) => b,
        None => {
            return None;
        },
    };
    let remote = match find_base_from_config(config_text, Some(peer_id), local_hostname) {
        Some(b) => b,
        None => {
            return None;
        },
    };
    rebase(path_strip_prefix(local_path, local.as_str()), remote.as_str())
}

/// A task is claimed at most once: after it has been routed to an agent, it is taken.
pub proof fn law_claimed_once(
    s: StoreView,
    task: PendingTaskView,
    now: i64,
    again: PendingTaskView,
)
    requires
        again.db_id == task.db_id,
        !is_manual(executor_of(task.executor_agent)),
        !is_manual(executor_of(again.executor_agent)),
    ensures
        route_of(after_routing(s, task, now), again) is Taken,
{
    reveal_strlit("pending");
    reveal_strlit("in_progress");
    assert("pending"@.len() == 7 && "in_progress"@.len() == 11);
    let p = claimable(task.db_id);
    let rows = after_routing(s, task, now).tasks.rows;
    assert forall|i: int| 0 <= i < rows.len() implies !p(#[trigger] rows[i]) by {
        if p(s.tasks.rows[i]) {
            assert(rows[i] == as_claimed(now)(s.tasks.rows[i]));
        } else {
            assert(rows[i] == s.tasks.rows[i]);
        }
    }
}

/// A task whose spawns fail is pending again after each of the first two failures, and has
/// failed after the third.
pub proof fn law_third_failure_is_final(s: StoreView, task_id: i64, reply: SpawnReply)
    requires
        any(s.tasks.rows, task_is(task_id)),
        reply.error is Some,
        failures_after(s, task_id) <= i64::MAX,
    ensures
        ({
            let t = first(after_reply(s, task_id, reply).tasks.rows, task_is(task_id))->0;
            &&& t.spawn_failures == Some(failures_after(s, task_id) as i64)
            &&& t.status == if failures_after(s, task_id) >= 3 {
                "failed"@
            } else {
                "pending"@
            }
        }),
{
    crate::table::lemma_first_any(s.tasks.rows, task_is(task_id));
    crate::table::lemma_first_updated(
        s.tasks.rows,
        task_is(task_id),
        after_failure(failures_after(s, task_id) as i64),
    );
}

/// One turn of the executor at a task: the task is routed, and an agent is asked for.
pub struct Attempt {
    pub task: PendingTaskView,
    pub started_at: i64,
    pub outcome: SpawnOutcome,
    pub ended_at: i64,
}

/// The store after a turn of the executor at a task.
pub open spec fn after_attempt(s: StoreView, a: Attempt) -> StoreView {
    after_spawn(after_routing(s, a.task, a.started_at), a.task.db_id, a.outcome, a.ended_at)
}

/// The store after some turns of the executor.
pub open spec fn after_attempts(s: StoreView, attempts: Seq<Attempt>) -> StoreView
    decreases attempts.len(),
{
    if attempts.len() == 0 {
        s
    } else {
        after_attempt(after_attempts(s, attempts.drop_last()), attempts.last())
    }
}

/// How often the spawn of a task has failed.
pub open spec fn failure_count(t: TaskRowView) -> i64 {
    match t.spawn_failures {
        Some(n) => n,
        None => 0,
    }
}

/// Whether a turn of the executor asks in vain for an agent for the given task.
pub open spec fn failed_attempt(a: Attempt, task_id: i64) -> bool {
    a.task.db_id == task_id && !is_manual(executor_of(a.task.executor_agent)) && spawn_error(
        a.outcome,
    ) is Some
}

/// A failed turn adds one to the failures of a task.
proof fn lemma_failed_attempt(s: StoreView, a: Attempt, task_id: i64, t: TaskRowView)
    requires
        first(s.tasks.rows, task_is(task_id)) == Some(t),
        failed_attempt(a, task_id),
        0 <= failure_count(t) < i64::MAX,
    ensures
        first(after_attempt(s, a).tasks.rows, task_is(task_id)) matches Some(n) && failure_count(n)
            == failure_count(t) + 1 && n.status == if failure_count(t) + 1 >= 3 {
            "failed"@
        } else if a.outcome is Ok {
            "pending"@
        } else if t.status == "pending"@ {
            "in_progress"@
        } else {
            t.status
        },
{
    let p = task_is(task_id);
    let routed = after_routing(s, a.task, a.started_at);
    crate::table::lemma_first_any(s.tasks.rows, p);
    crate::table::lemma_first_changed(
        s.tasks.rows,
        p,
        claimable(task_id),
        as_claimed(a.started_at),
    );
    let failures = failures_after(routed, task_id) as i64;
    assert(failures == failure_count(t) + 1);
    let e = spawn_error(a.outcome)->0;
    match a.outcome {
        Ok(reply) => {
            crate::table::lemma_first_updated(routed.tasks.rows, p, after_failure(failures));
            crate::table::lemma_first_updated(
                after_reply(routed, task_id, reply).tasks.rows,
                p,
                with_spawn_error(e, a.ended_at),
            );
        },
        Err(_) => {
            crate::table::lemma_first_updated(
                routed.tasks.rows,
                p,
                with_lost_spawn(e, failures, a.ended_at),
            );
        },
    }
}

/// Each failed spawn of a task is counted once. After so many of them, from none on, the count
/// is their number; while they are fewer than three the task is pending after an answered one,
/// and stays claimed after one without an answer; from the third on it has failed.
pub proof fn law_failures_are_counted_once(
    s: StoreView,
    task_id: i64,
    t: TaskRowView,
    attempts: Seq<Attempt>,
)
    requires
        first(s.tasks.rows, task_is(task_id)) == Some(t),
        failure_count(t) == 0,
        t.status == "pending"@,
        forall|i: int| 0 <= i < attempts.len() ==> failed_attempt(#[trigger] attempts[i], task_id),
        attempts.len() <= i64::MAX,
    ensures
        first(after_attempts(s, attempts).tasks.rows, task_is(task_id)) matches Some(n)
            && failure_count(n) == attempts.len() && n.status == if attempts.len() >= 3 {
            "failed"@
        } else if attempts.len() == 0 || attempts.last().outcome is Ok {
            "pending"@
        } else {
            "in_progress"@
        },
    decreases attempts.len(),
{
    if attempts.len() > 0 {
        let short = attempts.drop_last();
        assert forall|i: int| 0 <= i < short.len() implies failed_attempt(
            #[trigger] short[i],
            task_id,
        ) by {
            assert(short[i] == attempts[i]);
        }
        law_failures_are_counted_once(s, task_id, t, short);
        let before = after_attempts(s, short);
        let n = first(before.tasks.rows, task_is(task_id))->0;
        lemma_failed_attempt(before, attempts.last(), task_id, n);
    }
}

/// Routing, over the rows. A task for `manual` or `human` waits for a person, with a remark on it,
/// whatever its status is. Any other is claimed where it is pending, and taken where it is not;
/// `delegate:` names the peer. Nothing else changes.
pub proof fn law_routing_over_rows(s: StoreView, task: PendingTaskView, now: i64, i: int)
    requires
        sound(s),
        0 <= i < s.tasks.rows.len(),
        s.tasks.rows[i].id == task.db_id,
    ensures
        ({
            let t = s.tasks.rows[i];
            let n = after_routing(s, task, now);
            let to_person = task.executor_agent == Some("manual"@) || task.executor_agent == Some(
                "human"@,
            );
            let notes = match t.notes {
                Some(text) => text,
                None => Seq::empty(),
            };
            &&& n == (StoreView { tasks: n.tasks, ..s })
            &&& n.tasks.last_id == s.tasks.last_id
            &&& n.tasks.rows == s.tasks.rows.update(
                i,
                if to_person {
                    TaskRowView {
                        status: "awaiting_manual"@,
                        notes: Some(notes + " [auto-routing: manual]"@),
                        ..t
                    }
                } else if t.status == "pending"@ {
                    TaskRowView {
                        status: "in_progress"@,
                        started_at: Some(now),
                        executor_agent: Some("plan-executor"@),
                        ..t
                    }
                } else {
                    t
                },
            )
            &&& route_of(s, task) is Manual <==> to_person
            &&& route_of(s, task) is Taken <==> !to_person && t.status != "pending"@
            &&& forall|peer: Seq<char>|
                route_of(s, task) == (RouteView::Mesh { peer }) <==> !to_person && t.status
                    == "pending"@ && task.executor_agent == Some(#[trigger] ("delegate:"@ + peer))
        }),
{
    let t = s.tasks.rows[i];
    let n = after_routing(s, task, now);
    let rows = s.tasks.rows;
    let executor = executor_of(task.executor_agent);
    reveal_strlit("copilot");
    reveal_strlit("manual");
    reveal_strlit("human");
    reveal_strlit("delegate:");
    assert("copilot"@[0] == 'c' && "manual"@[0] == 'm' && "human"@[0] == 'h' && "delegate:"@[0]
        == 'd' && "delegate:"@.len() == 9 && "copilot"@.len() == 7);
    assert forall|j: int| 0 <= j < rows.len() && j != i implies (#[trigger] rows[j]).id
        != t.id by {
        assert(TaskRow::key(rows[j]) == rows[j].id && TaskRow::key(rows[i]) == t.id);
    }
    assert(any(rows, claimable(task.db_id)) <==> t.status == "pending"@) by {
        if t.status == "pending"@ {
            assert(claimable(task.db_id)(rows[i]));
        }
    }
    let to_person = task.executor_agent == Some("manual"@) || task.executor_agent == Some(
        "human"@,
    );
    assert(is_manual(executor) <==> to_person);
    assert(n.tasks.rows =~= rows.update(
        i,
        if to_person {
            as_manual()(t)
        } else if t.status == "pending"@ {
            as_claimed(now)(t)
        } else {
            t
        },
    ));
    assert forall|peer: Seq<char>|
        route_of(s, task) == (RouteView::Mesh { peer }) <==> !to_person && t.status == "pending"@
            && task.executor_agent == Some(#[trigger] ("delegate:"@ + peer)) by {
        let whole = "delegate:"@ + peer;
        assert(whole.len() == 9 + peer.len() && whole[0] == 'd');
        assert(whole.subrange(0, 9) =~= "delegate:"@ && whole.take(9) =~= "delegate:"@);
        assert(whole.skip(9) =~= peer && whole.subrange(9, whole.len() as int) =~= peer);
        if let Some(p) = after_prefix(executor, "delegate:"@) {
            assert(executor =~= "delegate:"@ + p);
            if task.executor_agent is None {
                assert(executor[0] == 'd');
            }
        }
    }
}

/// The planner of a plan is not given a task of it: the two overlap exactly where the plan names
/// its planner and the task names the same agent, `copilot` where it names none.
pub proof fn law_planner_overlap_over_rows(s: StoreView, task: PendingTaskView, k: int)
    requires
        sound(s),
        0 <= k < s.plans.rows.len(),
        s.plans.rows[k].id == task.plan_id,
    ensures
        planner_overlap(s, task) <==> {
            &&& s.plans.rows[k].planner_agent_id is Some
            &&& s.plans.rows[k].planner_agent_id->0.len() > 0
            &&& s.plans.rows[k].planner_agent_id->0 == match task.executor_agent {
                Some(a) => a,
                None => "copilot"@,
            }
        },
{
    crate::table::lemma_first_keyed::<PlanRow>(s.plans, plan_is(task.plan_id), k);
}

/// The answer to a spawn, over the rows. An error counts one more failure and takes the agent from
/// the task, which is pending again below three failures and has failed from the third on. A
/// success names the agent, the delegation where no agent is named, or `unknown`. Nothing else
/// changes.
pub proof fn law_reply_over_rows(s: StoreView, i: int, reply: SpawnReply)
    requires
        sound(s),
        0 <= i < s.tasks.rows.len(),
        s.tasks.rows[i].spawn_failures matches Some(f) ==> f < i64::MAX,
    ensures
        ({
            let t = s.tasks.rows[i];
            let n = after_reply(s, t.id, reply);
            let failures: int = match t.spawn_failures {
                Some(f) => f + 1,
                None => 1,
            };
            &&& n == (StoreView { tasks: n.tasks, ..s })
            &&& n.tasks.last_id == s.tasks.last_id
            &&& n.tasks.rows == s.tasks.rows.update(
                i,
                match reply.error {
                    Some(_) => TaskRowView {
                        status: if failures >= 3 {
                            "failed"@
                        } else {
                            "pending"@
                        },
                        spawn_failures: Some(failures as i64),
                        executor_agent: None,
                        ..t
                    },
                    None => TaskRowView {
                        executor_agent: Some(
                            match (reply.agent_id, reply.delegation_id) {
                                (Some(a), _) => a@,
                                (None, Some(d)) => d@,
                                (None, None) => "unknown"@,
                            },
                        ),
                        ..t
                    },
                },
            )
        }),
{
    let t = s.tasks.rows[i];
    let n = after_reply(s, t.id, reply);
    let rows = s.tasks.rows;
    crate::table::lemma_first_keyed::<TaskRow>(s.tasks, task_is(t.id), i);
    assert forall|j: int| 0 <= j < rows.len() && j != i implies (#[trigger] rows[j]).id
        != t.id by {
        assert(TaskRow::key(rows[j]) == rows[j].id && TaskRow::key(rows[i]) == t.id);
    }
    assert(n.tasks.rows =~= rows.update(
        i,
        match reply.error {
            Some(_) => after_failure(failures_after(s, t.id) as i64)(t),
            None => assigned_to(spawned_agent(reply))(t),
        },
    ));
}

/// A repository is looked up in the section of the peer: the one that the last `repo_path=` line
/// between the first header of the peer and the next header names. The directory is its parent.
pub proof fn law_base_of_a_peer(
    config: Seq<char>,
    id: Seq<char>,
    hostname: Seq<char>,
    h: int,
    r: int,
    e: int,
)
    requires
        id.len() > 0,
        id != "mesh"@,
        0 <= h < r < e <= line_list(config).len(),
        trimmed(line_list(config)[h]) == "["@ + id + "]"@,
        forall|m: int|
            0 <= m < h ==> trimmed(#[trigger] line_list(config)[m]) != "["@ + id + "]"@,
        forall|m: int|
            h < m < e ==> !(begins(trimmed(#[trigger] line_list(config)[m]), "["@) && ends(
                trimmed(line_list(config)[m]),
                "]"@,
            ) && trimmed(line_list(config)[m]) != "[mesh]"@),
        after_prefix(trimmed(line_list(config)[r]), "repo_path="@) is Some,
        forall|m: int|
            r < m < e ==> after_prefix(trimmed(#[trigger] line_list(config)[m]), "repo_path="@)
                is None,
        e < line_list(config).len() ==> begins(trimmed(line_list(config)[e]), "["@) && ends(
            trimmed(line_list(config)[e]),
            "]"@,
        ) && trimmed(line_list(config)[e]) != "[mesh]"@,
    ensures
        base_of(config, Some(id), hostname) == parent_path(
            trimmed(after_prefix(trimmed(line_list(config)[r]), "repo_path="@)->0),
        ),
{
    lemma_base_before(line_list(config), Seq::empty(), None, id, hostname, config, h, r, e);
}

/// The lines before a peer's section do not count.
proof fn lemma_base_before(
    list: Seq<Seq<char>>,
    section: Seq<char>,
    repo: Option<Seq<char>>,
    id: Seq<char>,
    hostname: Seq<char>,
    config: Seq<char>,
    h: int,
    r: int,
    e: int,
)
    requires
        id.len() > 0,
        id != "mesh"@,
        section != id,
        0 <= h < r < e <= list.len(),
        trimmed(list[h]) == "["@ + id + "]"@,
        forall|m: int| 0 <= m < h ==> trimmed(#[trigger] list[m]) != "["@ + id + "]"@,
        forall|m: int| h < m < e ==> !is_header(trimmed(#[trigger] list[m])),
        after_prefix(trimmed(list[r]), "repo_path="@) is Some,
        forall|m: int|
            r < m < e ==> after_prefix(trimmed(#[trigger] list[m]), "repo_path="@) is None,
        e < list.len() ==> is_header(trimmed(list[e])),
    ensures
        base_in(list, section, repo, Some(id), hostname, config) == parent_path(
            trimmed(after_prefix(trimmed(list[r]), "repo_path="@)->0),
        ),
    decreases list.len(),
{
    let rest = list.skip(1);
    let line = trimmed(list[0]);
    assert forall|m: int| 0 <= m < rest.len() implies #[trigger] rest[m] == list[m + 1] by {}
    reveal_strlit("[");
    reveal_strlit("]");
    reveal_strlit("mesh");
    reveal_strlit("[mesh]");
    reveal_strlit("repo_path=");
    assert("["@ =~= seq!['['] && "]"@ =~= seq![']']);
    assert("[mesh]"@.len() == 6 && "mesh"@.len() == 4);
    assert("repo_path="@[0] == 'r' && "repo_path="@.len() == 10);
    let mine = "["@ + id + "]"@;
    assert(mine.subrange(1, mine.len() - 1) =~= id);
    if h > 0 {
        let next_section = if is_header(line) {
            line.subrange(1, line.len() - 1)
        } else {
            section
        };
        if is_header(line) {
            assert(line.take(1)[0] == line[0] && line.subrange(0, 1)[0] == line[0]);
            assert(line.len() > 0 && line[0] == '[' && line.last() == ']') by {
                assert(line.skip(line.len() - 1)[0] == line.last());
                assert(line.subrange(line.len() - 1, line.len() as int)[0] == line.last());
            }
            assert(line =~= "["@ + line.subrange(1, line.len() - 1) + "]"@);
            assert(next_section != id);
        }
        let next_repo = match after_prefix(line, "repo_path="@) {
            Some(v) => Some(trimmed(v)),
            None => if is_header(line) {
                None
            } else {
                repo
            },
        };
        assert(rest[h - 1] == list[h] && rest[r - 1] == list[r]);
        assert forall|m: int| 0 <= m < h - 1 implies trimmed(#[trigger] rest[m]) != mine by {
            assert(rest[m] == list[m + 1]);
        }
        assert forall|m: int| h - 1 < m < e - 1 implies !is_header(trimmed(#[trigger] rest[m])) by {
            assert(rest[m] == list[m + 1]);
        }
        assert forall|m: int| r - 1 < m < e - 1 implies after_prefix(
            trimmed(#[trigger] rest[m]),
            "repo_path="@,
        ) is None by {
            assert(rest[m] == list[m + 1]);
        }
        if e < list.len() {
            assert(rest[e - 1] == list[e]);
        }
        lemma_base_before(
            rest,
            next_section,
            next_repo,
            id,
            hostname,
            config,
            h - 1,
            r - 1,
            e - 1,
        );
    } else {
        assert(line == mine);
        assert(mine[0] == '[' && mine.last() == ']');
        assert(mine.take(1) =~= "["@ && mine.subrange(0, 1) =~= "["@);
        assert(mine.skip(mine.len() - 1) =~= "]"@);
        assert(mine.subrange(mine.len() - 1, mine.len() as int) =~= "]"@);
        assert(mine != "[mesh]"@) by {
            if mine == "[mesh]"@ {
                assert("[mesh]"@.subrange(1, 5) =~= "mesh"@);
            }
        }
        assert(is_header(line));
        assert(after_prefix(line, "repo_path="@) is None) by {
            if after_prefix(line, "repo_path="@) is Some {
                assert(line.take(10)[0] == line[0] && line.subrange(0, 10)[0] == line[0]);
            }
        }
        assert(rest[r - 1] == list[r]);
        assert forall|m: int| 0 <= m < e - 1 implies !is_header(trimmed(#[trigger] rest[m])) by {
            assert(rest[m] == list[m + 1]);
        }
        assert forall|m: int| r - 1 < m < e - 1 implies after_prefix(
            trimmed(#[trigger] rest[m]),
            "repo_path="@,
        ) is None by {
            assert(rest[m] == list[m + 1]);
        }
        if e < list.len() {
            assert(rest[e - 1] == list[e]);
        }
        lemma_base_inside(rest, None, id, hostname, config, r - 1, e - 1);
    }
}

/// Inside a peer's section the last repository counts.
proof fn lemma_base_inside(
    list: Seq<Seq<char>>,
    repo: Option<Seq<char>>,
    id: Seq<char>,
    hostname: Seq<char>,
    config: Seq<char>,
    r: int,
    e: int,
)
    requires
        -1 <= r < e <= list.len() || r == -1 && e == 0,
        forall|m: int| 0 <= m < e ==> !is_header(trimmed(#[trigger] list[m])),
        r >= 0 ==> after_prefix(trimmed(list[r]), "repo_path="@) is Some,
        r == -1 ==> repo is Some,
        forall|m: int|
            r < m < e ==> after_prefix(trimmed(#[trigger] list[m]), "repo_path="@) is None,
        e < list.len() ==> is_header(trimmed(list[e])),
    ensures
        base_in(list, id, repo, Some(id), hostname, config) == parent_path(
            if r >= 0 {
                trimmed(after_prefix(trimmed(list[r]), "repo_path="@)->0)
            } else {
                repo->0
            },
        ),
    decreases list.len(),
{
    if e > 0 {
        let rest = list.skip(1);
        let line = trimmed(list[0]);
        let next_repo = match after_prefix(line, "repo_path="@) {
            Some(v) => Some(trimmed(v)),
            None => repo,
        };
        assert forall|m: int| 0 <= m < rest.len() implies #[trigger] rest[m] == list[m + 1] by {}
        assert forall|m: int| 0 <= m < e - 1 implies !is_header(trimmed(#[trigger] rest[m])) by {
            assert(rest[m] == list[m + 1]);
        }
        let q = if r > 0 {
            r - 1
        } else {
            -1
        };
        assert forall|m: int| q < m < e - 1 implies after_prefix(
            trimmed(#[trigger] rest[m]),
            "repo_path="@,
        ) is None by {
            assert(rest[m] == list[m + 1]);
        }
        if e < list.len() {
            assert(rest[e - 1] == list[e]);
        }
        if r > 0 {
            assert(rest[r - 1] == list[r]);
        }
        lemma_base_inside(rest, next_repo, id, hostname, config, q, e - 1);
    }
}

/// A section is wanted for a peer exactly where it has the peer's name, and without a peer exactly
/// where its lines mention this machine, with or without `.local`.
pub proof fn law_wanted_sections(
    peer: Seq<char>,
    section: Seq<char>,
    hostname: Seq<char>,
    config: Seq<char>,
)
    ensures
        wanted_section(Some(peer), section, hostname, config) <==> section == peer,
        ({
            let block = section_block(line_list(config), "["@ + section + "]"@, false);
            wanted_section(None, section, hostname, config) <==> occurs(block, hostname) || occurs(
                block,
                replaced(hostname, ".local"@, Seq::empty()),
            )
        }),
{
}

/// A path is remapped exactly where both machines have a directory and the path lies below that of
/// this one: what lies below goes below that of the peer.
pub proof fn law_remapped_path(
    config: Seq<char>,
    path: Seq<char>,
    peer: Seq<char>,
    hostname: Seq<char>,
)
    ensures
        ({
            let here = base_of(config, None, hostname);
            let there = base_of(config, Some(peer), hostname);
            &&& remapped(config, path, peer, hostname) is Some <==> here is Some && there is Some
                && path_below(path, here->0) is Some
            &&& remapped(config, path, peer, hostname) matches Some(p) ==> p == joined_path(
                there->0,
                path_below(path, here->0)->0,
            )
        }),
{
}

/// The lines of a section are those behind its first header, up to the next line that begins with
/// a bracket, each trimmed and ended.
pub proof fn law_section_lines(list: Seq<Seq<char>>, header: Seq<char>, h: int, e: int)
    requires
        0 <= h < e <= list.len(),
        trimmed(list[h]) == header,
        forall|m: int| 0 <= m < h ==> trimmed(#[trigger] list[m]) != header,
        forall|m: int|
            h < m < e ==> trimmed(#[trigger] list[m]) != header && !begins(
                trimmed(list[m]),
                "["@,
            ),
        e < list.len() ==> trimmed(list[e]) != header && begins(trimmed(list[e]), "["@),
    ensures
        section_block(list, header, false) == ended_lines(list.subrange(h + 1, e)),
    decreases list.len(),
{
    let rest = list.skip(1);
    assert forall|m: int| 0 <= m < rest.len() implies #[trigger] rest[m] == list[m + 1] by {}
    if h > 0 {
        assert(rest[h - 1] == list[h]);
        assert forall|m: int| 0 <= m < h - 1 implies trimmed(#[trigger] rest[m]) != header by {
            assert(rest[m] == list[m + 1]);
        }
        assert forall|m: int| h - 1 < m < e - 1 implies trimmed(#[trigger] rest[m]) != header
            && !begins(trimmed(rest[m]), "["@) by {
            assert(rest[m] == list[m + 1]);
        }
        if e < list.len() {
            assert(rest[e - 1] == list[e]);
        }
        law_section_lines(rest, header, h - 1, e - 1);
        assert(rest.subrange(h, e - 1) =~= list.subrange(h + 1, e));
    } else {
        assert forall|m: int| 0 <= m < e - 1 implies trimmed(#[trigger] rest[m]) != header
            && !begins(trimmed(rest[m]), "["@) by {
            assert(rest[m] == list[m + 1]);
        }
        if e < list.len() {
            assert(rest[e - 1] == list[e]);
        }
        lemma_section_inside(rest, header, e - 1);
        assert(rest.subrange(0, e - 1) =~= list.subrange(1, e));
    }
}

/// Lines, each trimmed and ended by a line feed.
pub open spec fn ended_lines(list: Seq<Seq<char>>) -> Seq<char>
    decreases list.len(),
{
    if list.len() == 0 {
        Seq::empty()
    } else {
        trimmed(list[0]) + seq!['\n'] + ended_lines(list.skip(1))
    }
}

/// Inside a section every line counts, up to the next bracket.
proof fn lemma_section_inside(list: Seq<Seq<char>>, header: Seq<char>, e: int)
    requires
        0 <= e <= list.len(),
        forall|m: int|
            0 <= m < e ==> trimmed(#[trigger] list[m]) != header && !begins(
                trimmed(list[m]),
                "["@,
            ),
        e < list.len() ==> trimmed(list[e]) != header && begins(trimmed(list[e]), "["@),
    ensures
        section_block(list, header, true) == ended_lines(list.subrange(0, e)),
    decreases list.len(),
{
    if e > 0 {
        let rest = list.skip(1);
        assert forall|m: int| 0 <= m < e - 1 implies trimmed(#[trigger] rest[m]) != header
            && !begins(trimmed(rest[m]), "["@) by {
            assert(rest[m] == list[m + 1]);
        }
        if e < list.len() {
            assert(rest[e - 1] == list[e]);
        }
        lemma_section_inside(rest, header, e - 1);
        assert(list.subrange(0, e).skip(1) =~= rest.subrange(0, e - 1));
        assert(list.subrange(0, e)[0] == list[0]);
    } else {
        assert(list.subrange(0, 0) =~= Seq::empty());
    }
}

/// A request for an agent has failed where it was not answered or where the answer has an error;
/// an error that is no text is `unknown`. A task that is not there has failed once.
pub proof fn law_failed_spawns(reply: SpawnReply, e: String, s: StoreView, task_id: i64)
    ensures
        spawn_error(Err(e)) == Some(e@),
        reply.error is None ==> spawn_error(Ok(reply)) is None,
        reply.error == Some(None::<String>) ==> spawn_error(Ok(reply)) == Some("unknown"@),
        reply.error == Some(Some(e)) ==> spawn_error(Ok(reply)) == Some(e@),
        (forall|i: int| 0 <= i < s.tasks.rows.len() ==> (#[trigger] s.tasks.rows[i]).id != task_id)
            ==> failures_after(s, task_id) == 1,
{
    crate::table::lemma_first_place(s.tasks.rows, task_is(task_id));
}

} // verus!
