//! Cleaning up after a plan: worktrees and branches that are no longer needed.

use crate::learning::{agents_of, works_on};
use crate::rows::{AgentRow, AgentRowView};
use crate::store::{sound, Store, StoreView};
use crate::table::{select_where, update_where, updated, views, Duplicate};
use crate::text::{begins, line_list, lines, opt_text, same, strip_prefix, texts, trim, trimmed};
use vstd::prelude::*;

verus! {

/// The agents that worked on a plan, have stopped for good, and left a workspace.
pub open spec fn left_workspace(s: StoreView, plan_id: i64) -> spec_fn(AgentRowView) -> bool {
    |a: AgentRowView|
        agents_of(s, plan_id)(a) && (a.stage == "stopped"@ || a.stage == "reaped"@ || a.stage
            == "failed"@) && a.workspace_path is Some
}

/// Agents with their workspaces.
pub open spec fn workspaces(rows: Seq<AgentRowView>) -> Seq<(Seq<char>, Seq<char>)> {
    rows.map_values(|a: AgentRowView| (a.id, a.workspace_path->0))
}

/// Agents with their workspaces, by their characters.
pub open spec fn named_paths(list: Seq<(String, String)>) -> Seq<(Seq<char>, Seq<char>)> {
    list.map_values(|e: (String, String)| (e.0@, e.1@))
}

/// The workspaces to clean up after a plan, each with its agent.
pub fn workspaces_to_clean(db: &Store, plan_id: i64) -> (r: Vec<(String, String)>)
    ensures
        named_paths(r@) == workspaces(db@.agents.filter(left_workspace(db@, plan_id))),
{
    let rows = select_where(
        &db.agents,
        |a: &AgentRow| -> (b: bool) ensures b == left_workspace(db@, plan_id)(a@) {
            works_on(db, a, plan_id) && (same(a.stage.as_str(), "stopped") || same(a.stage.as_str(), "reaped") || same(
                a.stage.as_str(),
                "failed",
            )) && a.workspace_path.is_some()
        },
        Ghost(left_workspace(db@, plan_id)),
    );
    let ghost found = views(rows@);
    let mut out: Vec<(String, String)> = Vec::new();
    let mut i: usize = 0;
    while i < rows.len()
        invariant
            i <= rows@.len(),
            found == views(rows@),
            found == db@.agents.filter(left_workspace(db@, plan_id)),
            out@.len() == i,
            forall|k: int|
                0 <= k < i ==> (#[trigger] out@[k]).0@ == found[k].id && out@[k].1@
                    == found[k].workspace_path->0,
        decreases rows@.len() - i,
    {
        proof {
            db@.agents.lemma_filter_pred(left_workspace(db@, plan_id), i as int);
            assert(left_workspace(db@, plan_id)(found[i as int]));
        }
        let path = match &rows[i].workspace_path {
            Some(p) => p.clone(),
            None => String::new(),
        };
        out.push((rows[i].id.clone(), path));
        i += 1;
    }
    assert(named_paths(out@) =~= workspaces(found));
    out
}

/// The agent with the given id.
pub open spec fn agent_is(id: Seq<char>) -> spec_fn(AgentRowView) -> bool {
    |a: AgentRowView| a.id == id
}

/// An agent without a workspace.
pub open spec fn cleaned(now: i64) -> spec_fn(AgentRowView) -> AgentRowView {
    |a: AgentRowView| AgentRowView { workspace_path: None, updated_at: Some(now), ..a }
}

/// Notes that the workspace of an agent is gone.
pub fn mark_cleaned(db: &mut Store, agent_id: &str, now: i64)
    ensures
        final(db)@ == (StoreView {
            agents: updated(old(db)@.agents, agent_is(agent_id@), cleaned(now)),
            ..old(db)@
        }),
        sound(old(db)@) ==> sound(final(db)@),
{
    update_where(
        &mut db.agents,
        |a: &AgentRow| -> (b: bool) ensures b == agent_is(agent_id@)(a@) {
            same(a.id.as_str(), agent_id)
        },
        |a: &AgentRow| -> (n: AgentRow) ensures n@ == cleaned(now)(a@) {
            AgentRow { workspace_path: None, updated_at: Some(now), ..a.duplicate() }
        },
        Ghost(agent_is(agent_id@)),
        Ghost(cleaned(now)),
    );
}

/// The name of the branch that `git branch --show-current` prints, if it prints one.
pub fn current_branch(output: &str) -> (r: Option<String>)
    ensures
        opt_text(r) == (if trimmed(output@).len() == 0 {
            None
        } else {
            Some(trimmed(output@))
        }),
{
    let name = trim(output);
    if name.as_str().is_empty() {
        None
    } else {
        Some(name)
    }
}

/// A line without the marks of the current branch at its start.
pub open spec fn without_marks(line: Seq<char>) -> Seq<char>
    decreases line.len(),
{
    if begins(line, "* "@) && line.len() >= 2 {
        without_marks(line.skip(2))
    } else {
        line
    }
}

fn strip_marks(line: &str) -> (r: String)
    ensures
        r@ == without_marks(line@),
{
    proof {
        reveal_strlit("* ");
    }
    let mut rest = line.to_owned();
    loop
        invariant
            without_marks(rest@) == without_marks(line@),
            "* "@.len() == 2,
        decreases rest@.len(),
    {
        match strip_prefix(rest.as_str(), "* ") {
            Some(r) => {
                rest = r;
            },
            None => {
                return rest;
            },
        }
    }
}

/// Whether a branch stands in a list of branches, one on each line.
pub open spec fn in_branch_list(lines: Seq<Seq<char>>, branch: Seq<char>) -> bool {
    exists|i: int| 0 <= i < lines.len() && without_marks(trimmed(#[trigger] lines[i])) == branch
}

/// Whether a branch is among those that `git branch --merged` prints.
pub fn is_merged(output: &str, branch: &str) -> (r: bool)
    ensures
        r == in_branch_list(line_list(output@), branch@),
{
    let list = lines(output);
    let ghost all = texts(list@);
    let mut i: usize = 0;
    while i < list.len()
        invariant
            i <= list@.len(),
            all == texts(list@),
            all == line_list(output@),
            forall|k: int| 0 <= k < i ==> without_marks(trimmed(#[trigger] all[k])) != branch@,
        decreases list@.len() - i,
    {
        assert(all[i as int] == list@[i as int]@);
        let line = strip_marks(trim(list[i].as_str()).as_str());
        if same(line.as_str(), branch) {
            return true;
        }
        i += 1;
    }
    false
}

/// The workspaces to clean up after a plan, over the rows: those of the agents that stopped, failed
/// or were reaped, and that worked on a task of the plan.
pub proof fn law_workspaces_over_rows(s: StoreView, plan_id: i64, i: int)
    requires
        0 <= i < s.agents.len(),
    ensures
        s.agents.filter(left_workspace(s, plan_id)).contains(s.agents[i]) <==> {
            &&& s.agents[i].workspace_path is Some
            &&& s.agents[i].stage == "stopped"@ || s.agents[i].stage == "failed"@
                || s.agents[i].stage == "reaped"@
            &&& exists|k: int|
                0 <= k < s.tasks.rows.len() && s.agents[i].task_id == Some(
                    (#[trigger] s.tasks.rows[k]).id,
                ) && s.tasks.rows[k].plan_id == plan_id
        },
{
    let a = s.agents[i];
    crate::table::lemma_kept_at(s.agents, left_workspace(s, plan_id), i);
    if let Some(t) = a.task_id {
        let p = crate::handlers::task_in_plan(t, plan_id);
        assert(crate::table::any(s.tasks.rows, p) <==> exists|k: int|
            0 <= k < s.tasks.rows.len() && a.task_id == Some((#[trigger] s.tasks.rows[k]).id)
                && s.tasks.rows[k].plan_id == plan_id);
    }
}

/// A workspace is told of with its agent. An agent whose workspace is gone has none as of now, and
/// no other agent changes.
pub proof fn law_cleaned_over_rows(agents: Seq<AgentRowView>, id: Seq<char>, now: i64, i: int)
    requires
        0 <= i < agents.len(),
    ensures
        updated(agents, agent_is(id), cleaned(now))[i] == if agents[i].id == id {
            AgentRowView { workspace_path: None, updated_at: Some(now), ..agents[i] }
        } else {
            agents[i]
        },
        workspaces(agents)[i] == (agents[i].id, agents[i].workspace_path->0),
{
}

/// The mark of the current branch does not belong to the name of a branch.
pub proof fn law_branch_names(name: Seq<char>)
    requires
        !begins(name, "* "@),
    ensures
        without_marks(name) == name,
        without_marks("* "@ + name) == name,
{
    reveal_strlit("* ");
    let line = "* "@ + name;
    assert("* "@.len() == 2);
    assert(line.skip(2) =~= name);
    assert(line.take(2) =~= "* "@ && line.subrange(0, 2) =~= "* "@);
}

/// A branch is merged where a line, trimmed and without the mark of the current branch, is its name.
pub proof fn law_merged_branch(lines: Seq<Seq<char>>, i: int)
    requires
        0 <= i < lines.len(),
    ensures
        in_branch_list(lines, without_marks(trimmed(lines[i]))),
        forall|branch: Seq<char>|
            (forall|k: int|
                0 <= k < lines.len() ==> without_marks(trimmed(#[trigger] lines[k])) != branch)
                ==> !#[trigger] in_branch_list(lines, branch),
{
}

} // verus!
