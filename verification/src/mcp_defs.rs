//! The tools that agents may call, as they are announced to them.

use crate::table::views;
use vstd::prelude::*;

verus! {

/// What a tool takes for a parameter.
#[derive(Debug, Clone, Copy, PartialEq, Eq, Structural)]
pub enum ParamKind {
    Integer,
    Text,
    TextList,
}

/// A parameter of a tool.
#[derive(Debug, Clone)]
pub struct ToolParam {
    pub name: &'static str,
    pub kind: ParamKind,
    /// What the parameter means, empty where its name says it.
    pub description: &'static str,
    /// The values that the parameter may have, none where it may have any.
    pub choices: Vec<&'static str>,
}

/// What a [`ToolParam`] holds.
pub struct ToolParamView {
    pub name: Seq<char>,
    pub kind: ParamKind,
    pub description: Seq<char>,
    pub choices: Seq<Seq<char>>,
}

/// Words by their characters.
pub open spec fn words_of(list: Seq<&'static str>) -> Seq<Seq<char>> {
    list.map_values(|s: &'static str| s@)
}

impl View for ToolParam {
    type V = ToolParamView;

    open spec fn view(&self) -> ToolParamView {
        ToolParamView {
            name: self.name@,
            kind: self.kind,
            description: self.description@,
            choices: words_of(self.choices@),
        }
    }
}

/// A tool: the request that it stands for, and what it takes.
#[derive(Debug, Clone)]
pub struct ToolDef {
    pub name: &'static str,
    pub description: &'static str,
    pub method: &'static str,
    pub path: &'static str,
    pub params: Vec<ToolParam>,
    /// The parameters that have to be given.
    pub required: Vec<&'static str>,
    /// How trusted an agent has to be.
    pub min_ring: &'static str,
    /// The parameters that stand in the path.
    pub path_params: Vec<&'static str>,
}

/// What a [`ToolDef`] holds.
pub struct ToolDefView {
    pub name: Seq<char>,
    pub description: Seq<char>,
    pub method: Seq<char>,
    pub path: Seq<char>,
    pub params: Seq<ToolParamView>,
    pub required: Seq<Seq<char>>,
    pub min_ring: Seq<char>,
    pub path_params: Seq<Seq<char>>,
}

impl View for ToolDef {
    type V = ToolDefView;

    open spec fn view(&self) -> ToolDefView {
        ToolDefView {
            name: self.name@,
            description: self.description@,
            method: self.method@,
            path: self.path@,
            params: views(self.params@),
            required: words_of(self.required@),
            min_ring: self.min_ring@,
            path_params: words_of(self.path_params@),
        }
    }
}

/// A parameter.
pub open spec fn param_view(
    name: Seq<char>,
    kind: ParamKind,
    description: Seq<char>,
    choices: Seq<Seq<char>>,
) -> ToolParamView {
    ToolParamView { name, kind, description, choices }
}

fn param(
    name: &'static str,
    kind: ParamKind,
    description: &'static str,
    choices: Vec<&'static str>,
) -> (r: ToolParam)
    ensures
        r@ == param_view(name@, kind, description@, words_of(choices@)),
{
    ToolParam { name, kind, description, choices }
}

/// The tool `cvg_list_plans`.
pub open spec fn list_plans_tool() -> ToolDefView {
    ToolDefView {
        name: "cvg_list_plans"@,
        description: "List plans. Defaults to active+paused (not all). Use status=all to see everything."@,
        method: "GET"@,
        path: "/api/plan-db/list"@,
        params: seq![
            param_view("status"@, ParamKind::Text, "Filter: active, in_progress, paused, done, cancelled, failed, all (default: omit for active+paused only)"@, Seq::empty()),
        ],
        required: Seq::empty(),
        min_ring: "sandboxed"@,
        path_params: Seq::empty(),
    }
}

fn list_plans() -> (r: ToolDef)
    ensures
        r@ == list_plans_tool(),
{
    let r = ToolDef {
        name: "cvg_list_plans",
        description: "List plans. Defaults to active+paused (not all). Use status=all to see everything.",
        method: "GET",
        path: "/api/plan-db/list",
        params: vec![
            param("status", ParamKind::Text, "Filter: active, in_progress, paused, done, cancelled, failed, all (default: omit for active+paused only)", Vec::new()),
        ],
        required: Vec::new(),
        min_ring: "sandboxed",
        path_params: Vec::new(),
    };
    proof {
        assert(r.params@[0]@.choices =~= list_plans_tool().params[0].choices);
        assert(r@.params =~= list_plans_tool().params);
        assert(r@.required =~= list_plans_tool().required);
        assert(r@.path_params =~= list_plans_tool().path_params);
    }
    r
}

/// The tool `cvg_get_plan`.
pub open spec fn get_plan_tool() -> ToolDefView {
    ToolDefView {
        name: "cvg_get_plan"@,
        description: "Get full plan details by ID."@,
        method: "GET"@,
        path: "/api/plan-db/json/:plan_id"@,
        params: seq![
            param_view("plan_id"@, ParamKind::Integer, Seq::empty(), Seq::empty()),
        ],
        required: seq!["plan_id"@],
        min_ring: "community"@,
        path_params: seq!["plan_id"@],
    }
}

fn get_plan() -> (r: ToolDef)
    ensures
        r@ == get_plan_tool(),
{
    proof {
        reveal_strlit("");
    }
    let r = ToolDef {
        name: "cvg_get_plan",
        description: "Get full plan details by ID.",
        method: "GET",
        path: "/api/plan-db/json/:plan_id",
        params: vec![
            param("plan_id", ParamKind::Integer, "", Vec::new()),
        ],
        required: vec!["plan_id"],
        min_ring: "community",
        path_params: vec!["plan_id"],
    };
    proof {
        assert(r.params@[0]@.choices =~= get_plan_tool().params[0].choices);
        assert(r.params@[0]@.description =~= Seq::<char>::empty());
        assert(r@.params =~= get_plan_tool().params);
        assert(r@.required =~= get_plan_tool().required);
        assert(r@.path_params =~= get_plan_tool().path_params);
    }
    r
}

/// The tool `cvg_get_execution_tree`.
pub open spec fn get_execution_tree_tool() -> ToolDefView {
    ToolDefView {
        name: "cvg_get_execution_tree"@,
        description: "Get execution tree for a plan with waves and tasks."@,
        method: "GET"@,
        path: "/api/plan-db/execution-tree/:plan_id"@,
        params: seq![
            param_view("plan_id"@, ParamKind::Integer, Seq::empty(), Seq::empty()),
        ],
        required: seq!["plan_id"@],
        min_ring: "community"@,
        path_params: seq!["plan_id"@],
    }
}

fn get_execution_tree() -> (r: ToolDef)
    ensures
        r@ == get_execution_tree_tool(),
{
    proof {
        reveal_strlit("");
    }
    let r = ToolDef {
        name: "cvg_get_execution_tree",
        description: "Get execution tree for a plan with waves and tasks.",
        method: "GET",
        path: "/api/plan-db/execution-tree/:plan_id",
        params: vec![
            param("plan_id", ParamKind::Integer, "", Vec::new()),
        ],
        required: vec!["plan_id"],
        min_ring: "community",
        path_params: vec!["plan_id"],
    };
    proof {
        assert(r.params@[0]@.choices =~= get_execution_tree_tool().params[0].choices);
        assert(r.params@[0]@.description =~= Seq::<char>::empty());
        assert(r@.params =~= get_execution_tree_tool().params);
        assert(r@.required =~= get_execution_tree_tool().required);
        assert(r@.path_params =~= get_execution_tree_tool().path_params);
    }
    r
}

/// The tool `cvg_update_task`.
pub open spec fn update_task_tool() -> ToolDefView {
    ToolDefView {
        name: "cvg_update_task"@,
        description: "Update task status or notes. Status: pending, in_progress, submitted."@,
        method: "POST"@,
        path: "/api/plan-db/task/update"@,
        params: seq![
            param_view("task_id"@, ParamKind::Integer, Seq::empty(), Seq::empty()),
            param_view("status"@, ParamKind::Text, Seq::empty(), seq!["pending"@, "in_progress"@, "submitted"@]),
            param_view("agent_id"@, ParamKind::Text, Seq::empty(), Seq::empty()),
            param_view("notes"@, ParamKind::Text, Seq::empty(), Seq::empty()),
            param_view("summary"@, ParamKind::Text, Seq::empty(), Seq::empty()),
        ],
        required: seq!["task_id"@, "status"@, "agent_id"@],
        min_ring: "trusted"@,
        path_params: Seq::empty(),
    }
}

fn update_task() -> (r: ToolDef)
    ensures
        r@ == update_task_tool(),
{
    proof {
        reveal_strlit("");
    }
    let r = ToolDef {
        name: "cvg_update_task",
        description: "Update task status or notes. Status: pending, in_progress, submitted.",
        method: "POST",
        path: "/api/plan-db/task/update",
        params: vec![
            param("task_id", ParamKind::Integer, "", Vec::new()),
            param("status", ParamKind::Text, "", vec!["pending", "in_progress", "submitted"]),
            param("agent_id", ParamKind::Text, "", Vec::new()),
            param("notes", ParamKind::Text, "", Vec::new()),
            param("summary", ParamKind::Text, "", Vec::new()),
        ],
        required: vec!["task_id", "status", "agent_id"],
        min_ring: "trusted",
        path_params: Vec::new(),
    };
    proof {
        assert(r.params@[0]@.choices =~= update_task_tool().params[0].choices);
        assert(r.params@[0]@.description =~= Seq::<char>::empty());
        assert(r.params@[1]@.choices =~= update_task_tool().params[1].choices);
        assert(r.params@[1]@.description =~= Seq::<char>::empty());
        assert(r.params@[2]@.choices =~= update_task_tool().params[2].choices);
        assert(r.params@[2]@.description =~= Seq::<char>::empty());
        assert(r.params@[3]@.choices =~= update_task_tool().params[3].choices);
        assert(r.params@[3]@.description =~= Seq::<char>::empty());
        assert(r.params@[4]@.choices =~= update_task_tool().params[4].choices);
        assert(r.params@[4]@.description =~= Seq::<char>::empty());
        assert(r@.params =~= update_task_tool().params);
        assert(r@.required =~= update_task_tool().required);
        assert(r@.path_params =~= update_task_tool().path_params);
    }
    r
}

/// The tool `cvg_complete_task`.
pub open spec fn complete_task_tool() -> ToolDefView {
    ToolDefView {
        name: "cvg_complete_task"@,
        description: "Atomically complete a task: set notes, record evidence, and submit."@,
        method: "POST"@,
        path: "/api/plan-db/task/complete-flow"@,
        params: seq![
            param_view("task_db_id"@, ParamKind::Integer, Seq::empty(), Seq::empty()),
            param_view("agent_id"@, ParamKind::Text, Seq::empty(), Seq::empty()),
            param_view("pr_url"@, ParamKind::Text, Seq::empty(), Seq::empty()),
            param_view("test_command"@, ParamKind::Text, Seq::empty(), Seq::empty()),
            param_view("test_output"@, ParamKind::Text, Seq::empty(), Seq::empty()),
            param_view("test_exit_code"@, ParamKind::Integer, Seq::empty(), Seq::empty()),
            param_view("notes"@, ParamKind::Text, Seq::empty(), Seq::empty()),
        ],
        required: seq!["task_db_id"@, "agent_id"@, "pr_url"@],
        min_ring: "trusted"@,
        path_params: Seq::empty(),
    }
}

fn complete_task() -> (r: ToolDef)
    ensures
        r@ == complete_task_tool(),
{
    proof {
        reveal_strlit("");
    }
    let r = ToolDef {
        name: "cvg_complete_task",
        description: "Atomically complete a task: set notes, record evidence, and submit.",
        method: "POST",
        path: "/api/plan-db/task/complete-flow",
        params: vec![
            param("task_db_id", ParamKind::Integer, "", Vec::new()),
            param("agent_id", ParamKind::Text, "", Vec::new()),
            param("pr_url", ParamKind::Text, "", Vec::new()),
            param("test_command", ParamKind::Text, "", Vec::new()),
            param("test_output", ParamKind::Text, "", Vec::new()),
            param("test_exit_code", ParamKind::Integer, "", Vec::new()),
            param("notes", ParamKind::Text, "", Vec::new()),
        ],
        required: vec!["task_db_id", "agent_id", "pr_url"],
        min_ring: "trusted",
        path_params: Vec::new(),
    };
    proof {
        assert(r.params@[0]@.choices =~= complete_task_tool().params[0].choices);
        assert(r.params@[0]@.description =~= Seq::<char>::empty());
        assert(r.params@[1]@.choices =~= complete_task_tool().params[1].choices);
        assert(r.params@[1]@.description =~= Seq::<char>::empty());
        assert(r.params@[2]@.choices =~= complete_task_tool().params[2].choices);
        assert(r.params@[2]@.description =~= Seq::<char>::empty());
        assert(r.params@[3]@.choices =~= complete_task_tool().params[3].choices);
        assert(r.params@[3]@.description =~= Seq::<char>::empty());
        assert(r.params@[4]@.choices =~= complete_task_tool().params[4].choices);
        assert(r.params@[4]@.description =~= Seq::<char>::empty());
        assert(r.params@[5]@.choices =~= complete_task_tool().params[5].choices);
        assert(r.params@[5]@.description =~= Seq::<char>::empty());
        assert(r.params@[6]@.choices =~= complete_task_tool().params[6].choices);
        assert(r.params@[6]@.description =~= Seq::<char>::empty());
        assert(r@.params =~= complete_task_tool().params);
        assert(r@.required =~= complete_task_tool().required);
        assert(r@.path_params =~= complete_task_tool().path_params);
    }
    r
}

/// The tool `cvg_validate_plan`.
pub open spec fn validate_plan_tool() -> ToolDefView {
    ToolDefView {
        name: "cvg_validate_plan"@,
        description: "Run Thor validation for a plan. All wave tasks must be submitted first."@,
        method: "POST"@,
        path: "/api/plan-db/validate"@,
        params: seq![
            param_view("plan_id"@, ParamKind::Integer, Seq::empty(), Seq::empty()),
        ],
        required: seq!["plan_id"@],
        min_ring: "trusted"@,
        path_params: Seq::empty(),
    }
}

fn validate_plan() -> (r: ToolDef)
    ensures
        r@ == validate_plan_tool(),
{
    proof {
        reveal_strlit("");
    }
    let r = ToolDef {
        name: "cvg_validate_plan",
        description: "Run Thor validation for a plan. All wave tasks must be submitted first.",
        method: "POST",
        path: "/api/plan-db/validate",
        params: vec![
            param("plan_id", ParamKind::Integer, "", Vec::new()),
        ],
        required: vec!["plan_id"],
        min_ring: "trusted",
        path_params: Vec::new(),
    };
    proof {
        assert(r.params@[0]@.choices =~= validate_plan_tool().params[0].choices);
        assert(r.params@[0]@.description =~= Seq::<char>::empty());
        assert(r@.params =~= validate_plan_tool().params);
        assert(r@.required =~= validate_plan_tool().required);
        assert(r@.path_params =~= validate_plan_tool().path_params);
    }
    r
}

/// The tool `cvg_review_plan`.
pub open spec fn review_plan_tool() -> ToolDefView {
    ToolDefView {
        name: "cvg_review_plan"@,
        description: "Run pre-execution review for a plan."@,
        method: "POST"@,
        path: "/api/plan-db/review"@,
        params: seq![
            param_view("plan_id"@, ParamKind::Integer, Seq::empty(), Seq::empty()),
        ],
        required: seq!["plan_id"@],
        min_ring: "trusted"@,
        path_params: Seq::empty(),
    }
}

fn review_plan() -> (r: ToolDef)
    ensures
        r@ == review_plan_tool(),
{
    proof {
        reveal_strlit("");
    }
    let r = ToolDef {
        name: "cvg_review_plan",
        description: "Run pre-execution review for a plan.",
        method: "POST",
        path: "/api/plan-db/review",
        params: vec![
            param("plan_id", ParamKind::Integer, "", Vec::new()),
        ],
        required: vec!["plan_id"],
        min_ring: "trusted",
        path_params: Vec::new(),
    };
    proof {
        assert(r.params@[0]@.choices =~= review_plan_tool().params[0].choices);
        assert(r.params@[0]@.description =~= Seq::<char>::empty());
        assert(r@.params =~= review_plan_tool().params);
        assert(r@.required =~= review_plan_tool().required);
        assert(r@.path_params =~= review_plan_tool().path_params);
    }
    r
}

/// The tool `cvg_checkpoint_save`.
pub open spec fn checkpoint_save_tool() -> ToolDefView {
    ToolDefView {
        name: "cvg_checkpoint_save"@,
        description: "Save a checkpoint for a plan."@,
        method: "POST"@,
        path: "/api/plan-db/checkpoint/save"@,
        params: seq![
            param_view("plan_id"@, ParamKind::Integer, Seq::empty(), Seq::empty()),
        ],
        required: seq!["plan_id"@],
        min_ring: "trusted"@,
        path_params: Seq::empty(),
    }
}

fn checkpoint_save() -> (r: ToolDef)
    ensures
        r@ == checkpoint_save_tool(),
{
    proof {
        reveal_strlit("");
    }
    let r = ToolDef {
        name: "cvg_checkpoint_save",
        description: "Save a checkpoint for a plan.",
        method: "POST",
        path: "/api/plan-db/checkpoint/save",
        params: vec![
            param("plan_id", ParamKind::Integer, "", Vec::new()),
        ],
        required: vec!["plan_id"],
        min_ring: "trusted",
        path_params: Vec::new(),
    };
    proof {
        assert(r.params@[0]@.choices =~= checkpoint_save_tool().params[0].choices);
        assert(r.params@[0]@.description =~= Seq::<char>::empty());
        assert(r@.params =~= checkpoint_save_tool().params);
        assert(r@.required =~= checkpoint_save_tool().required);
        assert(r@.path_params =~= checkpoint_save_tool().path_params);
    }
    r
}

/// The tool `cvg_plan_readiness`.
pub open spec fn plan_readiness_tool() -> ToolDefView {
    ToolDefView {
        name: "cvg_plan_readiness"@,
        description: "Check plan readiness: validates tasks, deps, test_criteria."@,
        method: "GET"@,
        path: "/api/plan-db/readiness/:plan_id"@,
        params: seq![
            param_view("plan_id"@, ParamKind::Integer, Seq::empty(), Seq::empty()),
        ],
        required: seq!["plan_id"@],
        min_ring: "community"@,
        path_params: seq!["plan_id"@],
    }
}

fn plan_readiness() -> (r: ToolDef)
    ensures
        r@ == plan_readiness_tool(),
{
    proof {
        reveal_strlit("");
    }
    let r = ToolDef {
        name: "cvg_plan_readiness",
        description: "Check plan readiness: validates tasks, deps, test_criteria.",
        method: "GET",
        path: "/api/plan-db/readiness/:plan_id",
        params: vec![
            param("plan_id", ParamKind::Integer, "", Vec::new()),
        ],
        required: vec!["plan_id"],
        min_ring: "community",
        path_params: vec!["plan_id"],
    };
    proof {
        assert(r.params@[0]@.choices =~= plan_readiness_tool().params[0].choices);
        assert(r.params@[0]@.description =~= Seq::<char>::empty());
        assert(r@.params =~= plan_readiness_tool().params);
        assert(r@.required =~= plan_readiness_tool().required);
        assert(r@.path_params =~= plan_readiness_tool().path_params);
    }
    r
}

/// The tool `cvg_plan_import`.
pub open spec fn plan_import_tool() -> ToolDefView {
    ToolDefView {
        name: "cvg_plan_import"@,
        description: "Import tasks from a YAML spec into an existing plan."@,
        method: "POST"@,
        path: "/api/plan-db/import"@,
        params: seq![
            param_view("plan_id"@, ParamKind::Integer, Seq::empty(), Seq::empty()),
            param_view("spec"@, ParamKind::Text, "YAML spec content"@, Seq::empty()),
            param_view("import_mode"@, ParamKind::Text, "Import mode (default: append)"@, seq!["append"@, "replace"@, "merge"@]),
        ],
        required: seq!["plan_id"@, "spec"@],
        min_ring: "trusted"@,
        path_params: Seq::empty(),
    }
}

fn plan_import() -> (r: ToolDef)
    ensures
        r@ == plan_import_tool(),
{
    proof {
        reveal_strlit("");
    }
    let r = ToolDef {
        name: "cvg_plan_import",
        description: "Import tasks from a YAML spec into an existing plan.",
        method: "POST",
        path: "/api/plan-db/import",
        params: vec![
            param("plan_id", ParamKind::Integer, "", Vec::new()),
            param("spec", ParamKind::Text, "YAML spec content", Vec::new()),
            param("import_mode", ParamKind::Text, "Import mode (default: append)", vec!["append", "replace", "merge"]),
        ],
        required: vec!["plan_id", "spec"],
        min_ring: "trusted",
        path_params: Vec::new(),
    };
    proof {
        assert(r.params@[0]@.choices =~= plan_import_tool().params[0].choices);
        assert(r.params@[0]@.description =~= Seq::<char>::empty());
        assert(r.params@[1]@.choices =~= plan_import_tool().params[1].choices);
        assert(r.params@[2]@.choices =~= plan_import_tool().params[2].choices);
        assert(r@.params =~= plan_import_tool().params);
        assert(r@.required =~= plan_import_tool().required);
        assert(r@.path_params =~= plan_import_tool().path_params);
    }
    r
}

/// The tool `cvg_update_task_content`.
pub open spec fn update_task_content_tool() -> ToolDefView {
    ToolDefView {
        name: "cvg_update_task_content"@,
        description: "Update task content fields (title, description, model, effort). Only on draft/todo plans."@,
        method: "PATCH"@,
        path: "/api/plan-db/task/:task_id"@,
        params: seq![
            param_view("task_id"@, ParamKind::Integer, "Task DB ID"@, Seq::empty()),
            param_view("title"@, ParamKind::Text, Seq::empty(), Seq::empty()),
            param_view("description"@, ParamKind::Text, Seq::empty(), Seq::empty()),
            param_view("executor_agent"@, ParamKind::Text, Seq::empty(), Seq::empty()),
            param_view("model"@, ParamKind::Text, Seq::empty(), Seq::empty()),
            param_view("effort_level"@, ParamKind::Integer, Seq::empty(), Seq::empty()),
            param_view("test_criteria"@, ParamKind::Text, Seq::empty(), Seq::empty()),
            param_view("verify"@, ParamKind::TextList, Seq::empty(), Seq::empty()),
        ],
        required: seq!["task_id"@],
        min_ring: "trusted"@,
        path_params: seq!["task_id"@],
    }
}

fn update_task_content() -> (r: ToolDef)
    ensures
        r@ == update_task_content_tool(),
{
    proof {
        reveal_strlit("");
    }
    let r = ToolDef {
        name: "cvg_update_task_content",
        description: "Update task content fields (title, description, model, effort). Only on draft/todo plans.",
        method: "PATCH",
        path: "/api/plan-db/task/:task_id",
        params: vec![
            param("task_id", ParamKind::Integer, "Task DB ID", Vec::new()),
            param("title", ParamKind::Text, "", Vec::new()),
            param("description", ParamKind::Text, "", Vec::new()),
            param("executor_agent", ParamKind::Text, "", Vec::new()),
            param("model", ParamKind::Text, "", Vec::new()),
            param("effort_level", ParamKind::Integer, "", Vec::new()),
            param("test_criteria", ParamKind::Text, "", Vec::new()),
            param("verify", ParamKind::TextList, "", Vec::new()),
        ],
        required: vec!["task_id"],
        min_ring: "trusted",
        path_params: vec!["task_id"],
    };
    proof {
        assert(r.params@[0]@.choices =~= update_task_content_tool().params[0].choices);
        assert(r.params@[1]@.choices =~= update_task_content_tool().params[1].choices);
        assert(r.params@[1]@.description =~= Seq::<char>::empty());
        assert(r.params@[2]@.choices =~= update_task_content_tool().params[2].choices);
        assert(r.params@[2]@.description =~= Seq::<char>::empty());
        assert(r.params@[3]@.choices =~= update_task_content_tool().params[3].choices);
        assert(r.params@[3]@.description =~= Seq::<char>::empty());
        assert(r.params@[4]@.choices =~= update_task_content_tool().params[4].choices);
        assert(r.params@[4]@.description =~= Seq::<char>::empty());
        assert(r.params@[5]@.choices =~= update_task_content_tool().params[5].choices);
        assert(r.params@[5]@.description =~= Seq::<char>::empty());
        assert(r.params@[6]@.choices =~= update_task_content_tool().params[6].choices);
        assert(r.params@[6]@.description =~= Seq::<char>::empty());
        assert(r.params@[7]@.choices =~= update_task_content_tool().params[7].choices);
        assert(r.params@[7]@.description =~= Seq::<char>::empty());
        assert(r@.params =~= update_task_content_tool().params);
        assert(r@.required =~= update_task_content_tool().required);
        assert(r@.path_params =~= update_task_content_tool().path_params);
    }
    r
}

/// The tool `cvg_register_review`.
pub open spec fn register_review_tool() -> ToolDefView {
    ToolDefView {
        name: "cvg_register_review"@,
        description: "Register an external review verdict for a plan."@,
        method: "POST"@,
        path: "/api/plan-db/review/register"@,
        params: seq![
            param_view("plan_id"@, ParamKind::Integer, Seq::empty(), Seq::empty()),
            param_view("reviewer_agent"@, ParamKind::Text, Seq::empty(), Seq::empty()),
            param_view("verdict"@, ParamKind::Text, Seq::empty(), seq!["proceed"@, "revise"@, "reject"@]),
            param_view("suggestions"@, ParamKind::Text, Seq::empty(), Seq::empty()),
        ],
        required: seq!["plan_id"@, "reviewer_agent"@, "verdict"@],
        min_ring: "trusted"@,
        path_params: Seq::empty(),
    }
}

fn register_review() -> (r: ToolDef)
    ensures
        r@ == register_review_tool(),
{
    proof {
        reveal_strlit("");
    }
    let r = ToolDef {
        name: "cvg_register_review",
        description: "Register an external review verdict for a plan.",
        method: "POST",
        path: "/api/plan-db/review/register",
        params: vec![
            param("plan_id", ParamKind::Integer, "", Vec::new()),
            param("reviewer_agent", ParamKind::Text, "", Vec::new()),
            param("verdict", ParamKind::Text, "", vec!["proceed", "revise", "reject"]),
            param("suggestions", ParamKind::Text, "", Vec::new()),
        ],
        required: vec!["plan_id", "reviewer_agent", "verdict"],
        min_ring: "trusted",
        path_params: Vec::new(),
    };
    proof {
        assert(r.params@[0]@.choices =~= register_review_tool().params[0].choices);
        assert(r.params@[0]@.description =~= Seq::<char>::empty());
        assert(r.params@[1]@.choices =~= register_review_tool().params[1].choices);
        assert(r.params@[1]@.description =~= Seq::<char>::empty());
        assert(r.params@[2]@.choices =~= register_review_tool().params[2].choices);
        assert(r.params@[2]@.description =~= Seq::<char>::empty());
        assert(r.params@[3]@.choices =~= register_review_tool().params[3].choices);
        assert(r.params@[3]@.description =~= Seq::<char>::empty());
        assert(r@.params =~= register_review_tool().params);
        assert(r@.required =~= register_review_tool().required);
        assert(r@.path_params =~= register_review_tool().path_params);
    }
    r
}

/// The tool `cvg_start_plan`.
pub open spec fn start_plan_tool() -> ToolDefView {
    ToolDefView {
        name: "cvg_start_plan"@,
        description: "Start executing a plan (changes status from todo to in_progress)."@,
        method: "POST"@,
        path: "/api/plan-db/start/:plan_id"@,
        params: seq![
            param_view("plan_id"@, ParamKind::Integer, "Plan ID to start"@, Seq::empty()),
        ],
        required: seq!["plan_id"@],
        min_ring: "trusted"@,
        path_params: seq!["plan_id"@],
    }
}

fn start_plan() -> (r: ToolDef)
    ensures
        r@ == start_plan_tool(),
{
    let r = ToolDef {
        name: "cvg_start_plan",
        description: "Start executing a plan (changes status from todo to in_progress).",
        method: "POST",
        path: "/api/plan-db/start/:plan_id",
        params: vec![
            param("plan_id", ParamKind::Integer, "Plan ID to start", Vec::new()),
        ],
        required: vec!["plan_id"],
        min_ring: "trusted",
        path_params: vec!["plan_id"],
    };
    proof {
        assert(r.params@[0]@.choices =~= start_plan_tool().params[0].choices);
        assert(r@.params =~= start_plan_tool().params);
        assert(r@.required =~= start_plan_tool().required);
        assert(r@.path_params =~= start_plan_tool().path_params);
    }
    r
}

/// The tool `cvg_cancel_plan`.
pub open spec fn cancel_plan_tool() -> ToolDefView {
    ToolDefView {
        name: "cvg_cancel_plan"@,
        description: "Cancel a plan."@,
        method: "POST"@,
        path: "/api/plan-db/cancel/:plan_id"@,
        params: seq![
            param_view("plan_id"@, ParamKind::Integer, "Plan ID to cancel"@, Seq::empty()),
        ],
        required: seq!["plan_id"@],
        min_ring: "trusted"@,
        path_params: seq!["plan_id"@],
    }
}

fn cancel_plan() -> (r: ToolDef)
    ensures
        r@ == cancel_plan_tool(),
{
    let r = ToolDef {
        name: "cvg_cancel_plan",
        description: "Cancel a plan.",
        method: "POST",
        path: "/api/plan-db/cancel/:plan_id",
        params: vec![
            param("plan_id", ParamKind::Integer, "Plan ID to cancel", Vec::new()),
        ],
        required: vec!["plan_id"],
        min_ring: "trusted",
        path_params: vec!["plan_id"],
    };
    proof {
        assert(r.params@[0]@.choices =~= cancel_plan_tool().params[0].choices);
        assert(r@.params =~= cancel_plan_tool().params);
        assert(r@.required =~= cancel_plan_tool().required);
        assert(r@.path_params =~= cancel_plan_tool().path_params);
    }
    r
}

/// The tool `cvg_resume_plan`.
pub open spec fn resume_plan_tool() -> ToolDefView {
    ToolDefView {
        name: "cvg_resume_plan"@,
        description: "Resume a paused or stale plan."@,
        method: "POST"@,
        path: "/api/plan-db/resume/:plan_id"@,
        params: seq![
            param_view("plan_id"@, ParamKind::Integer, "Plan ID to resume"@, Seq::empty()),
        ],
        required: seq!["plan_id"@],
        min_ring: "trusted"@,
        path_params: seq!["plan_id"@],
    }
}

fn resume_plan() -> (r: ToolDef)
    ensures
        r@ == resume_plan_tool(),
{
    let r = ToolDef {
        name: "cvg_resume_plan",
        description: "Resume a paused or stale plan.",
        method: "POST",
        path: "/api/plan-db/resume/:plan_id",
        params: vec![
            param("plan_id", ParamKind::Integer, "Plan ID to resume", Vec::new()),
        ],
        required: vec!["plan_id"],
        min_ring: "trusted",
        path_params: vec!["plan_id"],
    };
    proof {
        assert(r.params@[0]@.choices =~= resume_plan_tool().params[0].choices);
        assert(r@.params =~= resume_plan_tool().params);
        assert(r@.required =~= resume_plan_tool().required);
        assert(r@.path_params =~= resume_plan_tool().path_params);
    }
    r
}

/// The tool `cvg_wave_complete`.
pub open spec fn wave_complete_tool() -> ToolDefView {
    ToolDefView {
        name: "cvg_wave_complete"@,
        description: "Batch-complete all tasks in a wave: set notes, record evidence, submit. One call instead of N."@,
        method: "POST"@,
        path: "/api/plan-db/wave/complete"@,
        params: seq![
            param_view("wave_db_id"@, ParamKind::Integer, "Database ID of the wave"@, Seq::empty()),
            param_view("agent_id"@, ParamKind::Text, Seq::empty(), Seq::empty()),
            param_view("pr_url"@, ParamKind::Text, "PR URL shared by all tasks in the wave"@, Seq::empty()),
            param_view("test_command"@, ParamKind::Text, Seq::empty(), Seq::empty()),
            param_view("test_output"@, ParamKind::Text, Seq::empty(), Seq::empty()),
            param_view("test_exit_code"@, ParamKind::Integer, Seq::empty(), Seq::empty()),
        ],
        required: seq!["wave_db_id"@, "agent_id"@, "pr_url"@],
        min_ring: "trusted"@,
        path_params: Seq::empty(),
    }
}

fn wave_complete() -> (r: ToolDef)
    ensures
        r@ == wave_complete_tool(),
{
    proof {
        reveal_strlit("");
    }
    let r = ToolDef {
        name: "cvg_wave_complete",
        description: "Batch-complete all tasks in a wave: set notes, record evidence, submit. One call instead of N.",
        method: "POST",
        path: "/api/plan-db/wave/complete",
        params: vec![
            param("wave_db_id", ParamKind::Integer, "Database ID of the wave", Vec::new()),
            param("agent_id", ParamKind::Text, "", Vec::new()),
            param("pr_url", ParamKind::Text, "PR URL shared by all tasks in the wave", Vec::new()),
            param("test_command", ParamKind::Text, "", Vec::new()),
            param("test_output", ParamKind::Text, "", Vec::new()),
            param("test_exit_code", ParamKind::Integer, "", Vec::new()),
        ],
        required: vec!["wave_db_id", "agent_id", "pr_url"],
        min_ring: "trusted",
        path_params: Vec::new(),
    };
    proof {
        assert(r.params@[0]@.choices =~= wave_complete_tool().params[0].choices);
        assert(r.params@[1]@.choices =~= wave_complete_tool().params[1].choices);
        assert(r.params@[1]@.description =~= Seq::<char>::empty());
        assert(r.params@[2]@.choices =~= wave_complete_tool().params[2].choices);
        assert(r.params@[3]@.choices =~= wave_complete_tool().params[3].choices);
        assert(r.params@[3]@.description =~= Seq::<char>::empty());
        assert(r.params@[4]@.choices =~= wave_complete_tool().params[4].choices);
        assert(r.params@[4]@.description =~= Seq::<char>::empty());
        assert(r.params@[5]@.choices =~= wave_complete_tool().params[5].choices);
        assert(r.params@[5]@.description =~= Seq::<char>::empty());
        assert(r@.params =~= wave_complete_tool().params);
        assert(r@.required =~= wave_complete_tool().required);
        assert(r@.path_params =~= wave_complete_tool().path_params);
    }
    r
}

/// The tool `cvg_force_resume_plan`.
pub open spec fn force_resume_plan_tool() -> ToolDefView {
    ToolDefView {
        name: "cvg_force_resume_plan"@,
        description: "Force-resume a stuck plan: set in_progress, clear locks, reset stuck tasks."@,
        method: "POST"@,
        path: "/api/plan-db/force-resume/:plan_id"@,
        params: seq![
            param_view("plan_id"@, ParamKind::Integer, "Plan ID to force-resume"@, Seq::empty()),
        ],
        required: seq!["plan_id"@],
        min_ring: "trusted"@,
        path_params: seq!["plan_id"@],
    }
}

fn force_resume_plan() -> (r: ToolDef)
    ensures
        r@ == force_resume_plan_tool(),
{
    let r = ToolDef {
        name: "cvg_force_resume_plan",
        description: "Force-resume a stuck plan: set in_progress, clear locks, reset stuck tasks.",
        method: "POST",
        path: "/api/plan-db/force-resume/:plan_id",
        params: vec![
            param("plan_id", ParamKind::Integer, "Plan ID to force-resume", Vec::new()),
        ],
        required: vec!["plan_id"],
        min_ring: "trusted",
        path_params: vec!["plan_id"],
    };
    proof {
        assert(r.params@[0]@.choices =~= force_resume_plan_tool().params[0].choices);
        assert(r@.params =~= force_resume_plan_tool().params);
        assert(r@.required =~= force_resume_plan_tool().required);
        assert(r@.path_params =~= force_resume_plan_tool().path_params);
    }
    r
}

/// The tool `cvg_force_complete_plan`.
pub open spec fn force_complete_plan_tool() -> ToolDefView {
    ToolDefView {
        name: "cvg_force_complete_plan"@,
        description: "Force-complete a stuck plan: mark all tasks done. Use when code is merged but DB is stuck."@,
        method: "POST"@,
        path: "/api/plan-db/force-complete/:plan_id"@,
        params: seq![
            param_view("plan_id"@, ParamKind::Integer, "Plan ID to force-complete"@, Seq::empty()),
        ],
        required: seq!["plan_id"@],
        min_ring: "trusted"@,
        path_params: seq!["plan_id"@],
    }
}

fn force_complete_plan() -> (r: ToolDef)
    ensures
        r@ == force_complete_plan_tool(),
{
    let r = ToolDef {
        name: "cvg_force_complete_plan",
        description: "Force-complete a stuck plan: mark all tasks done. Use when code is merged but DB is stuck.",
        method: "POST",
        path: "/api/plan-db/force-complete/:plan_id",
        params: vec![
            param("plan_id", ParamKind::Integer, "Plan ID to force-complete", Vec::new()),
        ],
        required: vec!["plan_id"],
        min_ring: "trusted",
        path_params: vec!["plan_id"],
    };
    proof {
        assert(r.params@[0]@.choices =~= force_complete_plan_tool().params[0].choices);
        assert(r@.params =~= force_complete_plan_tool().params);
        assert(r@.required =~= force_complete_plan_tool().required);
        assert(r@.path_params =~= force_complete_plan_tool().path_params);
    }
    r
}

/// The tool `cvg_record_evidence`.
pub open spec fn record_evidence_tool() -> ToolDefView {
    ToolDefView {
        name: "cvg_record_evidence"@,
        description: "Record evidence for a task (test result, output, etc). Required before task can be submitted."@,
        method: "POST"@,
        path: "/api/plan-db/task/evidence"@,
        params: seq![
            param_view("task_db_id"@, ParamKind::Integer, "Task database ID"@, Seq::empty()),
            param_view("evidence_type"@, ParamKind::Text, "test_result, test_pass, commit, pr_url"@, Seq::empty()),
            param_view("command"@, ParamKind::Text, "Command that produced the evidence"@, Seq::empty()),
            param_view("output_summary"@, ParamKind::Text, "Summary of the output"@, Seq::empty()),
            param_view("exit_code"@, ParamKind::Integer, "Exit code (0 = success)"@, Seq::empty()),
        ],
        required: seq!["task_db_id"@, "evidence_type"@],
        min_ring: "trusted"@,
        path_params: Seq::empty(),
    }
}

fn record_evidence() -> (r: ToolDef)
    ensures
        r@ == record_evidence_tool(),
{
    let r = ToolDef {
        name: "cvg_record_evidence",
        description: "Record evidence for a task (test result, output, etc). Required before task can be submitted.",
        method: "POST",
        path: "/api/plan-db/task/evidence",
        params: vec![
            param("task_db_id", ParamKind::Integer, "Task database ID", Vec::new()),
            param("evidence_type", ParamKind::Text, "test_result, test_pass, commit, pr_url", Vec::new()),
            param("command", ParamKind::Text, "Command that produced the evidence", Vec::new()),
            param("output_summary", ParamKind::Text, "Summary of the output", Vec::new()),
            param("exit_code", ParamKind::Integer, "Exit code (0 = success)", Vec::new()),
        ],
        required: vec!["task_db_id", "evidence_type"],
        min_ring: "trusted",
        path_params: Vec::new(),
    };
    proof {
        assert(r.params@[0]@.choices =~= record_evidence_tool().params[0].choices);
        assert(r.params@[1]@.choices =~= record_evidence_tool().params[1].choices);
        assert(r.params@[2]@.choices =~= record_evidence_tool().params[2].choices);
        assert(r.params@[3]@.choices =~= record_evidence_tool().params[3].choices);
        assert(r.params@[4]@.choices =~= record_evidence_tool().params[4].choices);
        assert(r@.params =~= record_evidence_tool().params);
        assert(r@.required =~= record_evidence_tool().required);
        assert(r@.path_params =~= record_evidence_tool().path_params);
    }
    r
}

/// The tool `cvg_evidence_preflight`.
pub open spec fn evidence_preflight_tool() -> ToolDefView {
    ToolDefView {
        name: "cvg_evidence_preflight"@,
        description: "Pre-check what evidence a task still needs before submission."@,
        method: "GET"@,
        path: "/api/evidence/preflight/:task_id"@,
        params: seq![
            param_view("task_id"@, ParamKind::Integer, Seq::empty(), Seq::empty()),
        ],
        required: seq!["task_id"@],
        min_ring: "community"@,
        path_params: seq!["task_id"@],
    }
}

fn evidence_preflight() -> (r: ToolDef)
    ensures
        r@ == evidence_preflight_tool(),
{
    proof {
        reveal_strlit("");
    }
    let r = ToolDef {
        name: "cvg_evidence_preflight",
        description: "Pre-check what evidence a task still needs before submission.",
        method: "GET",
        path: "/api/evidence/preflight/:task_id",
        params: vec![
            param("task_id", ParamKind::Integer, "", Vec::new()),
        ],
        required: vec!["task_id"],
        min_ring: "community",
        path_params: vec!["task_id"],
    };
    proof {
        assert(r.params@[0]@.choices =~= evidence_preflight_tool().params[0].choices);
        assert(r.params@[0]@.description =~= Seq::<char>::empty());
        assert(r@.params =~= evidence_preflight_tool().params);
        assert(r@.required =~= evidence_preflight_tool().required);
        assert(r@.path_params =~= evidence_preflight_tool().path_params);
    }
    r
}

/// The tools of the orchestrator.
pub open spec fn orchestrator_tools_list() -> Seq<ToolDefView> {
    seq![
        list_plans_tool(),
        get_plan_tool(),
        get_execution_tree_tool(),
        update_task_tool(),
        complete_task_tool(),
        validate_plan_tool(),
        review_plan_tool(),
        checkpoint_save_tool(),
        plan_readiness_tool(),
        plan_import_tool(),
        update_task_content_tool(),
        register_review_tool(),
        start_plan_tool(),
        cancel_plan_tool(),
        resume_plan_tool(),
        wave_complete_tool(),
        force_resume_plan_tool(),
        force_complete_plan_tool(),
    ]
}

/// The tools of the orchestrator.
pub fn orchestrator_tools() -> (r: Vec<ToolDef>)
    ensures
        views(r@) == orchestrator_tools_list(),
{
    let r = vec![
        list_plans(),
        get_plan(),
        get_execution_tree(),
        update_task(),
        complete_task(),
        validate_plan(),
        review_plan(),
        checkpoint_save(),
        plan_readiness(),
        plan_import(),
        update_task_content(),
        register_review(),
        start_plan(),
        cancel_plan(),
        resume_plan(),
        wave_complete(),
        force_resume_plan(),
        force_complete_plan(),
    ];
    assert(views(r@) =~= orchestrator_tools_list());
    r
}

/// The tools of evidence.
pub open spec fn evidence_tools_list() -> Seq<ToolDefView> {
    seq![
        record_evidence_tool(),
        evidence_preflight_tool(),
    ]
}

/// The tools of evidence.
pub fn evidence_tools() -> (r: Vec<ToolDef>)
    ensures
        views(r@) == evidence_tools_list(),
{
    let r = vec![
        record_evidence(),
        evidence_preflight(),
    ];
    assert(views(r@) =~= evidence_tools_list());
    r
}

/// Whether the parameters in a tool's path have to be given, and all that has to be given is a
/// parameter of the tool.
pub open spec fn consistent(t: ToolDefView) -> bool {
    &&& forall|i: int|
        0 <= i < t.path_params.len() ==> t.required.contains(#[trigger] t.path_params[i])
    &&& forall|i: int| 0 <= i < t.required.len() ==> takes(t, #[trigger] t.required[i])
}

/// Whether a tool takes a parameter of the given name.
pub open spec fn takes(t: ToolDefView, name: Seq<char>) -> bool {
    exists|j: int| 0 <= j < t.params.len() && (#[trigger] t.params[j]).name == name
}

proof fn lemma_list_plans()
    ensures
        consistent(list_plans_tool()),
{
    let t = list_plans_tool();
}

proof fn lemma_get_plan()
    ensures
        consistent(get_plan_tool()),
{
    let t = get_plan_tool();
    assert(t.params[0].name == t.required[0]);
    assert(t.required[0] == t.path_params[0]);
}

proof fn lemma_get_execution_tree()
    ensures
        consistent(get_execution_tree_tool()),
{
    let t = get_execution_tree_tool();
    assert(t.params[0].name == t.required[0]);
    assert(t.required[0] == t.path_params[0]);
}

proof fn lemma_update_task()
    ensures
        consistent(update_task_tool()),
{
    let t = update_task_tool();
    assert(t.params[0].name == t.required[0]);
    assert(t.params[1].name == t.required[1]);
    assert(t.params[2].name == t.required[2]);
}

proof fn lemma_complete_task()
    ensures
        consistent(complete_task_tool()),
{
    let t = complete_task_tool();
    assert(t.params[0].name == t.required[0]);
    assert(t.params[1].name == t.required[1]);
    assert(t.params[2].name == t.required[2]);
}

proof fn lemma_validate_plan()
    ensures
        consistent(validate_plan_tool()),
{
    let t = validate_plan_tool();
    assert(t.params[0].name == t.required[0]);
}

proof fn lemma_review_plan()
    ensures
        consistent(review_plan_tool()),
{
    let t = review_plan_tool();
    assert(t.params[0].name == t.required[0]);
}

proof fn lemma_checkpoint_save()
    ensures
        consistent(checkpoint_save_tool()),
{
    let t = checkpoint_save_tool();
    assert(t.params[0].name == t.required[0]);
}

proof fn lemma_plan_readiness()
    ensures
        consistent(plan_readiness_tool()),
{
    let t = plan_readiness_tool();
    assert(t.params[0].name == t.required[0]);
    assert(t.required[0] == t.path_params[0]);
}

proof fn lemma_plan_import()
    ensures
        consistent(plan_import_tool()),
{
    let t = plan_import_tool();
    assert(t.params[0].name == t.required[0]);
    assert(t.params[1].name == t.required[1]);
}

proof fn lemma_update_task_content()
    ensures
        consistent(update_task_content_tool()),
{
    let t = update_task_content_tool();
    assert(t.params[0].name == t.required[0]);
    assert(t.required[0] == t.path_params[0]);
}

proof fn lemma_register_review()
    ensures
        consistent(register_review_tool()),
{
    let t = register_review_tool();
    assert(t.params[0].name == t.required[0]);
    assert(t.params[1].name == t.required[1]);
    assert(t.params[2].name == t.required[2]);
}

proof fn lemma_start_plan()
    ensures
        consistent(start_plan_tool()),
{
    let t = start_plan_tool();
    assert(t.params[0].name == t.required[0]);
    assert(t.required[0] == t.path_params[0]);
}

proof fn lemma_cancel_plan()
    ensures
        consistent(cancel_plan_tool()),
{
    let t = cancel_plan_tool();
    assert(t.params[0].name == t.required[0]);
    assert(t.required[0] == t.path_params[0]);
}

proof fn lemma_resume_plan()
    ensures
        consistent(resume_plan_tool()),
{
    let t = resume_plan_tool();
    assert(t.params[0].name == t.required[0]);
    assert(t.required[0] == t.path_params[0]);
}

proof fn lemma_wave_complete()
    ensures
        consistent(wave_complete_tool()),
{
    let t = wave_complete_tool();
    assert(t.params[0].name == t.required[0]);
    assert(t.params[1].name == t.required[1]);
    assert(t.params[2].name == t.required[2]);
}

proof fn lemma_force_resume_plan()
    ensures
        consistent(force_resume_plan_tool()),
{
    let t = force_resume_plan_tool();
    assert(t.params[0].name == t.required[0]);
    assert(t.required[0] == t.path_params[0]);
}

proof fn lemma_force_complete_plan()
    ensures
        consistent(force_complete_plan_tool()),
{
    let t = force_complete_plan_tool();
    assert(t.params[0].name == t.required[0]);
    assert(t.required[0] == t.path_params[0]);
}

proof fn lemma_record_evidence()
    ensures
        consistent(record_evidence_tool()),
{
    let t = record_evidence_tool();
    assert(t.params[0].name == t.required[0]);
    assert(t.params[1].name == t.required[1]);
}

proof fn lemma_evidence_preflight()
    ensures
        consistent(evidence_preflight_tool()),
{
    let t = evidence_preflight_tool();
    assert(t.params[0].name == t.required[0]);
    assert(t.required[0] == t.path_params[0]);
}

/// Every tool can be called with its required parameters: those in its path are among them, and
/// it takes all of them.
pub proof fn law_tools_are_consistent()
    ensures
        forall|i: int|
            0 <= i < orchestrator_tools_list().len() ==> consistent(
                #[trigger] orchestrator_tools_list()[i],
            ),
        forall|i: int|
            0 <= i < evidence_tools_list().len() ==> consistent(
                #[trigger] evidence_tools_list()[i],
            ),
{
    lemma_list_plans();
    lemma_get_plan();
    lemma_get_execution_tree();
    lemma_update_task();
    lemma_complete_task();
    lemma_validate_plan();
    lemma_review_plan();
    lemma_checkpoint_save();
    lemma_plan_readiness();
    lemma_plan_import();
    lemma_update_task_content();
    lemma_register_review();
    lemma_start_plan();
    lemma_cancel_plan();
    lemma_resume_plan();
    lemma_wave_complete();
    lemma_force_resume_plan();
    lemma_force_complete_plan();
    lemma_record_evidence();
    lemma_evidence_preflight();
}

/// How a tool is reached: its name, its method and its path, and how trusted an agent has to be.
pub open spec fn routes(tools: Seq<ToolDefView>) -> Seq<
    (Seq<char>, Seq<char>, Seq<char>, Seq<char>),
> {
    tools.map_values(|t: ToolDefView| (t.name, t.method, t.path, t.min_ring))
}

/// Every tool leads to its route, and is open to agents that are trusted enough.
pub proof fn law_routes_of_tools()
    ensures
        routes(orchestrator_tools_list()) == seq![
            ("cvg_list_plans"@, "GET"@, "/api/plan-db/list"@, "sandboxed"@),
            ("cvg_get_plan"@, "GET"@, "/api/plan-db/json/:plan_id"@, "community"@),
            (
                "cvg_get_execution_tree"@,
                "GET"@,
                "/api/plan-db/execution-tree/:plan_id"@,
                "community"@,
            ),
            ("cvg_update_task"@, "POST"@, "/api/plan-db/task/update"@, "trusted"@),
            ("cvg_complete_task"@, "POST"@, "/api/plan-db/task/complete-flow"@, "trusted"@),
            ("cvg_validate_plan"@, "POST"@, "/api/plan-db/validate"@, "trusted"@),
            ("cvg_review_plan"@, "POST"@, "/api/plan-db/review"@, "trusted"@),
            ("cvg_checkpoint_save"@, "POST"@, "/api/plan-db/checkpoint/save"@, "trusted"@),
            ("cvg_plan_readiness"@, "GET"@, "/api/plan-db/readiness/:plan_id"@, "community"@),
            ("cvg_plan_import"@, "POST"@, "/api/plan-db/import"@, "trusted"@),
            ("cvg_update_task_content"@, "PATCH"@, "/api/plan-db/task/:task_id"@, "trusted"@),
            ("cvg_register_review"@, "POST"@, "/api/plan-db/review/register"@, "trusted"@),
            ("cvg_start_plan"@, "POST"@, "/api/plan-db/start/:plan_id"@, "trusted"@),
            ("cvg_cancel_plan"@, "POST"@, "/api/plan-db/cancel/:plan_id"@, "trusted"@),
            ("cvg_resume_plan"@, "POST"@, "/api/plan-db/resume/:plan_id"@, "trusted"@),
            ("cvg_wave_complete"@, "POST"@, "/api/plan-db/wave/complete"@, "trusted"@),
            ("cvg_force_resume_plan"@, "POST"@, "/api/plan-db/force-resume/:plan_id"@, "trusted"@),
            (
                "cvg_force_complete_plan"@,
                "POST"@,
                "/api/plan-db/force-complete/:plan_id"@,
                "trusted"@,
            ),
        ],
        routes(evidence_tools_list()) == seq![
            ("cvg_record_evidence"@, "POST"@, "/api/plan-db/task/evidence"@, "trusted"@),
            ("cvg_evidence_preflight"@, "GET"@, "/api/evidence/preflight/:task_id"@, "community"@),
        ],
{
    assert(routes(orchestrator_tools_list()) =~= seq![
        ("cvg_list_plans"@, "GET"@, "/api/plan-db/list"@, "sandboxed"@),
        ("cvg_get_plan"@, "GET"@, "/api/plan-db/json/:plan_id"@, "community"@),
        (
            "cvg_get_execution_tree"@,
            "GET"@,
            "/api/plan-db/execution-tree/:plan_id"@,
            "community"@,
        ),
        ("cvg_update_task"@, "POST"@, "/api/plan-db/task/update"@, "trusted"@),
        ("cvg_complete_task"@, "POST"@, "/api/plan-db/task/complete-flow"@, "trusted"@),
        ("cvg_validate_plan"@, "POST"@, "/api/plan-db/validate"@, "trusted"@),
        ("cvg_review_plan"@, "POST"@, "/api/plan-db/review"@, "trusted"@),
        ("cvg_checkpoint_save"@, "POST"@, "/api/plan-db/checkpoint/save"@, "trusted"@),
        ("cvg_plan_readiness"@, "GET"@, "/api/plan-db/readiness/:plan_id"@, "community"@),
        ("cvg_plan_import"@, "POST"@, "/api/plan-db/import"@, "trusted"@),
        ("cvg_update_task_content"@, "PATCH"@, "/api/plan-db/task/:task_id"@, "trusted"@),
        ("cvg_register_review"@, "POST"@, "/api/plan-db/review/register"@, "trusted"@),
        ("cvg_start_plan"@, "POST"@, "/api/plan-db/start/:plan_id"@, "trusted"@),
        ("cvg_cancel_plan"@, "POST"@, "/api/plan-db/cancel/:plan_id"@, "trusted"@),
        ("cvg_resume_plan"@, "POST"@, "/api/plan-db/resume/:plan_id"@, "trusted"@),
        ("cvg_wave_complete"@, "POST"@, "/api/plan-db/wave/complete"@, "trusted"@),
        ("cvg_force_resume_plan"@, "POST"@, "/api/plan-db/force-resume/:plan_id"@, "trusted"@),
        (
            "cvg_force_complete_plan"@,
            "POST"@,
            "/api/plan-db/force-complete/:plan_id"@,
            "trusted"@,
        ),
    ]);
    assert(routes(evidence_tools_list()) =~= seq![
        ("cvg_record_evidence"@, "POST"@, "/api/plan-db/task/evidence"@, "trusted"@),
        ("cvg_evidence_preflight"@, "GET"@, "/api/evidence/preflight/:task_id"@, "community"@),
    ]);
}

/// What has to be given to a tool, and what of it stands in the path.
pub proof fn law_required_parameters()
    ensures
        list_plans_tool().required == Seq::<Seq<char>>::empty(),
        list_plans_tool().path_params == Seq::<Seq<char>>::empty(),
        get_plan_tool().required == seq!["plan_id"@],
        get_plan_tool().path_params == seq!["plan_id"@],
        get_execution_tree_tool().required == seq!["plan_id"@],
        get_execution_tree_tool().path_params == seq!["plan_id"@],
        update_task_tool().required == seq!["task_id"@, "status"@, "agent_id"@],
        update_task_tool().path_params == Seq::<Seq<char>>::empty(),
        complete_task_tool().required == seq!["task_db_id"@, "agent_id"@, "pr_url"@],
        complete_task_tool().path_params == Seq::<Seq<char>>::empty(),
        validate_plan_tool().required == seq!["plan_id"@],
        validate_plan_tool().path_params == Seq::<Seq<char>>::empty(),
        review_plan_tool().required == seq!["plan_id"@],
        review_plan_tool().path_params == Seq::<Seq<char>>::empty(),
        checkpoint_save_tool().required == seq!["plan_id"@],
        checkpoint_save_tool().path_params == Seq::<Seq<char>>::empty(),
        plan_readiness_tool().required == seq!["plan_id"@],
        plan_readiness_tool().path_params == seq!["plan_id"@],
        plan_import_tool().required == seq!["plan_id"@, "spec"@],
        plan_import_tool().path_params == Seq::<Seq<char>>::empty(),
        update_task_content_tool().required == seq!["task_id"@],
        update_task_content_tool().path_params == seq!["task_id"@],
        register_review_tool().required == seq!["plan_id"@, "reviewer_agent"@, "verdict"@],
        register_review_tool().path_params == Seq::<Seq<char>>::empty(),
        start_plan_tool().required == seq!["plan_id"@],
        start_plan_tool().path_params == seq!["plan_id"@],
        cancel_plan_tool().required == seq!["plan_id"@],
        cancel_plan_tool().path_params == seq!["plan_id"@],
        resume_plan_tool().required == seq!["plan_id"@],
        resume_plan_tool().path_params == seq!["plan_id"@],
        wave_complete_tool().required == seq!["wave_db_id"@, "agent_id"@, "pr_url"@],
        wave_complete_tool().path_params == Seq::<Seq<char>>::empty(),
        force_resume_plan_tool().required == seq!["plan_id"@],
        force_resume_plan_tool().path_params == seq!["plan_id"@],
        force_complete_plan_tool().required == seq!["plan_id"@],
        force_complete_plan_tool().path_params == seq!["plan_id"@],
        record_evidence_tool().required == seq!["task_db_id"@, "evidence_type"@],
        record_evidence_tool().path_params == Seq::<Seq<char>>::empty(),
        evidence_preflight_tool().required == seq!["task_id"@],
        evidence_preflight_tool().path_params == seq!["task_id"@],
{
}

} // verus!
