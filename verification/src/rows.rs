//! The rows that the orchestrator keeps, and what each of them holds.

use crate::table::{Duplicate, Row};
use crate::text::{copy_opt, opt_text};
use vstd::prelude::*;

verus! {

/// A plan: waves of tasks carried out for a project.
#[derive(Debug, Clone)]
pub struct PlanRow {
    pub id: i64,
    pub project_id: String,
    pub name: String,
    pub status: String,
    pub tasks_done: i64,
    pub tasks_total: i64,
    pub depends_on: Option<String>,
    pub execution_mode: Option<String>,
    pub is_master: bool,
    pub parent_plan_id: Option<i64>,
    pub planner_agent_id: Option<String>,
    pub created_at: String,
    pub started_at: Option<i64>,
    pub completed_at: Option<i64>,
    pub updated_at: Option<i64>,
}

/// What a [`PlanRow`] holds.
pub struct PlanRowView {
    pub id: i64,
    pub project_id: Seq<char>,
    pub name: Seq<char>,
    pub status: Seq<char>,
    pub tasks_done: i64,
    pub tasks_total: i64,
    pub depends_on: Option<Seq<char>>,
    pub execution_mode: Option<Seq<char>>,
    pub is_master: bool,
    pub parent_plan_id: Option<i64>,
    pub planner_agent_id: Option<Seq<char>>,
    pub created_at: Seq<char>,
    pub started_at: Option<i64>,
    pub completed_at: Option<i64>,
    pub updated_at: Option<i64>,
}

impl View for PlanRow {
    type V = PlanRowView;

    open spec fn view(&self) -> PlanRowView {
        PlanRowView {
            id: self.id,
            project_id: self.project_id@,
            name: self.name@,
            status: self.status@,
            tasks_done: self.tasks_done,
            tasks_total: self.tasks_total,
            depends_on: opt_text(self.depends_on),
            execution_mode: opt_text(self.execution_mode),
            is_master: self.is_master,
            parent_plan_id: self.parent_plan_id,
            planner_agent_id: opt_text(self.planner_agent_id),
            created_at: self.created_at@,
            started_at: self.started_at,
            completed_at: self.completed_at,
            updated_at: self.updated_at,
        }
    }
}

impl Duplicate for PlanRow {
    fn duplicate(&self) -> (r: Self) {
        PlanRow {
            id: self.id,
            project_id: self.project_id.clone(),
            name: self.name.clone(),
            status: self.status.clone(),
            tasks_done: self.tasks_done,
            tasks_total: self.tasks_total,
            depends_on: copy_opt(&self.depends_on),
            execution_mode: copy_opt(&self.execution_mode),
            is_master: self.is_master,
            parent_plan_id: self.parent_plan_id,
            planner_agent_id: copy_opt(&self.planner_agent_id),
            created_at: self.created_at.clone(),
            started_at: self.started_at,
            completed_at: self.completed_at,
            updated_at: self.updated_at,
        }
    }
}

impl Row for PlanRow {
    open spec fn key(v: PlanRowView) -> i64 {
        v.id
    }

    fn id(&self) -> (r: i64) {
        self.id
    }
}

/// The row that an insert with no values gives.
pub open spec fn blank_plan_row() -> PlanRowView {
    PlanRowView {
        id: 0i64,
        project_id: Seq::<char>::empty(),
        name: Seq::<char>::empty(),
        status: "todo"@,
        tasks_done: 0i64,
        tasks_total: 0i64,
        depends_on: None::<Seq<char>>,
        execution_mode: None::<Seq<char>>,
        is_master: false,
        parent_plan_id: None::<i64>,
        planner_agent_id: None::<Seq<char>>,
        created_at: Seq::<char>::empty(),
        started_at: None::<i64>,
        completed_at: None::<i64>,
        updated_at: None::<i64>,
    }
}

impl Default for PlanRow {
    fn default() -> (r: Self)
        ensures
            r@ == blank_plan_row(),
    {
        PlanRow {
            id: 0,
            project_id: String::new(),
            name: String::new(),
            status: "todo".to_owned(),
            tasks_done: 0,
            tasks_total: 0,
            depends_on: None,
            execution_mode: None,
            is_master: false,
            parent_plan_id: None,
            planner_agent_id: None,
            created_at: String::new(),
            started_at: None,
            completed_at: None,
            updated_at: None,
        }
    }
}

/// A wave: the tasks of a plan that may run together.
#[derive(Debug, Clone)]
pub struct WaveRow {
    pub id: i64,
    pub wave_id: String,
    pub plan_id: i64,
    pub name: String,
    pub status: String,
    pub depends_on_wave: Option<String>,
    pub completed_at: Option<i64>,
}

/// What a [`WaveRow`] holds.
pub struct WaveRowView {
    pub id: i64,
    pub wave_id: Seq<char>,
    pub plan_id: i64,
    pub name: Seq<char>,
    pub status: Seq<char>,
    pub depends_on_wave: Option<Seq<char>>,
    pub completed_at: Option<i64>,
}

impl View for WaveRow {
    type V = WaveRowView;

    open spec fn view(&self) -> WaveRowView {
        WaveRowView {
            id: self.id,
            wave_id: self.wave_id@,
            plan_id: self.plan_id,
            name: self.name@,
            status: self.status@,
            depends_on_wave: opt_text(self.depends_on_wave),
            completed_at: self.completed_at,
        }
    }
}

impl Duplicate for WaveRow {
    fn duplicate(&self) -> (r: Self) {
        WaveRow {
            id: self.id,
            wave_id: self.wave_id.clone(),
            plan_id: self.plan_id,
            name: self.name.clone(),
            status: self.status.clone(),
            depends_on_wave: copy_opt(&self.depends_on_wave),
            completed_at: self.completed_at,
        }
    }
}

impl Row for WaveRow {
    open spec fn key(v: WaveRowView) -> i64 {
        v.id
    }

    fn id(&self) -> (r: i64) {
        self.id
    }
}

/// The row that an insert with no values gives.
pub open spec fn blank_wave_row() -> WaveRowView {
    WaveRowView {
        id: 0i64,
        wave_id: Seq::<char>::empty(),
        plan_id: 0i64,
        name: Seq::<char>::empty(),
        status: "pending"@,
        depends_on_wave: None::<Seq<char>>,
        completed_at: None::<i64>,
    }
}

impl Default for WaveRow {
    fn default() -> (r: Self)
        ensures
            r@ == blank_wave_row(),
    {
        WaveRow {
            id: 0,
            wave_id: String::new(),
            plan_id: 0,
            name: String::new(),
            status: "pending".to_owned(),
            depends_on_wave: None,
            completed_at: None,
        }
    }
}

/// A task. Its times are seconds since the Unix epoch.
#[derive(Debug, Clone)]
pub struct TaskRow {
    pub id: i64,
    pub task_id: Option<String>,
    pub plan_id: i64,
    pub wave_id: Option<i64>,
    pub title: String,
    pub description: Option<String>,
    pub status: String,
    pub notes: Option<String>,
    pub executor_agent: Option<String>,
    pub started_at: Option<i64>,
    pub completed_at: Option<i64>,
    pub updated_at: Option<i64>,
    pub last_heartbeat: Option<i64>,
    pub locked_by: Option<String>,
    pub claimed_files: Option<String>,
    pub metadata: Option<String>,
    pub required_capabilities: Option<String>,
    pub spawn_failures: Option<i64>,
}

/// What a [`TaskRow`] holds.
pub struct TaskRowView {
    pub id: i64,
    pub task_id: Option<Seq<char>>,
    pub plan_id: i64,
    pub wave_id: Option<i64>,
    pub title: Seq<char>,
    pub description: Option<Seq<char>>,
    pub status: Seq<char>,
    pub notes: Option<Seq<char>>,
    pub executor_agent: Option<Seq<char>>,
    pub started_at: Option<i64>,
    pub completed_at: Option<i64>,
    pub updated_at: Option<i64>,
    pub last_heartbeat: Option<i64>,
    pub locked_by: Option<Seq<char>>,
    pub claimed_files: Option<Seq<char>>,
    pub metadata: Option<Seq<char>>,
    pub required_capabilities: Option<Seq<char>>,
    pub spawn_failures: Option<i64>,
}

impl View for TaskRow {
    type V = TaskRowView;

    open spec fn view(&self) -> TaskRowView {
        TaskRowView {
            id: self.id,
            task_id: opt_text(self.task_id),
            plan_id: self.plan_id,
            wave_id: self.wave_id,
            title: self.title@,
            description: opt_text(self.description),
            status: self.status@,
            notes: opt_text(self.notes),
            executor_agent: opt_text(self.executor_agent),
            started_at: self.started_at,
            completed_at: self.completed_at,
            updated_at: self.updated_at,
            last_heartbeat: self.last_heartbeat,
            locked_by: opt_text(self.locked_by),
            claimed_files: opt_text(self.claimed_files),
            metadata: opt_text(self.metadata),
            required_capabilities: opt_text(self.required_capabilities),
            spawn_failures: self.spawn_failures,
        }
    }
}

impl Duplicate for TaskRow {
    fn duplicate(&self) -> (r: Self) {
        TaskRow {
            id: self.id,
            task_id: copy_opt(&self.task_id),
            plan_id: self.plan_id,
            wave_id: self.wave_id,
            title: self.title.clone(),
            description: copy_opt(&self.description),
            status: self.status.clone(),
            notes: copy_opt(&self.notes),
            executor_agent: copy_opt(&self.executor_agent),
            started_at: self.started_at,
            completed_at: self.completed_at,
            updated_at: self.updated_at,
            last_heartbeat: self.last_heartbeat,
            locked_by: copy_opt(&self.locked_by),
            claimed_files: copy_opt(&self.claimed_files),
            metadata: copy_opt(&self.metadata),
            required_capabilities: copy_opt(&self.required_capabilities),
            spawn_failures: self.spawn_failures,
        }
    }
}

impl Row for TaskRow {
    open spec fn key(v: TaskRowView) -> i64 {
        v.id
    }

    fn id(&self) -> (r: i64) {
        self.id
    }
}

/// The row that an insert with no values gives.
pub open spec fn blank_task_row() -> TaskRowView {
    TaskRowView {
        id: 0i64,
        task_id: None::<Seq<char>>,
        plan_id: 0i64,
        wave_id: None::<i64>,
        title: Seq::<char>::empty(),
        description: None::<Seq<char>>,
        status: "pending"@,
        notes: None::<Seq<char>>,
        executor_agent: None::<Seq<char>>,
        started_at: None::<i64>,
        completed_at: None::<i64>,
        updated_at: None::<i64>,
        last_heartbeat: None::<i64>,
        locked_by: None::<Seq<char>>,
        claimed_files: Some("[]"@),
        metadata: None::<Seq<char>>,
        required_capabilities: None::<Seq<char>>,
        spawn_failures: None::<i64>,
    }
}

impl Default for TaskRow {
    fn default() -> (r: Self)
        ensures
            r@ == blank_task_row(),
    {
        TaskRow {
            id: 0,
            task_id: None,
            plan_id: 0,
            wave_id: None,
            title: String::new(),
            description: None,
            status: "pending".to_owned(),
            notes: None,
            executor_agent: None,
            started_at: None,
            completed_at: None,
            updated_at: None,
            last_heartbeat: None,
            locked_by: None,
            claimed_files: Some("[]".to_owned()),
            metadata: None,
            required_capabilities: None,
            spawn_failures: None,
        }
    }
}

/// A note that a task was found stale.
#[derive(Debug, Clone)]
pub struct StaleNotice {
    pub id: i64,
    pub task_id: i64,
    pub reason: String,
    pub notified_at: String,
    pub resolved: bool,
}

/// What a [`StaleNotice`] holds.
pub struct StaleNoticeView {
    pub id: i64,
    pub task_id: i64,
    pub reason: Seq<char>,
    pub notified_at: Seq<char>,
    pub resolved: bool,
}

impl View for StaleNotice {
    type V = StaleNoticeView;

    open spec fn view(&self) -> StaleNoticeView {
        StaleNoticeView {
            id: self.id,
            task_id: self.task_id,
            reason: self.reason@,
            notified_at: self.notified_at@,
            resolved: self.resolved,
        }
    }
}

impl Duplicate for StaleNotice {
    fn duplicate(&self) -> (r: Self) {
        StaleNotice {
            id: self.id,
            task_id: self.task_id,
            reason: self.reason.clone(),
            notified_at: self.notified_at.clone(),
            resolved: self.resolved,
        }
    }
}

impl Row for StaleNotice {
    open spec fn key(v: StaleNoticeView) -> i64 {
        v.id
    }

    fn id(&self) -> (r: i64) {
        self.id
    }
}

/// The row that an insert with no values gives.
pub open spec fn blank_stale_notice() -> StaleNoticeView {
    StaleNoticeView {
        id: 0i64,
        task_id: 0i64,
        reason: Seq::<char>::empty(),
        notified_at: Seq::<char>::empty(),
        resolved: false,
    }
}

impl Default for StaleNotice {
    fn default() -> (r: Self)
        ensures
            r@ == blank_stale_notice(),
    {
        StaleNotice {
            id: 0,
            task_id: 0,
            reason: String::new(),
            notified_at: String::new(),
            resolved: false,
        }
    }
}

/// A task or wave that waits for validation.
#[derive(Debug, Clone)]
pub struct QueueRow {
    pub id: i64,
    pub task_id: Option<i64>,
    pub wave_id: Option<i64>,
    pub plan_id: Option<i64>,
    pub status: String,
}

/// What a [`QueueRow`] holds.
pub struct QueueRowView {
    pub id: i64,
    pub task_id: Option<i64>,
    pub wave_id: Option<i64>,
    pub plan_id: Option<i64>,
    pub status: Seq<char>,
}

impl View for QueueRow {
    type V = QueueRowView;

    open spec fn view(&self) -> QueueRowView {
        QueueRowView {
            id: self.id,
            task_id: self.task_id,
            wave_id: self.wave_id,
            plan_id: self.plan_id,
            status: self.status@,
        }
    }
}

impl Duplicate for QueueRow {
    fn duplicate(&self) -> (r: Self) {
        QueueRow {
            id: self.id,
            task_id: self.task_id,
            wave_id: self.wave_id,
            plan_id: self.plan_id,
            status: self.status.clone(),
        }
    }
}

impl Row for QueueRow {
    open spec fn key(v: QueueRowView) -> i64 {
        v.id
    }

    fn id(&self) -> (r: i64) {
        self.id
    }
}

/// The row that an insert with no values gives.
pub open spec fn blank_queue_row() -> QueueRowView {
    QueueRowView {
        id: 0i64,
        task_id: None::<i64>,
        wave_id: None::<i64>,
        plan_id: None::<i64>,
        status: "pending"@,
    }
}

impl Default for QueueRow {
    fn default() -> (r: Self)
        ensures
            r@ == blank_queue_row(),
    {
        QueueRow {
            id: 0,
            task_id: None,
            wave_id: None,
            plan_id: None,
            status: "pending".to_owned(),
        }
    }
}

/// The verdict on a queued validation.
#[derive(Debug, Clone)]
pub struct VerdictRow {
    pub id: i64,
    pub queue_id: i64,
    pub verdict: String,
}

/// What a [`VerdictRow`] holds.
pub struct VerdictRowView {
    pub id: i64,
    pub queue_id: i64,
    pub verdict: Seq<char>,
}

impl View for VerdictRow {
    type V = VerdictRowView;

    open spec fn view(&self) -> VerdictRowView {
        VerdictRowView {
            id: self.id,
            queue_id: self.queue_id,
            verdict: self.verdict@,
        }
    }
}

impl Duplicate for VerdictRow {
    fn duplicate(&self) -> (r: Self) {
        VerdictRow {
            id: self.id,
            queue_id: self.queue_id,
            verdict: self.verdict.clone(),
        }
    }
}

impl Row for VerdictRow {
    open spec fn key(v: VerdictRowView) -> i64 {
        v.id
    }

    fn id(&self) -> (r: i64) {
        self.id
    }
}

/// The row that an insert with no values gives.
pub open spec fn blank_verdict_row() -> VerdictRowView {
    VerdictRowView {
        id: 0i64,
        queue_id: 0i64,
        verdict: Seq::<char>::empty(),
    }
}

impl Default for VerdictRow {
    fn default() -> (r: Self)
        ensures
            r@ == blank_verdict_row(),
    {
        VerdictRow {
            id: 0,
            queue_id: 0,
            verdict: String::new(),
        }
    }
}

/// An artifact that belongs to a bundle.
#[derive(Debug, Clone)]
pub struct BundleLink {
    pub bundle_id: i64,
    pub artifact_id: i64,
}

/// What a [`BundleLink`] holds.
pub struct BundleLinkView {
    pub bundle_id: i64,
    pub artifact_id: i64,
}

impl View for BundleLink {
    type V = BundleLinkView;

    open spec fn view(&self) -> BundleLinkView {
        BundleLinkView {
            bundle_id: self.bundle_id,
            artifact_id: self.artifact_id,
        }
    }
}

impl Duplicate for BundleLink {
    fn duplicate(&self) -> (r: Self) {
        BundleLink {
            bundle_id: self.bundle_id,
            artifact_id: self.artifact_id,
        }
    }
}

/// The row that an insert with no values gives.
pub open spec fn blank_bundle_link() -> BundleLinkView {
    BundleLinkView {
        bundle_id: 0i64,
        artifact_id: 0i64,
    }
}

impl Default for BundleLink {
    fn default() -> (r: Self)
        ensures
            r@ == blank_bundle_link(),
    {
        BundleLink {
            bundle_id: 0,
            artifact_id: 0,
        }
    }
}

/// A merge request, one for each pull request number.
#[derive(Debug, Clone)]
pub struct MergeRow {
    pub pr_number: i64,
    pub branch: String,
    pub files_json: String,
    pub decision: String,
    pub overlaps_json: Option<String>,
    pub status: String,
    pub created_at: String,
    pub updated_at: String,
}

/// What a [`MergeRow`] holds.
pub struct MergeRowView {
    pub pr_number: i64,
    pub branch: Seq<char>,
    pub files_json: Seq<char>,
    pub decision: Seq<char>,
    pub overlaps_json: Option<Seq<char>>,
    pub status: Seq<char>,
    pub created_at: Seq<char>,
    pub updated_at: Seq<char>,
}

impl View for MergeRow {
    type V = MergeRowView;

    open spec fn view(&self) -> MergeRowView {
        MergeRowView {
            pr_number: self.pr_number,
            branch: self.branch@,
            files_json: self.files_json@,
            decision: self.decision@,
            overlaps_json: opt_text(self.overlaps_json),
            status: self.status@,
            created_at: self.created_at@,
            updated_at: self.updated_at@,
        }
    }
}

impl Duplicate for MergeRow {
    fn duplicate(&self) -> (r: Self) {
        MergeRow {
            pr_number: self.pr_number,
            branch: self.branch.clone(),
            files_json: self.files_json.clone(),
            decision: self.decision.clone(),
            overlaps_json: copy_opt(&self.overlaps_json),
            status: self.status.clone(),
            created_at: self.created_at.clone(),
            updated_at: self.updated_at.clone(),
        }
    }
}

/// The row that an insert with no values gives.
pub open spec fn blank_merge_row() -> MergeRowView {
    MergeRowView {
        pr_number: 0i64,
        branch: Seq::<char>::empty(),
        files_json: Seq::<char>::empty(),
        decision: Seq::<char>::empty(),
        overlaps_json: None::<Seq<char>>,
        status: "open"@,
        created_at: Seq::<char>::empty(),
        updated_at: Seq::<char>::empty(),
    }
}

impl Default for MergeRow {
    fn default() -> (r: Self)
        ensures
            r@ == blank_merge_row(),
    {
        MergeRow {
            pr_number: 0,
            branch: String::new(),
            files_json: String::new(),
            decision: String::new(),
            overlaps_json: None,
            status: "open".to_owned(),
            created_at: String::new(),
            updated_at: String::new(),
        }
    }
}

/// An advisory lock on a file, taken at `acquired_at` for `ttl_secs` seconds.
#[derive(Debug, Clone)]
pub struct LockRow {
    pub id: i64,
    pub file_path: String,
    pub agent_id: String,
    pub acquired_at: i64,
    pub ttl_secs: i64,
}

/// What a [`LockRow`] holds.
pub struct LockRowView {
    pub id: i64,
    pub file_path: Seq<char>,
    pub agent_id: Seq<char>,
    pub acquired_at: i64,
    pub ttl_secs: i64,
}

impl View for LockRow {
    type V = LockRowView;

    open spec fn view(&self) -> LockRowView {
        LockRowView {
            id: self.id,
            file_path: self.file_path@,
            agent_id: self.agent_id@,
            acquired_at: self.acquired_at,
            ttl_secs: self.ttl_secs,
        }
    }
}

impl Duplicate for LockRow {
    fn duplicate(&self) -> (r: Self) {
        LockRow {
            id: self.id,
            file_path: self.file_path.clone(),
            agent_id: self.agent_id.clone(),
            acquired_at: self.acquired_at,
            ttl_secs: self.ttl_secs,
        }
    }
}

impl Row for LockRow {
    open spec fn key(v: LockRowView) -> i64 {
        v.id
    }

    fn id(&self) -> (r: i64) {
        self.id
    }
}

/// The row that an insert with no values gives.
pub open spec fn blank_lock_row() -> LockRowView {
    LockRowView {
        id: 0i64,
        file_path: Seq::<char>::empty(),
        agent_id: Seq::<char>::empty(),
        acquired_at: 0i64,
        ttl_secs: 0i64,
    }
}

impl Default for LockRow {
    fn default() -> (r: Self)
        ensures
            r@ == blank_lock_row(),
    {
        LockRow {
            id: 0,
            file_path: String::new(),
            agent_id: String::new(),
            acquired_at: 0,
            ttl_secs: 0,
        }
    }
}

/// An agent process.
#[derive(Debug, Clone)]
pub struct AgentRow {
    pub id: String,
    pub stage: String,
    pub task_id: Option<i64>,
    pub workspace_path: Option<String>,
    pub parent_agent_id: Option<String>,
    pub respawn_count: i64,
    pub updated_at: Option<i64>,
}

/// What a [`AgentRow`] holds.
pub struct AgentRowView {
    pub id: Seq<char>,
    pub stage: Seq<char>,
    pub task_id: Option<i64>,
    pub workspace_path: Option<Seq<char>>,
    pub parent_agent_id: Option<Seq<char>>,
    pub respawn_count: i64,
    pub updated_at: Option<i64>,
}

impl View for AgentRow {
    type V = AgentRowView;

    open spec fn view(&self) -> AgentRowView {
        AgentRowView {
            id: self.id@,
            stage: self.stage@,
            task_id: self.task_id,
            workspace_path: opt_text(self.workspace_path),
            parent_agent_id: opt_text(self.parent_agent_id),
            respawn_count: self.respawn_count,
            updated_at: self.updated_at,
        }
    }
}

impl Duplicate for AgentRow {
    fn duplicate(&self) -> (r: Self) {
        AgentRow {
            id: self.id.clone(),
            stage: self.stage.clone(),
            task_id: self.task_id,
            workspace_path: copy_opt(&self.workspace_path),
            parent_agent_id: copy_opt(&self.parent_agent_id),
            respawn_count: self.respawn_count,
            updated_at: self.updated_at,
        }
    }
}

/// The row that an insert with no values gives.
pub open spec fn blank_agent_row() -> AgentRowView {
    AgentRowView {
        id: Seq::<char>::empty(),
        stage: "spawning"@,
        task_id: None::<i64>,
        workspace_path: None::<Seq<char>>,
        parent_agent_id: None::<Seq<char>>,
        respawn_count: 0i64,
        updated_at: None::<i64>,
    }
}

impl Default for AgentRow {
    fn default() -> (r: Self)
        ensures
            r@ == blank_agent_row(),
    {
        AgentRow {
            id: String::new(),
            stage: "spawning".to_owned(),
            task_id: None,
            workspace_path: None,
            parent_agent_id: None,
            respawn_count: 0,
            updated_at: None,
        }
    }
}

/// When an agent was last seen, and how often it reports, in seconds.
#[derive(Debug, Clone)]
pub struct HeartbeatRow {
    pub agent_id: String,
    pub last_seen: i64,
    pub interval_s: i64,
}

/// What a [`HeartbeatRow`] holds.
pub struct HeartbeatRowView {
    pub agent_id: Seq<char>,
    pub last_seen: i64,
    pub interval_s: i64,
}

impl View for HeartbeatRow {
    type V = HeartbeatRowView;

    open spec fn view(&self) -> HeartbeatRowView {
        HeartbeatRowView {
            agent_id: self.agent_id@,
            last_seen: self.last_seen,
            interval_s: self.interval_s,
        }
    }
}

impl Duplicate for HeartbeatRow {
    fn duplicate(&self) -> (r: Self) {
        HeartbeatRow {
            agent_id: self.agent_id.clone(),
            last_seen: self.last_seen,
            interval_s: self.interval_s,
        }
    }
}

/// The row that an insert with no values gives.
pub open spec fn blank_heartbeat_row() -> HeartbeatRowView {
    HeartbeatRowView {
        agent_id: Seq::<char>::empty(),
        last_seen: 0i64,
        interval_s: 0i64,
    }
}

impl Default for HeartbeatRow {
    fn default() -> (r: Self)
        ensures
            r@ == blank_heartbeat_row(),
    {
        HeartbeatRow {
            agent_id: String::new(),
            last_seen: 0,
            interval_s: 0,
        }
    }
}

/// A value that an agent left under a key.
#[derive(Debug, Clone)]
pub struct ContextRow {
    pub agent_id: String,
    pub key: String,
}

/// What a [`ContextRow`] holds.
pub struct ContextRowView {
    pub agent_id: Seq<char>,
    pub key: Seq<char>,
}

impl View for ContextRow {
    type V = ContextRowView;

    open spec fn view(&self) -> ContextRowView {
        ContextRowView {
            agent_id: self.agent_id@,
            key: self.key@,
        }
    }
}

impl Duplicate for ContextRow {
    fn duplicate(&self) -> (r: Self) {
        ContextRow {
            agent_id: self.agent_id.clone(),
            key: self.key.clone(),
        }
    }
}

/// The row that an insert with no values gives.
pub open spec fn blank_context_row() -> ContextRowView {
    ContextRowView {
        agent_id: Seq::<char>::empty(),
        key: Seq::<char>::empty(),
    }
}

impl Default for ContextRow {
    fn default() -> (r: Self)
        ensures
            r@ == blank_context_row(),
    {
        ContextRow {
            agent_id: String::new(),
            key: String::new(),
        }
    }
}

/// A change of a task's status.
#[derive(Debug, Clone)]
pub struct StatusLogRow {
    pub id: i64,
    pub task_id: i64,
    pub old_status: String,
    pub new_status: String,
    pub agent: String,
    pub notes: Option<String>,
    pub created_at: String,
}

/// What a [`StatusLogRow`] holds.
pub struct StatusLogRowView {
    pub id: i64,
    pub task_id: i64,
    pub old_status: Seq<char>,
    pub new_status: Seq<char>,
    pub agent: Seq<char>,
    pub notes: Option<Seq<char>>,
    pub created_at: Seq<char>,
}

impl View for StatusLogRow {
    type V = StatusLogRowView;

    open spec fn view(&self) -> StatusLogRowView {
        StatusLogRowView {
            id: self.id,
            task_id: self.task_id,
            old_status: self.old_status@,
            new_status: self.new_status@,
            agent: self.agent@,
            notes: opt_text(self.notes),
            created_at: self.created_at@,
        }
    }
}

impl Duplicate for StatusLogRow {
    fn duplicate(&self) -> (r: Self) {
        StatusLogRow {
            id: self.id,
            task_id: self.task_id,
            old_status: self.old_status.clone(),
            new_status: self.new_status.clone(),
            agent: self.agent.clone(),
            notes: copy_opt(&self.notes),
            created_at: self.created_at.clone(),
        }
    }
}

impl Row for StatusLogRow {
    open spec fn key(v: StatusLogRowView) -> i64 {
        v.id
    }

    fn id(&self) -> (r: i64) {
        self.id
    }
}

/// The row that an insert with no values gives.
pub open spec fn blank_status_log_row() -> StatusLogRowView {
    StatusLogRowView {
        id: 0i64,
        task_id: 0i64,
        old_status: Seq::<char>::empty(),
        new_status: Seq::<char>::empty(),
        agent: Seq::<char>::empty(),
        notes: None::<Seq<char>>,
        created_at: Seq::<char>::empty(),
    }
}

impl Default for StatusLogRow {
    fn default() -> (r: Self)
        ensures
            r@ == blank_status_log_row(),
    {
        StatusLogRow {
            id: 0,
            task_id: 0,
            old_status: String::new(),
            new_status: String::new(),
            agent: String::new(),
            notes: None,
            created_at: String::new(),
        }
    }
}

/// An entry of the audit log.
#[derive(Debug, Clone)]
pub struct AuditRow {
    pub id: i64,
    pub action: String,
    pub entity_type: String,
    pub entity_id: i64,
    pub actor: String,
    pub details: String,
}

/// What a [`AuditRow`] holds.
pub struct AuditRowView {
    pub id: i64,
    pub action: Seq<char>,
    pub entity_type: Seq<char>,
    pub entity_id: i64,
    pub actor: Seq<char>,
    pub details: Seq<char>,
}

impl View for AuditRow {
    type V = AuditRowView;

    open spec fn view(&self) -> AuditRowView {
        AuditRowView {
            id: self.id,
            action: self.action@,
            entity_type: self.entity_type@,
            entity_id: self.entity_id,
            actor: self.actor@,
            details: self.details@,
        }
    }
}

impl Duplicate for AuditRow {
    fn duplicate(&self) -> (r: Self) {
        AuditRow {
            id: self.id,
            action: self.action.clone(),
            entity_type: self.entity_type.clone(),
            entity_id: self.entity_id,
            actor: self.actor.clone(),
            details: self.details.clone(),
        }
    }
}

impl Row for AuditRow {
    open spec fn key(v: AuditRowView) -> i64 {
        v.id
    }

    fn id(&self) -> (r: i64) {
        self.id
    }
}

/// The row that an insert with no values gives.
pub open spec fn blank_audit_row() -> AuditRowView {
    AuditRowView {
        id: 0i64,
        action: Seq::<char>::empty(),
        entity_type: Seq::<char>::empty(),
        entity_id: 0i64,
        actor: Seq::<char>::empty(),
        details: Seq::<char>::empty(),
    }
}

impl Default for AuditRow {
    fn default() -> (r: Self)
        ensures
            r@ == blank_audit_row(),
    {
        AuditRow {
            id: 0,
            action: String::new(),
            entity_type: String::new(),
            entity_id: 0,
            actor: String::new(),
            details: String::new(),
        }
    }
}

/// What is written down about a plan.
#[derive(Debug, Clone)]
pub struct PlanMetaRow {
    pub plan_id: i64,
    pub objective: Option<String>,
    pub motivation: Option<String>,
    pub worktree_path: Option<String>,
    pub requester: Option<String>,
    pub report_json: Option<String>,
    pub key_learnings_json: Option<String>,
    pub closed_at: Option<i64>,
}

/// What a [`PlanMetaRow`] holds.
pub struct PlanMetaRowView {
    pub plan_id: i64,
    pub objective: Option<Seq<char>>,
    pub motivation: Option<Seq<char>>,
    pub worktree_path: Option<Seq<char>>,
    pub requester: Option<Seq<char>>,
    pub report_json: Option<Seq<char>>,
    pub key_learnings_json: Option<Seq<char>>,
    pub closed_at: Option<i64>,
}

impl View for PlanMetaRow {
    type V = PlanMetaRowView;

    open spec fn view(&self) -> PlanMetaRowView {
        PlanMetaRowView {
            plan_id: self.plan_id,
            objective: opt_text(self.objective),
            motivation: opt_text(self.motivation),
            worktree_path: opt_text(self.worktree_path),
            requester: opt_text(self.requester),
            report_json: opt_text(self.report_json),
            key_learnings_json: opt_text(self.key_learnings_json),
            closed_at: self.closed_at,
        }
    }
}

impl Duplicate for PlanMetaRow {
    fn duplicate(&self) -> (r: Self) {
        PlanMetaRow {
            plan_id: self.plan_id,
            objective: copy_opt(&self.objective),
            motivation: copy_opt(&self.motivation),
            worktree_path: copy_opt(&self.worktree_path),
            requester: copy_opt(&self.requester),
            report_json: copy_opt(&self.report_json),
            key_learnings_json: copy_opt(&self.key_learnings_json),
            closed_at: self.closed_at,
        }
    }
}

/// The row that an insert with no values gives.
pub open spec fn blank_plan_meta_row() -> PlanMetaRowView {
    PlanMetaRowView {
        plan_id: 0i64,
        objective: None::<Seq<char>>,
        motivation: None::<Seq<char>>,
        worktree_path: None::<Seq<char>>,
        requester: None::<Seq<char>>,
        report_json: None::<Seq<char>>,
        key_learnings_json: None::<Seq<char>>,
        closed_at: None::<i64>,
    }
}

impl Default for PlanMetaRow {
    fn default() -> (r: Self)
        ensures
            r@ == blank_plan_meta_row(),
    {
        PlanMetaRow {
            plan_id: 0,
            objective: None,
            motivation: None,
            worktree_path: None,
            requester: None,
            report_json: None,
            key_learnings_json: None,
            closed_at: None,
        }
    }
}

/// A project.
#[derive(Debug, Clone)]
pub struct ProjectRow {
    pub id: String,
    pub name: String,
}

/// What a [`ProjectRow`] holds.
pub struct ProjectRowView {
    pub id: Seq<char>,
    pub name: Seq<char>,
}

impl View for ProjectRow {
    type V = ProjectRowView;

    open spec fn view(&self) -> ProjectRowView {
        ProjectRowView {
            id: self.id@,
            name: self.name@,
        }
    }
}

impl Duplicate for ProjectRow {
    fn duplicate(&self) -> (r: Self) {
        ProjectRow {
            id: self.id.clone(),
            name: self.name.clone(),
        }
    }
}

/// The row that an insert with no values gives.
pub open spec fn blank_project_row() -> ProjectRowView {
    ProjectRowView {
        id: Seq::<char>::empty(),
        name: Seq::<char>::empty(),
    }
}

impl Default for ProjectRow {
    fn default() -> (r: Self)
        ensures
            r@ == blank_project_row(),
    {
        ProjectRow {
            id: String::new(),
            name: String::new(),
        }
    }
}

/// Tokens that a call used.
#[derive(Debug, Clone)]
pub struct UsageRow {
    pub plan_id: Option<i64>,
    pub input_tokens: i64,
    pub output_tokens: i64,
}

/// What a [`UsageRow`] holds.
pub struct UsageRowView {
    pub plan_id: Option<i64>,
    pub input_tokens: i64,
    pub output_tokens: i64,
}

impl View for UsageRow {
    type V = UsageRowView;

    open spec fn view(&self) -> UsageRowView {
        UsageRowView {
            plan_id: self.plan_id,
            input_tokens: self.input_tokens,
            output_tokens: self.output_tokens,
        }
    }
}

impl Duplicate for UsageRow {
    fn duplicate(&self) -> (r: Self) {
        UsageRow {
            plan_id: self.plan_id,
            input_tokens: self.input_tokens,
            output_tokens: self.output_tokens,
        }
    }
}

/// The row that an insert with no values gives.
pub open spec fn blank_usage_row() -> UsageRowView {
    UsageRowView {
        plan_id: None::<i64>,
        input_tokens: 0i64,
        output_tokens: 0i64,
    }
}

impl Default for UsageRow {
    fn default() -> (r: Self)
        ensures
            r@ == blank_usage_row(),
    {
        UsageRow {
            plan_id: None,
            input_tokens: 0,
            output_tokens: 0,
        }
    }
}

/// What an agent is doing.
#[derive(Debug, Clone)]
pub struct ActivityRow {
    pub agent_id: String,
    pub status: String,
}

/// What a [`ActivityRow`] holds.
pub struct ActivityRowView {
    pub agent_id: Seq<char>,
    pub status: Seq<char>,
}

impl View for ActivityRow {
    type V = ActivityRowView;

    open spec fn view(&self) -> ActivityRowView {
        ActivityRowView {
            agent_id: self.agent_id@,
            status: self.status@,
        }
    }
}

impl Duplicate for ActivityRow {
    fn duplicate(&self) -> (r: Self) {
        ActivityRow {
            agent_id: self.agent_id.clone(),
            status: self.status.clone(),
        }
    }
}

/// The row that an insert with no values gives.
pub open spec fn blank_activity_row() -> ActivityRowView {
    ActivityRowView {
        agent_id: Seq::<char>::empty(),
        status: Seq::<char>::empty(),
    }
}

impl Default for ActivityRow {
    fn default() -> (r: Self)
        ensures
            r@ == blank_activity_row(),
    {
        ActivityRow {
            agent_id: String::new(),
            status: String::new(),
        }
    }
}

/// A row that is inserted without values has the statuses that the tables give it: a plan is to
/// do, a wave, a task and an entry of the queue wait, and a merge request is open.
pub proof fn law_blank_rows()
    ensures
        blank_plan_row().status == "todo"@,
        blank_wave_row().status == "pending"@,
        blank_task_row().status == "pending"@,
        blank_task_row().claimed_files == Some("[]"@),
        blank_task_row().locked_by is None && blank_task_row().notes is None
            && blank_task_row().executor_agent is None && blank_task_row().started_at is None,
        blank_queue_row().status == "pending"@,
        blank_merge_row().status == "open"@,
        !blank_stale_notice().resolved,
        !blank_plan_row().is_master && blank_plan_row().parent_plan_id is None,
        blank_plan_row().tasks_done == 0 && blank_plan_row().tasks_total == 0,
{
}

} // verus!
