//! The tables of the orchestrator.

use crate::approval::{ApprovalRequest, ApprovalRequestView};
use crate::artifact_bundle::{ArtifactBundle, ArtifactBundleView};
use crate::artifacts::{Artifact, ArtifactView};
use crate::compensation::{CompensationAction, CompensationActionView};
use crate::evaluation::{EvaluationRow, EvaluationRowView, ReviewOutcome, ReviewOutcomeView};
use crate::rows::{
    ActivityRow, ActivityRowView, AgentRow, AgentRowView, AuditRow, AuditRowView, BundleLink,
    BundleLinkView, ContextRow, ContextRowView, HeartbeatRow, HeartbeatRowView, LockRow,
    LockRowView, MergeRow, MergeRowView, PlanMetaRow, PlanMetaRowView, PlanRow, PlanRowView,
    ProjectRow, ProjectRowView, QueueRow, QueueRowView, StaleNotice, StaleNoticeView, StatusLogRow,
    StatusLogRowView, TaskRow, TaskRowView, UsageRow, UsageRowView, VerdictRow, VerdictRowView,
    WaveRow, WaveRowView,
};
use crate::table::{keyed, views, Table, TableView};
use crate::types::{CommitTaskMatch, CommitTaskMatchView, EvidenceRecord, EvidenceRecordView};
use vstd::prelude::*;

verus! {

/// A point in time: seconds since the Unix epoch, and the text that rows show for it.
pub struct Moment {
    pub secs: i64,
    pub text: String,
}

/// Why the store did not do what it was asked for.
#[derive(Debug, Clone, Copy, PartialEq, Eq, Structural)]
pub enum StoreError {
    /// No row answers the query.
    NoRows,
    /// No key is left for another row.
    Full,
}

impl StoreError {
    /// The error in words.
    pub open spec fn text(self) -> Seq<char> {
        match self {
            StoreError::NoRows => "Query returned no rows"@,
            StoreError::Full => "database or disk is full"@,
        }
    }

    /// The error in words.
    pub fn message(self) -> (r: String)
        ensures
            r@ == self.text(),
    {
        match self {
            StoreError::NoRows => "Query returned no rows".to_owned(),
            StoreError::Full => "database or disk is full".to_owned(),
        }
    }
}

/// Everything that the orchestrator remembers.
pub struct Store {
    pub plans: Table<PlanRow>,
    pub waves: Table<WaveRow>,
    pub tasks: Table<TaskRow>,
    pub task_evidence: Table<EvidenceRecord>,
    pub commit_task_matches: Table<CommitTaskMatch>,
    pub stale_task_notifications: Table<StaleNotice>,
    pub validation_queue: Table<QueueRow>,
    pub validation_verdicts: Table<VerdictRow>,
    pub approval_requests: Table<ApprovalRequest>,
    pub artifacts: Table<Artifact>,
    pub artifact_bundles: Table<ArtifactBundle>,
    pub bundle_artifacts: Vec<BundleLink>,
    pub compensation_actions: Table<CompensationAction>,
    pub review_outcomes: Table<ReviewOutcome>,
    pub plan_evaluations: Table<EvaluationRow>,
    pub merge_queue: Vec<MergeRow>,
    pub advisory_locks: Table<LockRow>,
    pub agents: Vec<AgentRow>,
    pub heartbeats: Vec<HeartbeatRow>,
    pub agent_context: Vec<ContextRow>,
    pub task_status_log: Table<StatusLogRow>,
    pub audit_log: Table<AuditRow>,
    pub plan_metadata: Vec<PlanMetaRow>,
    pub projects: Vec<ProjectRow>,
    pub token_usage: Vec<UsageRow>,
    pub agent_activity: Vec<ActivityRow>,
}

/// What a [`Store`] holds.
pub struct StoreView {
    pub plans: TableView<PlanRowView>,
    pub waves: TableView<WaveRowView>,
    pub tasks: TableView<TaskRowView>,
    pub task_evidence: TableView<EvidenceRecordView>,
    pub commit_task_matches: TableView<CommitTaskMatchView>,
    pub stale_task_notifications: TableView<StaleNoticeView>,
    pub validation_queue: TableView<QueueRowView>,
    pub validation_verdicts: TableView<VerdictRowView>,
    pub approval_requests: TableView<ApprovalRequestView>,
    pub artifacts: TableView<ArtifactView>,
    pub artifact_bundles: TableView<ArtifactBundleView>,
    pub bundle_artifacts: Seq<BundleLinkView>,
    pub compensation_actions: TableView<CompensationActionView>,
    pub review_outcomes: TableView<ReviewOutcomeView>,
    pub plan_evaluations: TableView<EvaluationRowView>,
    pub merge_queue: Seq<MergeRowView>,
    pub advisory_locks: TableView<LockRowView>,
    pub agents: Seq<AgentRowView>,
    pub heartbeats: Seq<HeartbeatRowView>,
    pub agent_context: Seq<ContextRowView>,
    pub task_status_log: TableView<StatusLogRowView>,
    pub audit_log: TableView<AuditRowView>,
    pub plan_metadata: Seq<PlanMetaRowView>,
    pub projects: Seq<ProjectRowView>,
    pub token_usage: Seq<UsageRowView>,
    pub agent_activity: Seq<ActivityRowView>,
}

impl View for Store {
    type V = StoreView;

    open spec fn view(&self) -> StoreView {
        StoreView {
            plans: self.plans@,
            waves: self.waves@,
            tasks: self.tasks@,
            task_evidence: self.task_evidence@,
            commit_task_matches: self.commit_task_matches@,
            stale_task_notifications: self.stale_task_notifications@,
            validation_queue: self.validation_queue@,
            validation_verdicts: self.validation_verdicts@,
            approval_requests: self.approval_requests@,
            artifacts: self.artifacts@,
            artifact_bundles: self.artifact_bundles@,
            bundle_artifacts: views(self.bundle_artifacts@),
            compensation_actions: self.compensation_actions@,
            review_outcomes: self.review_outcomes@,
            plan_evaluations: self.plan_evaluations@,
            merge_queue: views(self.merge_queue@),
            advisory_locks: self.advisory_locks@,
            agents: views(self.agents@),
            heartbeats: views(self.heartbeats@),
            agent_context: views(self.agent_context@),
            task_status_log: self.task_status_log@,
            audit_log: self.audit_log@,
            plan_metadata: views(self.plan_metadata@),
            projects: views(self.projects@),
            token_usage: views(self.token_usage@),
            agent_activity: views(self.agent_activity@),
        }
    }
}

/// Every table is in the order of its keys, and no key is given out twice.
pub open spec fn sound(s: StoreView) -> bool {
    &&& keyed::<PlanRow>(s.plans)
    &&& keyed::<WaveRow>(s.waves)
    &&& keyed::<TaskRow>(s.tasks)
    &&& keyed::<EvidenceRecord>(s.task_evidence)
    &&& keyed::<CommitTaskMatch>(s.commit_task_matches)
    &&& keyed::<StaleNotice>(s.stale_task_notifications)
    &&& keyed::<QueueRow>(s.validation_queue)
    &&& keyed::<VerdictRow>(s.validation_verdicts)
    &&& keyed::<ApprovalRequest>(s.approval_requests)
    &&& keyed::<Artifact>(s.artifacts)
    &&& keyed::<ArtifactBundle>(s.artifact_bundles)
    &&& keyed::<CompensationAction>(s.compensation_actions)
    &&& keyed::<ReviewOutcome>(s.review_outcomes)
    &&& keyed::<EvaluationRow>(s.plan_evaluations)
    &&& keyed::<LockRow>(s.advisory_locks)
    &&& keyed::<StatusLogRow>(s.task_status_log)
    &&& keyed::<AuditRow>(s.audit_log)
}

/// The store without any row.
pub open spec fn empty_store() -> StoreView {
    StoreView {
        plans: TableView { rows: Seq::empty(), last_id: 0i64 },
        waves: TableView { rows: Seq::empty(), last_id: 0i64 },
        tasks: TableView { rows: Seq::empty(), last_id: 0i64 },
        task_evidence: TableView { rows: Seq::empty(), last_id: 0i64 },
        commit_task_matches: TableView { rows: Seq::empty(), last_id: 0i64 },
        stale_task_notifications: TableView { rows: Seq::empty(), last_id: 0i64 },
        validation_queue: TableView { rows: Seq::empty(), last_id: 0i64 },
        validation_verdicts: TableView { rows: Seq::empty(), last_id: 0i64 },
        approval_requests: TableView { rows: Seq::empty(), last_id: 0i64 },
        artifacts: TableView { rows: Seq::empty(), last_id: 0i64 },
        artifact_bundles: TableView { rows: Seq::empty(), last_id: 0i64 },
        bundle_artifacts: Seq::empty(),
        compensation_actions: TableView { rows: Seq::empty(), last_id: 0i64 },
        review_outcomes: TableView { rows: Seq::empty(), last_id: 0i64 },
        plan_evaluations: TableView { rows: Seq::empty(), last_id: 0i64 },
        merge_queue: Seq::empty(),
        advisory_locks: TableView { rows: Seq::empty(), last_id: 0i64 },
        agents: Seq::empty(),
        heartbeats: Seq::empty(),
        agent_context: Seq::empty(),
        task_status_log: TableView { rows: Seq::empty(), last_id: 0i64 },
        audit_log: TableView { rows: Seq::empty(), last_id: 0i64 },
        plan_metadata: Seq::empty(),
        projects: Seq::empty(),
        token_usage: Seq::empty(),
        agent_activity: Seq::empty(),
    }
}

impl Store {
    /// A store without any row.
    pub fn new() -> (s: Self)
        ensures
            s@ == empty_store(),
            sound(s@),
    {
        let s = Store {
            plans: Table::new(),
            waves: Table::new(),
            tasks: Table::new(),
            task_evidence: Table::new(),
            commit_task_matches: Table::new(),
            stale_task_notifications: Table::new(),
            validation_queue: Table::new(),
            validation_verdicts: Table::new(),
            approval_requests: Table::new(),
            artifacts: Table::new(),
            artifact_bundles: Table::new(),
            bundle_artifacts: Vec::new(),
            compensation_actions: Table::new(),
            review_outcomes: Table::new(),
            plan_evaluations: Table::new(),
            merge_queue: Vec::new(),
            advisory_locks: Table::new(),
            agents: Vec::new(),
            heartbeats: Vec::new(),
            agent_context: Vec::new(),
            task_status_log: Table::new(),
            audit_log: Table::new(),
            plan_metadata: Vec::new(),
            projects: Vec::new(),
            token_usage: Vec::new(),
            agent_activity: Vec::new(),
        };
        proof {
            assert(s@.bundle_artifacts =~= Seq::empty());
            assert(s@.merge_queue =~= Seq::empty());
            assert(s@.agents =~= Seq::empty());
            assert(s@.heartbeats =~= Seq::empty());
            assert(s@.agent_context =~= Seq::empty());
            assert(s@.plan_metadata =~= Seq::empty());
            assert(s@.projects =~= Seq::empty());
            assert(s@.token_usage =~= Seq::empty());
            assert(s@.agent_activity =~= Seq::empty());
        }
        s
    }
}

/// A new store holds no row of any kind, and an error says what is wrong.
pub proof fn law_new_store()
    ensures
        ({
            let s = empty_store();
            &&& s.plans.rows.len() == 0 && s.waves.rows.len() == 0 && s.tasks.rows.len() == 0
            &&& s.task_evidence.rows.len() == 0 && s.commit_task_matches.rows.len() == 0
            &&& s.stale_task_notifications.rows.len() == 0 && s.validation_queue.rows.len() == 0
            &&& s.validation_verdicts.rows.len() == 0 && s.approval_requests.rows.len() == 0
            &&& s.artifacts.rows.len() == 0 && s.artifact_bundles.rows.len() == 0
            &&& s.bundle_artifacts.len() == 0 && s.compensation_actions.rows.len() == 0
            &&& s.review_outcomes.rows.len() == 0 && s.plan_evaluations.rows.len() == 0
            &&& s.merge_queue.len() == 0 && s.advisory_locks.rows.len() == 0
            &&& s.agents.len() == 0 && s.heartbeats.len() == 0 && s.agent_context.len() == 0
            &&& s.task_status_log.rows.len() == 0 && s.audit_log.rows.len() == 0
            &&& s.plan_metadata.len() == 0 && s.projects.len() == 0 && s.token_usage.len() == 0
            &&& s.agent_activity.len() == 0
            &&& s.plans.last_id == 0 && s.waves.last_id == 0 && s.tasks.last_id == 0
            &&& sound(s)
        }),
        StoreError::NoRows.text() == "Query returned no rows"@,
        StoreError::Full.text() == "database or disk is full"@,
{
}

} // verus!
