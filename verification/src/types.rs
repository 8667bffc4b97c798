//! Evidence types, shared across the library.

use crate::table::{lemma_count_step, views, Duplicate, Row};
use crate::text::same;
use vstd::prelude::*;

verus! {

/// Known evidence types that can be recorded for a task.
#[derive(Debug, Clone, Copy, PartialEq, Eq, Structural)]
pub enum EvidenceKind {
    TestPass,
    BuildPass,
    LintPass,
    CommitHash,
    Artifact,
    CurlOutput,
    ReviewPass,
    Document,
}

impl EvidenceKind {
    /// The text that stands for the kind.
    pub open spec fn text(self) -> Seq<char> {
        match self {
            EvidenceKind::TestPass => "test_pass"@,
            EvidenceKind::BuildPass => "build_pass"@,
            EvidenceKind::LintPass => "lint_pass"@,
            EvidenceKind::CommitHash => "commit_hash"@,
            EvidenceKind::Artifact => "artifact"@,
            EvidenceKind::CurlOutput => "curl_output"@,
            EvidenceKind::ReviewPass => "review_pass"@,
            EvidenceKind::Document => "document"@,
        }
    }

    /// The kind that a text stands for.
    pub open spec fn of_text(s: Seq<char>) -> Option<EvidenceKind> {
        if s == "test_pass"@ {
            Some(EvidenceKind::TestPass)
        } else if s == "build_pass"@ {
            Some(EvidenceKind::BuildPass)
        } else if s == "lint_pass"@ {
            Some(EvidenceKind::LintPass)
        } else if s == "commit_hash"@ {
            Some(EvidenceKind::CommitHash)
        } else if s == "artifact"@ {
            Some(EvidenceKind::Artifact)
        } else if s == "curl_output"@ {
            Some(EvidenceKind::CurlOutput)
        } else if s == "review_pass"@ {
            Some(EvidenceKind::ReviewPass)
        } else if s == "document"@ {
            Some(EvidenceKind::Document)
        } else {
            None
        }
    }

    /// The text that stands for the kind.
    pub fn as_str(self) -> (r: &'static str)
        ensures
            r@ == self.text(),
    {
        match self {
            EvidenceKind::TestPass => "test_pass",
            EvidenceKind::BuildPass => "build_pass",
            EvidenceKind::LintPass => "lint_pass",
            EvidenceKind::CommitHash => "commit_hash",
            EvidenceKind::Artifact => "artifact",
            EvidenceKind::CurlOutput => "curl_output",
            EvidenceKind::ReviewPass => "review_pass",
            EvidenceKind::Document => "document",
        }
    }

    /// The kind that a text stands for.
    pub fn parse(s: &str) -> (r: Option<EvidenceKind>)
        ensures
            r == EvidenceKind::of_text(s@),
    {
        if same(s, "test_pass") {
            Some(EvidenceKind::TestPass)
        } else if same(s, "build_pass") {
            Some(EvidenceKind::BuildPass)
        } else if same(s, "lint_pass") {
            Some(EvidenceKind::LintPass)
        } else if same(s, "commit_hash") {
            Some(EvidenceKind::CommitHash)
        } else if same(s, "artifact") {
            Some(EvidenceKind::Artifact)
        } else if same(s, "curl_output") {
            Some(EvidenceKind::CurlOutput)
        } else if same(s, "review_pass") {
            Some(EvidenceKind::ReviewPass)
        } else if same(s, "document") {
            Some(EvidenceKind::Document)
        } else {
            None
        }
    }
}

/// The text of a kind stands for that kind again, and no other text does.
pub proof fn law_kind_round_trip(kind: EvidenceKind, s: Seq<char>)
    ensures
        EvidenceKind::of_text(kind.text()) == Some(kind),
        EvidenceKind::of_text(s) == Some(kind) <==> s == kind.text(),
{
    reveal_strlit("test_pass");
    reveal_strlit("build_pass");
    reveal_strlit("lint_pass");
    reveal_strlit("commit_hash");
    reveal_strlit("artifact");
    reveal_strlit("curl_output");
    reveal_strlit("review_pass");
    reveal_strlit("document");
    assert("test_pass"@.len() == 9 && "build_pass"@.len() == 10 && "lint_pass"@.len() == 9);
    assert("commit_hash"@.len() == 11 && "artifact"@.len() == 8 && "curl_output"@.len() == 11);
    assert("review_pass"@.len() == 11 && "document"@.len() == 8);
    assert("test_pass"@[0] == 't' && "lint_pass"@[0] == 'l');
    assert("commit_hash"@[1] == 'o' && "curl_output"@[1] == 'u' && "review_pass"@[1] == 'e');
    assert("artifact"@[0] == 'a' && "document"@[0] == 'd');
}

/// One condition that was looked at before an agent is spawned.
#[derive(Debug, Clone)]
pub struct PreflightCheck {
    pub name: String,
    pub passed: bool,
    pub detail: String,
}

/// What a [`PreflightCheck`] holds.
pub struct PreflightCheckView {
    pub name: Seq<char>,
    pub passed: bool,
    pub detail: Seq<char>,
}

impl View for PreflightCheck {
    type V = PreflightCheckView;

    open spec fn view(&self) -> PreflightCheckView {
        PreflightCheckView {
            name: self.name@,
            passed: self.passed,
            detail: self.detail@,
        }
    }
}

/// Result of a pre-flight check before spawning an agent.
#[derive(Debug, Clone)]
pub struct PreflightResult {
    pub passed: bool,
    pub checks: Vec<PreflightCheck>,
}

impl PreflightResult {
    /// The checks that did not pass, in order.
    pub fn failed_checks(&self) -> (r: Vec<&PreflightCheck>)
        ensures
            r@.map_values(|c: &PreflightCheck| *c) == self.checks@.filter(
                |c: PreflightCheck| !c.passed,
            ),
    {
        let ghost p = |c: PreflightCheck| !c.passed;
        let ghost all = self.checks@;
        let mut out: Vec<&PreflightCheck> = Vec::new();
        let mut i: usize = 0;
        assert(all.take(0).filter(p) =~= out@.map_values(|c: &PreflightCheck| *c)) by {
            reveal(Seq::filter);
        }
        while i < self.checks.len()
            invariant
                i <= self.checks@.len(),
                all == self.checks@,
                p == (|c: PreflightCheck| !c.passed),
                out@.map_values(|c: &PreflightCheck| *c) == all.take(i as int).filter(p),
            decreases self.checks@.len() - i,
        {
            proof {
                lemma_count_step(all, p, i as int);
            }
            if !self.checks[i].passed {
                let ghost before = out@;
                out.push(&self.checks[i]);
                assert(out@.map_values(|c: &PreflightCheck| *c) =~= before.map_values(
                    |c: &PreflightCheck| *c,
                ).push(all[i as int]));
            }
            i += 1;
        }
        assert(all.take(i as int) =~= all);
        out
    }
}

/// A checklist item that must be satisfied before a task can be marked done.
#[derive(Debug, Clone)]
pub struct ChecklistItem {
    pub name: String,
    pub required: bool,
    pub evidence_type: String,
}

/// What a [`ChecklistItem`] holds.
pub struct ChecklistItemView {
    pub name: Seq<char>,
    pub required: bool,
    pub evidence_type: Seq<char>,
}

impl View for ChecklistItem {
    type V = ChecklistItemView;

    open spec fn view(&self) -> ChecklistItemView {
        ChecklistItemView {
            name: self.name@,
            required: self.required,
            evidence_type: self.evidence_type@,
        }
    }
}

/// The minimum evidence required for done.
pub open spec fn closure_checklist() -> Seq<ChecklistItemView> {
    seq![
        ChecklistItemView {
            name: "tests_passed"@,
            required: true,
            evidence_type: "test_pass"@,
        },
        ChecklistItemView {
            name: "build_passed"@,
            required: true,
            evidence_type: "build_pass"@,
        },
        ChecklistItemView {
            name: "commit_recorded"@,
            required: true,
            evidence_type: "commit_hash"@,
        },
    ]
}

/// Default closure checklist: the minimum evidence required for done.
pub fn default_closure_checklist() -> (r: Vec<ChecklistItem>)
    ensures
        views(r@) == closure_checklist(),
{
    let r = vec![
        ChecklistItem {
            name: "tests_passed".to_owned(),
            required: true,
            evidence_type: "test_pass".to_owned(),
        },
        ChecklistItem {
            name: "build_passed".to_owned(),
            required: true,
            evidence_type: "build_pass".to_owned(),
        },
        ChecklistItem {
            name: "commit_recorded".to_owned(),
            required: true,
            evidence_type: "commit_hash".to_owned(),
        },
    ];
    assert(views(r@) =~= closure_checklist());
    r
}

/// Gate violation: returned when a gate blocks a transition.
#[derive(Debug, Clone)]
pub struct GateViolation {
    pub gate: String,
    pub task_id: i64,
    pub detail: String,
}

/// What a [`GateViolation`] holds.
pub struct GateViolationView {
    pub gate: Seq<char>,
    pub task_id: i64,
    pub detail: Seq<char>,
}

impl View for GateViolation {
    type V = GateViolationView;

    open spec fn view(&self) -> GateViolationView {
        GateViolationView {
            gate: self.gate@,
            task_id: self.task_id,
            detail: self.detail@,
        }
    }
}

/// A recorded evidence entry for a task.
#[derive(Debug, Clone)]
pub struct EvidenceRecord {
    pub id: i64,
    pub task_id: i64,
    pub evidence_type: String,
    pub command: String,
    pub output_summary: String,
    pub exit_code: i64,
    pub created_at: String,
}

/// What a [`EvidenceRecord`] holds.
pub struct EvidenceRecordView {
    pub id: i64,
    pub task_id: i64,
    pub evidence_type: Seq<char>,
    pub command: Seq<char>,
    pub output_summary: Seq<char>,
    pub exit_code: i64,
    pub created_at: Seq<char>,
}

impl View for EvidenceRecord {
    type V = EvidenceRecordView;

    open spec fn view(&self) -> EvidenceRecordView {
        EvidenceRecordView {
            id: self.id,
            task_id: self.task_id,
            evidence_type: self.evidence_type@,
            command: self.command@,
            output_summary: self.output_summary@,
            exit_code: self.exit_code,
            created_at: self.created_at@,
        }
    }
}

impl Duplicate for EvidenceRecord {
    fn duplicate(&self) -> (r: Self) {
        EvidenceRecord {
            id: self.id,
            task_id: self.task_id,
            evidence_type: self.evidence_type.clone(),
            command: self.command.clone(),
            output_summary: self.output_summary.clone(),
            exit_code: self.exit_code,
            created_at: self.created_at.clone(),
        }
    }
}

impl Row for EvidenceRecord {
    open spec fn key(v: EvidenceRecordView) -> i64 {
        v.id
    }

    fn id(&self) -> (r: i64) {
        self.id
    }
}

/// The row that an insert with no values gives.
pub open spec fn blank_evidence_record() -> EvidenceRecordView {
    EvidenceRecordView {
        id: 0i64,
        task_id: 0i64,
        evidence_type: Seq::<char>::empty(),
        command: Seq::<char>::empty(),
        output_summary: Seq::<char>::empty(),
        exit_code: 0i64,
        created_at: Seq::<char>::empty(),
    }
}

impl Default for EvidenceRecord {
    fn default() -> (r: Self)
        ensures
            r@ == blank_evidence_record(),
    {
        EvidenceRecord {
            id: 0,
            task_id: 0,
            evidence_type: String::new(),
            command: String::new(),
            output_summary: String::new(),
            exit_code: 0,
            created_at: String::new(),
        }
    }
}

/// Commit-to-task match record.
#[derive(Debug, Clone)]
pub struct CommitTaskMatch {
    pub id: i64,
    pub task_id: i64,
    pub commit_hash: String,
    pub commit_message: String,
    pub matched_at: String,
}

/// What a [`CommitTaskMatch`] holds.
pub struct CommitTaskMatchView {
    pub id: i64,
    pub task_id: i64,
    pub commit_hash: Seq<char>,
    pub commit_message: Seq<char>,
    pub matched_at: Seq<char>,
}

impl View for CommitTaskMatch {
    type V = CommitTaskMatchView;

    open spec fn view(&self) -> CommitTaskMatchView {
        CommitTaskMatchView {
            id: self.id,
            task_id: self.task_id,
            commit_hash: self.commit_hash@,
            commit_message: self.commit_message@,
            matched_at: self.matched_at@,
        }
    }
}

impl Duplicate for CommitTaskMatch {
    fn duplicate(&self) -> (r: Self) {
        CommitTaskMatch {
            id: self.id,
            task_id: self.task_id,
            commit_hash: self.commit_hash.clone(),
            commit_message: self.commit_message.clone(),
            matched_at: self.matched_at.clone(),
        }
    }
}

impl Row for CommitTaskMatch {
    open spec fn key(v: CommitTaskMatchView) -> i64 {
        v.id
    }

    fn id(&self) -> (r: i64) {
        self.id
    }
}

/// The row that an insert with no values gives.
pub open spec fn blank_commit_task_match() -> CommitTaskMatchView {
    CommitTaskMatchView {
        id: 0i64,
        task_id: 0i64,
        commit_hash: Seq::<char>::empty(),
        commit_message: Seq::<char>::empty(),
        matched_at: Seq::<char>::empty(),
    }
}

impl Default for CommitTaskMatch {
    fn default() -> (r: Self)
        ensures
            r@ == blank_commit_task_match(),
    {
        CommitTaskMatch {
            id: 0,
            task_id: 0,
            commit_hash: String::new(),
            commit_message: String::new(),
            matched_at: String::new(),
        }
    }
}

/// The texts of the kinds, and what has to be recorded before a task is done: a passing test, a
/// passing build and a commit.
pub proof fn law_kinds_and_checklist()
    ensures
        EvidenceKind::TestPass.text() == "test_pass"@,
        EvidenceKind::BuildPass.text() == "build_pass"@,
        EvidenceKind::LintPass.text() == "lint_pass"@,
        EvidenceKind::CommitHash.text() == "commit_hash"@,
        EvidenceKind::Artifact.text() == "artifact"@,
        EvidenceKind::CurlOutput.text() == "curl_output"@,
        EvidenceKind::ReviewPass.text() == "review_pass"@,
        EvidenceKind::Document.text() == "document"@,
        closure_checklist().len() == 3,
        closure_checklist()[0].name == "tests_passed"@ && closure_checklist()[0].evidence_type
            == "test_pass"@,
        closure_checklist()[1].name == "build_passed"@ && closure_checklist()[1].evidence_type
            == "build_pass"@,
        closure_checklist()[2].name == "commit_recorded"@ && closure_checklist()[2].evidence_type
            == "commit_hash"@,
        forall|i: int| 0 <= i < 3 ==> (#[trigger] closure_checklist()[i]).required,
{
}

} // verus!
