//! Artifacts: outputs of a project other than code.

use crate::store::{sound, Store, StoreError, StoreView};
use crate::table::{appended, find_where, first, full, select_where, views, Duplicate, Row};
use crate::text::{copy_opt, opt_str, opt_text, own_opt};
use vstd::prelude::*;

verus! {

/// An artifact that a task produced.
#[derive(Debug, Clone)]
pub struct Artifact {
    pub id: i64,
    pub task_id: i64,
    pub plan_id: i64,
    pub name: String,
    pub artifact_type: String,
    pub path: String,
    pub size_bytes: i64,
    pub mime_type: Option<String>,
    pub content_hash: Option<String>,
    pub created_at: String,
}

/// What a [`Artifact`] holds.
pub struct ArtifactView {
    pub id: i64,
    pub task_id: i64,
    pub plan_id: i64,
    pub name: Seq<char>,
    pub artifact_type: Seq<char>,
    pub path: Seq<char>,
    pub size_bytes: i64,
    pub mime_type: Option<Seq<char>>,
    pub content_hash: Option<Seq<char>>,
    pub created_at: Seq<char>,
}

impl View for Artifact {
    type V = ArtifactView;

    open spec fn view(&self) -> ArtifactView {
        ArtifactView {
            id: self.id,
            task_id: self.task_id,
            plan_id: self.plan_id,
            name: self.name@,
            artifact_type: self.artifact_type@,
            path: self.path@,
            size_bytes: self.size_bytes,
            mime_type: opt_text(self.mime_type),
            content_hash: opt_text(self.content_hash),
            created_at: self.created_at@,
        }
    }
}

impl Duplicate for Artifact {
    fn duplicate(&self) -> (r: Self) {
        Artifact {
            id: self.id,
            task_id: self.task_id,
            plan_id: self.plan_id,
            name: self.name.clone(),
            artifact_type: self.artifact_type.clone(),
            path: self.path.clone(),
            size_bytes: self.size_bytes,
            mime_type: copy_opt(&self.mime_type),
            content_hash: copy_opt(&self.content_hash),
            created_at: self.created_at.clone(),
        }
    }
}

impl Row for Artifact {
    open spec fn key(v: ArtifactView) -> i64 {
        v.id
    }

    fn id(&self) -> (r: i64) {
        self.id
    }
}

/// The row that an insert with no values gives.
pub open spec fn blank_artifact() -> ArtifactView {
    ArtifactView {
        id: 0i64,
        task_id: 0i64,
        plan_id: 0i64,
        name: Seq::<char>::empty(),
        artifact_type: Seq::<char>::empty(),
        path: Seq::<char>::empty(),
        size_bytes: 0i64,
        mime_type: None::<Seq<char>>,
        content_hash: None::<Seq<char>>,
        created_at: Seq::<char>::empty(),
    }
}

impl Default for Artifact {
    fn default() -> (r: Self)
        ensures
            r@ == blank_artifact(),
    {
        Artifact {
            id: 0,
            task_id: 0,
            plan_id: 0,
            name: String::new(),
            artifact_type: String::new(),
            path: String::new(),
            size_bytes: 0,
            mime_type: None,
            content_hash: None,
            created_at: String::new(),
        }
    }
}

/// The artifacts of a plan.
pub open spec fn artifacts_of_plan(plan_id: i64) -> spec_fn(ArtifactView) -> bool {
    |a: ArtifactView| a.plan_id == plan_id
}

/// The artifacts of a task.
pub open spec fn artifacts_of_task(task_id: i64) -> spec_fn(ArtifactView) -> bool {
    |a: ArtifactView| a.task_id == task_id
}

/// The artifact with the given id.
pub open spec fn artifact_is(id: i64) -> spec_fn(ArtifactView) -> bool {
    |a: ArtifactView| a.id == id
}

/// The store with one more artifact, under the next key.
pub open spec fn with_artifact(s: StoreView, a: ArtifactView) -> StoreView {
    StoreView {
        artifacts: appended(
            s.artifacts,
            ArtifactView { id: (s.artifacts.last_id + 1) as i64, ..a },
        ),
        ..s
    }
}

/// Records an artifact, and gives its id.
pub fn record_artifact(
    db: &mut Store,
    task_id: i64,
    plan_id: i64,
    name: &str,
    artifact_type: &str,
    path: &str,
    size_bytes: i64,
    now: &str,
) -> (r: Result<i64, StoreError>)
    ensures
        full(old(db)@.artifacts) ==> r == Err::<i64, StoreError>(StoreError::Full) && final(db)@
            == old(db)@,
        !full(old(db)@.artifacts) ==> {
            &&& r == Ok::<i64, StoreError>((old(db)@.artifacts.last_id + 1) as i64)
            &&& final(db)@ == with_artifact(
                old(db)@,
                ArtifactView {
                    id: 0,
                    task_id,
                    plan_id,
                    name: name@,
                    artifact_type: artifact_type@,
                    path: path@,
                    size_bytes,
                    mime_type: None,
                    content_hash: None,
                    created_at: now@,
                },
            )
        },
        sound(old(db)@) ==> sound(final(db)@),
{
    record_artifact_full(
        db,
        task_id,
        plan_id,
        name,
        artifact_type,
        path,
        size_bytes,
        None,
        None,
        now,
    )
}

/// Records an artifact with its media type and the hash of its content, and gives its id.
pub fn record_artifact_full(
    db: &mut Store,
    task_id: i64,
    plan_id: i64,
    name: &str,
    artifact_type: &str,
    path: &str,
    size_bytes: i64,
    mime_type: Option<&str>,
    content_hash: Option<&str>,
    now: &str,
) -> (r: Result<i64, StoreError>)
    ensures
        full(old(db)@.artifacts) ==> r == Err::<i64, StoreError>(StoreError::Full) && final(db)@
            == old(db)@,
        !full(old(db)@.artifacts) ==> {
            &&& r == Ok::<i64, StoreError>((old(db)@.artifacts.last_id + 1) as i64)
            &&& final(db)@ == with_artifact(
                old(db)@,
                ArtifactView {
                    id: 0,
                    task_id,
                    plan_id,
                    name: name@,
                    artifact_type: artifact_type@,
                    path: path@,
                    size_bytes,
                    mime_type: opt_str(mime_type),
                    content_hash: opt_str(content_hash),
                    created_at: now@,
                },
            )
        },
        sound(old(db)@) ==> sound(final(db)@),
{
    if db.artifacts.last_id == i64::MAX {
        return Err(StoreError::Full);
    }
    let id: i64 = db.artifacts.last_id + 1;
    db.artifacts.append(
        Artifact {
            id,
            task_id,
            plan_id,
            name: name.to_owned(),
            artifact_type: artifact_type.to_owned(),
            path: path.to_owned(),
            size_bytes,
            mime_type: own_opt(mime_type),
            content_hash: own_opt(content_hash),
            created_at: now.to_owned(),
        },
    );
    Ok(id)
}

/// The artifacts of a plan, in the order of recording.
pub fn list_artifacts(db: &Store, plan_id: i64) -> (r: Vec<Artifact>)
    ensures
        views(r@) == db@.artifacts.rows.filter(artifacts_of_plan(plan_id)),
{
    select_where(
        &db.artifacts.rows,
        |a: &Artifact| -> (b: bool) ensures b == artifacts_of_plan(plan_id)(a@) {
            a.plan_id == plan_id
        },
        Ghost(artifacts_of_plan(plan_id)),
    )
}

/// The artifact with the given id.
pub fn get_artifact(db: &Store, id: i64) -> (r: Option<Artifact>)
    ensures
        match first(db@.artifacts.rows, artifact_is(id)) {
            Some(a) => r is Some && r->0@ == a,
            None => r is None,
        },
{
    let found = find_where(
        &db.artifacts.rows,
        |a: &Artifact| -> (b: bool) ensures b == artifact_is(id)(a@) { a.id == id },
        Ghost(artifact_is(id)),
    );
    match found {
        Some(k) => Some(db.artifacts.rows[k].duplicate()),
        None => None,
    }
}

/// The artifacts of a task, in the order of recording.
pub fn list_task_artifacts(db: &Store, task_id: i64) -> (r: Vec<Artifact>)
    ensures
        views(r@) == db@.artifacts.rows.filter(artifacts_of_task(task_id)),
{
    select_where(
        &db.artifacts.rows,
        |a: &Artifact| -> (b: bool) ensures b == artifacts_of_task(task_id)(a@) {
            a.task_id == task_id
        },
        Ghost(artifacts_of_task(task_id)),
    )
}

/// A recorded artifact is found under its id, and ends the lists of its plan and of its task.
pub proof fn law_artifact_is_kept(s: StoreView, a: ArtifactView)
    requires
        sound(s),
        !full(s.artifacts),
    ensures
        ({
            let n = with_artifact(s, a);
            let new = n.artifacts.rows.last();
            &&& new == (ArtifactView { id: (s.artifacts.last_id + 1) as i64, ..a })
            &&& first(n.artifacts.rows, artifact_is(new.id)) == Some(new)
            &&& n.artifacts.rows.filter(artifacts_of_plan(a.plan_id)) == s.artifacts.rows.filter(
                artifacts_of_plan(a.plan_id),
            ).push(new)
            &&& n.artifacts.rows.filter(artifacts_of_task(a.task_id)) == s.artifacts.rows.filter(
                artifacts_of_task(a.task_id),
            ).push(new)
        }),
{
    let n = with_artifact(s, a);
    let rows = n.artifacts.rows;
    let id = rows.last().id;
    assert(rows.drop_last() =~= s.artifacts.rows);
    reveal(Seq::filter);
    assert forall|i: int| 0 <= i < rows.len() - 1 implies !artifact_is(id)(#[trigger] rows[i]) by {
        assert(rows[i] == s.artifacts.rows[i]);
        assert(Artifact::key(s.artifacts.rows[i]) <= s.artifacts.last_id);
    }
    crate::table::lemma_first_at(rows, artifact_is(id), rows.len() - 1);
}

/// The artifacts of a plan are those that name it, and those of a task are those that name the
/// task. An artifact is found by its key, and recording one changes no other.
pub proof fn law_artifacts_over_rows(s: StoreView, plan_id: i64, task_id: i64, a: ArtifactView, i: int)
    requires
        sound(s),
        0 <= i < s.artifacts.rows.len(),
        s.artifacts.last_id < i64::MAX,
    ensures
        ({
            let r = s.artifacts.rows[i];
            let n = with_artifact(s, a);
            &&& s.artifacts.rows.filter(artifacts_of_plan(plan_id)).contains(r) <==> r.plan_id
                == plan_id
            &&& s.artifacts.rows.filter(artifacts_of_task(task_id)).contains(r) <==> r.task_id
                == task_id
            &&& first(s.artifacts.rows, artifact_is(r.id)) == Some(r)
            &&& n == (StoreView { artifacts: n.artifacts, ..s })
            &&& n.artifacts.rows.drop_last() == s.artifacts.rows
            &&& n.artifacts.last_id == s.artifacts.last_id + 1
            &&& n.artifacts.rows.last().id == s.artifacts.last_id + 1
        }),
{
    let n = with_artifact(s, a);
    crate::table::lemma_kept_at(s.artifacts.rows, artifacts_of_plan(plan_id), i);
    crate::table::lemma_kept_at(s.artifacts.rows, artifacts_of_task(task_id), i);
    crate::table::lemma_first_keyed::<Artifact>(
        s.artifacts,
        artifact_is(s.artifacts.rows[i].id),
        i,
    );
    assert(n.artifacts.rows.drop_last() =~= s.artifacts.rows);
}

} // verus!
