//! Bundles of artifacts that are reviewed and published together.

use crate::rows::{BundleLink, BundleLinkView};
use crate::store::{sound, Store, StoreError, StoreView};
use crate::table::{
    any, any_where, appended, find_where, first, full, lemma_updated_keyed, select_where,
    update_where, updated, views, Duplicate, Row, TableView,
};
use crate::text::{copy_opt, opt_text, same};
use vstd::prelude::*;
use vstd::seq_lib::{to_multiset_build, to_multiset_insert};

verus! {

/// A bundle of artifacts.
#[derive(Debug, Clone)]
pub struct ArtifactBundle {
    pub id: i64,
    pub plan_id: i64,
    pub name: String,
    pub bundle_type: String,
    pub status: String,
    pub created_at: String,
    pub published_at: Option<String>,
}

/// What a [`ArtifactBundle`] holds.
pub struct ArtifactBundleView {
    pub id: i64,
    pub plan_id: i64,
    pub name: Seq<char>,
    pub bundle_type: Seq<char>,
    pub status: Seq<char>,
    pub created_at: Seq<char>,
    pub published_at: Option<Seq<char>>,
}

impl View for ArtifactBundle {
    type V = ArtifactBundleView;

    open spec fn view(&self) -> ArtifactBundleView {
        ArtifactBundleView {
            id: self.id,
            plan_id: self.plan_id,
            name: self.name@,
            bundle_type: self.bundle_type@,
            status: self.status@,
            created_at: self.created_at@,
            published_at: opt_text(self.published_at),
        }
    }
}

impl Duplicate for ArtifactBundle {
    fn duplicate(&self) -> (r: Self) {
        ArtifactBundle {
            id: self.id,
            plan_id: self.plan_id,
            name: self.name.clone(),
            bundle_type: self.bundle_type.clone(),
            status: self.status.clone(),
            created_at: self.created_at.clone(),
            published_at: copy_opt(&self.published_at),
        }
    }
}

impl Row for ArtifactBundle {
    open spec fn key(v: ArtifactBundleView) -> i64 {
        v.id
    }

    fn id(&self) -> (r: i64) {
        self.id
    }
}

/// The row that an insert with no values gives.
pub open spec fn blank_artifact_bundle() -> ArtifactBundleView {
    ArtifactBundleView {
        id: 0i64,
        plan_id: 0i64,
        name: Seq::<char>::empty(),
        bundle_type: Seq::<char>::empty(),
        status: "draft"@,
        created_at: Seq::<char>::empty(),
        published_at: None::<Seq<char>>,
    }
}

impl Default for ArtifactBundle {
    fn default() -> (r: Self)
        ensures
            r@ == blank_artifact_bundle(),
    {
        ArtifactBundle {
            id: 0,
            plan_id: 0,
            name: String::new(),
            bundle_type: String::new(),
            status: "draft".to_owned(),
            created_at: String::new(),
            published_at: None,
        }
    }
}

/// The bundle with the given id.
pub open spec fn bundle_is(id: i64) -> spec_fn(ArtifactBundleView) -> bool {
    |b: ArtifactBundleView| b.id == id
}

/// The bundles of a plan.
pub open spec fn bundles_of(plan_id: i64) -> spec_fn(ArtifactBundleView) -> bool {
    |b: ArtifactBundleView| b.plan_id == plan_id
}

/// Makes a bundle for a plan, and gives its id.
pub fn create_bundle(db: &mut Store, plan_id: i64, name: &str, bundle_type: &str, now: &str) -> (r:
    Result<i64, StoreError>)
    ensures
        full(old(db)@.artifact_bundles) ==> r == Err::<i64, StoreError>(StoreError::Full) && final(
            db)@ == old(db)@,
        !full(old(db)@.artifact_bundles) ==> {
            let id = (old(db)@.artifact_bundles.last_id + 1) as i64;
            &&& r == Ok::<i64, StoreError>(id)
            &&& final(db)@ == (StoreView {
                artifact_bundles: appended(
                    old(db)@.artifact_bundles,
                    ArtifactBundleView {
                        id,
                        plan_id,
                        name: name@,
                        bundle_type: bundle_type@,
                        status: "draft"@,
                        created_at: now@,
                        published_at: None,
                    },
                ),
                ..old(db)@
            })
        },
        sound(old(db)@) ==> sound(final(db)@),
{
    if db.artifact_bundles.last_id == i64::MAX {
        return Err(StoreError::Full);
    }
    let id: i64 = db.artifact_bundles.last_id + 1;
    db.artifact_bundles.append(
        ArtifactBundle {
            id,
            plan_id,
            name: name.to_owned(),
            bundle_type: bundle_type.to_owned(),
            status: "draft".to_owned(),
            created_at: now.to_owned(),
            published_at: None,
        },
    );
    Ok(id)
}

/// The link of an artifact to a bundle.
pub open spec fn link_is(bundle_id: i64, artifact_id: i64) -> spec_fn(BundleLinkView) -> bool {
    |l: BundleLinkView| l.bundle_id == bundle_id && l.artifact_id == artifact_id
}

/// The links to a bundle.
pub open spec fn links_to(bundle_id: i64) -> spec_fn(BundleLinkView) -> bool {
    |l: BundleLinkView| l.bundle_id == bundle_id
}

/// The store in which the artifact belongs to the bundle. Where it did, nothing changes.
pub open spec fn with_link(s: StoreView, bundle_id: i64, artifact_id: i64) -> StoreView {
    if any(s.bundle_artifacts, link_is(bundle_id, artifact_id)) {
        s
    } else {
        StoreView {
            bundle_artifacts: s.bundle_artifacts.push(BundleLinkView { bundle_id, artifact_id }),
            ..s
        }
    }
}

/// Adds an artifact to a bundle. To do so again changes nothing.
pub fn add_to_bundle(db: &mut Store, bundle_id: i64, artifact_id: i64)
    ensures
        final(db)@ == with_link(old(db)@, bundle_id, artifact_id),
        sound(old(db)@) ==> sound(final(db)@),
{
    let known = any_where(
        &db.bundle_artifacts,
        |l: &BundleLink| -> (b: bool) ensures b == link_is(bundle_id, artifact_id)(l@) {
            l.bundle_id == bundle_id && l.artifact_id == artifact_id
        },
        Ghost(link_is(bundle_id, artifact_id)),
    );
    if !known {
        let ghost before = db@.bundle_artifacts;
        db.bundle_artifacts.push(BundleLink { bundle_id, artifact_id });
        assert(db@.bundle_artifacts =~= before.push(BundleLinkView { bundle_id, artifact_id }));
    }
}

/// The bundles of a plan, in the order in which they were made.
pub fn list_bundles(db: &Store, plan_id: i64) -> (r: Vec<ArtifactBundle>)
    ensures
        views(r@) == db@.artifact_bundles.rows.filter(bundles_of(plan_id)),
{
    select_where(
        &db.artifact_bundles.rows,
        |b: &ArtifactBundle| -> (r: bool) ensures r == bundles_of(plan_id)(b@) {
            b.plan_id == plan_id
        },
        Ghost(bundles_of(plan_id)),
    )
}

/// The artifacts that some links name.
pub open spec fn linked(links: Seq<BundleLinkView>) -> Seq<i64> {
    links.map_values(|l: BundleLinkView| l.artifact_id)
}

/// Whether a list holds given numbers in ascending order.
pub open spec fn ascends(out: Seq<i64>, numbers: Seq<i64>) -> bool {
    &&& out.to_multiset() == numbers.to_multiset()
    &&& forall|i: int, j: int| 0 <= i < j < out.len() ==> #[trigger] out[i] <= #[trigger] out[j]
}

/// The artifacts that some links name, in ascending order.
fn sorted_ids(links: &Vec<BundleLink>) -> (out: Vec<i64>)
    ensures
        ascends(out@, linked(views(links@))),
{
    let ghost all = linked(views(links@));
    let mut out: Vec<i64> = Vec::new();
    let mut i: usize = 0;
    assert(out@ =~= all.take(0));
    while i < links.len()
        invariant
            i <= links@.len(),
            all == linked(views(links@)),
            out@.len() == i,
            ascends(out@, all.take(i as int)),
        decreases links@.len() - i,
    {
        let id: i64 = links[i].artifact_id;
        let mut at: usize = out.len();
        while at > 0 && out[at - 1] > id
            invariant
                at <= out@.len(),
                forall|k: int| at <= k < out@.len() ==> #[trigger] out@[k] > id,
            decreases at,
        {
            at -= 1;
        }
        let ghost o = out@;
        proof {
            assert(all.take(i + 1) =~= all.take(i as int).push(id));
            to_multiset_build(all.take(i as int), id);
            to_multiset_insert(o, at as int, id);
            let n = o.insert(at as int, id);
            assert forall|a: int, b: int| 0 <= a < b < n.len() implies #[trigger] n[a]
                <= #[trigger] n[b] by {
                let x = if a < at { a } else { a - 1 };
                let y = if b < at { b } else { b - 1 };
                if a != at && b != at {
                    assert(n[a] == o[x] && n[b] == o[y]);
                } else if a == at {
                    assert(n[b] == o[y]);
                } else {
                    assert(n[a] == o[x]);
                    assert(o[x] <= o[at - 1]);
                }
            }
        }
        out.insert(at, id);
        i += 1;
    }
    assert(all.take(i as int) =~= all);
    out
}

/// A bundle with the ids of its artifacts, in ascending order.
pub fn get_bundle_with_artifacts(db: &Store, bundle_id: i64) -> (r: Option<
    (ArtifactBundle, Vec<i64>),
>)
    ensures
        match first(db@.artifact_bundles.rows, bundle_is(bundle_id)) {
            Some(b) => r matches Some((bundle, ids)) && bundle@ == b && ascends(
                ids@,
                linked(db@.bundle_artifacts.filter(links_to(bundle_id))),
            ),
            None => r is None,
        },
{
    let found = find_where(
        &db.artifact_bundles.rows,
        |b: &ArtifactBundle| -> (r: bool) ensures r == bundle_is(bundle_id)(b@) {
            b.id == bundle_id
        },
        Ghost(bundle_is(bundle_id)),
    );
    match found {
        Some(k) => {
            let links = select_where(
                &db.bundle_artifacts,
                |l: &BundleLink| -> (b: bool) ensures b == links_to(bundle_id)(l@) {
                    l.bundle_id == bundle_id
                },
                Ghost(links_to(bundle_id)),
            );
            Some((db.artifact_bundles.rows[k].duplicate(), sorted_ids(&links)))
        },
        None => None,
    }
}

/// A bundle in a status. The time is noted where it is published.
pub open spec fn in_status(status: Seq<char>, now: Seq<char>) -> spec_fn(
    ArtifactBundleView,
) -> ArtifactBundleView {
    |b: ArtifactBundleView|
        ArtifactBundleView {
            status,
            published_at: if status == "published"@ {
                Some(now)
            } else {
                b.published_at
            },
            ..b
        }
}

/// Moves a bundle to a status: draft, reviewed, published.
pub fn update_bundle_status(db: &mut Store, bundle_id: i64, status: &str, now: &str)
    ensures
        final(db)@ == (StoreView {
            artifact_bundles: TableView {
                rows: updated(
                    old(db)@.artifact_bundles.rows,
                    bundle_is(bundle_id),
                    in_status(status@, now@),
                ),
                last_id: old(db)@.artifact_bundles.last_id,
            },
            ..old(db)@
        }),
        sound(old(db)@) ==> sound(final(db)@),
{
    let publish = same(status, "published");
    proof {
        if sound(db@) {
            lemma_updated_keyed::<ArtifactBundle>(
                db@.artifact_bundles,
                bundle_is(bundle_id),
                in_status(status@, now@),
            );
        }
    }
    update_where(
        &mut db.artifact_bundles.rows,
        |b: &ArtifactBundle| -> (r: bool) ensures r == bundle_is(bundle_id)(b@) {
            b.id == bundle_id
        },
        |b: &ArtifactBundle| -> (n: ArtifactBundle) ensures n@ == in_status(status@, now@)(b@) {
            ArtifactBundle {
                status: status.to_owned(),
                published_at: if publish {
                    Some(now.to_owned())
                } else {
                    copy_opt(&b.published_at)
                },
                ..b.duplicate()
            }
        },
        Ghost(bundle_is(bundle_id)),
        Ghost(in_status(status@, now@)),
    );
}

/// To add an artifact to a bundle a second time changes nothing, and afterwards the bundle has
/// the artifact.
pub proof fn law_adding_is_idempotent(s: StoreView, bundle_id: i64, artifact_id: i64)
    ensures
        ({
            let once = with_link(s, bundle_id, artifact_id);
            &&& with_link(once, bundle_id, artifact_id) == once
            &&& linked(once.bundle_artifacts.filter(links_to(bundle_id))).contains(artifact_id)
        }),
{
    let once = with_link(s, bundle_id, artifact_id);
    let p = link_is(bundle_id, artifact_id);
    let rows = once.bundle_artifacts;
    if !any(s.bundle_artifacts, p) {
        assert(p(rows[rows.len() - 1]));
    }
    let i = choose|i: int| 0 <= i < rows.len() && p(#[trigger] rows[i]);
    let q = links_to(bundle_id);
    rows.lemma_filter_contains(q, i);
    let f = rows.filter(q);
    let k = choose|k: int| 0 <= k < f.len() && f[k] == rows[i];
    assert(linked(f)[k] == artifact_id);
}

/// The bundles of a plan are those that name it, a bundle is found by its key, and its artifacts
/// are those that a link joins to it.
pub proof fn law_bundles_over_rows(s: StoreView, plan_id: i64, i: int, artifact_id: i64)
    requires
        sound(s),
        0 <= i < s.artifact_bundles.rows.len(),
    ensures
        ({
            let b = s.artifact_bundles.rows[i];
            &&& s.artifact_bundles.rows.filter(bundles_of(plan_id)).contains(b) <==> b.plan_id
                == plan_id
            &&& first(s.artifact_bundles.rows, bundle_is(b.id)) == Some(b)
            &&& linked(s.bundle_artifacts.filter(links_to(b.id))).contains(artifact_id)
                <==> exists|k: int|
                0 <= k < s.bundle_artifacts.len() && (#[trigger] s.bundle_artifacts[k]).bundle_id
                    == b.id && s.bundle_artifacts[k].artifact_id == artifact_id
        }),
{
    let b = s.artifact_bundles.rows[i];
    let links = s.bundle_artifacts;
    let f = links.filter(links_to(b.id));
    crate::table::lemma_kept_at(s.artifact_bundles.rows, bundles_of(plan_id), i);
    crate::table::lemma_first_keyed::<ArtifactBundle>(s.artifact_bundles, bundle_is(b.id), i);
    crate::table::lemma_kept(links, links_to(b.id));
    if linked(f).contains(artifact_id) {
        let k = choose|k: int| 0 <= k < linked(f).len() && linked(f)[k] == artifact_id;
        assert(links_to(b.id)(f[k]) && links.contains(f[k]));
        let j = choose|j: int| 0 <= j < links.len() && links[j] == f[k];
        assert(links[j].bundle_id == b.id && links[j].artifact_id == artifact_id);
    }
    if exists|k: int|
        0 <= k < links.len() && (#[trigger] links[k]).bundle_id == b.id && links[k].artifact_id
            == artifact_id {
        let k = choose|k: int|
            0 <= k < links.len() && (#[trigger] links[k]).bundle_id == b.id
                && links[k].artifact_id == artifact_id;
        assert(links_to(b.id)(links[k]));
        assert(f.contains(links[k]));
        let j = choose|j: int| 0 <= j < f.len() && f[j] == links[k];
        assert(linked(f)[j] == artifact_id);
    }
}

/// An artifact is joined to a bundle by one link, however often it is added, and nothing else
/// changes.
pub proof fn law_links_over_rows(s: StoreView, bundle_id: i64, artifact_id: i64)
    ensures
        ({
            let n = with_link(s, bundle_id, artifact_id);
            let links = s.bundle_artifacts;
            let there = exists|k: int|
                0 <= k < links.len() && (#[trigger] links[k]).bundle_id == bundle_id
                    && links[k].artifact_id == artifact_id;
            &&& there ==> n == s
            &&& !there ==> n == (StoreView { bundle_artifacts: n.bundle_artifacts, ..s })
                && n.bundle_artifacts == links.push(BundleLinkView { bundle_id, artifact_id })
        }),
{
    let links = s.bundle_artifacts;
    assert(any(links, link_is(bundle_id, artifact_id)) <==> exists|k: int|
        0 <= k < links.len() && (#[trigger] links[k]).bundle_id == bundle_id
            && links[k].artifact_id == artifact_id);
}

/// A bundle that is moved has the status; the time is noted where that is `published`, and no other
/// column and no other bundle changes.
pub proof fn law_status_of_a_bundle(
    rows: Seq<ArtifactBundleView>,
    bundle_id: i64,
    status: Seq<char>,
    now: Seq<char>,
    i: int,
)
    requires
        0 <= i < rows.len(),
    ensures
        updated(rows, bundle_is(bundle_id), in_status(status, now))[i] == if rows[i].id
            != bundle_id {
            rows[i]
        } else if status == "published"@ {
            ArtifactBundleView { status, published_at: Some(now), ..rows[i] }
        } else {
            ArtifactBundleView { status, ..rows[i] }
        },
{
}

/// A list in ascending order holds the given numbers and no other.
pub proof fn law_ascending_numbers(out: Seq<i64>, numbers: Seq<i64>, i: int, j: int)
    requires
        ascends(out, numbers),
        0 <= i < j < out.len(),
    ensures
        out.len() == numbers.len(),
        numbers.contains(out[i]),
        out[i] <= out[j],
{
    broadcast use vstd::seq_lib::group_to_multiset_ensures;

    assert(out.to_multiset().len() == out.len());
    assert(numbers.to_multiset().len() == numbers.len());
    assert(out.contains(out[i]));
    assert(numbers.to_multiset().count(out[i]) > 0);
}

} // verus!
