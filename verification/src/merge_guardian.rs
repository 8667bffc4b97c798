//! Merge guardian: pull requests that change the same files are kept apart.

use crate::file_conflict_gate::{shared, shared_files};
use crate::json::{
    json_array_text, listed, member_views, object_views, objects_text, parse_json_array, texts_member,
    write_objects, write_string_array, Member, MemberView,
};
use crate::rows::{MergeRow, MergeRowView};
use crate::sorting::{by_text, keep_first, lemma_by_text, less, sort_rows, sorts, sorts_first};
use crate::store::{sound, Store, StoreView};
use crate::table::{
    any, any_where, lemma_count_any, lemma_count_step, select_where, update_where, updated, views,
    Duplicate,
};
use crate::text::{same, texts};
use vstd::prelude::*;

verus! {

/// Another merge request that changes some of the same files.
#[derive(Debug, Clone)]
pub struct Overlap {
    pub pr_number: i64,
    pub branch: String,
    pub shared_files: Vec<String>,
}

/// What an [`Overlap`] holds.
pub struct OverlapView {
    pub pr_number: i64,
    pub branch: Seq<char>,
    pub shared_files: Seq<Seq<char>>,
}

impl View for Overlap {
    type V = OverlapView;

    open spec fn view(&self) -> OverlapView {
        OverlapView {
            pr_number: self.pr_number,
            branch: self.branch@,
            shared_files: texts(self.shared_files@),
        }
    }
}

/// The files that a merge request changes.
#[derive(Debug, Clone)]
pub struct OpenRequest {
    pub pr_number: i64,
    pub branch: String,
    pub files: Vec<String>,
}

/// What an [`OpenRequest`] holds.
pub struct OpenRequestView {
    pub pr_number: i64,
    pub branch: Seq<char>,
    pub files: Seq<Seq<char>>,
}

impl View for OpenRequest {
    type V = OpenRequestView;

    open spec fn view(&self) -> OpenRequestView {
        OpenRequestView {
            pr_number: self.pr_number,
            branch: self.branch@,
            files: texts(self.files@),
        }
    }
}

/// The other open merge requests.
pub open spec fn open_beside(pr_number: i64) -> spec_fn(MergeRowView) -> bool {
    |m: MergeRowView| m.pr_number != pr_number && m.status == "open"@
}

/// The files that the other open merge requests change.
pub open spec fn open_requests(s: StoreView, pr_number: i64) -> Seq<OpenRequestView> {
    s.merge_queue.filter(open_beside(pr_number)).map_values(
        |m: MergeRowView|
            OpenRequestView {
                pr_number: m.pr_number,
                branch: m.branch,
                files: listed(m.files_json),
            },
    )
}

/// What a request has in common with given files.
pub open spec fn in_common(files: Seq<Seq<char>>) -> spec_fn(OpenRequestView) -> OverlapView {
    |r: OpenRequestView|
        OverlapView {
            pr_number: r.pr_number,
            branch: r.branch,
            shared_files: shared(files, r.files),
        }
}

/// Whether anything is in common.
pub open spec fn overlaps() -> spec_fn(OverlapView) -> bool {
    |o: OverlapView| o.shared_files.len() > 0
}

/// The requests that have files in common with the given ones.
pub open spec fn overlaps_with(files: Seq<Seq<char>>, requests: Seq<OpenRequestView>) -> Seq<
    OverlapView,
> {
    requests.map_values(in_common(files)).filter(overlaps())
}

/// The requests that have files in common with the given ones.
pub fn overlaps_among(files: &Vec<String>, requests: &Vec<OpenRequest>) -> (r: Vec<Overlap>)
    ensures
        views(r@) == overlaps_with(texts(files@), views(requests@)),
{
    let ghost mapped = views(requests@).map_values(in_common(texts(files@)));
    let mut out: Vec<Overlap> = Vec::new();
    let mut i: usize = 0;
    assert(views(out@) =~= mapped.take(0).filter(overlaps())) by {
        reveal(Seq::filter);
    }
    while i < requests.len()
        invariant
            i <= requests@.len(),
            mapped == views(requests@).map_values(in_common(texts(files@))),
            views(out@) == mapped.take(i as int).filter(overlaps()),
        decreases requests@.len() - i,
    {
        proof {
            lemma_count_step(mapped, overlaps(), i as int);
        }
        let common = shared_files(files, &requests[i].files);
        assert(mapped[i as int].shared_files == texts(common@));
        assert(texts(common@).len() == common@.len());
        if common.len() > 0 {
            let ghost before = views(out@);
            let o = Overlap {
                pr_number: requests[i].pr_number,
                branch: requests[i].branch.clone(),
                shared_files: common,
            };
            out.push(o);
            assert(o@ == mapped[i as int]);
            assert(views(out@) =~= before.push(mapped[i as int]));
        }
        i += 1;
    }
    assert(mapped.take(i as int) =~= mapped);
    out
}

/// The files that the other open merge requests change.
fn get_open_requests(db: &Store, pr_number: i64) -> (r: Vec<OpenRequest>)
    ensures
        views(r@) == open_requests(db@, pr_number),
{
    let rows = select_where(
        &db.merge_queue,
        |m: &MergeRow| -> (b: bool) ensures b == open_beside(pr_number)(m@) {
            m.pr_number != pr_number && same(m.status.as_str(), "open")
        },
        Ghost(open_beside(pr_number)),
    );
    let mut out: Vec<OpenRequest> = Vec::new();
    let mut i: usize = 0;
    while i < rows.len()
        invariant
            i <= rows@.len(),
            out@.len() == i,
            forall|k: int|
                0 <= k < i ==> (#[trigger] out@[k])@ == (OpenRequestView {
                    pr_number: rows@[k]@.pr_number,
                    branch: rows@[k]@.branch,
                    files: listed(rows@[k]@.files_json),
                }),
        decreases rows@.len() - i,
    {
        let q = OpenRequest {
            pr_number: rows[i].pr_number,
            branch: rows[i].branch.clone(),
            files: parse_json_array(rows[i].files_json.as_str()),
        };
        out.push(q);
        i += 1;
    }
    assert(views(out@) =~= open_requests(db@, pr_number));
    out
}

/// The open merge requests that change some of the given files, but for the one with the given
/// number.
pub fn find_overlaps(db: &Store, pr_number: i64, files: &Vec<String>) -> (r: Vec<Overlap>)
    ensures
        views(r@) == overlaps_with(texts(files@), open_requests(db@, pr_number)),
{
    let requests = get_open_requests(db, pr_number);
    overlaps_among(files, &requests)
}

/// The members of an overlap, by their names.
pub open spec fn overlap_members(o: OverlapView) -> Seq<(Seq<char>, MemberView)> {
    seq![
        ("pr_number"@, MemberView::Number(o.pr_number as int)),
        ("branch"@, MemberView::Text(o.branch)),
        ("shared_files"@, MemberView::Texts(o.shared_files)),
    ]
}

/// The text of a list of overlaps.
pub open spec fn overlaps_text(list: Seq<OverlapView>) -> Seq<char> {
    objects_text(list.map_values(|o: OverlapView| overlap_members(o)))
}

/// The members of an overlap, by their names.
fn members_of(o: &Overlap) -> (r: Vec<(String, Member)>)
    ensures
        member_views(r@) == overlap_members(o@),
{
    let mut out: Vec<(String, Member)> = Vec::new();
    out.push(("pr_number".to_owned(), Member::Number(o.pr_number)));
    out.push(("branch".to_owned(), Member::Text(o.branch.clone())));
    out.push(("shared_files".to_owned(), texts_member(&o.shared_files)));
    assert(member_views(out@) =~= overlap_members(o@));
    out
}

/// The text of a list of overlaps.
fn write_overlaps(list: &Vec<Overlap>) -> (r: String)
    ensures
        r@ == overlaps_text(views(list@)),
{
    let mut objects: Vec<Vec<(String, Member)>> = Vec::new();
    let mut i: usize = 0;
    while i < list.len()
        invariant
            i <= list@.len(),
            objects@.len() == i,
            forall|k: int|
                0 <= k < i ==> member_views((#[trigger] objects@[k])@) == overlap_members(list@[k]@),
        decreases list@.len() - i,
    {
        let members = members_of(&list[i]);
        objects.push(members);
        i += 1;
    }
    assert(object_views(objects@) =~= views(list@).map_values(
        |o: OverlapView| overlap_members(o),
    ));
    write_objects(objects)
}

/// The decision on a merge request.
pub struct MergeDecision {
    pub pr_number: i64,
    /// `allow` or `block`.
    pub decision: &'static str,
    pub overlapping_files: Vec<Overlap>,
}

/// What is decided on a request with given overlaps.
pub open spec fn verdict(found: Seq<OverlapView>) -> Seq<char> {
    if found.len() == 0 {
        "allow"@
    } else {
        "block"@
    }
}

/// The request with the given number.
pub open spec fn request_is(pr_number: i64) -> spec_fn(MergeRowView) -> bool {
    |m: MergeRowView| m.pr_number == pr_number
}

/// A request that is made again.
pub open spec fn requested_again(
    branch: Seq<char>,
    files: Seq<char>,
    decision: Seq<char>,
    overlaps: Seq<char>,
    now: Seq<char>,
) -> spec_fn(MergeRowView) -> MergeRowView {
    |m: MergeRowView|
        MergeRowView {
            branch,
            files_json: files,
            decision,
            overlaps_json: Some(overlaps),
            updated_at: now,
            ..m
        }
}

/// The queue with a request: a new one is put at its end, one that is there is brought up to
/// date.
pub open spec fn with_request(
    queue: Seq<MergeRowView>,
    pr_number: i64,
    branch: Seq<char>,
    files: Seq<char>,
    decision: Seq<char>,
    overlaps: Seq<char>,
    now: Seq<char>,
) -> Seq<MergeRowView> {
    if any(queue, request_is(pr_number)) {
        updated(
            queue,
            request_is(pr_number),
            requested_again(branch, files, decision, overlaps, now),
        )
    } else {
        queue.push(
            MergeRowView {
                pr_number,
                branch,
                files_json: files,
                decision,
                overlaps_json: Some(overlaps),
                status: "open"@,
                created_at: now,
                updated_at: now,
            },
        )
    }
}

/// Takes a merge request into the queue, and decides on it: it is blocked where another open
/// request changes some of the same files.
pub fn merge_request(
    db: &mut Store,
    pr_number: i64,
    branch: &str,
    files_changed: &Vec<String>,
    now: &str,
) -> (r: MergeDecision)
    ensures
        ({
            let found = overlaps_with(texts(files_changed@), open_requests(old(db)@, pr_number));
            &&& r.pr_number == pr_number
            &&& views(r.overlapping_files@) == found
            &&& r.decision@ == verdict(found)
            &&& final(db)@ == (StoreView {
                merge_queue: with_request(
                    old(db)@.merge_queue,
                    pr_number,
                    branch@,
                    json_array_text(texts(files_changed@)),
                    verdict(found),
                    overlaps_text(found),
                    now@,
                ),
                ..old(db)@
            })
        }),
        sound(old(db)@) ==> sound(final(db)@),
{
    let found = find_overlaps(db, pr_number, files_changed);
    assert(views(found@).len() == found@.len());
    let decision: &'static str = if found.len() == 0 {
        "allow"
    } else {
        "block"
    };
    let files = write_string_array(files_changed);
    let common = write_overlaps(&found);
    let known = any_where(
        &db.merge_queue,
        |m: &MergeRow| -> (b: bool) ensures b == request_is(pr_number)(m@) {
            m.pr_number == pr_number
        },
        Ghost(request_is(pr_number)),
    );
    if known {
        update_where(
            &mut db.merge_queue,
            |m: &MergeRow| -> (b: bool) ensures b == request_is(pr_number)(m@) {
                m.pr_number == pr_number
            },
            |m: &MergeRow| -> (n: MergeRow)
                ensures n@ == requested_again(branch@, files@, decision@, common@, now@)(m@)
            {
                MergeRow {
                    branch: branch.to_owned(),
                    files_json: files.clone(),
                    decision: decision.to_owned(),
                    overlaps_json: Some(common.clone()),
                    updated_at: now.to_owned(),
                    ..m.duplicate()
                }
            },
            Ghost(request_is(pr_number)),
            Ghost(requested_again(branch@, files@, decision@, common@, now@)),
        );
    } else {
        let ghost before = db@.merge_queue;
        let row = MergeRow {
            pr_number,
            branch: branch.to_owned(),
            files_json: files,
            decision: decision.to_owned(),
            overlaps_json: Some(common),
            status: "open".to_owned(),
            created_at: now.to_owned(),
            updated_at: now.to_owned(),
        };
        db.merge_queue.push(row);
        assert(db@.merge_queue =~= before.push(row@));
    }
    MergeDecision { pr_number, decision, overlapping_files: found }
}

/// When a request was made.
pub open spec fn queued_at() -> spec_fn(MergeRowView) -> Seq<char> {
    |m: MergeRowView| m.created_at
}

/// The requests in the queue, the latest first, at most fifty.
pub fn list_queue(db: &Store) -> (r: Vec<MergeRow>)
    ensures
        sorts_first(views(r@), db@.merge_queue, by_text(queued_at(), true), 50),
{
    proof {
        lemma_by_text(queued_at(), true);
    }
    let mut sorted = sort_rows(
        &db.merge_queue,
        |a: &MergeRow, b: &MergeRow| -> (r: bool) ensures r == by_text(queued_at(), true)(a@, b@) {
            less(b.created_at.as_str(), a.created_at.as_str())
        },
        Ghost(by_text(queued_at(), true)),
    );
    assert(sorts(views(sorted@), db@.merge_queue, by_text(queued_at(), true)));
    keep_first(&mut sorted, 50);
    sorted
}

/// A request is blocked exactly where another open request changes one of its files.
pub proof fn law_blocked_by_overlap(files: Seq<Seq<char>>, requests: Seq<OpenRequestView>)
    ensures
        verdict(overlaps_with(files, requests)) == "block"@ <==> exists|i: int, j: int|
            0 <= i < requests.len() && 0 <= j < files.len() && (
            #[trigger] requests[i]).files.contains(#[trigger] files[j]),
{
    reveal_strlit("allow");
    reveal_strlit("block");
    assert("allow"@[0] == 'a' && "block"@[0] == 'b');
    let mapped = requests.map_values(in_common(files));
    lemma_count_any(mapped, overlaps());
    if any(mapped, overlaps()) {
        let i = choose|i: int| 0 <= i < mapped.len() && overlaps()(#[trigger] mapped[i]);
        let p = crate::file_conflict_gate::also_in(requests[i].files);
        let f = files.filter(p);
        assert(mapped[i].shared_files == f);
        assert(f.contains(f[0]));
        files.lemma_filter_contains_rev(p, f[0]);
        files.lemma_filter_pred(p, 0);
        let j = choose|j: int| 0 <= j < files.len() && files[j] == f[0];
        assert(requests[i].files.contains(files[j]));
    }
    if exists|i: int, j: int|
        0 <= i < requests.len() && 0 <= j < files.len() && (
        #[trigger] requests[i]).files.contains(#[trigger] files[j]) {
        let (i, j) = choose|i: int, j: int|
            0 <= i < requests.len() && 0 <= j < files.len() && (
            #[trigger] requests[i]).files.contains(#[trigger] files[j]);
        let p = crate::file_conflict_gate::also_in(requests[i].files);
        files.lemma_filter_contains(p, j);
        assert(overlaps()(mapped[i]));
    }
}

/// What a request was recorded to change is what is read of it afterwards.
pub proof fn law_recorded_files_are_read(
    s: StoreView,
    pr_number: i64,
    branch: Seq<char>,
    files: Seq<Seq<char>>,
    text: Seq<char>,
    decision: Seq<char>,
    overlaps: Seq<char>,
    now: Seq<char>,
    other: i64,
)
    requires
        crate::json::json_string_array(text) == Some(files),
        !any(s.merge_queue, request_is(pr_number)),
        other != pr_number,
    ensures
        open_requests(
            StoreView {
                merge_queue: with_request(
                    s.merge_queue,
                    pr_number,
                    branch,
                    text,
                    decision,
                    overlaps,
                    now,
                ),
                ..s
            },
            other,
        ) == open_requests(s, other).push(OpenRequestView { pr_number, branch, files }),
{
    let n = with_request(s.merge_queue, pr_number, branch, text, decision, overlaps, now);
    assert(n.drop_last() =~= s.merge_queue);
    reveal(Seq::filter);
    let f = s.merge_queue.filter(open_beside(other));
    let g = |m: MergeRowView|
        OpenRequestView {
            pr_number: m.pr_number,
            branch: m.branch,
            files: listed(m.files_json),
        };
    assert(n.filter(open_beside(other)) == f.push(n.last()));
    assert(f.push(n.last()).map_values(g) =~= f.map_values(g).push(g(n.last())));
}

/// A merge request is blocked exactly where another request in the queue, which is open, was
/// recorded to change one of its files.
pub proof fn law_blocked_over_rows(s: StoreView, pr_number: i64, files: Seq<Seq<char>>)
    ensures
        ({
            let blocked = exists|k: int, j: int|
                0 <= k < s.merge_queue.len() && 0 <= j < files.len() && (
                #[trigger] s.merge_queue[k]).pr_number != pr_number && s.merge_queue[k].status
                    == "open"@ && listed(s.merge_queue[k].files_json).contains(
                    #[trigger] files[j],
                );
            &&& verdict(overlaps_with(files, open_requests(s, pr_number))) == if blocked {
                "block"@
            } else {
                "allow"@
            }
        }),
{
    let rows = s.merge_queue;
    let p = open_beside(pr_number);
    let f = rows.filter(p);
    let rs = open_requests(s, pr_number);
    reveal_strlit("allow");
    reveal_strlit("block");
    assert("allow"@[0] == 'a' && "block"@[0] == 'b');
    law_blocked_by_overlap(files, rs);
    crate::table::lemma_kept(rows, p);
    if exists|i: int, j: int|
        0 <= i < rs.len() && 0 <= j < files.len() && (#[trigger] rs[i]).files.contains(
            #[trigger] files[j],
        ) {
        let (i, j) = choose|i: int, j: int|
            0 <= i < rs.len() && 0 <= j < files.len() && (#[trigger] rs[i]).files.contains(
                #[trigger] files[j],
            );
        assert(p(f[i]) && rows.contains(f[i]));
        let k = choose|k: int| 0 <= k < rows.len() && rows[k] == f[i];
        assert(listed(rows[k].files_json).contains(files[j]));
    }
    if exists|k: int, j: int|
        0 <= k < rows.len() && 0 <= j < files.len() && (#[trigger] rows[k]).pr_number != pr_number
            && rows[k].status == "open"@ && listed(rows[k].files_json).contains(
            #[trigger] files[j],
        ) {
        let (k, j) = choose|k: int, j: int|
            0 <= k < rows.len() && 0 <= j < files.len() && (#[trigger] rows[k]).pr_number
                != pr_number && rows[k].status == "open"@ && listed(rows[k].files_json).contains(
                #[trigger] files[j],
            );
        assert(p(rows[k]));
        let i = choose|i: int| 0 <= i < f.len() && f[i] == rows[k];
        assert(rs[i].files.contains(files[j]));
    }
}

/// An overlap names the request, its branch and exactly the files in common.
pub proof fn law_overlap_names(files: Seq<Seq<char>>, r: OpenRequestView, file: Seq<char>)
    ensures
        ({
            let o = in_common(files)(r);
            &&& o.pr_number == r.pr_number && o.branch == r.branch
            &&& o.shared_files.contains(file) <==> files.contains(file) && r.files.contains(file)
            &&& overlaps()(o) <==> o.shared_files.len() > 0
        }),
{
    let q = crate::file_conflict_gate::also_in(r.files);
    let o = in_common(files)(r);
    crate::table::lemma_kept(files, q);
    if o.shared_files.contains(file) {
        let k = choose|k: int| 0 <= k < o.shared_files.len() && o.shared_files[k] == file;
        assert(q(files.filter(q)[k]));
    }
    if files.contains(file) && r.files.contains(file) {
        let j = choose|j: int| 0 <= j < files.len() && files[j] == file;
        assert(q(files[j]));
    }
}

/// A request in the queue is brought up to date in place, keeping its status and its time of
/// creation; a new one is put behind the others and is open. No other request changes.
pub proof fn law_queue_over_rows(
    queue: Seq<MergeRowView>,
    pr_number: i64,
    branch: Seq<char>,
    files: Seq<char>,
    decision: Seq<char>,
    overlaps: Seq<char>,
    now: Seq<char>,
    i: int,
)
    requires
        0 <= i < queue.len(),
    ensures
        ({
            let n = with_request(queue, pr_number, branch, files, decision, overlaps, now);
            let there = exists|k: int|
                0 <= k < queue.len() && (#[trigger] queue[k]).pr_number == pr_number;
            &&& n[i] == if queue[i].pr_number == pr_number {
                MergeRowView {
                    branch,
                    files_json: files,
                    decision,
                    overlaps_json: Some(overlaps),
                    updated_at: now,
                    ..queue[i]
                }
            } else {
                queue[i]
            }
            &&& there ==> n.len() == queue.len()
            &&& !there ==> {
                let r = n.last();
                &&& n.len() == queue.len() + 1
                &&& r.pr_number == pr_number && r.branch == branch && r.files_json == files
                    && r.decision == decision && r.overlaps_json == Some(overlaps)
                &&& r.status == "open"@ && r.created_at == now && r.updated_at == now
            }
        }),
        queued_at()(queue[i]) == queue[i].created_at,
{
    assert(any(queue, request_is(pr_number)) <==> exists|k: int|
        0 <= k < queue.len() && (#[trigger] queue[k]).pr_number == pr_number);
    if !any(queue, request_is(pr_number)) {
        assert(!request_is(pr_number)(queue[i]));
    }
}

/// An overlap is written down with its request, its branch and the files in common.
pub proof fn law_overlap_members(o: OverlapView)
    ensures
        overlaps_text(seq![o]) == "["@ + crate::json::json_object_text(
            seq![
                ("pr_number"@, MemberView::Number(o.pr_number as int)),
                ("branch"@, MemberView::Text(o.branch)),
                ("shared_files"@, MemberView::Texts(o.shared_files)),
            ],
        ) + "]"@,
        overlaps_text(Seq::empty()) == "[]"@,
{
    let f = |o: OverlapView| overlap_members(o);
    let g = |m: Seq<(Seq<char>, MemberView)>| crate::json::json_object_text(m);
    assert(seq![o].map_values(f) =~= seq![overlap_members(o)]);
    assert(seq![overlap_members(o)].map_values(g) =~= seq![
        crate::json::json_object_text(overlap_members(o)),
    ]);
    reveal_strlit("[");
    reveal_strlit("]");
    reveal_strlit("[]");
    let none = Seq::<OverlapView>::empty();
    assert(none.map_values(f).map_values(g) =~= Seq::empty());
    assert(overlaps_text(none) =~= "[]"@);
}

} // verus!
