//! Human approval of critical operations.

use crate::sorting::{by_text, lemma_by_text, less, sort_rows, sorts};
use crate::store::{sound, Store, StoreError, StoreView};
use crate::table::{
    any, appended, find_where, first, full, lemma_count_any, lemma_updated_keyed, select_where,
    update_where, updated, views, Duplicate, Row, TableView,
};
use crate::text::{copy_opt, opt_text, same};
use vstd::prelude::*;

verus! {

/// A request for human approval.
#[derive(Debug, Clone)]
pub struct ApprovalRequest {
    pub id: i64,
    pub plan_id: i64,
    pub task_id: Option<i64>,
    pub approval_type: String,
    pub requester: String,
    pub reason: String,
    pub status: String,
    pub reviewer: Option<String>,
    pub review_comment: Option<String>,
    pub reviewed_at: Option<String>,
    pub created_at: String,
}

/// What a [`ApprovalRequest`] holds.
pub struct ApprovalRequestView {
    pub id: i64,
    pub plan_id: i64,
    pub task_id: Option<i64>,
    pub approval_type: Seq<char>,
    pub requester: Seq<char>,
    pub reason: Seq<char>,
    pub status: Seq<char>,
    pub reviewer: Option<Seq<char>>,
    pub review_comment: Option<Seq<char>>,
    pub reviewed_at: Option<Seq<char>>,
    pub created_at: Seq<char>,
}

impl View for ApprovalRequest {
    type V = ApprovalRequestView;

    open spec fn view(&self) -> ApprovalRequestView {
        ApprovalRequestView {
            id: self.id,
            plan_id: self.plan_id,
            task_id: self.task_id,
            approval_type: self.approval_type@,
            requester: self.requester@,
            reason: self.reason@,
            status: self.status@,
            reviewer: opt_text(self.reviewer),
            review_comment: opt_text(self.review_comment),
            reviewed_at: opt_text(self.reviewed_at),
            created_at: self.created_at@,
        }
    }
}

impl Duplicate for ApprovalRequest {
    fn duplicate(&self) -> (r: Self) {
        ApprovalRequest {
            id: self.id,
            plan_id: self.plan_id,
            task_id: self.task_id,
            approval_type: self.approval_type.clone(),
            requester: self.requester.clone(),
            reason: self.reason.clone(),
            status: self.status.clone(),
            reviewer: copy_opt(&self.reviewer),
            review_comment: copy_opt(&self.review_comment),
            reviewed_at: copy_opt(&self.reviewed_at),
            created_at: self.created_at.clone(),
        }
    }
}

impl Row for ApprovalRequest {
    open spec fn key(v: ApprovalRequestView) -> i64 {
        v.id
    }

    fn id(&self) -> (r: i64) {
        self.id
    }
}

/// The row that an insert with no values gives.
pub open spec fn blank_approval_request() -> ApprovalRequestView {
    ApprovalRequestView {
        id: 0i64,
        plan_id: 0i64,
        task_id: None::<i64>,
        approval_type: Seq::<char>::empty(),
        requester: Seq::<char>::empty(),
        reason: Seq::<char>::empty(),
        status: "pending"@,
        reviewer: None::<Seq<char>>,
        review_comment: None::<Seq<char>>,
        reviewed_at: None::<Seq<char>>,
        created_at: Seq::<char>::empty(),
    }
}

impl Default for ApprovalRequest {
    fn default() -> (r: Self)
        ensures
            r@ == blank_approval_request(),
    {
        ApprovalRequest {
            id: 0,
            plan_id: 0,
            task_id: None,
            approval_type: String::new(),
            requester: String::new(),
            reason: String::new(),
            status: "pending".to_owned(),
            reviewer: None,
            review_comment: None,
            reviewed_at: None,
            created_at: String::new(),
        }
    }
}

/// The request with the given id.
pub open spec fn approval_is(id: i64) -> spec_fn(ApprovalRequestView) -> bool {
    |a: ApprovalRequestView| a.id == id
}

/// The request with the given id while it is pending.
pub open spec fn open_approval(id: i64) -> spec_fn(ApprovalRequestView) -> bool {
    |a: ApprovalRequestView| a.id == id && a.status == "pending"@
}

/// The pending requests.
pub open spec fn pending_approval() -> spec_fn(ApprovalRequestView) -> bool {
    |a: ApprovalRequestView| a.status == "pending"@
}

/// A request that has just been made.
pub open spec fn new_approval(
    id: i64,
    plan_id: i64,
    task_id: Option<i64>,
    approval_type: Seq<char>,
    requester: Seq<char>,
    reason: Seq<char>,
    now: Seq<char>,
) -> ApprovalRequestView {
    ApprovalRequestView {
        id,
        plan_id,
        task_id,
        approval_type,
        requester,
        reason,
        status: "pending"@,
        reviewer: None,
        review_comment: None,
        reviewed_at: None,
        created_at: now,
    }
}

/// Makes a request for approval, and gives its id.
pub fn create_approval(
    db: &mut Store,
    plan_id: i64,
    task_id: Option<i64>,
    approval_type: &str,
    requester: &str,
    reason: &str,
    now: &str,
) -> (r: Result<i64, StoreError>)
    ensures
        full(old(db)@.approval_requests) ==> r == Err::<i64, StoreError>(StoreError::Full) && final(
            db)@ == old(db)@,
        !full(old(db)@.approval_requests) ==> {
            let id = (old(db)@.approval_requests.last_id + 1) as i64;
            &&& r == Ok::<i64, StoreError>(id)
            &&& final(db)@ == (StoreView {
                approval_requests: appended(
                    old(db)@.approval_requests,
                    new_approval(
                        id,
                        plan_id,
                        task_id,
                        approval_type@,
                        requester@,
                        reason@,
                        now@,
                    ),
                ),
                ..old(db)@
            })
        },
        sound(old(db)@) ==> sound(final(db)@),
{
    if db.approval_requests.last_id == i64::MAX {
        return Err(StoreError::Full);
    }
    let id: i64 = db.approval_requests.last_id + 1;
    db.approval_requests.append(
        ApprovalRequest {
            id,
            plan_id,
            task_id,
            approval_type: approval_type.to_owned(),
            requester: requester.to_owned(),
            reason: reason.to_owned(),
            status: "pending".to_owned(),
            reviewer: None,
            review_comment: None,
            reviewed_at: None,
            created_at: now.to_owned(),
        },
    );
    Ok(id)
}

/// A request that has been decided on.
pub open spec fn decided(
    status: Seq<char>,
    reviewer: Seq<char>,
    comment: Option<Seq<char>>,
    now: Seq<char>,
) -> spec_fn(ApprovalRequestView) -> ApprovalRequestView {
    |a: ApprovalRequestView|
        ApprovalRequestView {
            status,
            reviewer: Some(reviewer),
            review_comment: match comment {
                Some(c) => Some(c),
                None => a.review_comment,
            },
            reviewed_at: Some(now),
            ..a
        }
}

/// The store after a decision on a request. Only a pending request can be decided on.
pub open spec fn after_decision(
    s: StoreView,
    id: i64,
    status: Seq<char>,
    reviewer: Seq<char>,
    comment: Option<Seq<char>>,
    now: Seq<char>,
) -> StoreView {
    StoreView {
        approval_requests: TableView {
            rows: updated(
                s.approval_requests.rows,
                open_approval(id),
                decided(status, reviewer, comment, now),
            ),
            last_id: s.approval_requests.last_id,
        },
        ..s
    }
}

/// Whether a decision on a request is accepted.
pub open spec fn decision_answer(s: StoreView, id: i64) -> Result<(), StoreError> {
    if any(s.approval_requests.rows, open_approval(id)) {
        Ok(())
    } else {
        Err(StoreError::NoRows)
    }
}

fn decide(
    db: &mut Store,
    id: i64,
    status: &str,
    reviewer: &str,
    comment: Option<&str>,
    now: &str,
) -> (r: Result<(), StoreError>)
    ensures
        r == decision_answer(old(db)@, id),
        final(db)@ == after_decision(
            old(db)@,
            id,
            status@,
            reviewer@,
            crate::text::opt_str(comment),
            now@,
        ),
        sound(old(db)@) ==> sound(final(db)@),
{
    let ghost g = decided(status@, reviewer@, crate::text::opt_str(comment), now@);
    proof {
        if sound(db@) {
            lemma_updated_keyed::<ApprovalRequest>(db@.approval_requests, open_approval(id), g);
        }
        lemma_count_any(db@.approval_requests.rows, open_approval(id));
    }
    let n: usize = update_where(
        &mut db.approval_requests.rows,
        |a: &ApprovalRequest| -> (b: bool) ensures b == open_approval(id)(a@) {
            a.id == id && same(a.status.as_str(), "pending")
        },
        |a: &ApprovalRequest| -> (m: ApprovalRequest)
            ensures m@ == decided(status@, reviewer@, crate::text::opt_str(comment), now@)(a@)
        {
            ApprovalRequest {
                status: status.to_owned(),
                reviewer: Some(reviewer.to_owned()),
                review_comment: match comment {
                    Some(c) => Some(c.to_owned()),
                    None => copy_opt(&a.review_comment),
                },
                reviewed_at: Some(now.to_owned()),
                ..a.duplicate()
            }
        },
        Ghost(open_approval(id)),
        Ghost(g),
    );
    if n == 0 {
        Err(StoreError::NoRows)
    } else {
        Ok(())
    }
}

/// Approves a pending request.
pub fn approve(db: &mut Store, id: i64, reviewer: &str, now: &str) -> (r: Result<(), StoreError>)
    ensures
        r == decision_answer(old(db)@, id),
        final(db)@ == after_decision(old(db)@, id, "approved"@, reviewer@, None, now@),
        sound(old(db)@) ==> sound(final(db)@),
{
    decide(db, id, "approved", reviewer, None, now)
}

/// Rejects a pending request.
pub fn reject(db: &mut Store, id: i64, reviewer: &str, comment: &str, now: &str) -> (r: Result<
    (),
    StoreError,
>)
    ensures
        r == decision_answer(old(db)@, id),
        final(db)@ == after_decision(old(db)@, id, "rejected"@, reviewer@, Some(comment@), now@),
        sound(old(db)@) ==> sound(final(db)@),
{
    decide(db, id, "rejected", reviewer, Some(comment), now)
}

/// The pending requests, the oldest first.
pub fn list_pending(db: &Store) -> (r: Vec<ApprovalRequest>)
    ensures
        sorts(
            views(r@),
            db@.approval_requests.rows.filter(pending_approval()),
            by_text(requested_at(), false),
        ),
{
    let rows = select_where(
        &db.approval_requests.rows,
        |a: &ApprovalRequest| -> (b: bool) ensures b == pending_approval()(a@) {
            same(a.status.as_str(), "pending")
        },
        Ghost(pending_approval()),
    );
    proof {
        lemma_by_text(requested_at(), false);
    }
    sort_rows(
        &rows,
        |a: &ApprovalRequest, b: &ApprovalRequest| -> (r: bool) ensures r == by_text(requested_at(), false)(a@, b@) {
            less(a.created_at.as_str(), b.created_at.as_str())
        },
        Ghost(by_text(requested_at(), false)),
    )
}

/// When a request was made.
pub open spec fn requested_at() -> spec_fn(ApprovalRequestView) -> Seq<char> {
    |a: ApprovalRequestView| a.created_at
}

/// The request with the given id.
pub fn get_approval(db: &Store, id: i64) -> (r: Option<ApprovalRequest>)
    ensures
        match first(db@.approval_requests.rows, approval_is(id)) {
            Some(a) => r is Some && r->0@ == a,
            None => r is None,
        },
{
    let found = find_where(
        &db.approval_requests.rows,
        |a: &ApprovalRequest| -> (b: bool) ensures b == approval_is(id)(a@) { a.id == id },
        Ghost(approval_is(id)),
    );
    match found {
        Some(k) => Some(db.approval_requests.rows[k].duplicate()),
        None => None,
    }
}

/// What a threshold says of a value, as far as the decision needs it.
#[derive(Debug, Clone, Copy, PartialEq, Eq, Structural)]
pub struct ThresholdRule {
    /// Whether approval can be needed at all.
    pub require_approval: bool,
    /// Whether the value is below the floor under which approval is automatic.
    pub below_floor: bool,
}

/// Whether a value needs human approval: there is a threshold for it, the threshold asks for
/// approval, and the value is not below the floor.
pub fn needs_approval(rule: Option<ThresholdRule>) -> (r: bool)
    ensures
        r == (match rule {
            Some(t) => t.require_approval && !t.below_floor,
            None => false,
        }),
{
    match rule {
        Some(t) => if !t.require_approval {
            false
        } else if t.below_floor {
            false
        } else {
            true
        },
        None => false,
    }
}

/// A request that was made is found under its id.
pub proof fn law_request_is_read(s: StoreView, a: ApprovalRequestView)
    requires
        sound(s),
        !full(s.approval_requests),
        a.id == s.approval_requests.last_id + 1,
    ensures
        first(appended(s.approval_requests, a).rows, approval_is(a.id)) == Some(a),
{
    let rows = appended(s.approval_requests, a).rows;
    assert forall|i: int| 0 <= i < rows.len() - 1 implies !approval_is(a.id)(
        #[trigger] rows[i],
    ) by {
        assert(rows[i] == s.approval_requests.rows[i]);
        assert(ApprovalRequest::key(s.approval_requests.rows[i]) <= s.approval_requests.last_id);
    }
    crate::table::lemma_first_at(rows, approval_is(a.id), rows.len() - 1);
}

/// A request is decided on at most once: after any decision, every further one is refused and
/// changes nothing.
pub proof fn law_decided_once(
    s: StoreView,
    id: i64,
    status: Seq<char>,
    reviewer: Seq<char>,
    comment: Option<Seq<char>>,
    now: Seq<char>,
    status2: Seq<char>,
    reviewer2: Seq<char>,
    comment2: Option<Seq<char>>,
    now2: Seq<char>,
)
    requires
        status == "approved"@ || status == "rejected"@,
    ensures
        ({
            let once = after_decision(s, id, status, reviewer, comment, now);
            &&& decision_answer(once, id) is Err
            &&& after_decision(once, id, status2, reviewer2, comment2, now2) == once
        }),
{
    reveal_strlit("approved");
    reveal_strlit("rejected");
    reveal_strlit("pending");
    assert("approved"@.len() == 8 && "rejected"@.len() == 8 && "pending"@.len() == 7);
    let once = after_decision(s, id, status, reviewer, comment, now);
    let rows = once.approval_requests.rows;
    assert forall|i: int| 0 <= i < rows.len() implies !open_approval(id)(#[trigger] rows[i]) by {
        let o = s.approval_requests.rows[i];
        if open_approval(id)(o) {
            assert(rows[i] == decided(status, reviewer, comment, now)(o));
        } else {
            assert(rows[i] == o);
        }
    }
    assert(updated(rows, open_approval(id), decided(status2, reviewer2, comment2, now2)) =~= rows);
}

/// An accepted decision is what is read afterwards.
pub proof fn law_decision_is_read(
    s: StoreView,
    id: i64,
    status: Seq<char>,
    reviewer: Seq<char>,
    comment: Option<Seq<char>>,
    now: Seq<char>,
)
    requires
        first(s.approval_requests.rows, approval_is(id)) matches Some(a) && a.status == "pending"@,
    ensures
        first(
            after_decision(s, id, status, reviewer, comment, now).approval_requests.rows,
            approval_is(id),
        ) matches Some(a) && a.status == status && a.reviewer == Some(reviewer) && a.reviewed_at
            == Some(now) && (comment is Some ==> a.review_comment == comment),
{
    let rows = s.approval_requests.rows;
    let n = after_decision(s, id, status, reviewer, comment, now).approval_requests.rows;
    lemma_first_is(rows, n, id, decided(status, reviewer, comment, now));
}

/// The first request with an id stays the first, and is decided on where it was pending.
proof fn lemma_first_is(
    rows: Seq<ApprovalRequestView>,
    n: Seq<ApprovalRequestView>,
    id: i64,
    g: spec_fn(ApprovalRequestView) -> ApprovalRequestView,
)
    requires
        n == updated(rows, open_approval(id), g),
        forall|a: ApprovalRequestView| (#[trigger] g(a)).id == a.id,
        first(rows, approval_is(id)) matches Some(a) && a.status == "pending"@,
    ensures
        first(n, approval_is(id)) == Some(g(first(rows, approval_is(id))->0)),
    decreases rows.len(),
{
    if rows.len() > 0 {
        if approval_is(id)(rows[0]) {
            assert(n[0] == g(rows[0]));
        } else {
            assert(n[0] == rows[0]);
            assert(n.skip(1) =~= updated(rows.skip(1), open_approval(id), g));
            lemma_first_is(rows.skip(1), n.skip(1), id, g);
        }
    }
}

/// A decision, over the rows: it is accepted exactly where a request with the number is pending.
/// That request takes the status, the one who decided and the time, and the comment where there is
/// one; every other request stays as it is.
pub proof fn law_decision_over_rows(
    s: StoreView,
    id: i64,
    status: Seq<char>,
    reviewer: Seq<char>,
    comment: Option<Seq<char>>,
    now: Seq<char>,
    i: int,
)
    requires
        sound(s),
        0 <= i < s.approval_requests.rows.len(),
    ensures
        ({
            let a = s.approval_requests.rows[i];
            let n = after_decision(s, id, status, reviewer, comment, now);
            &&& decision_answer(s, a.id) is Ok <==> a.status == "pending"@
            &&& n == (StoreView { approval_requests: n.approval_requests, ..s })
            &&& n.approval_requests.last_id == s.approval_requests.last_id
            &&& n.approval_requests.rows.len() == s.approval_requests.rows.len()
            &&& n.approval_requests.rows[i] == if a.id == id && a.status == "pending"@ {
                ApprovalRequestView {
                    status,
                    reviewer: Some(reviewer),
                    review_comment: if comment is Some {
                        comment
                    } else {
                        a.review_comment
                    },
                    reviewed_at: Some(now),
                    ..a
                }
            } else {
                a
            }
            &&& s.approval_requests.rows.filter(pending_approval()).contains(a) <==> a.status
                == "pending"@
        }),
{
    let rows = s.approval_requests.rows;
    let a = rows[i];
    crate::table::lemma_kept_at(rows, pending_approval(), i);
    if any(rows, open_approval(a.id)) {
        let j = choose|j: int| 0 <= j < rows.len() && open_approval(a.id)(#[trigger] rows[j]);
        assert(ApprovalRequest::key(rows[j]) == ApprovalRequest::key(rows[i]));
        assert(i == j);
    }
    if a.status == "pending"@ {
        assert(open_approval(a.id)(rows[i]));
    }
}

/// A new request holds what was asked for and by whom, and waits for a decision; by their time of
/// creation requests are listed.
pub proof fn law_new_request(
    id: i64,
    plan_id: i64,
    task_id: Option<i64>,
    approval_type: Seq<char>,
    requester: Seq<char>,
    reason: Seq<char>,
    now: Seq<char>,
)
    ensures
        ({
            let a = new_approval(id, plan_id, task_id, approval_type, requester, reason, now);
            &&& a.id == id && a.plan_id == plan_id && a.task_id == task_id
            &&& a.approval_type == approval_type && a.requester == requester && a.reason == reason
            &&& a.status == "pending"@ && a.created_at == now
            &&& a.reviewer is None && a.review_comment is None && a.reviewed_at is None
            &&& requested_at()(a) == now
        }),
{
}

} // verus!
