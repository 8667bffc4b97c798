//! Advisory file locks, by which agents keep out of each other's way.

use crate::rows::{LockRow, LockRowView};
use crate::sorting::{sort_rows, sorts};
use crate::store::{sound, Store, StoreView};
use crate::table::{
    any, appended, find_where, first, full, lemma_count_any, lemma_filter_keyed, lemma_first_any,
    lemma_updated_keyed, remove_where, removed, update_where, updated, views, Duplicate, TableView,
};
use crate::text::same;
use vstd::prelude::*;

verus! {

/// Whether the time of a lock is over.
pub open spec fn expired(now: i64) -> spec_fn(LockRowView) -> bool {
    |l: LockRowView| l.acquired_at + l.ttl_secs < now
}

/// The store without the locks whose time is over.
pub open spec fn without_expired(s: StoreView, now: i64) -> StoreView {
    StoreView {
        advisory_locks: TableView {
            rows: removed(s.advisory_locks.rows, expired(now)),
            last_id: s.advisory_locks.last_id,
        },
        ..s
    }
}

/// Removes the locks whose time is over.
pub fn expire_locks_sync(db: &mut Store, now: i64)
    ensures
        final(db)@ == without_expired(old(db)@, now),
        sound(old(db)@) ==> sound(final(db)@),
{
    proof {
        if sound(db@) {
            lemma_filter_keyed::<LockRow>(
                db@.advisory_locks,
                |l: LockRowView| !expired(now)(l),
            );
        }
    }
    remove_where(
        &mut db.advisory_locks.rows,
        |l: &LockRow| -> (b: bool) ensures b == expired(now)(l@) {
            (l.acquired_at as i128) + (l.ttl_secs as i128) < now as i128
        },
        Ghost(expired(now)),
    );
}

/// The locks on a file.
pub open spec fn locks_on(file: Seq<char>) -> spec_fn(LockRowView) -> bool {
    |l: LockRowView| l.file_path == file
}

/// The locks of an agent on a file.
pub open spec fn lock_of(file: Seq<char>, agent: Seq<char>) -> spec_fn(LockRowView) -> bool {
    |l: LockRowView| l.file_path == file && l.agent_id == agent
}

/// A lock that is taken for a time from now.
pub open spec fn renewed(ttl: i64, now: i64) -> spec_fn(LockRowView) -> LockRowView {
    |l: LockRowView| LockRowView { ttl_secs: ttl, acquired_at: now, ..l }
}

/// The answer to a request for a lock.
pub enum LockAnswer {
    /// Another agent has it.
    Held { holder: String },
    /// The agent had it, and its time begins anew.
    Refreshed,
    /// The agent has it now.
    Acquired,
    /// No key is left for another lock.
    Failed,
}

/// What a [`LockAnswer`] says.
pub enum LockAnswerView {
    Held { holder: Seq<char> },
    Refreshed,
    Acquired,
    Failed,
}

impl View for LockAnswer {
    type V = LockAnswerView;

    open spec fn view(&self) -> LockAnswerView {
        match self {
            LockAnswer::Held { holder } => LockAnswerView::Held { holder: holder@ },
            LockAnswer::Refreshed => LockAnswerView::Refreshed,
            LockAnswer::Acquired => LockAnswerView::Acquired,
            LockAnswer::Failed => LockAnswerView::Failed,
        }
    }
}

/// How long a lock lasts where no time is named.
pub const DEFAULT_TTL_SECS: i64 = 3600;

/// How long a lock lasts.
pub open spec fn lock_time(ttl: Option<i64>) -> i64 {
    match ttl {
        Some(t) => t,
        None => DEFAULT_TTL_SECS,
    }
}

/// What a request for a lock is answered, once the locks whose time is over are gone.
pub open spec fn lock_answer(s: StoreView, file: Seq<char>, agent: Seq<char>) -> LockAnswerView {
    match first(s.advisory_locks.rows, locks_on(file)) {
        Some(l) => if l.agent_id != agent {
            LockAnswerView::Held { holder: l.agent_id }
        } else {
            LockAnswerView::Refreshed
        },
        None => if full(s.advisory_locks) {
            LockAnswerView::Failed
        } else {
            LockAnswerView::Acquired
        },
    }
}

/// The store after such a request.
pub open spec fn after_request(
    s: StoreView,
    file: Seq<char>,
    agent: Seq<char>,
    ttl: i64,
    now: i64,
) -> StoreView {
    match lock_answer(s, file, agent) {
        LockAnswerView::Refreshed => StoreView {
            advisory_locks: TableView {
                rows: updated(s.advisory_locks.rows, lock_of(file, agent), renewed(ttl, now)),
                last_id: s.advisory_locks.last_id,
            },
            ..s
        },
        LockAnswerView::Acquired => StoreView {
            advisory_locks: appended(
                s.advisory_locks,
                LockRowView {
                    id: (s.advisory_locks.last_id + 1) as i64,
                    file_path: file,
                    agent_id: agent,
                    acquired_at: now,
                    ttl_secs: ttl,
                },
            ),
            ..s
        },
        _ => s,
    }
}

/// Takes a lock on a file for an agent, or renews it, unless another agent has it.
pub fn acquire_lock(
    db: &mut Store,
    file_path: &str,
    agent_id: &str,
    ttl_secs: Option<i64>,
    now: i64,
) -> (r: LockAnswer)
    ensures
        r@ == lock_answer(without_expired(old(db)@, now), file_path@, agent_id@),
        final(db)@ == after_request(
            without_expired(old(db)@, now),
            file_path@,
            agent_id@,
            lock_time(ttl_secs),
            now,
        ),
        sound(old(db)@) ==> sound(final(db)@),
{
    let ttl: i64 = match ttl_secs {
        Some(t) => t,
        None => DEFAULT_TTL_SECS,
    };
    expire_locks_sync(db, now);
    let found = find_where(
        &db.advisory_locks.rows,
        |l: &LockRow| -> (b: bool) ensures b == locks_on(file_path@)(l@) {
            same(l.file_path.as_str(), file_path)
        },
        Ghost(locks_on(file_path@)),
    );
    match found {
        Some(k) => {
            let holder = db.advisory_locks.rows[k].agent_id.clone();
            if !same(holder.as_str(), agent_id) {
                return LockAnswer::Held { holder };
            }
            proof {
                if sound(db@) {
                    lemma_updated_keyed::<LockRow>(
                        db@.advisory_locks,
                        lock_of(file_path@, agent_id@),
                        renewed(ttl, now),
                    );
                }
            }
            update_where(
                &mut db.advisory_locks.rows,
                |l: &LockRow| -> (b: bool) ensures b == lock_of(file_path@, agent_id@)(l@) {
                    same(l.file_path.as_str(), file_path) && same(l.agent_id.as_str(), agent_id)
                },
                |l: &LockRow| -> (n: LockRow) ensures n@ == renewed(ttl, now)(l@) {
                    LockRow { ttl_secs: ttl, acquired_at: now, ..l.duplicate() }
                },
                Ghost(lock_of(file_path@, agent_id@)),
                Ghost(renewed(ttl, now)),
            );
            LockAnswer::Refreshed
        },
        None => {
            if db.advisory_locks.last_id == i64::MAX {
                return LockAnswer::Failed;
            }
            let id: i64 = db.advisory_locks.last_id + 1;
            db.advisory_locks.append(
                LockRow {
                    id,
                    file_path: file_path.to_owned(),
                    agent_id: agent_id.to_owned(),
                    acquired_at: now,
                    ttl_secs: ttl,
                },
            );
            LockAnswer::Acquired
        },
    }
}

/// The order of locks, the latest first.
pub open spec fn later_lock() -> spec_fn(LockRowView, LockRowView) -> bool {
    |a: LockRowView, b: LockRowView| a.acquired_at > b.acquired_at
}

/// The locks whose time is not over, the latest first.
pub fn list_locks(db: &mut Store, now: i64) -> (r: Vec<LockRow>)
    ensures
        final(db)@ == without_expired(old(db)@, now),
        sorts(views(r@), final(db)@.advisory_locks.rows, later_lock()),
        sound(old(db)@) ==> sound(final(db)@),
{
    expire_locks_sync(db, now);
    sort_rows(
        &db.advisory_locks.rows,
        |a: &LockRow, b: &LockRow| -> (r: bool) ensures r == later_lock()(a@, b@) {
            a.acquired_at > b.acquired_at
        },
        Ghost(later_lock()),
    )
}

/// The store after an agent has given up its lock on a file.
pub open spec fn after_release(s: StoreView, file: Seq<char>, agent: Seq<char>) -> StoreView {
    StoreView {
        advisory_locks: TableView {
            rows: removed(s.advisory_locks.rows, lock_of(file, agent)),
            last_id: s.advisory_locks.last_id,
        },
        ..s
    }
}

/// Gives up an agent's lock on a file, and says whether the agent had it.
pub fn release_lock(db: &mut Store, file_path: &str, agent_id: &str) -> (r: bool)
    ensures
        r == any(old(db)@.advisory_locks.rows, lock_of(file_path@, agent_id@)),
        final(db)@ == after_release(old(db)@, file_path@, agent_id@),
        sound(old(db)@) ==> sound(final(db)@),
{
    proof {
        lemma_count_any(db@.advisory_locks.rows, lock_of(file_path@, agent_id@));
        if sound(db@) {
            lemma_filter_keyed::<LockRow>(
                db@.advisory_locks,
                |l: LockRowView| !lock_of(file_path@, agent_id@)(l),
            );
        }
    }
    let n: usize = remove_where(
        &mut db.advisory_locks.rows,
        |l: &LockRow| -> (b: bool) ensures b == lock_of(file_path@, agent_id@)(l@) {
            same(l.file_path.as_str(), file_path) && same(l.agent_id.as_str(), agent_id)
        },
        Ghost(lock_of(file_path@, agent_id@)),
    );
    n > 0
}

/// No file is locked twice.
pub open spec fn one_lock_per_file(s: StoreView) -> bool {
    forall|i: int, j: int|
        0 <= i < j < s.advisory_locks.rows.len() ==> (
        #[trigger] s.advisory_locks.rows[i]).file_path != (
        #[trigger] s.advisory_locks.rows[j]).file_path
}

/// Leaving out rows leaves different rows different.
proof fn lemma_filter_one_per_file(rows: Seq<LockRowView>, p: spec_fn(LockRowView) -> bool)
    requires
        forall|i: int, j: int|
            0 <= i < j < rows.len() ==> (#[trigger] rows[i]).file_path != (
            #[trigger] rows[j]).file_path,
    ensures
        forall|i: int, j: int|
            0 <= i < j < rows.filter(p).len() ==> (#[trigger] rows.filter(p)[i]).file_path != (
            #[trigger] rows.filter(p)[j]).file_path,
    decreases rows.len(),
{
    reveal(Seq::filter);
    if rows.len() > 0 {
        let short = rows.drop_last();
        assert forall|i: int, j: int| 0 <= i < j < short.len() implies (
        #[trigger] short[i]).file_path != (#[trigger] short[j]).file_path by {
            assert(short[i] == rows[i] && short[j] == rows[j]);
        }
        lemma_filter_one_per_file(short, p);
        let f = short.filter(p);
        let n = rows.filter(p);
        assert(n == if p(rows.last()) { f.push(rows.last()) } else { f });
        assert forall|i: int, j: int| 0 <= i < j < n.len() implies (#[trigger] n[i]).file_path != (
        #[trigger] n[j]).file_path by {
            assert(n[i] == f[i]);
            if j < f.len() {
                assert(n[j] == f[j]);
            } else {
                assert(f.contains(f[i]));
                short.lemma_filter_contains_rev(p, f[i]);
                let k = choose|k: int| 0 <= k < short.len() && short[k] == f[i];
                assert(rows[k] == f[i]);
                assert(rows[rows.len() - 1] == n[j]);
            }
        }
    }
}

/// Whatever is asked for, given up or over, no file is locked twice.
pub proof fn law_one_lock_per_file(
    s: StoreView,
    file: Seq<char>,
    agent: Seq<char>,
    ttl: i64,
    now: i64,
)
    requires
        one_lock_per_file(s),
    ensures
        one_lock_per_file(without_expired(s, now)),
        one_lock_per_file(after_request(without_expired(s, now), file, agent, ttl, now)),
        one_lock_per_file(after_release(s, file, agent)),
{
    lemma_filter_one_per_file(s.advisory_locks.rows, |l: LockRowView| !expired(now)(l));
    lemma_filter_one_per_file(s.advisory_locks.rows, |l: LockRowView| !lock_of(file, agent)(l));
    let e = without_expired(s, now);
    let n = after_request(e, file, agent, ttl, now);
    let rows = n.advisory_locks.rows;
    lemma_first_any(e.advisory_locks.rows, locks_on(file));
    assert forall|i: int, j: int| 0 <= i < j < rows.len() implies (#[trigger] rows[i]).file_path
        != (#[trigger] rows[j]).file_path by {
        let o = e.advisory_locks.rows;
        if j < o.len() {
            assert(rows[i].file_path == o[i].file_path);
            assert(rows[j].file_path == o[j].file_path);
        } else {
            assert(rows[i] == o[i]);
            assert(!locks_on(file)(o[i]));
        }
    }
}

/// The first row that satisfies a test is still the first after rows that do not are left out.
proof fn lemma_first_survives(
    rows: Seq<LockRowView>,
    p: spec_fn(LockRowView) -> bool,
    q: spec_fn(LockRowView) -> bool,
)
    requires
        forall|l: LockRowView| rows.contains(l) && #[trigger] q(l) ==> p(l),
    ensures
        first(rows.filter(p), q) == first(rows, q),
    decreases rows.len(),
{
    reveal(Seq::filter);
    if rows.len() > 0 {
        let short = rows.drop_last();
        assert forall|l: LockRowView| short.contains(l) && #[trigger] q(l) implies p(l) by {
            let k = choose|k: int| 0 <= k < short.len() && short[k] == l;
            assert(rows[k] == l);
        }
        lemma_first_survives(short, p, q);
        lemma_first_push(short, rows.last(), q);
        assert(short.push(rows.last()) =~= rows);
        lemma_first_push(short.filter(p), rows.last(), q);
        assert(rows.contains(rows.last())) by {
            assert(rows[rows.len() - 1] == rows.last());
        }
    }
}

proof fn lemma_first_push(
    rows: Seq<LockRowView>,
    last: LockRowView,
    q: spec_fn(LockRowView) -> bool,
)
    ensures
        first(rows.push(last), q) == match first(rows, q) {
            Some(l) => Some(l),
            None => if q(last) {
                Some(last)
            } else {
                None
            },
        },
    decreases rows.len(),
{
    if rows.len() > 0 {
        lemma_first_push(rows.skip(1), last, q);
        assert(rows.push(last).skip(1) =~= rows.skip(1).push(last));
        assert(rows.push(last)[0] == rows[0]);
    } else {
        assert(rows.push(last)[0] == last);
        let none = rows.push(last).skip(1);
        assert(none.len() == 0);
        assert(first(none, q) is None);
    }
}

/// While an agent has a lock and its time is not over, every other agent is told who has it and
/// changes nothing, and the agent itself may renew it.
pub proof fn law_lock_keeps_others_out(
    s: StoreView,
    file: Seq<char>,
    agent: Seq<char>,
    other: Seq<char>,
    ttl: i64,
    later: i64,
)
    requires
        one_lock_per_file(s),
        first(s.advisory_locks.rows, locks_on(file)) matches Some(l) && l.agent_id == agent
            && !expired(later)(l),
    ensures
        ({
            let e = without_expired(s, later);
            &&& other != agent ==> lock_answer(e, file, other) == (LockAnswerView::Held {
                holder: agent,
            }) && after_request(e, file, other, ttl, later) == e
            &&& lock_answer(e, file, agent) == LockAnswerView::Refreshed
        }),
{
    let rows = s.advisory_locks.rows;
    let held = first(rows, locks_on(file))->0;
    lemma_first_any(rows, locks_on(file));
    let a = choose|a: int| 0 <= a < rows.len() && rows[a] == held;
    assert forall|l: LockRowView| rows.contains(l) && #[trigger] locks_on(file)(l) implies !expired(
        later,
    )(l) by {
        let k = choose|k: int| 0 <= k < rows.len() && rows[k] == l;
        if k < a {
            assert(rows[k].file_path != rows[a].file_path);
        } else if a < k {
            assert(rows[a].file_path != rows[k].file_path);
        }
    }
    lemma_first_survives(rows, |l: LockRowView| !expired(later)(l), locks_on(file));
}

/// Once an agent has taken a lock it has it, and once it has given it up the file is free.
pub proof fn law_take_and_give_up(
    s: StoreView,
    file: Seq<char>,
    agent: Seq<char>,
    ttl: i64,
    now: i64,
)
    requires
        one_lock_per_file(s),
        lock_answer(s, file, agent) is Acquired,
    ensures
        ({
            let n = after_request(s, file, agent, ttl, now);
            &&& first(n.advisory_locks.rows, locks_on(file)) matches Some(l) && l.agent_id == agent
                && l.acquired_at == now && l.ttl_secs == ttl
            &&& !any(after_release(n, file, agent).advisory_locks.rows, locks_on(file))
        }),
{
    let n = after_request(s, file, agent, ttl, now);
    let rows = n.advisory_locks.rows;
    let o = s.advisory_locks.rows;
    lemma_first_push(o, rows.last(), locks_on(file));
    assert(o.push(rows.last()) =~= rows);
    lemma_first_any(o, locks_on(file));
    let p = |l: LockRowView| !lock_of(file, agent)(l);
    let f = rows.filter(p);
    assert forall|i: int| 0 <= i < f.len() implies !locks_on(file)(#[trigger] f[i]) by {
        rows.lemma_filter_pred(p, i);
        assert(f.contains(f[i]));
        rows.lemma_filter_contains_rev(p, f[i]);
        let k = choose|k: int| 0 <= k < rows.len() && rows[k] == f[i];
        if k < o.len() {
            assert(rows[k] == o[k]);
            assert(!locks_on(file)(o[k]));
        }
    }
}

/// A lock goes exactly where its time is over, and nothing else changes. It lasts an hour where no
/// time is named.
pub proof fn law_expiry_over_rows(s: StoreView, now: i64, i: int, ttl: Option<i64>)
    requires
        0 <= i < s.advisory_locks.rows.len(),
    ensures
        ({
            let l = s.advisory_locks.rows[i];
            let n = without_expired(s, now);
            &&& n == (StoreView { advisory_locks: n.advisory_locks, ..s })
            &&& n.advisory_locks.last_id == s.advisory_locks.last_id
            &&& n.advisory_locks.rows.contains(l) <==> now - l.acquired_at <= l.ttl_secs
        }),
        lock_time(None) == 3600,
        ttl matches Some(t) ==> lock_time(ttl) == t,
{
    crate::table::lemma_kept_at(
        s.advisory_locks.rows,
        |r: LockRowView| !expired(now)(r),
        i,
    );
}

/// A request for a file, over the rows. Where another agent has the file it is told who; where the
/// agent has it, its time begins anew; else it is taken for the agent from now. No lock on another
/// file or of another agent changes.
pub proof fn law_request_over_rows(
    s: StoreView,
    file: Seq<char>,
    agent: Seq<char>,
    ttl: i64,
    now: i64,
    i: int,
)
    requires
        one_lock_per_file(s),
        0 <= i < s.advisory_locks.rows.len(),
        s.advisory_locks.last_id < i64::MAX,
    ensures
        ({
            let rows = s.advisory_locks.rows;
            let l = rows[i];
            let n = after_request(s, file, agent, ttl, now);
            let free = forall|j: int|
                0 <= j < rows.len() ==> (#[trigger] rows[j]).file_path != file;
            &&& n == (StoreView { advisory_locks: n.advisory_locks, ..s })
            &&& l.file_path == file ==> lock_answer(s, file, agent) == if l.agent_id == agent {
                LockAnswerView::Refreshed
            } else {
                LockAnswerView::Held { holder: l.agent_id }
            }
            &&& n.advisory_locks.rows[i] == if l.file_path == file && l.agent_id == agent {
                LockRowView { ttl_secs: ttl, acquired_at: now, ..l }
            } else {
                l
            }
            &&& !free ==> n.advisory_locks.rows.len() == rows.len() && n.advisory_locks.last_id
                == s.advisory_locks.last_id
            &&& free ==> {
                let a = n.advisory_locks.rows.last();
                &&& lock_answer(s, file, agent) is Acquired
                &&& n.advisory_locks.rows.drop_last() == rows
                &&& n.advisory_locks.last_id == s.advisory_locks.last_id + 1
                &&& a.id == s.advisory_locks.last_id + 1 && a.file_path == file && a.agent_id
                    == agent && a.acquired_at == now && a.ttl_secs == ttl
            }
        }),
{
    let rows = s.advisory_locks.rows;
    let l = rows[i];
    let n = after_request(s, file, agent, ttl, now);
    crate::table::lemma_first_place(rows, locks_on(file));
    if l.file_path == file {
        assert(locks_on(file)(rows[i]));
        let r = first(rows, locks_on(file))->0;
        let j = choose|j: int|
            0 <= j < rows.len() && #[trigger] rows[j] == r && locks_on(file)(r);
        assert(j == i);
    }
    if first(rows, locks_on(file)) is None {
        assert(n.advisory_locks.rows.drop_last() =~= rows);
        assert(!locks_on(file)(rows[i]));
    }
}

/// A lock that is given up goes, and no other. Locks are listed with the latest first.
pub proof fn law_release_over_rows(s: StoreView, file: Seq<char>, agent: Seq<char>, i: int, j: int)
    requires
        0 <= i < s.advisory_locks.rows.len(),
        0 <= j < s.advisory_locks.rows.len(),
    ensures
        ({
            let rows = s.advisory_locks.rows;
            let n = after_release(s, file, agent);
            &&& n == (StoreView { advisory_locks: n.advisory_locks, ..s })
            &&& n.advisory_locks.last_id == s.advisory_locks.last_id
            &&& n.advisory_locks.rows.contains(rows[i]) <==> rows[i].file_path != file
                || rows[i].agent_id != agent
            &&& later_lock()(rows[i], rows[j]) <==> rows[i].acquired_at > rows[j].acquired_at
            &&& any(rows, lock_of(file, agent)) <==> exists|k: int|
                0 <= k < rows.len() && (#[trigger] rows[k]).file_path == file && rows[k].agent_id
                    == agent
        }),
{
    crate::table::lemma_kept_at(
        s.advisory_locks.rows,
        |r: LockRowView| !lock_of(file, agent)(r),
        i,
    );
    let rows = s.advisory_locks.rows;
    assert(any(rows, lock_of(file, agent)) <==> exists|k: int|
        0 <= k < rows.len() && (#[trigger] rows[k]).file_path == file && rows[k].agent_id
            == agent);
}

} // verus!
