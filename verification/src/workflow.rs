//! Workflow automation: waves that complete, tasks that go stale, commits that name tasks.

use crate::challenger::in_wave;
use crate::evidence::{
    commit_is, has_task, insert_evidence, record_commit_match, task_exists, with_commit,
    with_evidence,
};
use crate::gates::{find_wave, wave_is};
use crate::preflight::{closed, is_closed};
use crate::rows::{
    QueueRow, QueueRowView, StaleNotice, StaleNoticeView, TaskRow, TaskRowView, WaveRow,
    WaveRowView,
};
use crate::store::{sound, Moment, Store, StoreView};
use crate::table::{
    any, any_where, appended, first, full, ids_where, keys, lemma_count_any, lemma_updated_keyed,
    select_where, update_where, updated, views, Duplicate, Row, TableView,
};
use crate::text::{
    dec, found_at, from_chars, is_digit, lemma_run, occurs_at, parse_i64, parsed_i64, run, same,
    to_chars, unsigned_part,
};
use vstd::prelude::*;

verus! {

// ---- waves that complete ----

/// The tasks of a wave that are not closed.
pub open spec fn open_in_wave(wave_id: i64) -> spec_fn(TaskRowView) -> bool {
    |t: TaskRowView| t.wave_id == Some(wave_id) && !closed(t.status)
}

/// Whether a wave is complete: it has tasks, and all of them are closed.
pub open spec fn wave_complete(s: StoreView, wave_id: i64) -> bool {
    any(s.tasks.rows, in_wave(wave_id)) && !any(s.tasks.rows, open_in_wave(wave_id))
}

/// The wave with the given id, where it is not marked as completed yet.
pub open spec fn not_completed(wave_id: i64) -> spec_fn(WaveRowView) -> bool {
    |w: WaveRowView| w.id == wave_id && w.status != "completed"@
}

/// A completed wave.
pub open spec fn as_completed() -> spec_fn(WaveRowView) -> WaveRowView {
    |w: WaveRowView| WaveRowView { status: "completed"@, ..w }
}

/// The queue entry of a wave.
pub open spec fn wave_queued(wave_id: i64, plan_id: i64) -> spec_fn(QueueRowView) -> bool {
    |q: QueueRowView| q.wave_id == Some(wave_id) && q.plan_id == Some(plan_id)
}

/// The store in which a wave is marked as completed.
pub open spec fn with_wave_completed(s: StoreView, wave_id: i64) -> StoreView {
    StoreView {
        waves: TableView {
            rows: updated(s.waves.rows, not_completed(wave_id), as_completed()),
            last_id: s.waves.last_id,
        },
        ..s
    }
}

/// The store in which a wave is queued for validation. Where it was, nothing changes.
pub open spec fn with_wave_queued(s: StoreView, wave_id: i64, plan_id: i64) -> StoreView {
    if any(s.validation_queue.rows, wave_queued(wave_id, plan_id)) || full(s.validation_queue) {
        s
    } else {
        StoreView {
            validation_queue: appended(
                s.validation_queue,
                QueueRowView {
                    id: (s.validation_queue.last_id + 1) as i64,
                    task_id: None,
                    wave_id: Some(wave_id),
                    plan_id: Some(plan_id),
                    status: "pending"@,
                },
            ),
            ..s
        }
    }
}

/// The store after a look at whether a wave is complete.
pub open spec fn after_completion(s: StoreView, wave_id: i64) -> StoreView {
    if !wave_complete(s, wave_id) {
        s
    } else {
        let marked = with_wave_completed(s, wave_id);
        match first(marked.waves.rows, wave_is(wave_id)) {
            None => marked,
            Some(w) => with_wave_queued(marked, wave_id, w.plan_id),
        }
    }
}

/// What a look at whether a wave is complete answers.
pub open spec fn completion_answer(s: StoreView, wave_id: i64) -> Result<bool, Seq<char>> {
    if !wave_complete(s, wave_id) {
        Ok(false)
    } else {
        match first(with_wave_completed(s, wave_id).waves.rows, wave_is(wave_id)) {
            None => Err("wave lookup failed: Query returned no rows"@),
            Some(w) => if full(s.validation_queue) && !any(
                s.validation_queue.rows,
                wave_queued(wave_id, w.plan_id),
            ) {
                Err("enqueue validation failed: database or disk is full"@)
            } else {
                Ok(true)
            },
        }
    }
}

/// The answer, the error by its text.
pub open spec fn answer(r: Result<bool, String>) -> Result<bool, Seq<char>> {
    match r {
        Ok(b) => Ok(b),
        Err(e) => Err(e@),
    }
}

/// Whether a wave is complete. A complete wave is marked, and queued for validation once.
pub fn check_wave_completion(db: &mut Store, wave_id: i64) -> (r: Result<bool, String>)
    ensures
        final(db)@ == after_completion(old(db)@, wave_id),
        answer(r) == completion_answer(old(db)@, wave_id),
        sound(old(db)@) ==> sound(final(db)@),
{
    let some = any_where(
        &db.tasks.rows,
        |t: &TaskRow| -> (b: bool) ensures b == in_wave(wave_id)(t@) {
            match t.wave_id {
                Some(w) => w == wave_id,
                None => false,
            }
        },
        Ghost(in_wave(wave_id)),
    );
    let open = any_where(
        &db.tasks.rows,
        |t: &TaskRow| -> (b: bool) ensures b == open_in_wave(wave_id)(t@) {
            (match t.wave_id {
                Some(w) => w == wave_id,
                None => false,
            }) && !is_closed(t.status.as_str())
        },
        Ghost(open_in_wave(wave_id)),
    );
    if !some || open {
        return Ok(false);
    }
    proof {
        if sound(db@) {
            lemma_updated_keyed::<WaveRow>(db@.waves, not_completed(wave_id), as_completed());
        }
    }
    update_where(
        &mut db.waves.rows,
        |w: &WaveRow| -> (b: bool) ensures b == not_completed(wave_id)(w@) {
            w.id == wave_id && !same(w.status.as_str(), "completed")
        },
        |w: &WaveRow| -> (n: WaveRow) ensures n@ == as_completed()(w@) {
            WaveRow { status: "completed".to_owned(), ..w.duplicate() }
        },
        Ghost(not_completed(wave_id)),
        Ghost(as_completed()),
    );
    let plan_id: i64 = match find_wave(db, wave_id) {
        Some(k) => db.waves.rows[k].plan_id,
        None => {
            return Err("wave lookup failed: Query returned no rows".to_owned());
        },
    };
    let queued = any_where(
        &db.validation_queue.rows,
        |q: &QueueRow| -> (b: bool) ensures b == wave_queued(wave_id, plan_id)(q@) {
            (match q.wave_id {
                Some(w) => w == wave_id,
                None => false,
            }) && (match q.plan_id {
                Some(p) => p == plan_id,
                None => false,
            })
        },
        Ghost(wave_queued(wave_id, plan_id)),
    );
    if queued {
        return Ok(true);
    }
    if db.validation_queue.last_id == i64::MAX {
        return Err("enqueue validation failed: database or disk is full".to_owned());
    }
    let id: i64 = db.validation_queue.last_id + 1;
    db.validation_queue.append(
        QueueRow {
            id,
            task_id: None,
            wave_id: Some(wave_id),
            plan_id: Some(plan_id),
            status: "pending".to_owned(),
        },
    );
    Ok(true)
}

/// The waves that may complete.
pub open spec fn may_complete() -> spec_fn(WaveRowView) -> bool {
    |w: WaveRowView| w.status == "active"@ || w.status == "pending"@
}

/// The store after a look at each of some waves.
pub open spec fn after_completions(s: StoreView, wave_ids: Seq<i64>) -> StoreView
    decreases wave_ids.len(),
{
    if wave_ids.len() == 0 {
        s
    } else {
        after_completion(after_completions(s, wave_ids.drop_last()), wave_ids.last())
    }
}

/// Looks at all waves that may complete.
pub fn check_active_waves(db: &mut Store)
    ensures
        final(db)@ == after_completions(
            old(db)@,
            keys::<WaveRow>(old(db)@.waves.rows.filter(may_complete())),
        ),
        sound(old(db)@) ==> sound(final(db)@),
{
    let ghost s = db@;
    let ids = ids_where(
        &db.waves.rows,
        |w: &WaveRow| -> (b: bool) ensures b == may_complete()(w@) {
            same(w.status.as_str(), "active") || same(w.status.as_str(), "pending")
        },
        Ghost(may_complete()),
    );
    let mut i: usize = 0;
    assert(ids@.take(0) =~= Seq::<i64>::empty());
    while i < ids.len()
        invariant
            i <= ids@.len(),
            db@ == after_completions(s, ids@.take(i as int)),
            sound(s) ==> sound(db@),
        decreases ids@.len() - i,
    {
        let _ = check_wave_completion(db, ids[i]);
        i += 1;
        assert(ids@.take(i as int).drop_last() =~= ids@.take(i - 1));
    }
    assert(ids@.take(i as int) =~= ids@);
}

/// To look at a complete wave again changes nothing: it is queued for validation once.
pub proof fn law_wave_queued_once(s: StoreView, wave_id: i64)
    ensures
        after_completion(after_completion(s, wave_id), wave_id) == after_completion(s, wave_id),
{
    if wave_complete(s, wave_id) {
        let n = after_completion(s, wave_id);
        let rows = n.waves.rows;
        assert forall|i: int| 0 <= i < rows.len() implies !not_completed(wave_id)(
            #[trigger] rows[i],
        ) by {}
        assert(updated(rows, not_completed(wave_id), as_completed()) =~= rows);
        let marked = with_wave_completed(s, wave_id);
        if let Some(w) = first(marked.waves.rows, wave_is(wave_id)) {
            let p = wave_queued(wave_id, w.plan_id);
            if !any(s.validation_queue.rows, p) && !full(s.validation_queue) {
                let q = n.validation_queue.rows;
                assert(p(q[q.len() - 1]));
            }
        }
    }
}

// ---- tasks that go stale ----

/// The reason that is noted for a task that is in progress for too long.
pub open spec fn stale_reason() -> Seq<char> {
    "stale_in_progress"@
}

/// A note on a task that has not been resolved.
pub open spec fn unresolved(task_id: i64) -> spec_fn(StaleNoticeView) -> bool {
    |n: StaleNoticeView| n.task_id == task_id && !n.resolved
}

/// The note on a task that is in progress for too long.
pub open spec fn noted(task_id: i64) -> spec_fn(StaleNoticeView) -> bool {
    |n: StaleNoticeView| n.task_id == task_id && n.reason == stale_reason()
}

/// Whether a task has been in progress for longer than a number of minutes.
pub open spec fn overdue(t: TaskRowView, max_age_minutes: i64, now: i64) -> bool {
    t.status == "in_progress"@ && (match t.started_at {
        Some(start) => start < now - 60 * max_age_minutes,
        None => false,
    })
}

/// The tasks that are newly stale: overdue, without an unresolved note.
pub open spec fn newly_stale(s: StoreView, max_age_minutes: i64, now: i64) -> spec_fn(
    TaskRowView,
) -> bool {
    |t: TaskRowView|
        overdue(t, max_age_minutes, now) && !any(
            s.stale_task_notifications.rows,
            unresolved(t.id),
        )
}

/// A note that is open again, as of a new time.
pub open spec fn renewed(now: Seq<char>) -> spec_fn(StaleNoticeView) -> StaleNoticeView {
    |n: StaleNoticeView| StaleNoticeView { notified_at: now, resolved: false, ..n }
}

/// The notes with one on a task: the one that is there is renewed, and where there is none it
/// is added.
pub open spec fn with_notice(
    notes: TableView<StaleNoticeView>,
    task_id: i64,
    now: Seq<char>,
) -> TableView<StaleNoticeView> {
    if any(notes.rows, noted(task_id)) {
        TableView {
            rows: updated(notes.rows, noted(task_id), renewed(now)),
            last_id: notes.last_id,
        }
    } else if full(notes) {
        notes
    } else {
        appended(
            notes,
            StaleNoticeView {
                id: (notes.last_id + 1) as i64,
                task_id,
                reason: stale_reason(),
                notified_at: now,
                resolved: false,
            },
        )
    }
}

/// The notes with one for each of some tasks.
pub open spec fn with_notices(
    notes: TableView<StaleNoticeView>,
    task_ids: Seq<i64>,
    now: Seq<char>,
) -> TableView<StaleNoticeView>
    decreases task_ids.len(),
{
    if task_ids.len() == 0 {
        notes
    } else {
        with_notice(with_notices(notes, task_ids.drop_last(), now), task_ids.last(), now)
    }
}

/// The store after a search for stale tasks.
pub open spec fn after_stale_search(
    s: StoreView,
    max_age_minutes: i64,
    secs: i64,
    now: Seq<char>,
) -> StoreView {
    StoreView {
        stale_task_notifications: with_notices(
            s.stale_task_notifications,
            keys::<TaskRow>(s.tasks.rows.filter(newly_stale(s, max_age_minutes, secs))),
            now,
        ),
        ..s
    }
}

/// Tasks by their ids and titles.
pub open spec fn titled(rows: Seq<TaskRowView>) -> Seq<(i64, Seq<char>)> {
    rows.map_values(|t: TaskRowView| (t.id, t.title))
}

/// Ids and titles, the titles by their characters.
pub open spec fn pairs(list: Seq<(i64, String)>) -> Seq<(i64, Seq<char>)> {
    list.map_values(|p: (i64, String)| (p.0, p.1@))
}

fn is_unresolved(notes: &Vec<StaleNotice>, task_id: i64) -> (r: bool)
    ensures
        r == any(views(notes@), unresolved(task_id)),
{
    any_where(
        notes,
        |n: &StaleNotice| -> (b: bool) ensures b == unresolved(task_id)(n@) {
            n.task_id == task_id && !n.resolved
        },
        Ghost(unresolved(task_id)),
    )
}

/// Notes that a task is stale. A note that is there is renewed.
fn note_stale(db: &mut Store, task_id: i64, now: &str)
    ensures
        final(db)@ == (StoreView {
            stale_task_notifications: with_notice(
                old(db)@.stale_task_notifications,
                task_id,
                now@,
            ),
            ..old(db)@
        }),
        sound(old(db)@) ==> sound(final(db)@),
{
    let ghost notes = db@.stale_task_notifications;
    proof {
        lemma_count_any(notes.rows, noted(task_id));
        if sound(db@) {
            lemma_updated_keyed::<StaleNotice>(notes, noted(task_id), renewed(now@));
        }
    }
    let known: usize = update_where(
        &mut db.stale_task_notifications.rows,
        |n: &StaleNotice| -> (b: bool) ensures b == noted(task_id)(n@) {
            n.task_id == task_id && same(n.reason.as_str(), "stale_in_progress")
        },
        |n: &StaleNotice| -> (m: StaleNotice) ensures m@ == renewed(now@)(n@) {
            StaleNotice { notified_at: now.to_owned(), resolved: false, ..n.duplicate() }
        },
        Ghost(noted(task_id)),
        Ghost(renewed(now@)),
    );
    if known > 0 {
        return ;
    }
    assert(db@.stale_task_notifications.rows =~= notes.rows);
    if db.stale_task_notifications.last_id == i64::MAX {
        return ;
    }
    let id: i64 = db.stale_task_notifications.last_id + 1;
    db.stale_task_notifications.append(
        StaleNotice {
            id,
            task_id,
            reason: "stale_in_progress".to_owned(),
            notified_at: now.to_owned(),
            resolved: false,
        },
    );
}

/// The tasks that are newly stale, each of which is noted.
pub fn detect_stale_tasks(db: &mut Store, max_age_minutes: i64, now: &Moment) -> (r: Vec<
    (i64, String),
>)
    ensures
        pairs(r@) == titled(
            old(db)@.tasks.rows.filter(newly_stale(old(db)@, max_age_minutes, now.secs)),
        ),
        final(db)@ == after_stale_search(old(db)@, max_age_minutes, now.secs, now.text@),
        sound(old(db)@) ==> sound(final(db)@),
{
    let ghost s = db@;
    let secs: i64 = now.secs;
    let stale = select_where(
        &db.tasks.rows,
        |t: &TaskRow| -> (b: bool) ensures b == newly_stale(db@, max_age_minutes, secs)(t@) {
            same(t.status.as_str(), "in_progress") && (match t.started_at {
                Some(start) => (start as i128) < (secs as i128) - 60 * (max_age_minutes as i128),
                None => false,
            }) && !is_unresolved(&db.stale_task_notifications.rows, t.id)
        },
        Ghost(newly_stale(db@, max_age_minutes, secs)),
    );
    let ghost found = views(stale@);
    let ghost ids = keys::<TaskRow>(found);
    let mut out: Vec<(i64, String)> = Vec::new();
    let mut i: usize = 0;
    assert(ids.take(0) =~= Seq::<i64>::empty());
    while i < stale.len()
        invariant
            i <= stale@.len(),
            found == views(stale@),
            ids == keys::<TaskRow>(found),
            out@.len() == i,
            forall|k: int|
                0 <= k < i ==> (#[trigger] out@[k]).0 == found[k].id && out@[k].1@ == found[k].title,
            db@ == (StoreView {
                stale_task_notifications: with_notices(
                    s.stale_task_notifications,
                    ids.take(i as int),
                    now.text@,
                ),
                ..s
            }),
            sound(s) ==> sound(db@),
        decreases stale@.len() - i,
    {
        note_stale(db, stale[i].id, now.text.as_str());
        out.push((stale[i].id, stale[i].title.clone()));
        i += 1;
        assert(ids.take(i as int).drop_last() =~= ids.take(i - 1));
        assert(ids.take(i as int).last() == found[i - 1].id);
    }
    assert(ids.take(i as int) =~= ids);
    assert(pairs(out@) =~= titled(found));
    out
}

/// The notes on a task.
pub open spec fn notes_on(task_id: i64) -> spec_fn(StaleNoticeView) -> bool {
    |n: StaleNoticeView| n.task_id == task_id
}

/// A resolved note.
pub open spec fn as_resolved() -> spec_fn(StaleNoticeView) -> StaleNoticeView {
    |n: StaleNoticeView| StaleNoticeView { resolved: true, ..n }
}

/// The store in which the notes on a task are resolved.
pub open spec fn with_resolved(s: StoreView, task_id: i64) -> StoreView {
    StoreView {
        stale_task_notifications: TableView {
            rows: updated(s.stale_task_notifications.rows, notes_on(task_id), as_resolved()),
            last_id: s.stale_task_notifications.last_id,
        },
        ..s
    }
}

/// Resolves the notes on a task that has progressed.
pub fn resolve_stale_notification(db: &mut Store, task_id: i64)
    ensures
        final(db)@ == with_resolved(old(db)@, task_id),
        sound(old(db)@) ==> sound(final(db)@),
{
    proof {
        if sound(db@) {
            lemma_updated_keyed::<StaleNotice>(
                db@.stale_task_notifications,
                notes_on(task_id),
                as_resolved(),
            );
        }
    }
    update_where(
        &mut db.stale_task_notifications.rows,
        |n: &StaleNotice| -> (b: bool) ensures b == notes_on(task_id)(n@) { n.task_id == task_id },
        |n: &StaleNotice| -> (m: StaleNotice) ensures m@ == as_resolved()(n@) {
            StaleNotice { resolved: true, ..n.duplicate() }
        },
        Ghost(notes_on(task_id)),
        Ghost(as_resolved()),
    );
}

/// To note a task leaves open notes open.
proof fn lemma_notice_keeps(
    notes: TableView<StaleNoticeView>,
    task_id: i64,
    now: Seq<char>,
    id: i64,
)
    requires
        any(notes.rows, unresolved(id)),
    ensures
        any(with_notice(notes, task_id, now).rows, unresolved(id)),
{
    let i = choose|i: int| 0 <= i < notes.rows.len() && unresolved(id)(#[trigger] notes.rows[i]);
    assert(unresolved(id)(with_notice(notes, task_id, now).rows[i]));
}

/// A task that is noted has an open note, as long as keys are left.
proof fn lemma_notice_open(notes: TableView<StaleNoticeView>, task_id: i64, now: Seq<char>)
    requires
        !full(notes),
    ensures
        any(with_notice(notes, task_id, now).rows, unresolved(task_id)),
{
    let n = with_notice(notes, task_id, now).rows;
    if any(notes.rows, noted(task_id)) {
        let i = choose|i: int| 0 <= i < notes.rows.len() && noted(task_id)(#[trigger] notes.rows[i]);
        assert(n[i] == renewed(now)(notes.rows[i]));
        assert(unresolved(task_id)(n[i]));
    } else {
        assert(unresolved(task_id)(n[n.len() - 1]));
    }
}

/// Each of the tasks that are noted has an open note, as long as keys are left.
proof fn lemma_notices(
    notes: TableView<StaleNoticeView>,
    ids: Seq<i64>,
    now: Seq<char>,
    k: int,
)
    requires
        0 <= k < ids.len(),
        notes.last_id + ids.len() <= i64::MAX,
    ensures
        any(with_notices(notes, ids, now).rows, unresolved(ids[k])),
    decreases ids.len(),
{
    let short = ids.drop_last();
    let before = with_notices(notes, short, now);
    lemma_notices_room(notes, short, now);
    if k < short.len() {
        lemma_notices(notes, short, now, k);
        lemma_notice_keeps(before, ids.last(), now, ids[k]);
    } else {
        lemma_notice_open(before, ids[k], now);
    }
}

/// Each task takes at most one key.
proof fn lemma_notices_room(notes: TableView<StaleNoticeView>, ids: Seq<i64>, now: Seq<char>)
    requires
        notes.last_id + ids.len() <= i64::MAX,
    ensures
        with_notices(notes, ids, now).last_id <= notes.last_id + ids.len(),
    decreases ids.len(),
{
    if ids.len() > 0 {
        lemma_notices_room(notes, ids.drop_last(), now);
    }
}

/// A task that was found stale is not found again by a later search, until its notes are
/// resolved.
pub proof fn law_stale_found_once(
    s: StoreView,
    max_age_minutes: i64,
    secs: i64,
    now: Seq<char>,
    later_age: i64,
    later: i64,
    t: TaskRowView,
)
    requires
        s.tasks.rows.contains(t),
        newly_stale(s, max_age_minutes, secs)(t),
        s.stale_task_notifications.last_id + s.tasks.rows.len() <= i64::MAX,
    ensures
        !newly_stale(after_stale_search(s, max_age_minutes, secs, now), later_age, later)(t),
{
    let p = newly_stale(s, max_age_minutes, secs);
    let f = s.tasks.rows.filter(p);
    let at = choose|i: int| 0 <= i < s.tasks.rows.len() && s.tasks.rows[i] == t;
    s.tasks.rows.lemma_filter_contains(p, at);
    s.tasks.rows.lemma_filter_len(p);
    let k = choose|i: int| 0 <= i < f.len() && f[i] == t;
    let ids = keys::<TaskRow>(f);
    assert(ids[k] == t.id);
    lemma_notices(s.stale_task_notifications, ids, now, k);
}

/// Once the notes on a task are resolved, a search finds the task again as long as it is
/// overdue.
pub proof fn law_resolved_is_found_again(
    s: StoreView,
    task_id: i64,
    max_age_minutes: i64,
    secs: i64,
    t: TaskRowView,
)
    requires
        t.id == task_id,
    ensures
        newly_stale(with_resolved(s, task_id), max_age_minutes, secs)(t) <==> overdue(
            t,
            max_age_minutes,
            secs,
        ),
{
    let n = with_resolved(s, task_id).stale_task_notifications.rows;
    assert forall|i: int| 0 <= i < n.len() implies !unresolved(task_id)(#[trigger] n[i]) by {
        let o = s.stale_task_notifications.rows[i];
        if notes_on(task_id)(o) {
            assert(n[i] == as_resolved()(o));
        } else {
            assert(n[i] == o);
        }
    }
}

// ---- commits that name tasks ----

/// How long the decimal number is with which a text begins: an optional sign and all digits
/// behind it, or nothing where no digit is there.
pub open spec fn number_len(s: Seq<char>) -> nat {
    let sign: nat = if s.len() > 0 && (s[0] == '-' || s[0] == '+') {
        1
    } else {
        0
    };
    let digits = run(s.skip(sign as int), |c: char| is_digit(c));
    if digits == 0 {
        0
    } else {
        sign + digits
    }
}

/// The number with which a text begins, where it fits in 64 bits.
pub open spec fn leading_number(s: Seq<char>) -> Option<i64> {
    parsed_i64(s.take(number_len(s) as int))
}

/// The task that a text refers to at a place: `task-<id>` or `#<id>` stands there.
pub open spec fn task_ref_at(s: Seq<char>, i: int) -> Option<i64> {
    if occurs_at(s, "task-"@, i) {
        leading_number(s.skip(i + 5))
    } else if occurs_at(s, "#"@, i) {
        leading_number(s.skip(i + 1))
    } else {
        None
    }
}

/// The tasks that a text refers to before a place, in order.
pub open spec fn task_refs_before(s: Seq<char>, n: int) -> Seq<i64>
    decreases n,
{
    if n <= 0 {
        Seq::empty()
    } else {
        let before = task_refs_before(s, n - 1);
        match task_ref_at(s, n - 1) {
            Some(id) => before.push(id),
            None => before,
        }
    }
}

/// The tasks that a text refers to, wherever in it, in order.
pub open spec fn task_refs(s: Seq<char>) -> Seq<i64> {
    task_refs_before(s, s.len() as int)
}

/// Those of some tasks that are there, as often as they are named.
pub open spec fn named_tasks(s: StoreView, ids: Seq<i64>) -> Seq<i64>
    decreases ids.len(),
{
    if ids.len() == 0 {
        Seq::empty()
    } else {
        let before = named_tasks(s, ids.drop_last());
        if task_exists(s, ids.last()) {
            before.push(ids.last())
        } else {
            before
        }
    }
}

/// The store in which a commit is associated with a task and is evidence for it.
pub open spec fn with_commit_evidence(
    s: StoreView,
    task_id: i64,
    hash: Seq<char>,
    message: Seq<char>,
    now: Seq<char>,
) -> StoreView {
    let m = with_commit(s, task_id, hash, message, now);
    if full(m.task_evidence) {
        m
    } else {
        with_evidence(m, task_id, "commit_hash"@, hash, message, 0, now)
    }
}

/// The store in which a commit is associated with each of some tasks.
pub open spec fn with_commit_for(
    s: StoreView,
    task_ids: Seq<i64>,
    hash: Seq<char>,
    message: Seq<char>,
    now: Seq<char>,
) -> StoreView
    decreases task_ids.len(),
{
    if task_ids.len() == 0 {
        s
    } else {
        with_commit_evidence(
            with_commit_for(s, task_ids.drop_last(), hash, message, now),
            task_ids.last(),
            hash,
            message,
            now,
        )
    }
}

/// The number with which the characters from a place on begin.
fn number_at(cs: &Vec<char>, from: usize) -> (r: Option<i64>)
    requires
        from <= cs@.len(),
    ensures
        r == leading_number(cs@.skip(from as int)),
{
    let ghost rest = cs@.skip(from as int);
    let ghost p = |c: char| is_digit(c);
    let start: usize = if from < cs.len() && (cs[from] == '-' || cs[from] == '+') {
        from + 1
    } else {
        from
    };
    let mut end: usize = start;
    while end < cs.len() && '0' <= cs[end] && cs[end] <= '9'
        invariant
            start <= end <= cs@.len(),
            forall|k: int| start <= k < end ==> is_digit(#[trigger] cs@[k]),
        decreases cs@.len() - end,
    {
        end += 1;
    }
    proof {
        let digits = rest.skip(start - from);
        assert(digits =~= cs@.skip(start as int));
        assert forall|k: int| 0 <= k < end - start implies p(#[trigger] digits[k]) by {
            assert(digits[k] == cs@[start + k]);
        }
        lemma_run(digits, p, end - start);
    }
    if end == start {
        assert(rest.take(0) =~= Seq::<char>::empty());
        return None;
    }
    assert(cs@.subrange(from as int, end as int) =~= rest.take(end - from));
    parse_i64(from_chars(cs, from, end).as_str())
}

/// The tasks that a text refers to, wherever in it, in order.
pub fn find_task_refs(text: &str) -> (r: Vec<i64>)
    ensures
        r@ == task_refs(text@),
{
    let cs = to_chars(text);
    let task = to_chars("task-");
    let hash = to_chars("#");
    proof {
        reveal_strlit("task-");
        reveal_strlit("#");
        assert("task-"@.len() == 5 && "#"@.len() == 1);
    }
    let mut out: Vec<i64> = Vec::new();
    let mut i: usize = 0;
    assert(out@ =~= Seq::<i64>::empty());
    while i < cs.len()
        invariant
            i <= cs@.len(),
            cs@ == text@,
            task@ == "task-"@,
            hash@ == "#"@,
            task@.len() == 5,
            hash@.len() == 1,
            out@ == task_refs_before(text@, i as int),
        decreases cs@.len() - i,
    {
        let found: Option<i64> = if found_at(&cs, &task, i) {
            number_at(&cs, i + 5)
        } else if found_at(&cs, &hash, i) {
            number_at(&cs, i + 1)
        } else {
            None
        };
        assert(found == task_ref_at(text@, i as int));
        if let Some(id) = found {
            out.push(id);
        }
        i += 1;
    }
    out
}

/// Commits are recorded in tables of their own: the tasks stay.
proof fn lemma_commit_keeps_tasks(
    s: StoreView,
    ids: Seq<i64>,
    hash: Seq<char>,
    message: Seq<char>,
    now: Seq<char>,
)
    ensures
        with_commit_for(s, ids, hash, message, now).tasks == s.tasks,
    decreases ids.len(),
{
    if ids.len() > 0 {
        lemma_commit_keeps_tasks(s, ids.drop_last(), hash, message, now);
    }
}

/// Associates a commit with the tasks that its message refers to, and records it as evidence
/// for each of them.
pub fn match_commit_to_task(
    db: &mut Store,
    commit_hash: &str,
    commit_message: &str,
    now: &str,
) -> (r: Vec<i64>)
    ensures
        r@ == named_tasks(old(db)@, task_refs(commit_message@)),
        final(db)@ == with_commit_for(old(db)@, r@, commit_hash@, commit_message@, now@),
        sound(old(db)@) ==> sound(final(db)@),
{
    let ghost s = db@;
    let list = find_task_refs(commit_message);
    let ghost all = list@;
    let mut matched: Vec<i64> = Vec::new();
    let mut i: usize = 0;
    assert(all.take(0) =~= Seq::<i64>::empty());
    assert(matched@ =~= Seq::<i64>::empty());
    while i < list.len()
        invariant
            i <= list@.len(),
            all == list@,
            matched@ == named_tasks(s, all.take(i as int)),
            db@ == with_commit_for(s, matched@, commit_hash@, commit_message@, now@),
            sound(s) ==> sound(db@),
        decreases list@.len() - i,
    {
        proof {
            assert(all.take(i + 1).drop_last() =~= all.take(i as int));
            assert(all.take(i + 1).last() == list@[i as int]);
            lemma_commit_keeps_tasks(s, matched@, commit_hash@, commit_message@, now@);
        }
        let task_id: i64 = list[i];
        if has_task(db, task_id) {
            let _ = record_commit_match(db, task_id, commit_hash, commit_message, now);
            if db.task_evidence.last_id != i64::MAX {
                insert_evidence(
                    db,
                    task_id,
                    "commit_hash",
                    commit_hash,
                    commit_message,
                    0,
                    now,
                );
            }
            let ghost before = matched@;
            matched.push(task_id);
            assert(matched@.drop_last() =~= before);
        }
        i += 1;
    }
    assert(all.take(i as int) =~= all);
    matched
}

/// A number in front of anything but a digit is read as that number.
proof fn lemma_leading_number(id: i64, rest: Seq<char>)
    requires
        rest.len() == 0 || !is_digit(rest[0]),
    ensures
        leading_number(dec(id as int) + rest) == Some(id),
{
    crate::text::law_decimal_round_trip(id);
    let num = dec(id as int);
    let all = num + rest;
    let p = |c: char| is_digit(c);
    let d = unsigned_part(num);
    let sign = num.len() - d.len();
    let digits = all.skip(sign);
    assert(all[0] == num[0]);
    assert forall|k: int| 0 <= k < d.len() implies p(#[trigger] digits[k]) by {
        assert(digits[k] == d[k]);
    }
    if d.len() < digits.len() {
        assert(digits[d.len() as int] == rest[0]);
    }
    lemma_run(digits, p, d.len() as int);
    assert(all.take(num.len() as int) =~= num);
}

/// What a text refers to at a place is among what it refers to.
proof fn lemma_ref_listed(s: Seq<char>, n: int, i: int)
    requires
        0 <= i < n,
        task_ref_at(s, i) is Some,
    ensures
        task_refs_before(s, n).contains(task_ref_at(s, i)->0),
    decreases n,
{
    let id = task_ref_at(s, i)->0;
    let list = task_refs_before(s, n);
    if i == n - 1 {
        assert(list[list.len() - 1] == id);
    } else {
        lemma_ref_listed(s, n - 1, i);
        let before = task_refs_before(s, n - 1);
        let k = choose|k: int| 0 <= k < before.len() && before[k] == id;
        assert(list[k] == id);
    }
}

/// A message that contains `task-<id>` or `#<id>` refers to the task, whatever stands around
/// it, as long as the number goes no further.
pub proof fn law_reference_is_found(before: Seq<char>, id: i64, rest: Seq<char>)
    requires
        rest.len() == 0 || !is_digit(rest[0]),
    ensures
        task_refs(before + "task-"@ + dec(id as int) + rest).contains(id),
        task_refs(before + "#"@ + dec(id as int) + rest).contains(id),
{
    reveal_strlit("task-");
    reveal_strlit("#");
    assert("task-"@.len() == 5 && "#"@.len() == 1);
    lemma_leading_number(id, rest);
    let at = before.len() as int;
    let named = before + "task-"@ + dec(id as int) + rest;
    assert(named.subrange(at, at + 5) =~= "task-"@);
    assert(named.skip(at + 5) =~= dec(id as int) + rest);
    lemma_ref_listed(named, named.len() as int, at);
    let hashed = before + "#"@ + dec(id as int) + rest;
    assert(hashed.subrange(at, at + 1) =~= "#"@);
    assert(hashed.skip(at + 1) =~= dec(id as int) + rest);
    assert(hashed[at] == '#');
    if occurs_at(hashed, "task-"@, at) {
        assert(hashed.subrange(at, at + 5)[0] == hashed[at]);
        assert("task-"@[0] == 't');
    }
    lemma_ref_listed(hashed, hashed.len() as int, at);
}

/// After a commit has been matched, every task that its message refers to has it as evidence
/// and is associated with it, as long as keys are left.
pub proof fn law_named_tasks_have_commit(
    s: StoreView,
    ids: Seq<i64>,
    hash: Seq<char>,
    message: Seq<char>,
    now: Seq<char>,
    k: int,
)
    requires
        0 <= k < ids.len(),
        s.task_evidence.last_id + ids.len() <= i64::MAX,
        s.commit_task_matches.last_id + ids.len() <= i64::MAX,
    ensures
        crate::evidence::recorded(
            with_commit_for(s, ids, hash, message, now),
            ids[k],
            "commit_hash"@,
        ),
        any(
            with_commit_for(s, ids, hash, message, now).commit_task_matches.rows,
            commit_is(ids[k], hash),
        ),
    decreases ids.len(),
{
    let short = ids.drop_last();
    let before = with_commit_for(s, short, hash, message, now);
    let n = with_commit_for(s, ids, hash, message, now);
    lemma_commit_room(s, short, hash, message, now);
    let c = with_commit(before, ids.last(), hash, message, now);
    crate::evidence::law_evidence_is_kept(
        c,
        ids.last(),
        "commit_hash"@,
        hash,
        message,
        0,
        now,
        ids[k],
        "commit_hash"@,
    );
    crate::evidence::law_commit_match_idempotent(
        before,
        ids.last(),
        hash,
        message,
        now,
        message,
        now,
    );
    if k < short.len() {
        law_named_tasks_have_commit(s, short, hash, message, now, k);
        let p = commit_is(ids[k], hash);
        let i = choose|i: int|
            0 <= i < before.commit_task_matches.rows.len() && p(
                #[trigger] before.commit_task_matches.rows[i],
            );
        assert(p(n.commit_task_matches.rows[i]));
    }
}

proof fn lemma_commit_room(
    s: StoreView,
    ids: Seq<i64>,
    hash: Seq<char>,
    message: Seq<char>,
    now: Seq<char>,
)
    requires
        s.task_evidence.last_id + ids.len() <= i64::MAX,
        s.commit_task_matches.last_id + ids.len() <= i64::MAX,
    ensures
        with_commit_for(s, ids, hash, message, now).task_evidence.last_id <= s.task_evidence.last_id
            + ids.len(),
        with_commit_for(s, ids, hash, message, now).commit_task_matches.last_id
            <= s.commit_task_matches.last_id + ids.len(),
    decreases ids.len(),
{
    if ids.len() > 0 {
        lemma_commit_room(s, ids.drop_last(), hash, message, now);
    }
}

/// A look at a wave, over the rows. The wave is complete exactly where it has a task and every
/// task of it is done, skipped or cancelled. A complete wave is marked, no other wave changes, and
/// the wave is queued for validation where it was not.
pub proof fn law_wave_completion_over_rows(s: StoreView, k: int)
    requires
        sound(s),
        0 <= k < s.waves.rows.len(),
        s.validation_queue.last_id < i64::MAX,
    ensures
        ({
            let w = s.waves.rows[k];
            let n = after_completion(s, w.id);
            let tasks = s.tasks.rows;
            let queue = s.validation_queue.rows;
            let complete = (exists|i: int|
                0 <= i < tasks.len() && (#[trigger] tasks[i]).wave_id == Some(w.id)) && forall|
                i: int,
            |
                0 <= i < tasks.len() && (#[trigger] tasks[i]).wave_id == Some(w.id)
                    ==> tasks[i].status == "done"@ || tasks[i].status == "skipped"@
                    || tasks[i].status == "cancelled"@;
            let queued = exists|q: int|
                0 <= q < queue.len() && (#[trigger] queue[q]).wave_id == Some(w.id)
                    && queue[q].plan_id == Some(w.plan_id);
            &&& completion_answer(s, w.id) == Ok::<bool, Seq<char>>(complete)
            &&& !complete ==> n == s
            &&& complete ==> {
                &&& n == (StoreView {
                    waves: n.waves,
                    validation_queue: n.validation_queue,
                    ..s
                })
                &&& n.waves.last_id == s.waves.last_id
                &&& n.waves.rows == s.waves.rows.update(
                    k,
                    WaveRowView { status: "completed"@, ..w },
                )
                &&& queued ==> n.validation_queue == s.validation_queue
                &&& !queued ==> {
                    let q = n.validation_queue.rows.last();
                    &&& n.validation_queue.last_id == s.validation_queue.last_id + 1
                    &&& n.validation_queue.rows.drop_last() == queue
                    &&& q.id == s.validation_queue.last_id + 1
                    &&& q.task_id is None && q.wave_id == Some(w.id) && q.plan_id == Some(
                        w.plan_id,
                    )
                    &&& q.status == "pending"@
                }
            }
        }),
{
    let w = s.waves.rows[k];
    let n = after_completion(s, w.id);
    let tasks = s.tasks.rows;
    let queue = s.validation_queue.rows;
    let marked = with_wave_completed(s, w.id);
    assert(any(tasks, in_wave(w.id)) <==> exists|i: int|
        0 <= i < tasks.len() && (#[trigger] tasks[i]).wave_id == Some(w.id));
    assert(!any(tasks, open_in_wave(w.id)) <==> forall|i: int|
        0 <= i < tasks.len() && (#[trigger] tasks[i]).wave_id == Some(w.id) ==> tasks[i].status
            == "done"@ || tasks[i].status == "skipped"@ || tasks[i].status == "cancelled"@);
    assert(any(queue, wave_queued(w.id, w.plan_id)) <==> exists|q: int|
        0 <= q < queue.len() && (#[trigger] queue[q]).wave_id == Some(w.id) && queue[q].plan_id
            == Some(w.plan_id));
    assert forall|j: int| 0 <= j < s.waves.rows.len() && j != k implies (
    #[trigger] s.waves.rows[j]).id != w.id by {
        assert(WaveRow::key(s.waves.rows[j]) == s.waves.rows[j].id);
        assert(WaveRow::key(s.waves.rows[k]) == w.id);
    }
    assert(marked.waves.rows =~= s.waves.rows.update(
        k,
        WaveRowView { status: "completed"@, ..w },
    ));
    crate::table::lemma_first_place(marked.waves.rows, wave_is(w.id));
    assert(wave_is(w.id)(marked.waves.rows[k]));
    if wave_complete(s, w.id) && !any(queue, wave_queued(w.id, w.plan_id)) {
        assert(n.validation_queue.rows.drop_last() =~= queue);
    }
}

/// What is left of a look at each of some waves: the tasks, and every wave that is not among them.
proof fn lemma_after_completions(s: StoreView, ids: Seq<i64>, k: int)
    requires
        sound(s),
        0 <= k < s.waves.rows.len(),
    ensures
        ({
            let n = after_completions(s, ids);
            let w = s.waves.rows[k];
            &&& n.tasks == s.tasks
            &&& n.waves.last_id == s.waves.last_id
            &&& n.waves.rows.len() == s.waves.rows.len()
            &&& n.waves.rows[k] == if ids.contains(w.id) && wave_complete(s, w.id) {
                WaveRowView { status: "completed"@, ..w }
            } else {
                w
            }
        }),
    decreases ids.len(),
{
    if ids.len() > 0 {
        let before = ids.drop_last();
        lemma_after_completions(s, before, k);
        let m = after_completions(s, before);
        let w = s.waves.rows[k];
        assert(ids.contains(w.id) <==> before.contains(w.id) || ids.last() == w.id) by {
            assert(ids =~= before.push(ids.last()));
            if before.contains(w.id) {
                let j = choose|j: int| 0 <= j < before.len() && before[j] == w.id;
                assert(ids[j] == w.id);
            }
            if ids.last() == w.id {
                assert(ids[ids.len() - 1] == w.id);
            }
        }
    }
}

/// A look at all waves marks exactly those complete that were active or pending and have tasks,
/// all of which are done, skipped or cancelled. No other wave and no task changes.
pub proof fn law_active_waves_over_rows(s: StoreView, k: int)
    requires
        sound(s),
        0 <= k < s.waves.rows.len(),
    ensures
        ({
            let n = after_completions(s, keys::<WaveRow>(s.waves.rows.filter(may_complete())));
            let w = s.waves.rows[k];
            let tasks = s.tasks.rows;
            &&& n.tasks == s.tasks
            &&& n.waves.rows.len() == s.waves.rows.len()
            &&& n.waves.rows[k] == if (w.status == "active"@ || w.status == "pending"@) && (exists|
                i: int,
            |
                0 <= i < tasks.len() && (#[trigger] tasks[i]).wave_id == Some(w.id)) && (forall|
                i: int,
            |
                0 <= i < tasks.len() && (#[trigger] tasks[i]).wave_id == Some(w.id)
                    ==> tasks[i].status == "done"@ || tasks[i].status == "skipped"@
                    || tasks[i].status == "cancelled"@) {
                WaveRowView { status: "completed"@, ..w }
            } else {
                w
            }
        }),
{
    let w = s.waves.rows[k];
    let tasks = s.tasks.rows;
    let ids = keys::<WaveRow>(s.waves.rows.filter(may_complete()));
    lemma_after_completions(s, ids, k);
    crate::table::lemma_kept_keys::<WaveRow>(s.waves.rows, may_complete(), w.id);
    assert(WaveRow::key(w) == w.id);
    assert(any(tasks, in_wave(w.id)) <==> exists|i: int|
        0 <= i < tasks.len() && (#[trigger] tasks[i]).wave_id == Some(w.id));
    assert(!any(tasks, open_in_wave(w.id)) <==> forall|i: int|
        0 <= i < tasks.len() && (#[trigger] tasks[i]).wave_id == Some(w.id) ==> tasks[i].status
            == "done"@ || tasks[i].status == "skipped"@ || tasks[i].status == "cancelled"@);
    assert(ids.contains(w.id) <==> w.status == "active"@ || w.status == "pending"@) by {
        if may_complete()(w) {
            assert(may_complete()(s.waves.rows[k]) && WaveRow::key(s.waves.rows[k]) == w.id);
        }
    }
}

/// The tasks that a search finds are exactly those that are in progress since before the age, in
/// minutes, and that no unresolved note is about.
pub proof fn law_stale_over_rows(s: StoreView, i: int, max_age_minutes: i64, now: i64)
    requires
        sound(s),
        0 <= i < s.tasks.rows.len(),
    ensures
        ({
            let t = s.tasks.rows[i];
            let notes = s.stale_task_notifications.rows;
            titled(s.tasks.rows.filter(newly_stale(s, max_age_minutes, now))).contains(
                (t.id, t.title),
            ) <==> {
                &&& t.status == "in_progress"@
                &&& t.started_at is Some && now - t.started_at->0 > max_age_minutes * 60
                &&& forall|k: int|
                    0 <= k < notes.len() && (#[trigger] notes[k]).task_id == t.id
                        ==> notes[k].resolved
            }
        }),
{
    let t = s.tasks.rows[i];
    let rows = s.tasks.rows;
    let notes = s.stale_task_notifications.rows;
    let p = newly_stale(s, max_age_minutes, now);
    let f = rows.filter(p);
    crate::table::lemma_kept(rows, p);
    assert(any(notes, unresolved(t.id)) <==> !(forall|k: int|
        0 <= k < notes.len() && (#[trigger] notes[k]).task_id == t.id ==> notes[k].resolved));
    if titled(f).contains((t.id, t.title)) {
        let k = choose|k: int| 0 <= k < titled(f).len() && titled(f)[k] == (t.id, t.title);
        assert(p(f[k]) && rows.contains(f[k]));
        let j = choose|j: int| 0 <= j < rows.len() && rows[j] == f[k];
        assert(TaskRow::key(rows[j]) == TaskRow::key(rows[i]));
        assert(j == i);
    }
    if p(t) {
        assert(f.contains(rows[i]));
        let k = choose|k: int| 0 <= k < f.len() && f[k] == rows[i];
        assert(titled(f)[k] == (t.id, t.title));
    }
}

/// A note on a stale task carries the task, the reason and the time and is open; one that is
/// there is renewed in place, and notes on other tasks or for other reasons stay as they are.
pub proof fn law_notes_over_rows(
    notes: TableView<StaleNoticeView>,
    task_id: i64,
    now: Seq<char>,
    j: int,
)
    requires
        0 <= j < notes.rows.len(),
        notes.last_id < i64::MAX,
    ensures
        ({
            let n = with_notice(notes, task_id, now);
            let r = notes.rows[j];
            let there = exists|k: int|
                0 <= k < notes.rows.len() && (#[trigger] notes.rows[k]).task_id == task_id
                    && notes.rows[k].reason == "stale_in_progress"@;
            &&& n.rows[j] == if r.task_id == task_id && r.reason == "stale_in_progress"@ {
                StaleNoticeView { notified_at: now, resolved: false, ..r }
            } else {
                r
            }
            &&& there ==> n.rows.len() == notes.rows.len() && n.last_id == notes.last_id
            &&& !there ==> {
                let a = n.rows.last();
                &&& n.rows.drop_last() == notes.rows
                &&& n.last_id == notes.last_id + 1
                &&& a.id == notes.last_id + 1 && a.task_id == task_id && a.reason
                    == "stale_in_progress"@ && a.notified_at == now && !a.resolved
            }
        }),
{
    let n = with_notice(notes, task_id, now);
    assert(any(notes.rows, noted(task_id)) <==> exists|k: int|
        0 <= k < notes.rows.len() && (#[trigger] notes.rows[k]).task_id == task_id
            && notes.rows[k].reason == "stale_in_progress"@);
    if !any(notes.rows, noted(task_id)) {
        assert(n.rows.drop_last() =~= notes.rows);
        assert(!noted(task_id)(notes.rows[j]));
    }
}

/// To resolve the notes on a task resolves every note on it, and nothing else changes.
pub proof fn law_resolving_over_rows(s: StoreView, task_id: i64, j: int)
    requires
        0 <= j < s.stale_task_notifications.rows.len(),
    ensures
        ({
            let n = with_resolved(s, task_id);
            let r = s.stale_task_notifications.rows[j];
            &&& n == (StoreView { stale_task_notifications: n.stale_task_notifications, ..s })
            &&& n.stale_task_notifications.last_id == s.stale_task_notifications.last_id
            &&& n.stale_task_notifications.rows.len() == s.stale_task_notifications.rows.len()
            &&& n.stale_task_notifications.rows[j] == (StaleNoticeView {
                resolved: r.resolved || r.task_id == task_id,
                ..r
            })
        }),
{
}

/// A reference before a place stands at some place before it, and the other way round.
proof fn lemma_refs_before(s: Seq<char>, n: int, id: i64)
    ensures
        task_refs_before(s, n).contains(id) <==> exists|i: int|
            0 <= i < n && #[trigger] task_ref_at(s, i) == Some(id),
    decreases n,
{
    if n > 0 {
        lemma_refs_before(s, n - 1, id);
        let before = task_refs_before(s, n - 1);
        let all = task_refs_before(s, n);
        match task_ref_at(s, n - 1) {
            Some(x) => {
                assert(all == before.push(x));
                assert(all.contains(id) <==> before.contains(id) || x == id) by {
                    if before.contains(id) {
                        let k = choose|k: int| 0 <= k < before.len() && before[k] == id;
                        assert(all[k] == id);
                    }
                    if x == id {
                        assert(all[before.len() as int] == id);
                    }
                }
            },
            None => {},
        }
    }
}

/// A text refers to a task exactly where `task-` or `#` stands in it with the number right behind.
/// That number goes as far as its digits do, behind a sign where there is one.
pub proof fn law_references_over_places(s: Seq<char>, id: i64)
    ensures
        task_refs(s).contains(id) <==> exists|i: int|
            0 <= i < s.len() && (#[trigger] occurs_at(s, "task-"@, i) && leading_number(
                s.skip(i + 5),
            ) == Some(id) || occurs_at(s, "#"@, i) && leading_number(s.skip(i + 1)) == Some(id)),
        exists|n: int|
            {
                &&& 0 <= n <= s.len()
                &&& leading_number(s) == parsed_i64(#[trigger] s.take(n))
                &&& n > 0 ==> '0' <= s[n - 1] <= '9' && ('0' <= s[0] <= '9' || s[0] == '-' || s[0]
                    == '+')
                &&& forall|k: int| 0 < k < n ==> '0' <= #[trigger] s[k] <= '9'
                &&& 0 < n < s.len() ==> !('0' <= s[n] <= '9')
                &&& n == 0 && s.len() > 0 ==> !('0' <= s[0] <= '9')
                &&& n == 0 && s.len() > 1 && (s[0] == '-' || s[0] == '+') ==> !('0' <= s[1] <= '9')
            },
{
    lemma_refs_before(s, s.len() as int, id);
    reveal_strlit("task-");
    reveal_strlit("#");
    assert("task-"@.len() == 5 && "task-"@[0] == 't');
    assert("#"@.len() == 1 && "#"@[0] == '#');
    assert forall|i: int| 0 <= i < s.len() implies (#[trigger] task_ref_at(s, i) == Some(id)
        <==> occurs_at(s, "task-"@, i) && leading_number(s.skip(i + 5)) == Some(id) || occurs_at(
        s,
        "#"@,
        i,
    ) && leading_number(s.skip(i + 1)) == Some(id)) by {
        if occurs_at(s, "task-"@, i) && occurs_at(s, "#"@, i) {
            assert(s.subrange(i, i + 5)[0] == s[i]);
            assert(s.subrange(i, i + 1)[0] == s[i]);
        }
    }
    if exists|i: int| 0 <= i < s.len() && #[trigger] task_ref_at(s, i) == Some(id) {
        let i = choose|i: int| 0 <= i < s.len() && #[trigger] task_ref_at(s, i) == Some(id);
        assert(occurs_at(s, "task-"@, i) || occurs_at(s, "#"@, i));
    }
    if exists|i: int|
        0 <= i < s.len() && (#[trigger] occurs_at(s, "task-"@, i) && leading_number(s.skip(i + 5))
            == Some(id) || occurs_at(s, "#"@, i) && leading_number(s.skip(i + 1)) == Some(id)) {
        let i = choose|i: int|
            0 <= i < s.len() && (#[trigger] occurs_at(s, "task-"@, i) && leading_number(
                s.skip(i + 5),
            ) == Some(id) || occurs_at(s, "#"@, i) && leading_number(s.skip(i + 1)) == Some(id));
        assert(task_ref_at(s, i) == Some(id));
    }
    let n = number_len(s) as int;
    let sign: int = if s.len() > 0 && (s[0] == '-' || s[0] == '+') {
        1
    } else {
        0
    };
    let rest = s.skip(sign);
    lemma_digits_run(rest);
    let d = run(rest, |c: char| is_digit(c)) as int;
    assert forall|k: int| 0 <= k < d implies '0' <= #[trigger] s[sign + k] <= '9' by {
        assert(rest[k] == s[sign + k]);
    }
    assert forall|k: int| 0 < k < n implies '0' <= #[trigger] s[k] <= '9' by {
        assert(s[sign + (k - sign)] == s[k]);
    }
    if d > 0 {
        assert(s[sign + (d - 1)] == s[n - 1]);
        assert(s[sign + 0] == s[sign]);
    }
    if d < rest.len() {
        assert(rest[d] == s[sign + d]);
    }
    assert(leading_number(s) == parsed_i64(s.take(n)));
}

/// A run of digits holds digits only, and no digit stands behind it.
proof fn lemma_digits_run(s: Seq<char>)
    ensures
        ({
            let d = run(s, |c: char| is_digit(c)) as int;
            &&& 0 <= d <= s.len()
            &&& forall|k: int| 0 <= k < d ==> is_digit(#[trigger] s[k])
            &&& d < s.len() ==> !is_digit(s[d])
        }),
    decreases s.len(),
{
    if s.len() > 0 && is_digit(s[0]) {
        let t = s.skip(1);
        lemma_digits_run(t);
        let d = run(t, |c: char| is_digit(c)) as int;
        assert forall|k: int| 0 <= k < d + 1 implies is_digit(#[trigger] s[k]) by {
            if k > 0 {
                assert(t[k - 1] == s[k]);
            }
        }
        if d < t.len() {
            assert(t[d] == s[d + 1]);
        }
    }
}

/// Of the tasks that a message refers to those are taken that are there, in their order.
pub proof fn law_named_tasks_are_there(s: StoreView, ids: Seq<i64>)
    ensures
        named_tasks(s, ids) == ids.filter(
            |id: i64|
                exists|k: int|
                    0 <= k < s.tasks.rows.len() && (#[trigger] s.tasks.rows[k]).id == id,
        ),
    decreases ids.len(),
{
    let p = |id: i64|
        exists|k: int| 0 <= k < s.tasks.rows.len() && (#[trigger] s.tasks.rows[k]).id == id;
    reveal(Seq::filter);
    if ids.len() > 0 {
        law_named_tasks_are_there(s, ids.drop_last());
        crate::evidence::law_evidence_over_rows(s, ids.last(), Seq::empty(), 0);
    }
}

/// The evidence of a commit has its type, the hash as the command, the message as the summary and
/// the exit code of success.
pub proof fn law_commit_evidence_over_rows(
    s: StoreView,
    task_id: i64,
    hash: Seq<char>,
    message: Seq<char>,
    now: Seq<char>,
)
    requires
        s.task_evidence.last_id < i64::MAX,
    ensures
        ({
            let n = with_commit_evidence(s, task_id, hash, message, now);
            let r = n.task_evidence.rows.last();
            &&& n.commit_task_matches == with_commit(
                s,
                task_id,
                hash,
                message,
                now,
            ).commit_task_matches
            &&& n.task_evidence.rows.drop_last() == s.task_evidence.rows
            &&& n.task_evidence.last_id == s.task_evidence.last_id + 1
            &&& r.id == s.task_evidence.last_id + 1 && r.task_id == task_id && r.evidence_type
                == "commit_hash"@ && r.command == hash && r.output_summary == message
                && r.exit_code == 0 && r.created_at == now
        }),
{
    let n = with_commit_evidence(s, task_id, hash, message, now);
    assert(n.task_evidence.rows.drop_last() =~= s.task_evidence.rows);
}

/// A look at a wave fails where all its tasks are done, skipped or cancelled and the wave itself is
/// not there, or where it is to be queued and no key is left.
pub proof fn law_failed_looks(s: StoreView, wave_id: i64, i: int)
    requires
        0 <= i < s.tasks.rows.len(),
        s.tasks.rows[i].wave_id == Some(wave_id),
        forall|j: int|
            0 <= j < s.tasks.rows.len() && (#[trigger] s.tasks.rows[j]).wave_id == Some(wave_id)
                ==> s.tasks.rows[j].status == "done"@ || s.tasks.rows[j].status == "skipped"@
                || s.tasks.rows[j].status == "cancelled"@,
    ensures
        (forall|k: int| 0 <= k < s.waves.rows.len() ==> (#[trigger] s.waves.rows[k]).id != wave_id)
            ==> completion_answer(s, wave_id) == Err::<bool, Seq<char>>(
            "wave lookup failed: Query returned no rows"@,
        ),
        (exists|k: int| 0 <= k < s.waves.rows.len() && (#[trigger] s.waves.rows[k]).id == wave_id)
            && s.validation_queue.last_id == i64::MAX && (forall|q: int|
            0 <= q < s.validation_queue.rows.len() ==> (
            #[trigger] s.validation_queue.rows[q]).wave_id != Some(wave_id)) ==> completion_answer(
            s,
            wave_id,
        ) == Err::<bool, Seq<char>>("enqueue validation failed: database or disk is full"@),
{
    let n = with_wave_completed(s, wave_id);
    assert(in_wave(wave_id)(s.tasks.rows[i]));
    assert(!any(s.tasks.rows, open_in_wave(wave_id)));
    crate::table::lemma_first_place(n.waves.rows, wave_is(wave_id));
    assert forall|k: int| 0 <= k < s.waves.rows.len() implies n.waves.rows[k].id == (
    #[trigger] s.waves.rows[k]).id by {}
    if exists|k: int| 0 <= k < s.waves.rows.len() && (#[trigger] s.waves.rows[k]).id == wave_id {
        let k = choose|k: int|
            0 <= k < s.waves.rows.len() && (#[trigger] s.waves.rows[k]).id == wave_id;
        assert(wave_is(wave_id)(n.waves.rows[k]));
    }
    if first(n.waves.rows, wave_is(wave_id)) is Some {
        let r = first(n.waves.rows, wave_is(wave_id))->0;
        let k = choose|k: int|
            0 <= k < n.waves.rows.len() && #[trigger] n.waves.rows[k] == r && wave_is(wave_id)(r);
        assert(s.waves.rows[k].id == wave_id);
    }
}

/// What is handed out of a search is each stale task's key and title.
pub proof fn law_listed_stale_tasks(list: Seq<(i64, String)>, rows: Seq<TaskRowView>, i: int)
    requires
        pairs(list) == titled(rows),
        0 <= i < rows.len(),
    ensures
        list.len() == rows.len(),
        list[i].0 == rows[i].id,
        list[i].1@ == rows[i].title,
{
    assert(pairs(list).len() == list.len());
    assert(pairs(list)[i] == titled(rows)[i]);
}

} // verus!
