//! Evidence recording and querying.
//!
//! "Done" must be backed by verifiable evidence, not just posted.

use crate::rows::{TaskRow, TaskRowView};
use crate::store::{sound, Store, StoreView};
use crate::table::{any, any_where, appended, full, select_where};
use crate::text::{cat3, dec, dec_i64, same};
use crate::types::{
    CommitTaskMatch, CommitTaskMatchView, EvidenceKind, EvidenceRecord, EvidenceRecordView,
};
use vstd::prelude::*;

verus! {

/// The task with the given id.
pub open spec fn task_is(task_id: i64) -> spec_fn(TaskRowView) -> bool {
    |t: TaskRowView| t.id == task_id
}

/// Whether there is a task with the given id.
pub open spec fn task_exists(s: StoreView, task_id: i64) -> bool {
    any(s.tasks.rows, task_is(task_id))
}

/// The evidence of a task.
pub open spec fn evidence_of(task_id: i64) -> spec_fn(EvidenceRecordView) -> bool {
    |e: EvidenceRecordView| e.task_id == task_id
}

/// The evidence of a task that is of the given type.
pub open spec fn evidence_typed(task_id: i64, kind: Seq<char>) -> spec_fn(
    EvidenceRecordView,
) -> bool {
    |e: EvidenceRecordView| e.task_id == task_id && e.evidence_type == kind
}

/// Whether a task has evidence of the given type.
pub open spec fn recorded(s: StoreView, task_id: i64, kind: Seq<char>) -> bool {
    any(s.task_evidence.rows, evidence_typed(task_id, kind))
}

/// The store with one more piece of evidence.
pub open spec fn with_evidence(
    s: StoreView,
    task_id: i64,
    kind: Seq<char>,
    command: Seq<char>,
    output_summary: Seq<char>,
    exit_code: i64,
    now: Seq<char>,
) -> StoreView {
    StoreView {
        task_evidence: appended(
            s.task_evidence,
            EvidenceRecordView {
                id: (s.task_evidence.last_id + 1) as i64,
                task_id,
                evidence_type: kind,
                command,
                output_summary,
                exit_code,
                created_at: now,
            },
        ),
        ..s
    }
}

/// Why evidence is not recorded, where it is not.
pub open spec fn evidence_refusal(s: StoreView, task_id: i64, kind: Seq<char>) -> Option<
    Seq<char>,
> {
    if EvidenceKind::of_text(kind) is None {
        Some("unknown evidence_type '"@ + kind + "'"@)
    } else if !task_exists(s, task_id) {
        Some("task "@ + dec(task_id as int) + " not found"@)
    } else if full(s.task_evidence) {
        Some("insert evidence failed: database or disk is full"@)
    } else {
        None
    }
}

/// Whether there is a task with the given id.
pub fn has_task(db: &Store, task_id: i64) -> (r: bool)
    ensures
        r == task_exists(db@, task_id),
{
    any_where(
        &db.tasks.rows,
        |t: &TaskRow| -> (b: bool) ensures b == (t@.id == task_id) { t.id == task_id },
        Ghost(task_is(task_id)),
    )
}

/// Puts one more piece of evidence into its table. The caller has seen that a key is left.
pub fn insert_evidence(
    db: &mut Store,
    task_id: i64,
    evidence_type: &str,
    command: &str,
    output_summary: &str,
    exit_code: i64,
    now: &str,
) -> (id: i64)
    requires
        !full(old(db)@.task_evidence),
    ensures
        id == old(db)@.task_evidence.last_id + 1,
        final(db)@ == with_evidence(
            old(db)@,
            task_id,
            evidence_type@,
            command@,
            output_summary@,
            exit_code,
            now@,
        ),
        sound(old(db)@) ==> sound(final(db)@),
{
    let id: i64 = db.task_evidence.last_id + 1;
    db.task_evidence.append(
        EvidenceRecord {
            id,
            task_id,
            evidence_type: evidence_type.to_owned(),
            command: command.to_owned(),
            output_summary: output_summary.to_owned(),
            exit_code,
            created_at: now.to_owned(),
        },
    );
    id
}

/// Records evidence for a task. The type must be a known one.
pub fn record_evidence(
    db: &mut Store,
    task_id: i64,
    evidence_type: &str,
    command: &str,
    output_summary: &str,
    exit_code: i64,
    now: &str,
) -> (r: Result<i64, String>)
    ensures
        match evidence_refusal(old(db)@, task_id, evidence_type@) {
            Some(why) => r is Err && r->Err_0@ == why && final(db)@ == old(db)@,
            None => {
                &&& r == Ok::<i64, String>((old(db)@.task_evidence.last_id + 1) as i64)
                &&& final(db)@ == with_evidence(
                    old(db)@,
                    task_id,
                    evidence_type@,
                    command@,
                    output_summary@,
                    exit_code,
                    now@,
                )
            },
        },
        sound(old(db)@) ==> sound(final(db)@),
{
    if EvidenceKind::parse(evidence_type).is_none() {
        return Err(cat3("unknown evidence_type '", evidence_type, "'"));
    }
    if !has_task(db, task_id) {
        return Err(cat3("task ", dec_i64(task_id).as_str(), " not found"));
    }
    if db.task_evidence.last_id == i64::MAX {
        return Err("insert evidence failed: database or disk is full".to_owned());
    }
    Ok(
        insert_evidence(
            db,
            task_id,
            evidence_type,
            command,
            output_summary,
            exit_code,
            now,
        ),
    )
}

/// Whether a task has at least one piece of evidence of the given type.
pub fn has_evidence(db: &Store, task_id: i64, evidence_type: &str) -> (r: bool)
    ensures
        r == recorded(db@, task_id, evidence_type@),
{
    any_where(
        &db.task_evidence.rows,
        |e: &EvidenceRecord| -> (b: bool) ensures b == (e@.task_id == task_id && e@.evidence_type == evidence_type@) { e.task_id == task_id && same(e.evidence_type.as_str(), evidence_type) },
        Ghost(evidence_typed(task_id, evidence_type@)),
    )
}

/// All evidence of a task, in the order of its recording.
pub fn list_evidence(db: &Store, task_id: i64) -> (r: Vec<EvidenceRecord>)
    ensures
        crate::table::views(r@) == db@.task_evidence.rows.filter(evidence_of(task_id)),
{
    select_where(
        &db.task_evidence.rows,
        |e: &EvidenceRecord| -> (b: bool) ensures b == (e@.task_id == task_id) { e.task_id == task_id },
        Ghost(evidence_of(task_id)),
    )
}

/// The association of a task with a commit.
pub open spec fn commit_is(task_id: i64, hash: Seq<char>) -> spec_fn(CommitTaskMatchView) -> bool {
    |m: CommitTaskMatchView| m.task_id == task_id && m.commit_hash == hash
}

/// The associations of a task with commits.
pub open spec fn commits_of(task_id: i64) -> spec_fn(CommitTaskMatchView) -> bool {
    |m: CommitTaskMatchView| m.task_id == task_id
}

/// The store in which the task is associated with the commit. Where it was, nothing changes.
pub open spec fn with_commit(
    s: StoreView,
    task_id: i64,
    hash: Seq<char>,
    message: Seq<char>,
    now: Seq<char>,
) -> StoreView {
    if any(s.commit_task_matches.rows, commit_is(task_id, hash)) || full(s.commit_task_matches) {
        s
    } else {
        StoreView {
            commit_task_matches: appended(
                s.commit_task_matches,
                CommitTaskMatchView {
                    id: (s.commit_task_matches.last_id + 1) as i64,
                    task_id,
                    commit_hash: hash,
                    commit_message: message,
                    matched_at: now,
                },
            ),
            ..s
        }
    }
}

/// Associates a task with a commit. To do so again changes nothing.
pub fn record_commit_match(
    db: &mut Store,
    task_id: i64,
    commit_hash: &str,
    commit_message: &str,
    now: &str,
) -> (r: Result<(), String>)
    ensures
        final(db)@ == with_commit(old(db)@, task_id, commit_hash@, commit_message@, now@),
        r is Err <==> full(old(db)@.commit_task_matches) && !any(
            old(db)@.commit_task_matches.rows,
            commit_is(task_id, commit_hash@),
        ),
        r matches Err(e) ==> e@ == "record commit match failed: database or disk is full"@,
        sound(old(db)@) ==> sound(final(db)@),
{
    let known = any_where(
        &db.commit_task_matches.rows,
        |m: &CommitTaskMatch| -> (b: bool) ensures b == (m@.task_id == task_id && m@.commit_hash == commit_hash@) { m.task_id == task_id && same(m.commit_hash.as_str(), commit_hash) },
        Ghost(commit_is(task_id, commit_hash@)),
    );
    if known {
        return Ok(());
    }
    if db.commit_task_matches.last_id == i64::MAX {
        return Err("record commit match failed: database or disk is full".to_owned());
    }
    let id: i64 = db.commit_task_matches.last_id + 1;
    db.commit_task_matches.append(
        CommitTaskMatch {
            id,
            task_id,
            commit_hash: commit_hash.to_owned(),
            commit_message: commit_message.to_owned(),
            matched_at: now.to_owned(),
        },
    );
    Ok(())
}

/// The commits that a task is associated with, in the order of recording.
pub fn list_commit_matches(db: &Store, task_id: i64) -> (r: Vec<CommitTaskMatch>)
    ensures
        crate::table::views(r@) == db@.commit_task_matches.rows.filter(commits_of(task_id)),
{
    select_where(
        &db.commit_task_matches.rows,
        |m: &CommitTaskMatch| -> (b: bool) ensures b == (m@.task_id == task_id) { m.task_id == task_id },
        Ghost(commits_of(task_id)),
    )
}

/// Recorded evidence is there: the task has it, and its list ends with it. Other tasks,
/// and other types of the same task, have what they had.
pub proof fn law_evidence_is_kept(
    s: StoreView,
    task_id: i64,
    kind: Seq<char>,
    command: Seq<char>,
    output_summary: Seq<char>,
    exit_code: i64,
    now: Seq<char>,
    other: i64,
    other_kind: Seq<char>,
)
    ensures
        ({
            let n = with_evidence(s, task_id, kind, command, output_summary, exit_code, now);
            &&& recorded(n, task_id, kind)
            &&& n.task_evidence.rows.filter(evidence_of(task_id)) == s.task_evidence.rows.filter(
                evidence_of(task_id),
            ).push(n.task_evidence.rows.last())
            &&& other != task_id ==> n.task_evidence.rows.filter(evidence_of(other))
                == s.task_evidence.rows.filter(evidence_of(other))
            &&& (other != task_id || other_kind != kind) ==> recorded(n, other, other_kind)
                == recorded(s, other, other_kind)
        }),
{
    let n = with_evidence(s, task_id, kind, command, output_summary, exit_code, now);
    let old_rows = s.task_evidence.rows;
    let rows = n.task_evidence.rows;
    assert(rows.drop_last() =~= old_rows);
    reveal(Seq::filter);
    assert(evidence_typed(task_id, kind)(rows[rows.len() - 1]));
    if other != task_id || other_kind != kind {
        let p = evidence_typed(other, other_kind);
        if any(rows, p) {
            let i = choose|i: int| 0 <= i < rows.len() && p(#[trigger] rows[i]);
            assert(p(old_rows[i]));
        }
        if any(old_rows, p) {
            let i = choose|i: int| 0 <= i < old_rows.len() && p(#[trigger] old_rows[i]);
            assert(p(rows[i]));
        }
    }
}

/// Once recorded, evidence stays, whatever is recorded afterwards.
pub proof fn law_evidence_stays(
    s: StoreView,
    task_id: i64,
    kind: Seq<char>,
    later_task: i64,
    later_kind: Seq<char>,
    command: Seq<char>,
    output_summary: Seq<char>,
    exit_code: i64,
    now: Seq<char>,
)
    requires
        recorded(s, task_id, kind),
    ensures
        recorded(
            with_evidence(s, later_task, later_kind, command, output_summary, exit_code, now),
            task_id,
            kind,
        ),
{
    law_evidence_is_kept(
        s,
        later_task,
        later_kind,
        command,
        output_summary,
        exit_code,
        now,
        task_id,
        kind,
    );
}

/// To record the same commit for the same task a second time changes nothing, whatever
/// the second message and time are, and the association is listed once.
pub proof fn law_commit_match_idempotent(
    s: StoreView,
    task_id: i64,
    hash: Seq<char>,
    message: Seq<char>,
    now: Seq<char>,
    message2: Seq<char>,
    now2: Seq<char>,
)
    ensures
        ({
            let once = with_commit(s, task_id, hash, message, now);
            with_commit(once, task_id, hash, message2, now2) == once
        }),
        !full(s.commit_task_matches) ==> any(
            with_commit(s, task_id, hash, message, now).commit_task_matches.rows,
            commit_is(task_id, hash),
        ),
{
    let once = with_commit(s, task_id, hash, message, now);
    let p = commit_is(task_id, hash);
    if !any(s.commit_task_matches.rows, p) && !full(s.commit_task_matches) {
        let rows = once.commit_task_matches.rows;
        assert(p(rows[rows.len() - 1]));
    }
}

/// A task has evidence of a type exactly where a row of the table says so, and its list holds
/// exactly the rows of the task. A task is there exactly where a row has its number.
pub proof fn law_evidence_over_rows(s: StoreView, task_id: i64, kind: Seq<char>, i: int)
    ensures
        recorded(s, task_id, kind) <==> exists|k: int|
            0 <= k < s.task_evidence.rows.len() && (#[trigger] s.task_evidence.rows[k]).task_id
                == task_id && s.task_evidence.rows[k].evidence_type == kind,
        task_exists(s, task_id) <==> exists|k: int|
            0 <= k < s.tasks.rows.len() && (#[trigger] s.tasks.rows[k]).id == task_id,
        0 <= i < s.task_evidence.rows.len() ==> (s.task_evidence.rows.filter(
            evidence_of(task_id),
        ).contains(s.task_evidence.rows[i]) <==> s.task_evidence.rows[i].task_id == task_id),
        0 <= i < s.commit_task_matches.rows.len() ==> (s.commit_task_matches.rows.filter(
            commits_of(task_id),
        ).contains(s.commit_task_matches.rows[i]) <==> s.commit_task_matches.rows[i].task_id
            == task_id),
{
    crate::table::lemma_kept(s.task_evidence.rows, evidence_of(task_id));
    crate::table::lemma_kept(s.commit_task_matches.rows, commits_of(task_id));
    let f = s.task_evidence.rows.filter(evidence_of(task_id));
    let g = s.commit_task_matches.rows.filter(commits_of(task_id));
    if 0 <= i < s.task_evidence.rows.len() && f.contains(s.task_evidence.rows[i]) {
        let k = choose|k: int| 0 <= k < f.len() && f[k] == s.task_evidence.rows[i];
        assert(evidence_of(task_id)(f[k]));
    }
    if 0 <= i < s.commit_task_matches.rows.len() && g.contains(s.commit_task_matches.rows[i]) {
        let k = choose|k: int| 0 <= k < g.len() && g[k] == s.commit_task_matches.rows[i];
        assert(commits_of(task_id)(g[k]));
    }
}

/// Recorded evidence is stored as it was given, behind all other and under the next key; nothing
/// else changes.
pub proof fn law_stored_evidence(
    s: StoreView,
    task_id: i64,
    kind: Seq<char>,
    command: Seq<char>,
    output_summary: Seq<char>,
    exit_code: i64,
    now: Seq<char>,
)
    requires
        s.task_evidence.last_id < i64::MAX,
    ensures
        ({
            let n = with_evidence(s, task_id, kind, command, output_summary, exit_code, now);
            let r = n.task_evidence.rows.last();
            &&& n == (StoreView { task_evidence: n.task_evidence, ..s })
            &&& n.task_evidence.rows.drop_last() == s.task_evidence.rows
            &&& n.task_evidence.last_id == s.task_evidence.last_id + 1
            &&& r.id == s.task_evidence.last_id + 1
            &&& r.task_id == task_id
            &&& r.evidence_type == kind
            &&& r.command == command
            &&& r.output_summary == output_summary
            &&& r.exit_code == exit_code
            &&& r.created_at == now
        }),
{
    let n = with_evidence(s, task_id, kind, command, output_summary, exit_code, now);
    assert(n.task_evidence.rows.drop_last() =~= s.task_evidence.rows);
}

/// Evidence is recorded exactly where its type is one of the eight known ones, its task is there
/// and a key is left.
pub proof fn law_when_evidence_is_recorded(s: StoreView, task_id: i64, kind: Seq<char>)
    ensures
        evidence_refusal(s, task_id, kind) is None <==> {
            &&& kind == "test_pass"@ || kind == "build_pass"@ || kind == "lint_pass"@ || kind
                == "commit_hash"@ || kind == "artifact"@ || kind == "curl_output"@ || kind
                == "review_pass"@ || kind == "document"@
            &&& exists|k: int|
                0 <= k < s.tasks.rows.len() && (#[trigger] s.tasks.rows[k]).id == task_id
            &&& s.task_evidence.last_id < i64::MAX
        },
{
    law_evidence_over_rows(s, task_id, kind, 0);
}

/// A commit that a task does not have yet is stored as it was given; one that it has, with the
/// same hash, changes nothing. A commit of another task or with another hash does not count.
pub proof fn law_stored_commit(
    s: StoreView,
    task_id: i64,
    hash: Seq<char>,
    message: Seq<char>,
    now: Seq<char>,
)
    ensures
        ({
            let n = with_commit(s, task_id, hash, message, now);
            let rows = s.commit_task_matches.rows;
            let known = exists|k: int|
                0 <= k < rows.len() && (#[trigger] rows[k]).task_id == task_id
                    && rows[k].commit_hash == hash;
            &&& known ==> n == s
            &&& !known && s.commit_task_matches.last_id < i64::MAX ==> {
                let r = n.commit_task_matches.rows.last();
                &&& n == (StoreView { commit_task_matches: n.commit_task_matches, ..s })
                &&& n.commit_task_matches.rows.drop_last() == rows
                &&& n.commit_task_matches.last_id == s.commit_task_matches.last_id + 1
                &&& r.id == s.commit_task_matches.last_id + 1
                &&& r.task_id == task_id && r.commit_hash == hash && r.commit_message == message
                    && r.matched_at == now
            }
        }),
{
    let n = with_commit(s, task_id, hash, message, now);
    let rows = s.commit_task_matches.rows;
    assert(any(rows, commit_is(task_id, hash)) <==> exists|k: int|
        0 <= k < rows.len() && (#[trigger] rows[k]).task_id == task_id && rows[k].commit_hash
            == hash);
    if !any(rows, commit_is(task_id, hash)) && s.commit_task_matches.last_id < i64::MAX {
        assert(n.commit_task_matches.rows.drop_last() =~= rows);
    }
}

/// Why evidence is refused, in the order in which it is looked at: an unknown type, a task that is
/// not there, no key left.
pub proof fn law_why_evidence_is_refused(s: StoreView, task_id: i64, kind: Seq<char>)
    ensures
        ({
            let known = kind == "test_pass"@ || kind == "build_pass"@ || kind == "lint_pass"@
                || kind == "commit_hash"@ || kind == "artifact"@ || kind == "curl_output"@ || kind
                == "review_pass"@ || kind == "document"@;
            let there = exists|k: int|
                0 <= k < s.tasks.rows.len() && (#[trigger] s.tasks.rows[k]).id == task_id;
            &&& !known ==> evidence_refusal(s, task_id, kind) == Some(
                "unknown evidence_type '"@ + kind + "'"@,
            )
            &&& known && !there ==> evidence_refusal(s, task_id, kind) == Some(
                "task "@ + dec(task_id as int) + " not found"@,
            )
            &&& known && there && s.task_evidence.last_id == i64::MAX ==> evidence_refusal(
                s,
                task_id,
                kind,
            ) == Some("insert evidence failed: database or disk is full"@)
        }),
{
    law_evidence_over_rows(s, task_id, kind, 0);
}

} // verus!
