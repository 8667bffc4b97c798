//! Challenger gate: an audit of a plan before it is closed.

use crate::evidence::evidence_of;
use crate::gates::{has_any_evidence, is_settled, settled};
use crate::rows::{TaskRow, TaskRowView, WaveRow, WaveRowView};
use crate::store::{Store, StoreView};
use crate::table::{any, any_where, count, count_where, lemma_count_any};
use crate::text::{cat2, dec, dec_usize, lemma_run, run, same, texts, to_chars};
use crate::types::{EvidenceRecord, EvidenceRecordView};
use vstd::prelude::*;

verus! {

/// The tasks of a wave.
pub open spec fn in_wave(wave_id: i64) -> spec_fn(TaskRowView) -> bool {
    |t: TaskRowView| t.wave_id == Some(wave_id)
}

/// The completed tasks of a wave.
pub open spec fn completed_in(wave_id: i64) -> spec_fn(TaskRowView) -> bool {
    |t: TaskRowView| t.wave_id == Some(wave_id) && completed(t.status)
}

/// The statuses of a task that has delivered.
pub open spec fn completed(status: Seq<char>) -> bool {
    status == "done"@ || status == "submitted"@
}

/// Waves of a plan without any task.
pub open spec fn orphan_wave(s: StoreView, plan_id: i64) -> spec_fn(WaveRowView) -> bool {
    |w: WaveRowView| w.plan_id == plan_id && !any(s.tasks.rows, in_wave(w.id))
}

/// Another task of the same wave that is not settled.
pub open spec fn open_sibling(t: TaskRowView) -> spec_fn(TaskRowView) -> bool {
    |o: TaskRowView|
        t.wave_id is Some && o.wave_id == t.wave_id && o.id != t.id && !settled(o.status)
}

/// Tasks of a plan that are pending while no sibling is open.
pub open spec fn limbo_task(s: StoreView, plan_id: i64) -> spec_fn(TaskRowView) -> bool {
    |t: TaskRowView|
        t.plan_id == plan_id && t.status == "pending"@ && !any(s.tasks.rows, open_sibling(t))
}

/// Waves of a plan that have tasks, none of which is completed.
pub open spec fn barren_wave(s: StoreView, plan_id: i64) -> spec_fn(WaveRowView) -> bool {
    |w: WaveRowView|
        w.plan_id == plan_id && any(s.tasks.rows, in_wave(w.id)) && !any(
            s.tasks.rows,
            completed_in(w.id),
        )
}

/// The lower case of an ASCII letter, and every other character itself.
pub open spec fn lower(c: char) -> char {
    if 'A' <= c <= 'Z' {
        ((c as u8 + 32) as u8) as char
    } else {
        c
    }
}

/// Whether a text matches the SQL pattern `%output_type%`: regardless of the case of ASCII
/// letters, and with any character where the underscore stands.
pub open spec fn claims_output(s: Seq<char>) -> bool {
    exists|i: int| claims_output_at(s, i)
}

/// Whether the pattern matches at a place.
pub open spec fn claims_output_at(s: Seq<char>, i: int) -> bool {
    &&& 0 <= i && i + 11 <= s.len()
    &&& lower(s[i]) == 'o' && lower(s[i + 1]) == 'u' && lower(s[i + 2]) == 't' && lower(s[i + 3])
        == 'p' && lower(s[i + 4]) == 'u' && lower(s[i + 5]) == 't'
    &&& lower(s[i + 7]) == 't' && lower(s[i + 8]) == 'y' && lower(s[i + 9]) == 'p' && lower(
        s[i + 10],
    ) == 'e'
}

/// A character that may stand between a name and its value.
pub open spec fn is_mark(c: char) -> bool {
    c == ' ' || c == ':' || c == '=' || c == '"' || c == '\'' || c == '`'
}

/// A character that goes on with a word.
pub open spec fn in_word(c: char) -> bool {
    'a' <= lower(c) <= 'z' || '0' <= c <= '9' || c == '_'
}

/// Whether a text is `pr`, or goes on behind it with another word.
pub open spec fn names_pr(s: Seq<char>) -> bool {
    s.len() >= 2 && lower(s[0]) == 'p' && lower(s[1]) == 'r' && (s.len() == 2 || !in_word(s[2]))
}

/// Whether a text says `output_type` at a place and names `pr` as its value.
pub open spec fn claims_pr_at(s: Seq<char>, i: int) -> bool {
    &&& claims_output_at(s, i)
    &&& {
        let rest = s.skip(i + 11);
        let marks = run(rest, |c: char| is_mark(c));
        marks > 0 && names_pr(rest.skip(marks as int))
    }
}

/// Whether a text claims a pull request as its output.
pub open spec fn claims_pr(s: Seq<char>) -> bool {
    exists|i: int| claims_pr_at(s, i)
}

/// The types of evidence that show a merge.
pub open spec fn shows_merge(kind: Seq<char>) -> bool {
    kind == "commit_hash"@ || kind == "commit"@ || kind == "pr_url"@
}

/// Evidence that what a task made was merged.
pub open spec fn merge_evidence(task_id: i64) -> spec_fn(EvidenceRecordView) -> bool {
    |e: EvidenceRecordView| e.task_id == task_id && shows_merge(e.evidence_type)
}

/// Whether what a task claims is shown by evidence: a pull request by evidence of a merge, and
/// any other output by evidence of any type.
pub open spec fn delivered(s: StoreView, task_id: i64, description: Seq<char>) -> bool {
    &&& claims_output(description) ==> any(s.task_evidence.rows, evidence_of(task_id))
    &&& claims_pr(description) ==> any(s.task_evidence.rows, merge_evidence(task_id))
}

/// Completed tasks of a plan that claim output which no evidence shows.
pub open spec fn undelivered_task(s: StoreView, plan_id: i64) -> spec_fn(TaskRowView) -> bool {
    |t: TaskRowView|
        t.plan_id == plan_id && completed(t.status) && (match t.description {
            Some(d) => !delivered(s, t.id, d),
            None => false,
        })
}

/// The finding for a number of offences, if there are any.
pub open spec fn finding(n: nat, what: Seq<char>) -> Seq<Seq<char>> {
    if n > 0 {
        seq![dec(n as int) + what]
    } else {
        Seq::empty()
    }
}

/// What the audit of a plan finds.
pub open spec fn findings(s: StoreView, plan_id: i64) -> Seq<Seq<char>> {
    finding(count(s.waves.rows, orphan_wave(s, plan_id)), " wave(s) have zero tasks (orphan)"@)
        + finding(
        count(s.tasks.rows, limbo_task(s, plan_id)),
        " task(s) stuck pending while wave siblings are done"@,
    ) + finding(
        count(s.waves.rows, barren_wave(s, plan_id)),
        " wave(s) have tasks but none completed"@,
    ) + finding(
        count(s.tasks.rows, undelivered_task(s, plan_id)),
        " task(s) claim output but have no delivery evidence"@,
    )
}

fn is_completed(status: &str) -> (r: bool)
    ensures
        r == completed(status@),
{
    same(status, "done") || same(status, "submitted")
}

fn wave_has_tasks(db: &Store, wave_id: i64) -> (r: bool)
    ensures
        r == any(db@.tasks.rows, in_wave(wave_id)),
{
    any_where(
        &db.tasks.rows,
        |t: &TaskRow| -> (b: bool) ensures b == in_wave(wave_id)(t@) {
            match t.wave_id {
                Some(w) => w == wave_id,
                None => false,
            }
        },
        Ghost(in_wave(wave_id)),
    )
}

fn wave_has_completed(db: &Store, wave_id: i64) -> (r: bool)
    ensures
        r == any(db@.tasks.rows, completed_in(wave_id)),
{
    any_where(
        &db.tasks.rows,
        |t: &TaskRow| -> (b: bool) ensures b == completed_in(wave_id)(t@) {
            (match t.wave_id {
                Some(w) => w == wave_id,
                None => false,
            }) && is_completed(t.status.as_str())
        },
        Ghost(completed_in(wave_id)),
    )
}

fn has_open_sibling(db: &Store, t: &TaskRow) -> (r: bool)
    ensures
        r == any(db@.tasks.rows, open_sibling(t@)),
{
    any_where(
        &db.tasks.rows,
        |o: &TaskRow| -> (b: bool) ensures b == open_sibling(t@)(o@) {
            (match (t.wave_id, o.wave_id) {
                (Some(a), Some(b)) => a == b,
                _ => false,
            }) && o.id != t.id && !is_settled(o.status.as_str())
        },
        Ghost(open_sibling(t@)),
    )
}

fn lower_case(c: char) -> (r: char)
    ensures
        r == lower(c),
{
    if 'A' <= c && c <= 'Z' {
        ((c as u8 + 32) as u8) as char
    } else {
        c
    }
}

fn output_claim_at(s: &Vec<char>, i: usize) -> (r: bool)
    ensures
        r == claims_output_at(s@, i as int),
{
    i < s.len() && s.len() - i >= 11 && lower_case(s[i]) == 'o' && lower_case(s[i + 1]) == 'u'
        && lower_case(s[i + 2]) == 't' && lower_case(s[i + 3]) == 'p' && lower_case(s[i + 4])
        == 'u' && lower_case(s[i + 5]) == 't' && lower_case(s[i + 7]) == 't' && lower_case(s[i + 8])
        == 'y' && lower_case(s[i + 9]) == 'p' && lower_case(s[i + 10]) == 'e'
}

/// Whether a text matches the SQL pattern `%output_type%`.
pub fn is_output_claim(text: &str) -> (r: bool)
    ensures
        r == claims_output(text@),
{
    let s = to_chars(text);
    let mut i: usize = 0;
    while i < s.len()
        invariant
            s@ == text@,
            i <= s@.len(),
            forall|k: int| 0 <= k < i ==> !claims_output_at(s@, k),
        decreases s@.len() - i,
    {
        if output_claim_at(&s, i) {
            return true;
        }
        i += 1;
    }
    assert forall|k: int| !claims_output_at(s@, k) by {
        if claims_output_at(s@, k) {
            assert(0 <= k < i);
        }
    }
    false
}

fn pr_claim_at(s: &Vec<char>, i: usize) -> (r: bool)
    ensures
        r == claims_pr_at(s@, i as int),
{
    if !output_claim_at(s, i) {
        return false;
    }
    let ghost rest = s@.skip(i + 11);
    let ghost p = |c: char| is_mark(c);
    assert(i + 11 <= s.len());
    let from: usize = i + 11;
    let mut k: usize = from;
    while k < s.len() && (s[k] == ' ' || s[k] == ':' || s[k] == '=' || s[k] == '"' || s[k] == '\''
        || s[k] == '`')
        invariant
            from <= k <= s@.len(),
            forall|j: int| from <= j < k ==> is_mark(#[trigger] s@[j]),
        decreases s@.len() - k,
    {
        k += 1;
    }
    proof {
        assert forall|j: int| 0 <= j < k - from implies p(#[trigger] rest[j]) by {
            assert(rest[j] == s@[from + j]);
        }
        lemma_run(rest, p, k - from);
        assert(rest.skip(k - from) =~= s@.skip(k as int));
    }
    k > from && s.len() - k >= 2 && lower_case(s[k]) == 'p' && lower_case(s[k + 1]) == 'r' && (s.len()
        - k == 2 || !goes_on(s[k + 2]))
}

fn goes_on(c: char) -> (r: bool)
    ensures
        r == in_word(c),
{
    let l = lower_case(c);
    ('a' <= l && l <= 'z') || ('0' <= c && c <= '9') || c == '_'
}

/// Whether a text claims a pull request as its output.
pub fn is_pr_claim(text: &str) -> (r: bool)
    ensures
        r == claims_pr(text@),
{
    let s = to_chars(text);
    let mut i: usize = 0;
    while i < s.len()
        invariant
            s@ == text@,
            i <= s@.len(),
            forall|k: int| 0 <= k < i ==> !claims_pr_at(s@, k),
        decreases s@.len() - i,
    {
        if pr_claim_at(&s, i) {
            return true;
        }
        i += 1;
    }
    assert forall|k: int| !claims_pr_at(s@, k) by {
        if claims_pr_at(s@, k) {
            assert(0 <= k < i);
        }
    }
    false
}

/// Whether evidence shows that what a task made was merged.
fn has_merge_evidence(db: &Store, task_id: i64) -> (r: bool)
    ensures
        r == any(db@.task_evidence.rows, merge_evidence(task_id)),
{
    any_where(
        &db.task_evidence.rows,
        |e: &EvidenceRecord| -> (b: bool) ensures b == merge_evidence(task_id)(e@) {
            e.task_id == task_id && (same(e.evidence_type.as_str(), "commit_hash") || same(
                e.evidence_type.as_str(),
                "commit",
            ) || same(e.evidence_type.as_str(), "pr_url"))
        },
        Ghost(merge_evidence(task_id)),
    )
}

/// Whether what a task claims is shown by evidence.
fn is_delivered(db: &Store, task_id: i64, description: &str) -> (r: bool)
    ensures
        r == delivered(db@, task_id, description@),
{
    (!is_output_claim(description) || has_any_evidence(db, task_id)) && (!is_pr_claim(description)
        || has_merge_evidence(db, task_id))
}

/// Notes a finding, if there is an offence.
fn note(out: &mut Vec<String>, n: usize, what: &str)
    ensures
        texts(final(out)@) == texts(old(out)@) + finding(n as nat, what@),
{
    if n > 0 {
        out.push(cat2(dec_usize(n).as_str(), what));
    }
    assert(texts(out@) =~= texts(old(out)@) + finding(n as nat, what@));
}

/// Runs the audit on a plan: whether it passes, and what was found.
pub fn challenge(db: &Store, plan_id: i64) -> (r: (bool, Vec<String>))
    ensures
        texts(r.1@) == findings(db@, plan_id),
        r.0 == (findings(db@, plan_id).len() == 0),
{
    let mut out: Vec<String> = Vec::new();
    let orphans: usize = count_where(
        &db.waves.rows,
        |w: &WaveRow| -> (b: bool) ensures b == orphan_wave(db@, plan_id)(w@) {
            w.plan_id == plan_id && !wave_has_tasks(db, w.id)
        },
        Ghost(orphan_wave(db@, plan_id)),
    );
    note(&mut out, orphans, " wave(s) have zero tasks (orphan)");
    let limbo: usize = count_where(
        &db.tasks.rows,
        |t: &TaskRow| -> (b: bool) ensures b == limbo_task(db@, plan_id)(t@) {
            t.plan_id == plan_id && same(t.status.as_str(), "pending") && !has_open_sibling(db, t)
        },
        Ghost(limbo_task(db@, plan_id)),
    );
    note(&mut out, limbo, " task(s) stuck pending while wave siblings are done");
    let barren: usize = count_where(
        &db.waves.rows,
        |w: &WaveRow| -> (b: bool) ensures b == barren_wave(db@, plan_id)(w@) {
            w.plan_id == plan_id && wave_has_tasks(db, w.id) && !wave_has_completed(db, w.id)
        },
        Ghost(barren_wave(db@, plan_id)),
    );
    note(&mut out, barren, " wave(s) have tasks but none completed");
    let undelivered: usize = count_where(
        &db.tasks.rows,
        |t: &TaskRow| -> (b: bool) ensures b == undelivered_task(db@, plan_id)(t@) {
            t.plan_id == plan_id && is_completed(t.status.as_str()) && (match &t.description {
                Some(d) => !is_delivered(db, t.id, d.as_str()),
                None => false,
            })
        },
        Ghost(undelivered_task(db@, plan_id)),
    );
    note(&mut out, undelivered, " task(s) claim output but have no delivery evidence");
    assert(texts(out@) =~= findings(db@, plan_id));
    assert(texts(out@).len() == out@.len());
    (out.len() == 0, out)
}

/// The verdict of an audit: what was found, and whether that is nothing.
pub struct ChallengeReport {
    pub plan_id: i64,
    pub challenger_verdict: &'static str,
    pub findings: Vec<String>,
}

/// The report on a plan.
pub fn challenge_report(db: &Store, plan_id: i64) -> (r: ChallengeReport)
    ensures
        r.plan_id == plan_id,
        r.challenger_verdict@ == if findings(db@, plan_id).len() == 0 {
            "pass"@
        } else {
            "fail"@
        },
        texts(r.findings@) == findings(db@, plan_id),
{
    let (pass, found) = challenge(db, plan_id);
    ChallengeReport {
        plan_id,
        challenger_verdict: if pass {
            "pass"
        } else {
            "fail"
        },
        findings: found,
    }
}

/// A plan passes exactly where no wave of it is without tasks, no task of it is stuck, every
/// wave of it has a completed task, and every completed task that claims output has evidence,
/// of a merge where it claims a pull request.
pub proof fn law_challenge(s: StoreView, plan_id: i64)
    ensures
        findings(s, plan_id).len() == 0 <==> {
            &&& !any(s.waves.rows, orphan_wave(s, plan_id))
            &&& !any(s.tasks.rows, limbo_task(s, plan_id))
            &&& !any(s.waves.rows, barren_wave(s, plan_id))
            &&& !any(s.tasks.rows, undelivered_task(s, plan_id))
        },
{
    lemma_count_any(s.waves.rows, orphan_wave(s, plan_id));
    lemma_count_any(s.tasks.rows, limbo_task(s, plan_id));
    lemma_count_any(s.waves.rows, barren_wave(s, plan_id));
    lemma_count_any(s.tasks.rows, undelivered_task(s, plan_id));
}

/// A plan passes, over the rows, exactly where
/// every wave of it has a task that is done or submitted,
/// every pending task of it has an open task beside it in its wave,
/// and every task of it that is done or submitted and claims output has evidence, of a merge where
/// it claims a pull request.
pub proof fn law_challenge_over_rows(s: StoreView, plan_id: i64)
    ensures
        ({
            let tasks = s.tasks.rows;
            let waves = s.waves.rows;
            let proofs = s.task_evidence.rows;
            findings(s, plan_id).len() == 0 <==> {
                &&& forall|k: int|
                    0 <= k < waves.len() && (#[trigger] waves[k]).plan_id == plan_id ==> exists|
                        i: int,
                    |
                        0 <= i < tasks.len() && (#[trigger] tasks[i]).wave_id == Some(waves[k].id)
                            && (tasks[i].status == "done"@ || tasks[i].status == "submitted"@)
                &&& forall|i: int|
                    0 <= i < tasks.len() && (#[trigger] tasks[i]).plan_id == plan_id
                        && tasks[i].status == "pending"@ ==> tasks[i].wave_id is Some && exists|
                        j: int,
                    |
                        0 <= j < tasks.len() && (#[trigger] tasks[j]).wave_id == tasks[i].wave_id
                            && tasks[j].id != tasks[i].id && tasks[j].status != "done"@
                            && tasks[j].status != "submitted"@ && tasks[j].status != "cancelled"@
                            && tasks[j].status != "skipped"@
                &&& forall|i: int|
                    0 <= i < tasks.len() && (#[trigger] tasks[i]).plan_id == plan_id && (
                    tasks[i].status == "done"@ || tasks[i].status == "submitted"@)
                        && tasks[i].description is Some ==> {
                        &&& claims_output(tasks[i].description->0) ==> exists|e: int|
                            0 <= e < proofs.len() && (#[trigger] proofs[e]).task_id == tasks[i].id
                        &&& claims_pr(tasks[i].description->0) ==> exists|e: int|
                            0 <= e < proofs.len() && (#[trigger] proofs[e]).task_id == tasks[i].id
                                && (proofs[e].evidence_type == "commit_hash"@
                                || proofs[e].evidence_type == "commit"@ || proofs[e].evidence_type
                                == "pr_url"@)
                    }
            }
        }),
{
    let tasks = s.tasks.rows;
    let waves = s.waves.rows;
    let proofs = s.task_evidence.rows;
    law_challenge(s, plan_id);
    let orphan = orphan_wave(s, plan_id);
    let barren = barren_wave(s, plan_id);
    let limbo = limbo_task(s, plan_id);
    let owing = undelivered_task(s, plan_id);
    let fruitful = |w: WaveRowView|
        exists|i: int|
            0 <= i < tasks.len() && (#[trigger] tasks[i]).wave_id == Some(w.id) && (tasks[i].status
                == "done"@ || tasks[i].status == "submitted"@);
    assert forall|k: int| 0 <= k < waves.len() && (#[trigger] waves[k]).plan_id == plan_id implies (
    orphan(waves[k]) || barren(waves[k]) <==> !fruitful(waves[k])) by {
        let w = waves[k].id;
        assert(any(tasks, completed_in(w)) <==> fruitful(waves[k]));
        if any(tasks, completed_in(w)) {
            let i = choose|i: int| 0 <= i < tasks.len() && completed_in(w)(#[trigger] tasks[i]);
            assert(in_wave(w)(tasks[i]));
        }
    }
    assert((!any(waves, orphan) && !any(waves, barren)) <==> forall|k: int|
        0 <= k < waves.len() && (#[trigger] waves[k]).plan_id == plan_id ==> fruitful(waves[k]));
    assert forall|i: int| 0 <= i < tasks.len() && (#[trigger] tasks[i]).plan_id == plan_id
        && tasks[i].status == "pending"@ implies (limbo(tasks[i]) <==> !(tasks[i].wave_id is Some
        && exists|j: int|
        0 <= j < tasks.len() && (#[trigger] tasks[j]).wave_id == tasks[i].wave_id && tasks[j].id
            != tasks[i].id && tasks[j].status != "done"@ && tasks[j].status != "submitted"@
            && tasks[j].status != "cancelled"@ && tasks[j].status != "skipped"@)) by {
        let t = tasks[i];
        if exists|j: int|
            0 <= j < tasks.len() && (#[trigger] tasks[j]).wave_id == t.wave_id && tasks[j].id
                != t.id && tasks[j].status != "done"@ && tasks[j].status != "submitted"@
                && tasks[j].status != "cancelled"@ && tasks[j].status != "skipped"@
                && t.wave_id is Some {
            let j = choose|j: int|
                0 <= j < tasks.len() && (#[trigger] tasks[j]).wave_id == t.wave_id && tasks[j].id
                    != t.id && tasks[j].status != "done"@ && tasks[j].status != "submitted"@
                    && tasks[j].status != "cancelled"@ && tasks[j].status != "skipped"@
                    && t.wave_id is Some;
            assert(open_sibling(t)(tasks[j]));
        }
    }
    assert forall|i: int| 0 <= i < tasks.len() && tasks[i].description is Some implies (delivered(
        s,
        (#[trigger] tasks[i]).id,
        tasks[i].description->0,
    ) <==> {
        &&& claims_output(tasks[i].description->0) ==> exists|e: int|
            0 <= e < proofs.len() && (#[trigger] proofs[e]).task_id == tasks[i].id
        &&& claims_pr(tasks[i].description->0) ==> exists|e: int|
            0 <= e < proofs.len() && (#[trigger] proofs[e]).task_id == tasks[i].id && (
            proofs[e].evidence_type == "commit_hash"@ || proofs[e].evidence_type == "commit"@
                || proofs[e].evidence_type == "pr_url"@)
    }) by {
        let id = tasks[i].id;
        assert(any(proofs, evidence_of(id)) <==> exists|e: int|
            0 <= e < proofs.len() && (#[trigger] proofs[e]).task_id == id);
        assert(any(proofs, merge_evidence(id)) <==> exists|e: int|
            0 <= e < proofs.len() && (#[trigger] proofs[e]).task_id == id && (
            proofs[e].evidence_type == "commit_hash"@ || proofs[e].evidence_type == "commit"@
                || proofs[e].evidence_type == "pr_url"@));
    }
}

/// A text claims output where `output_type` stands in it, in capitals or not, with any character
/// in place of the underscore.
pub proof fn law_output_claims(s: Seq<char>)
    ensures
        claims_output(s) <==> exists|i: int|
            0 <= i && i + 11 <= s.len() && #[trigger] spells_output(s, i),
{
    assert forall|i: int| 0 <= i && i + 11 <= s.len() implies (#[trigger] spells_output(s, i)
        <==> claims_output_at(s, i)) by {
        lemma_spells_output(s, i);
    }
    if claims_output(s) {
        let i = choose|i: int| claims_output_at(s, i);
        assert(spells_output(s, i));
    }
}

/// Whether the letters of `output_type` stand at a place, in capitals or not.
pub open spec fn spells_output(s: Seq<char>, i: int) -> bool {
    forall|j: int|
        0 <= j < 11 && j != 6 ==> s[i + j] == #[trigger] "output_type"@[j] || s[i + j]
            == "OUTPUT_TYPE"@[j]
}

/// The pattern matches at a place exactly where its letters stand there.
proof fn lemma_spells_output(s: Seq<char>, i: int)
    requires
        0 <= i && i + 11 <= s.len(),
    ensures
        spells_output(s, i) <==> claims_output_at(s, i),
{
    reveal_strlit("output_type");
    reveal_strlit("OUTPUT_TYPE");
    let small = "output_type"@;
    let large = "OUTPUT_TYPE"@;
    assert(small[0] == 'o' && small[1] == 'u' && small[2] == 't' && small[3] == 'p' && small[4]
        == 'u' && small[5] == 't' && small[7] == 't' && small[8] == 'y' && small[9] == 'p'
        && small[10] == 'e');
    assert(large[0] == 'O' && large[1] == 'U' && large[2] == 'T' && large[3] == 'P' && large[4]
        == 'U' && large[5] == 'T' && large[7] == 'T' && large[8] == 'Y' && large[9] == 'P'
        && large[10] == 'E');
    assert forall|j: int| 0 <= j < 11 && j != 6 implies (lower(s[i + j]) == #[trigger] small[j]
        <==> s[i + j] == small[j] || s[i + j] == large[j]) by {
        lemma_lower(s[i + j], small[j], large[j]);
    }
    if claims_output_at(s, i) {
        assert forall|j: int| 0 <= j < 11 && j != 6 implies s[i + j] == #[trigger] small[j] || s[i
            + j] == large[j] by {
            assert(lower(s[i + j]) == small[j]);
        }
    }
    if spells_output(s, i) {
        assert(lower(s[i + 0]) == small[0] && lower(s[i + 1]) == small[1] && lower(s[i + 2])
            == small[2] && lower(s[i + 3]) == small[3] && lower(s[i + 4]) == small[4] && lower(
            s[i + 5],
        ) == small[5] && lower(s[i + 7]) == small[7] && lower(s[i + 8]) == small[8] && lower(
            s[i + 9],
        ) == small[9] && lower(s[i + 10]) == small[10]);
    }
}

/// A character has a small letter as its lower case exactly where it is the letter or its capital.
proof fn lemma_lower(c: char, small: char, large: char)
    requires
        'a' <= small <= 'z',
        small as u32 == large as u32 + 32,
    ensures
        lower(c) == small <==> c == small || c == large,
{
    if 'A' <= c <= 'Z' {
        let code = c as u8;
        assert(code as u32 == c as u32);
        assert(lower(c) as u32 == c as u32 + 32);
    }
}

/// A text claims a pull request where it claims output, behind at least one mark goes on with `pr`,
/// in capitals or not, and there the word ends.
pub proof fn law_pull_request_claims(s: Seq<char>)
    ensures
        claims_pr(s) <==> exists|i: int, n: int| #[trigger] claims_pr_over(s, i, n),
{
    if claims_pr(s) {
        let i = choose|i: int| claims_pr_at(s, i);
        let rest = s.skip(i + 11);
        let n = run(rest, |c: char| is_mark(c)) as int;
        lemma_marks(rest);
        let word = rest.skip(n);
        lemma_lower(word[0], 'p', 'P');
        lemma_lower(word[1], 'r', 'R');
        assert(word[0] == s[i + 11 + n] && word[1] == s[i + 12 + n]);
        if word.len() > 2 {
            assert(word[2] == s[i + 13 + n]);
            lemma_word_character(word[2]);
        }
        assert forall|k: int| i + 11 <= k < i + 11 + n implies mark_between(#[trigger] s[k]) by {
            assert(rest[k - i - 11] == s[k]);
        }
        assert(claims_pr_over(s, i, n));
    }
    if exists|i: int, n: int| #[trigger] claims_pr_over(s, i, n) {
        let (i, n) = choose|i: int, n: int| #[trigger] claims_pr_over(s, i, n);
        let rest = s.skip(i + 11);
        let m = run(rest, |c: char| is_mark(c)) as int;
        lemma_marks(rest);
        assert(rest[n] == s[i + 11 + n]);
        assert(!is_mark(rest[n]));
        assert(m == n) by {
            if m < n {
                assert(mark_between(s[i + 11 + m]));
                assert(rest[m] == s[i + 11 + m]);
            }
            if n < m {
                assert(is_mark(rest[n]));
            }
        }
        let word = rest.skip(n);
        assert(word[0] == s[i + 11 + n] && word[1] == s[i + 12 + n]);
        lemma_lower(word[0], 'p', 'P');
        lemma_lower(word[1], 'r', 'R');
        if word.len() > 2 {
            assert(word[2] == s[i + 13 + n]);
            lemma_word_character(word[2]);
        }
        assert(claims_pr_at(s, i));
    }
}

/// A character that may stand between a name and its value.
pub open spec fn mark_between(c: char) -> bool {
    seq![' ', ':', '=', '"', '\'', '`'].contains(c)
}

/// Whether a text claims a pull request at a place, with so many marks before its name.
pub open spec fn claims_pr_over(s: Seq<char>, i: int, n: int) -> bool {
    &&& claims_output_at(s, i)
    &&& n > 0 && i + 13 + n <= s.len()
    &&& forall|k: int| i + 11 <= k < i + 11 + n ==> mark_between(#[trigger] s[k])
    &&& s[i + 11 + n] == 'p' || s[i + 11 + n] == 'P'
    &&& s[i + 12 + n] == 'r' || s[i + 12 + n] == 'R'
    &&& i + 13 + n < s.len() ==> !({
        let c = s[i + 13 + n];
        'a' <= c <= 'z' || 'A' <= c <= 'Z' || '0' <= c <= '9' || c == '_'
    })
}

/// A character goes on with a word exactly where it is an ASCII letter, a digit or an underscore.
proof fn lemma_word_character(c: char)
    ensures
        in_word(c) <==> 'a' <= c <= 'z' || 'A' <= c <= 'Z' || '0' <= c <= '9' || c == '_',
{
    if 'A' <= c <= 'Z' {
        assert(lower(c) as u32 == c as u32 + 32);
    }
}

/// A run of marks holds marks only, and none stands behind it.
proof fn lemma_marks(s: Seq<char>)
    ensures
        ({
            let n = run(s, |c: char| is_mark(c)) as int;
            &&& 0 <= n <= s.len()
            &&& forall|k: int| 0 <= k < n ==> is_mark(#[trigger] s[k]) && mark_between(s[k])
            &&& n < s.len() ==> !is_mark(s[n]) && !mark_between(s[n])
        }),
    decreases s.len(),
{
    let marks = seq![' ', ':', '=', '"', '\'', '`'];
    assert(marks[0] == ' ' && marks[1] == ':' && marks[2] == '=' && marks[3] == '"' && marks[4]
        == '\'' && marks[5] == '`');
    if s.len() > 0 {
        let t = s.skip(1);
        if is_mark(s[0]) {
            lemma_marks(t);
            let n = run(t, |c: char| is_mark(c)) as int;
            assert forall|k: int| 0 <= k < n + 1 implies is_mark(#[trigger] s[k]) && mark_between(
                s[k],
            ) by {
                if k > 0 {
                    assert(t[k - 1] == s[k]);
                }
            }
            if n < t.len() {
                assert(t[n] == s[n + 1]);
            }
        }
    }
}

/// The findings are told in their order, each with its number.
pub proof fn law_finding_texts(n: nat, what: Seq<char>)
    ensures
        n == 0 ==> finding(n, what).len() == 0,
        n > 0 ==> finding(n, what) == seq![dec(n as int) + what],
{
}

/// Each kind of offence is told with its number where there is any, in a fixed order.
pub proof fn law_what_the_audit_says(s: StoreView, plan_id: i64)
    ensures
        count(s.waves.rows, orphan_wave(s, plan_id)) > 0 ==> findings(s, plan_id).contains(
            dec(count(s.waves.rows, orphan_wave(s, plan_id)) as int)
                + " wave(s) have zero tasks (orphan)"@,
        ),
        count(s.tasks.rows, limbo_task(s, plan_id)) > 0 ==> findings(s, plan_id).contains(
            dec(count(s.tasks.rows, limbo_task(s, plan_id)) as int)
                + " task(s) stuck pending while wave siblings are done"@,
        ),
        count(s.waves.rows, barren_wave(s, plan_id)) > 0 ==> findings(s, plan_id).contains(
            dec(count(s.waves.rows, barren_wave(s, plan_id)) as int)
                + " wave(s) have tasks but none completed"@,
        ),
        count(s.tasks.rows, undelivered_task(s, plan_id)) > 0 ==> findings(s, plan_id).contains(
            dec(count(s.tasks.rows, undelivered_task(s, plan_id)) as int)
                + " task(s) claim output but have no delivery evidence"@,
        ),
{
    let a = finding(
        count(s.waves.rows, orphan_wave(s, plan_id)),
        " wave(s) have zero tasks (orphan)"@,
    );
    let b = finding(
        count(s.tasks.rows, limbo_task(s, plan_id)),
        " task(s) stuck pending while wave siblings are done"@,
    );
    let c = finding(
        count(s.waves.rows, barren_wave(s, plan_id)),
        " wave(s) have tasks but none completed"@,
    );
    let d = finding(
        count(s.tasks.rows, undelivered_task(s, plan_id)),
        " task(s) claim output but have no delivery evidence"@,
    );
    let all = findings(s, plan_id);
    assert(all == a + b + c + d);
    if a.len() > 0 {
        assert(all[0] == a[0]);
    }
    if b.len() > 0 {
        assert(all[a.len() as int] == b[0]);
    }
    if c.len() > 0 {
        assert(all[a.len() as int + b.len()] == c[0]);
    }
    if d.len() > 0 {
        assert(all[a.len() as int + b.len() + c.len()] == d[0]);
    }
}

/// The waves that the audit counts, over the rows: waves of the plan without a task, and waves of
/// it with tasks none of which is done or submitted.
pub proof fn law_counted_waves_over_rows(s: StoreView, plan_id: i64, k: int)
    requires
        0 <= k < s.waves.rows.len(),
    ensures
        ({
            let w = s.waves.rows[k];
            let tasks = s.tasks.rows;
            let some = exists|i: int|
                0 <= i < tasks.len() && (#[trigger] tasks[i]).wave_id == Some(w.id);
            let complete = exists|i: int|
                0 <= i < tasks.len() && (#[trigger] tasks[i]).wave_id == Some(w.id) && (
                tasks[i].status == "done"@ || tasks[i].status == "submitted"@);
            &&& orphan_wave(s, plan_id)(w) <==> w.plan_id == plan_id && !some
            &&& barren_wave(s, plan_id)(w) <==> w.plan_id == plan_id && some && !complete
        }),
{
    let w = s.waves.rows[k];
    let tasks = s.tasks.rows;
    assert(any(tasks, in_wave(w.id)) <==> exists|i: int|
        0 <= i < tasks.len() && (#[trigger] tasks[i]).wave_id == Some(w.id));
    assert(any(tasks, completed_in(w.id)) <==> exists|i: int|
        0 <= i < tasks.len() && (#[trigger] tasks[i]).wave_id == Some(w.id) && (tasks[i].status
            == "done"@ || tasks[i].status == "submitted"@));
}

} // verus!
