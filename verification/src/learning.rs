//! What is learned from a plan that has ended.

use crate::challenger::completed;
use crate::evidence::evidence_of;
use crate::gates::{find_plan, has_any_evidence, in_plan, plan_is};
use crate::handlers::{has_task_in_plan, task_in_plan};
use crate::plan_context::{count_tasks, count_tasks_with, find_meta, in_plan_with, notes_of};
use crate::plan_import::waves_of;
use crate::rows::{
    AgentRow, AgentRowView, PlanMetaRow, PlanMetaRowView, PlanRow, TaskRow, TaskRowView, UsageRow,
    UsageRowView, WaveRow,
};
use crate::store::{sound, Store, StoreView};
use crate::table::{
    any, checked_sum, count, count_where, first, numbers_where, select_where, sum_numbers,
    update_where, updated, views, Duplicate,
};
use crate::text::{cat2, cat3, cat5, copy_opt, dec, dec_i64, dec_usize, opt_text, same, texts};
use vstd::prelude::*;

verus! {

// ---- metrics ----

/// The numbers of a plan.
#[derive(Debug)]
pub struct PlanMetrics {
    pub tasks_total: usize,
    pub tasks_done: usize,
    pub tasks_failed: usize,
    pub tasks_cancelled: usize,
    pub waves_total: usize,
    pub total_tokens: i64,
    pub duration_secs: Option<i64>,
    pub agents_used: usize,
    pub respawn_count: i64,
    pub tasks_without_evidence: usize,
    pub pre_review_verdict: Option<String>,
    pub post_review_verdict: Option<String>,
}

/// The completed tasks of a plan for which no evidence is recorded.
pub open spec fn unproven_in_plan(s: StoreView, plan_id: i64) -> spec_fn(TaskRowView) -> bool {
    |t: TaskRowView|
        t.plan_id == plan_id && completed(t.status) && !any(
            s.task_evidence.rows,
            evidence_of(t.id),
        )
}

/// The agents that worked on a plan.
pub open spec fn agents_of(s: StoreView, plan_id: i64) -> spec_fn(AgentRowView) -> bool {
    |a: AgentRowView|
        match a.task_id {
            Some(t) => any(s.tasks.rows, task_in_plan(t, plan_id)),
            None => false,
        }
}

/// How often an agent was spawned again.
pub open spec fn respawns() -> spec_fn(AgentRowView) -> i64 {
    |a: AgentRowView| a.respawn_count
}

/// The uses of tokens on account of a plan.
pub open spec fn usage_of(plan_id: i64) -> spec_fn(UsageRowView) -> bool {
    |u: UsageRowView| u.plan_id == Some(plan_id)
}

/// The tokens of some calls, where they fit in 64 bits for each of them.
pub open spec fn token_numbers(rows: Seq<UsageRowView>) -> Option<Seq<i64>>
    decreases rows.len(),
{
    if rows.len() == 0 {
        Some(Seq::empty())
    } else {
        match token_numbers(rows.drop_last()) {
            Some(list) => {
                let n = rows.last().input_tokens + rows.last().output_tokens;
                if i64::MIN <= n <= i64::MAX {
                    Some(list.push(n as i64))
                } else {
                    None
                }
            },
            None => None,
        }
    }
}

/// A sum, or zero where it is not known.
pub open spec fn or_zero(n: Option<i64>) -> i64 {
    match n {
        Some(k) => k,
        None => 0,
    }
}

/// The tokens of some calls together, or zero where they do not fit in 64 bits.
pub open spec fn token_sum(rows: Seq<UsageRowView>) -> i64 {
    match token_numbers(rows) {
        Some(list) => or_zero(checked_sum(list)),
        None => 0,
    }
}

/// A number that does not fit makes the whole unknown.
proof fn lemma_tokens_unknown(rows: Seq<UsageRowView>, k: int)
    requires
        0 <= k <= rows.len(),
        token_numbers(rows.take(k)) is None,
    ensures
        token_numbers(rows) is None,
    decreases rows.len(),
{
    if k == rows.len() {
        assert(rows.take(k) =~= rows);
    } else {
        assert(rows.drop_last().take(k) =~= rows.take(k));
        lemma_tokens_unknown(rows.drop_last(), k);
    }
}

/// The tokens of some calls together.
pub fn sum_tokens(rows: &Vec<UsageRow>) -> (r: i64)
    ensures
        r == token_sum(views(rows@)),
{
    let ghost all = views(rows@);
    let mut list: Vec<i64> = Vec::new();
    let mut i: usize = 0;
    assert(all.take(0) =~= Seq::empty());
    assert(list@ =~= Seq::<i64>::empty());
    while i < rows.len()
        invariant
            i <= rows@.len(),
            all == views(rows@),
            token_numbers(all.take(i as int)) == Some(list@),
        decreases rows@.len() - i,
    {
        assert(all.take(i + 1).drop_last() =~= all.take(i as int));
        assert(all.take(i + 1).last() == rows@[i as int]@);
        match rows[i].input_tokens.checked_add(rows[i].output_tokens) {
            Some(n) => {
                list.push(n);
            },
            None => {
                proof {
                    lemma_tokens_unknown(all, i + 1);
                }
                return 0;
            },
        }
        i += 1;
    }
    assert(all.take(i as int) =~= all);
    match sum_numbers(&list) {
        Some(n) => n,
        None => 0,
    }
}

/// How many seconds a plan took, where its start and its end are known.
pub open spec fn plan_seconds(s: StoreView, plan_id: i64) -> Option<i64> {
    match first(s.plans.rows, plan_is(plan_id)) {
        Some(p) => match (p.started_at, p.completed_at) {
            (Some(start), Some(end)) => Some(span(start, end)),
            _ => None,
        },
        None => None,
    }
}

/// The seconds between two times, as far as 64 bits hold them.
pub open spec fn span(start: i64, end: i64) -> i64 {
    let d = end - start;
    if d > i64::MAX {
        i64::MAX
    } else if d < i64::MIN {
        i64::MIN
    } else {
        d as i64
    }
}

fn count_seconds(start: i64, end: i64) -> (r: i64)
    ensures
        r == span(start, end),
{
    let d: i128 = end as i128 - start as i128;
    if d > i64::MAX as i128 {
        i64::MAX
    } else if d < i64::MIN as i128 {
        i64::MIN
    } else {
        d as i64
    }
}

/// Whether an agent worked on a plan.
pub fn works_on(db: &Store, a: &AgentRow, plan_id: i64) -> (r: bool)
    ensures
        r == agents_of(db@, plan_id)(a@),
{
    match a.task_id {
        Some(t) => has_task_in_plan(&db.tasks.rows, t, plan_id),
        None => false,
    }
}

/// The report that is written down about a plan.
pub open spec fn report_of(s: StoreView, plan_id: i64) -> Option<Seq<char>> {
    match first(s.plan_metadata, notes_of(plan_id)) {
        Some(m) => m.report_json,
        None => None,
    }
}

/// Collects the numbers of a plan.
pub fn collect_metrics(db: &Store, plan_id: i64) -> (r: PlanMetrics)
    ensures
        r.tasks_total == count(db@.tasks.rows, in_plan(plan_id)),
        r.tasks_done == count(db@.tasks.rows, in_plan_with(plan_id, "done"@)),
        r.tasks_failed == count(db@.tasks.rows, in_plan_with(plan_id, "failed"@)),
        r.tasks_cancelled == count(db@.tasks.rows, in_plan_with(plan_id, "cancelled"@)),
        r.waves_total == count(db@.waves.rows, waves_of(plan_id)),
        r.total_tokens == token_sum(db@.token_usage.filter(usage_of(plan_id))),
        r.duration_secs == plan_seconds(db@, plan_id),
        r.agents_used == count(db@.agents, agents_of(db@, plan_id)),
        r.respawn_count == or_zero(
            checked_sum(db@.agents.filter(agents_of(db@, plan_id)).map_values(respawns())),
        ),
        r.tasks_without_evidence == count(db@.tasks.rows, unproven_in_plan(db@, plan_id)),
        (opt_text(r.pre_review_verdict), opt_text(r.post_review_verdict)) == review_verdicts(
            report_of(db@, plan_id),
        ),
{
    let waves_total: usize = count_where(
        &db.waves.rows,
        |w: &WaveRow| -> (b: bool) ensures b == waves_of(plan_id)(w@) { w.plan_id == plan_id },
        Ghost(waves_of(plan_id)),
    );
    let usage = select_where(
        &db.token_usage,
        |u: &UsageRow| -> (b: bool) ensures b == usage_of(plan_id)(u@) {
            match u.plan_id {
                Some(p) => p == plan_id,
                None => false,
            }
        },
        Ghost(usage_of(plan_id)),
    );
    let duration_secs: Option<i64> = match find_plan(db, plan_id) {
        Some(k) => match (db.plans.rows[k].started_at, db.plans.rows[k].completed_at) {
            (Some(start), Some(end)) => Some(count_seconds(start, end)),
            _ => None,
        },
        None => None,
    };
    let agents_used: usize = count_where(
        &db.agents,
        |a: &AgentRow| -> (b: bool) ensures b == agents_of(db@, plan_id)(a@) {
            works_on(db, a, plan_id)
        },
        Ghost(agents_of(db@, plan_id)),
    );
    let spawned = numbers_where(
        &db.agents,
        |a: &AgentRow| -> (b: bool) ensures b == agents_of(db@, plan_id)(a@) {
            works_on(db, a, plan_id)
        },
        |a: &AgentRow| -> (n: i64) ensures n == respawns()(a@) { a.respawn_count },
        Ghost(agents_of(db@, plan_id)),
        Ghost(respawns()),
    );
    let respawn_count: i64 = match sum_numbers(&spawned) {
        Some(n) => n,
        None => 0,
    };
    let tasks_without_evidence: usize = count_where(
        &db.tasks.rows,
        |t: &TaskRow| -> (b: bool) ensures b == unproven_in_plan(db@, plan_id)(t@) {
            t.plan_id == plan_id && (same(t.status.as_str(), "done") || same(
                t.status.as_str(),
                "submitted",
            )) && !has_any_evidence(db, t.id)
        },
        Ghost(unproven_in_plan(db@, plan_id)),
    );
    let report = match find_meta(db, plan_id) {
        Some(k) => copy_opt(&db.plan_metadata[k].report_json),
        None => None,
    };
    let (pre_review_verdict, post_review_verdict) = parse_review_verdicts(&report);
    PlanMetrics {
        tasks_total: count_tasks(db, plan_id),
        tasks_done: count_tasks_with(db, plan_id, "done"),
        tasks_failed: count_tasks_with(db, plan_id, "failed"),
        tasks_cancelled: count_tasks_with(db, plan_id, "cancelled"),
        waves_total,
        total_tokens: sum_tokens(&usage),
        duration_secs,
        agents_used,
        respawn_count,
        tasks_without_evidence,
        pre_review_verdict,
        post_review_verdict,
    }
}

// ---- verdicts of reviews ----

/// What `serde_json` reads under a key of a text: nothing where the text is no JSON, and no
/// string where there is none under the key.
pub uninterp spec fn json_str_member(text: Seq<char>, key: Seq<char>) -> Option<Option<Seq<char>>>;

/// The string that was read, by its characters.
pub open spec fn read_member(r: Option<Option<String>>) -> Option<Option<Seq<char>>> {
    match r {
        Some(s) => Some(opt_text(s)),
        None => None,
    }
}

/// `serde_json::from_str` at `Value`, with `get` and `as_str` on what it gives: a function of
/// the text and the key alone. It gives `None` where the text is no JSON, and `Some(None)` where
/// the key is not there or holds no string.
#[verifier::external_body]
fn read_str_member(text: &str, key: &str) -> (r: Option<Option<String>>)
    ensures
        read_member(r) == json_str_member(text@, key@),
{
    match serde_json::from_str::<serde_json::Value>(text) {
        Ok(value) => Some(value.get(key).and_then(serde_json::Value::as_str).map(String::from)),
        Err(_) => None,
    }
}

/// The verdicts before and after the execution, from a verdict and the type of the review. A
/// review of neither type counts for both.
pub open spec fn verdicts_by_type(verdict: Option<Seq<char>>, kind: Option<Seq<char>>) -> (
    Option<Seq<char>>,
    Option<Seq<char>>,
) {
    if kind == Some("pre_review"@) {
        (verdict, None)
    } else if kind == Some("post_review"@) {
        (None, verdict)
    } else {
        (verdict, verdict)
    }
}

/// The verdicts before and after the execution, from a report.
pub open spec fn review_verdicts(report: Option<Seq<char>>) -> (
    Option<Seq<char>>,
    Option<Seq<char>>,
) {
    match report {
        None => (None, None),
        Some(text) => match (
            json_str_member(text, "verdict"@),
            json_str_member(text, "type"@),
        ) {
            (Some(verdict), Some(kind)) => verdicts_by_type(verdict, kind),
            _ => (None, None),
        },
    }
}

/// The verdicts before and after the execution, from a verdict and the type of the review.
pub fn split_verdicts(verdict: Option<String>, kind: Option<String>) -> (r: (
    Option<String>,
    Option<String>,
))
    ensures
        (opt_text(r.0), opt_text(r.1)) == verdicts_by_type(opt_text(verdict), opt_text(kind)),
{
    proof {
        reveal_strlit("pre_review");
        reveal_strlit("post_review");
        assert("pre_review"@.len() == 10 && "post_review"@.len() == 11);
    }
    match &kind {
        Some(k) => if same(k.as_str(), "pre_review") {
            (verdict, None)
        } else if same(k.as_str(), "post_review") {
            (None, verdict)
        } else {
            (copy_opt(&verdict), verdict)
        },
        None => (copy_opt(&verdict), verdict),
    }
}

/// The verdicts before and after the execution, from a report.
pub fn parse_review_verdicts(report_json: &Option<String>) -> (r: (Option<String>, Option<String>))
    ensures
        (opt_text(r.0), opt_text(r.1)) == review_verdicts(opt_text(*report_json)),
{
    match report_json {
        None => (None, None),
        Some(text) => match (
            read_str_member(text.as_str(), "verdict"),
            read_str_member(text.as_str(), "type"),
        ) {
            (Some(verdict), Some(kind)) => split_verdicts(verdict, kind),
            _ => (None, None),
        },
    }
}

// ---- insights ----

/// Figures with fractions, as they are shown.
pub struct Figures {
    /// The share of tasks that are done, in percent.
    pub completion_pct: String,
    /// What the plan cost and what a task cost, where it cost anything.
    pub cost: Option<(String, String)>,
    /// How many hours the plan took, where it took any.
    pub hours: Option<String>,
}

/// A sentence, if a condition holds.
pub open spec fn said_if(condition: bool, sentence: Seq<char>) -> Seq<Seq<char>> {
    if condition {
        seq![sentence]
    } else {
        Seq::empty()
    }
}

/// The sentence on what the plan cost.
pub open spec fn cost_sentence(m: PlanMetrics, f: Figures) -> Seq<Seq<char>> {
    match f.cost {
        Some((total, each)) => said_if(
            m.tasks_done > 0,
            "Cost: $"@ + total@ + " total, $"@ + each@ + "/task"@,
        ),
        None => Seq::empty(),
    }
}

/// The sentence on how long the plan took.
pub open spec fn duration_sentence(f: Figures) -> Seq<Seq<char>> {
    match f.hours {
        Some(h) => seq!["Duration: "@ + h@ + "h"@],
        None => Seq::empty(),
    }
}

/// What the numbers of a plan say.
pub open spec fn insights(m: PlanMetrics, f: Figures) -> Seq<Seq<char>> {
    seq![
        "Completion: "@ + dec(m.tasks_done as int) + "/"@ + dec(m.tasks_total as int)
            + " tasks done ("@ + f.completion_pct@ + "%)"@,
    ] + said_if(
        m.tasks_failed > 0,
        "Warning: "@ + dec(m.tasks_failed as int) + " task(s) failed — investigate root cause"@,
    ) + said_if(m.tasks_cancelled > 0, dec(m.tasks_cancelled as int) + " task(s) cancelled"@)
        + said_if(
        m.respawn_count > 0,
        dec(m.respawn_count as int)
            + " respawn(s) — agents hit context limit. Consider splitting tasks"@,
    ) + said_if(
        m.tasks_without_evidence > 0,
        dec(m.tasks_without_evidence as int)
            + " task(s) completed without evidence — enforcement gap"@,
    ) + cost_sentence(m, f) + duration_sentence(f)
}

fn say(out: &mut Vec<String>, sentence: String)
    ensures
        texts(final(out)@) == texts(old(out)@) + seq![sentence@],
{
    out.push(sentence);
    assert(texts(out@) =~= texts(old(out)@) + seq![sentence@]);
}

/// What the numbers of a plan say.
pub fn generate_learnings(m: &PlanMetrics, f: &Figures) -> (r: Vec<String>)
    ensures
        texts(r@) == insights(*m, *f),
{
    let mut out: Vec<String> = Vec::new();
    let mut head = cat5(
        "Completion: ",
        dec_usize(m.tasks_done).as_str(),
        "/",
        dec_usize(m.tasks_total).as_str(),
        " tasks done (",
    );
    head.append(f.completion_pct.as_str());
    head.append("%)");
    say(&mut out, head);
    if m.tasks_failed > 0 {
        say(
            &mut out,
            cat3(
                "Warning: ",
                dec_usize(m.tasks_failed).as_str(),
                " task(s) failed — investigate root cause",
            ),
        );
    }
    if m.tasks_cancelled > 0 {
        say(&mut out, cat2(dec_usize(m.tasks_cancelled).as_str(), " task(s) cancelled"));
    }
    if m.respawn_count > 0 {
        say(
            &mut out,
            cat2(
                dec_i64(m.respawn_count).as_str(),
                " respawn(s) — agents hit context limit. Consider splitting tasks",
            ),
        );
    }
    if m.tasks_without_evidence > 0 {
        say(
            &mut out,
            cat2(
                dec_usize(m.tasks_without_evidence).as_str(),
                " task(s) completed without evidence — enforcement gap",
            ),
        );
    }
    if let Some((total, each)) = &f.cost {
        if m.tasks_done > 0 {
            say(
                &mut out,
                cat5("Cost: $", total.as_str(), " total, $", each.as_str(), "/task"),
            );
        }
    }
    if let Some(h) = &f.hours {
        say(&mut out, cat3("Duration: ", h.as_str(), "h"));
    }
    assert(texts(out@) =~= insights(*m, *f));
    out
}

// ---- keeping what was learned ----

/// Whether something is written down as learned from a plan.
pub open spec fn learned(s: StoreView, plan_id: i64) -> bool {
    match first(s.plan_metadata, notes_of(plan_id)) {
        Some(m) => match m.key_learnings_json {
            Some(text) => text.len() > 0,
            None => false,
        },
        None => false,
    }
}

/// Whether something is written down as learned from a plan.
pub fn has_learnings(db: &Store, plan_id: i64) -> (r: bool)
    ensures
        r == learned(db@, plan_id),
{
    match find_meta(db, plan_id) {
        Some(k) => match &db.plan_metadata[k].key_learnings_json {
            Some(text) => !text.as_str().is_empty(),
            None => false,
        },
        None => false,
    }
}

/// What is written down about a plan that is closed, with what was learned from it.
pub open spec fn closed_with(text: Seq<char>, now: i64) -> spec_fn(
    PlanMetaRowView,
) -> PlanMetaRowView {
    |m: PlanMetaRowView|
        PlanMetaRowView { key_learnings_json: Some(text), closed_at: Some(now), ..m }
}

/// The store after it has been written down what was learned from a plan. Where something was
/// written down before, nothing changes.
pub open spec fn after_learning(s: StoreView, plan_id: i64, text: Seq<char>, now: i64) -> StoreView {
    if learned(s, plan_id) {
        s
    } else {
        StoreView {
            plan_metadata: updated(s.plan_metadata, notes_of(plan_id), closed_with(text, now)),
            ..s
        }
    }
}

/// Writes down what was learned from a plan, unless something is written down already, and says
/// whether it did.
pub fn store_learnings(db: &mut Store, plan_id: i64, text: &str, now: i64) -> (r: bool)
    ensures
        r == !learned(old(db)@, plan_id),
        final(db)@ == after_learning(old(db)@, plan_id, text@, now),
        sound(old(db)@) ==> sound(final(db)@),
{
    if has_learnings(db, plan_id) {
        return false;
    }
    update_where(
        &mut db.plan_metadata,
        |m: &PlanMetaRow| -> (b: bool) ensures b == notes_of(plan_id)(m@) { m.plan_id == plan_id },
        |m: &PlanMetaRow| -> (n: PlanMetaRow) ensures n@ == closed_with(text@, now)(m@) {
            PlanMetaRow {
                key_learnings_json: Some(text.to_owned()),
                closed_at: Some(now),
                ..m.duplicate()
            }
        },
        Ghost(notes_of(plan_id)),
        Ghost(closed_with(text@, now)),
    );
    true
}

/// What was learned from a plan is written down once: a second text changes nothing.
pub proof fn law_learned_once(
    s: StoreView,
    plan_id: i64,
    text: Seq<char>,
    now: i64,
    text2: Seq<char>,
    now2: i64,
)
    requires
        text.len() > 0,
        any(s.plan_metadata, notes_of(plan_id)),
    ensures
        learned(after_learning(s, plan_id, text, now), plan_id),
        after_learning(after_learning(s, plan_id, text, now), plan_id, text2, now2)
            == after_learning(s, plan_id, text, now),
{
    crate::table::lemma_first_any(s.plan_metadata, notes_of(plan_id));
    crate::table::lemma_first_updated(
        s.plan_metadata,
        notes_of(plan_id),
        closed_with(text, now),
    );
}

/// The numbers of a plan count, over the rows, its tasks that are done or submitted without any
/// evidence, the agents of its tasks, and the calls on its account.
pub proof fn law_metrics_over_rows(s: StoreView, plan_id: i64, i: int, a: int, u: int)
    requires
        0 <= i < s.tasks.rows.len(),
        0 <= a < s.agents.len(),
        0 <= u < s.token_usage.len(),
    ensures
        ({
            let t = s.tasks.rows[i];
            &&& s.tasks.rows.filter(unproven_in_plan(s, plan_id)).contains(t) <==> t.plan_id
                == plan_id && (t.status == "done"@ || t.status == "submitted"@) && forall|e: int|
                0 <= e < s.task_evidence.rows.len() ==> (
                #[trigger] s.task_evidence.rows[e]).task_id != t.id
            &&& s.agents.filter(agents_of(s, plan_id)).contains(s.agents[a]) <==> exists|k: int|
                0 <= k < s.tasks.rows.len() && s.agents[a].task_id == Some(
                    (#[trigger] s.tasks.rows[k]).id,
                ) && s.tasks.rows[k].plan_id == plan_id
            &&& respawns()(s.agents[a]) == s.agents[a].respawn_count
            &&& s.token_usage.filter(usage_of(plan_id)).contains(s.token_usage[u])
                <==> s.token_usage[u].plan_id == Some(plan_id)
        }),
{
    let t = s.tasks.rows[i];
    let proofs = s.task_evidence.rows;
    crate::table::lemma_kept_at(s.tasks.rows, unproven_in_plan(s, plan_id), i);
    crate::table::lemma_kept_at(s.agents, agents_of(s, plan_id), a);
    crate::table::lemma_kept_at(s.token_usage, usage_of(plan_id), u);
    assert(!any(proofs, evidence_of(t.id)) <==> forall|e: int|
        0 <= e < proofs.len() ==> (#[trigger] proofs[e]).task_id != t.id);
    if let Some(id) = s.agents[a].task_id {
        assert(any(s.tasks.rows, task_in_plan(id, plan_id)) <==> exists|k: int|
            0 <= k < s.tasks.rows.len() && s.agents[a].task_id == Some(
                (#[trigger] s.tasks.rows[k]).id,
            ) && s.tasks.rows[k].plan_id == plan_id);
    }
}

/// The tokens of a call are those that went in and those that came out: one call more adds both to
/// the sum, as long as it fits.
pub proof fn law_tokens_add(rows: Seq<UsageRowView>, u: UsageRowView)
    ensures
        token_sum(Seq::empty()) == 0,
        token_numbers(rows) is Some && checked_sum(token_numbers(rows)->0) is Some && i64::MIN
            <= u.input_tokens + u.output_tokens <= i64::MAX && i64::MIN <= token_sum(rows)
            + u.input_tokens + u.output_tokens <= i64::MAX ==> token_sum(rows.push(u)) == token_sum(
            rows,
        ) + u.input_tokens + u.output_tokens,
{
    let more = rows.push(u);
    assert(more.drop_last() =~= rows);
    assert(checked_sum(Seq::empty()) == Some(0i64));
    if token_numbers(rows) is Some && i64::MIN <= u.input_tokens + u.output_tokens <= i64::MAX {
        let list = token_numbers(rows)->0;
        let n = (u.input_tokens + u.output_tokens) as i64;
        assert(list.push(n).drop_last() =~= list);
    }
}

/// A plan took as long as its end is behind its start, where both are known.
pub proof fn law_duration_over_rows(s: StoreView, k: int)
    requires
        sound(s),
        0 <= k < s.plans.rows.len(),
    ensures
        ({
            let p = s.plans.rows[k];
            &&& plan_seconds(s, p.id) is Some <==> p.started_at is Some && p.completed_at is Some
            &&& p.started_at is Some && p.completed_at is Some && i64::MIN <= p.completed_at->0
                - p.started_at->0 <= i64::MAX ==> plan_seconds(s, p.id) == Some(
                (p.completed_at->0 - p.started_at->0) as i64,
            )
        }),
{
    let p = s.plans.rows[k];
    crate::table::lemma_first_keyed::<PlanRow>(s.plans, plan_is(p.id), k);
}

/// A review before the execution gives the first verdict, one after it the second, and any other
/// gives both. Without a report there is none.
pub proof fn law_verdicts(verdict: Option<Seq<char>>, kind: Option<Seq<char>>)
    ensures
        verdicts_by_type(verdict, kind).0 == if kind == Some("post_review"@) {
            None
        } else {
            verdict
        },
        verdicts_by_type(verdict, kind).1 == if kind == Some("pre_review"@) {
            None
        } else {
            verdict
        },
        review_verdicts(None) == (None::<Seq<char>>, None::<Seq<char>>),
{
    reveal_strlit("pre_review");
    reveal_strlit("post_review");
    assert("pre_review"@.len() == 10 && "post_review"@.len() == 11);
}

/// What was learned is written down on the plan, with the time of closing, where nothing was
/// before; no other plan's notes change.
pub proof fn law_learning_over_rows(s: StoreView, plan_id: i64, text: Seq<char>, now: i64, i: int)
    requires
        0 <= i < s.plan_metadata.len(),
        forall|j: int| 0 <= j < i ==> (#[trigger] s.plan_metadata[j]).plan_id != plan_id,
    ensures
        ({
            let m = s.plan_metadata[i];
            let n = after_learning(s, plan_id, text, now);
            let known = m.key_learnings_json is Some && m.key_learnings_json->0.len() > 0;
            &&& m.plan_id == plan_id ==> (learned(s, plan_id) <==> known)
            &&& n == (StoreView { plan_metadata: n.plan_metadata, ..s })
            &&& n.plan_metadata.len() == s.plan_metadata.len()
            &&& n.plan_metadata[i] == if m.plan_id == plan_id && !known {
                PlanMetaRowView { key_learnings_json: Some(text), closed_at: Some(now), ..m }
            } else {
                m
            }
            &&& m.plan_id == plan_id ==> report_of(s, plan_id) == m.report_json
        }),
{
    let rows = s.plan_metadata;
    let p = notes_of(plan_id);
    if rows[i].plan_id == plan_id {
        assert forall|j: int| 0 <= j < i implies !p(#[trigger] rows[j]) by {}
        crate::table::lemma_first_at(rows, p, i);
    }
}

/// What the numbers of a plan say: first how much is done; then, each exactly where there is any,
/// how much failed, was cancelled, was spawned again and lacks evidence.
pub proof fn law_insights(m: PlanMetrics, f: Figures)
    ensures
        ({
            let said = insights(m, f);
            let failed: int = if m.tasks_failed > 0 {
                1
            } else {
                0
            };
            let cancelled: int = if m.tasks_cancelled > 0 {
                1
            } else {
                0
            };
            let respawned: int = if m.respawn_count > 0 {
                1
            } else {
                0
            };
            let unproven: int = if m.tasks_without_evidence > 0 {
                1
            } else {
                0
            };
            let cost: int = if f.cost is Some && m.tasks_done > 0 {
                1
            } else {
                0
            };
            let hours: int = if f.hours is Some {
                1
            } else {
                0
            };
            &&& said.len() == 1 + failed + cancelled + respawned + unproven + cost + hours
            &&& said[0] == "Completion: "@ + dec(m.tasks_done as int) + "/"@ + dec(
                m.tasks_total as int,
            ) + " tasks done ("@ + f.completion_pct@ + "%)"@
            &&& failed == 1 ==> said[1] == "Warning: "@ + dec(m.tasks_failed as int)
                + " task(s) failed — investigate root cause"@
            &&& cancelled == 1 ==> said[1 + failed] == dec(m.tasks_cancelled as int)
                + " task(s) cancelled"@
            &&& respawned == 1 ==> said[1 + failed + cancelled] == dec(m.respawn_count as int)
                + " respawn(s) — agents hit context limit. Consider splitting tasks"@
            &&& unproven == 1 ==> said[1 + failed + cancelled + respawned] == dec(
                m.tasks_without_evidence as int,
            ) + " task(s) completed without evidence — enforcement gap"@
            &&& cost == 1 ==> said[1 + failed + cancelled + respawned + unproven] == "Cost: $"@
                + (f.cost->0).0@ + " total, $"@ + (f.cost->0).1@ + "/task"@
            &&& hours == 1 ==> said.last() == "Duration: "@ + f.hours->0@ + "h"@
        }),
{
}

/// A sum that does not fit in 64 bits is not known and counts as zero; a time that does not fit is
/// the longest that does.
pub proof fn law_numbers_that_do_not_fit(rows: Seq<UsageRowView>, start: i64, end: i64)
    ensures
        token_numbers(rows) is None ==> token_sum(rows) == 0,
        token_numbers(rows) is Some && checked_sum(token_numbers(rows)->0) is None ==> token_sum(
            rows,
        ) == 0,
        end - start > i64::MAX ==> span(start, end) == i64::MAX,
        end - start < i64::MIN ==> span(start, end) == i64::MIN,
        i64::MIN <= end - start <= i64::MAX ==> span(start, end) == end - start,
{
}

} // verus!
