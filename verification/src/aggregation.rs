//! Aggregated numbers over all plans.

use crate::file_conflict_gate::lists;
use crate::gates::{find_plan, plan_is};
use crate::learning::{sum_tokens, token_sum};
use crate::plan_context::{find_meta, notes_of, opt_meta};
use crate::rows::{
    ActivityRow, ActivityRowView, PlanMetaRow, PlanMetaRowView, PlanRow, PlanRowView,
};
use crate::sorting::{keep_first, sort_rows, sorts, sorts_first};
use crate::store::{sound, Store, StoreView};
use crate::table::{count, count_where, first, select_where, views, Duplicate};
use crate::text::{same, texts};
use vstd::prelude::*;

verus! {

/// The plans in a status.
pub open spec fn plan_with(status: Seq<char>) -> spec_fn(PlanRowView) -> bool {
    |p: PlanRowView| p.status == status
}

/// How many plans are in a status.
fn count_plans(db: &Store, status: &str) -> (n: usize)
    ensures
        n == count(db@.plans.rows, plan_with(status@)),
{
    count_where(
        &db.plans.rows,
        |p: &PlanRow| -> (b: bool) ensures b == plan_with(status@)(p@) {
            same(p.status.as_str(), status)
        },
        Ghost(plan_with(status@)),
    )
}

/// The agents that have started something.
pub open spec fn started_agents(rows: Seq<ActivityRowView>) -> Seq<Seq<char>> {
    rows.filter(|a: ActivityRowView| a.status == "started"@).map_values(
        |a: ActivityRowView| a.agent_id,
    )
}

/// The different ones among some texts, each where it stands first.
pub fn distinct(list: &Vec<String>) -> (out: Vec<String>)
    ensures
        texts(out@).no_duplicates(),
        texts(out@).to_set() == texts(list@).to_set(),
        out@.len() == texts(list@).to_set().len(),
{
    let ghost all = texts(list@);
    let mut out: Vec<String> = Vec::new();
    let mut i: usize = 0;
    assert(texts(out@).to_set() =~= all.take(0).to_set());
    while i < list.len()
        invariant
            i <= list@.len(),
            all == texts(list@),
            texts(out@).no_duplicates(),
            texts(out@).to_set() == all.take(i as int).to_set(),
        decreases list@.len() - i,
    {
        let ghost before = texts(out@);
        let ghost item = all[i as int];
        let ghost prefix = all.take(i as int);
        assert(all.take(i + 1) =~= prefix.push(item));
        if !lists(&out, list[i].as_str()) {
            out.push(list[i].clone());
            assert(texts(out@) =~= before.push(item));
            assert(texts(out@).to_set() =~= before.to_set().insert(item)) by {
                lemma_set_push(before, item);
            }
        } else {
            assert(before.to_set().contains(item));
            assert(before.to_set().insert(item) =~= before.to_set());
        }
        proof {
            lemma_set_push(prefix, item);
        }
        i += 1;
    }
    assert(all.take(i as int) =~= all);
    proof {
        texts(out@).unique_seq_to_set();
    }
    out
}

proof fn lemma_set_push(s: Seq<Seq<char>>, item: Seq<char>)
    ensures
        s.push(item).to_set() == s.to_set().insert(item),
{
    let n = s.push(item);
    assert forall|x: Seq<char>| n.to_set().contains(x) == s.to_set().insert(item).contains(x) by {
        if n.contains(x) {
            let k = choose|k: int| 0 <= k < n.len() && n[k] == x;
            if k < s.len() {
                assert(s[k] == x);
            }
        }
        if s.contains(x) {
            let k = choose|k: int| 0 <= k < s.len() && s[k] == x;
            assert(n[k] == x);
        }
        assert(n[n.len() - 1] == item);
    }
    assert(n.to_set() =~= s.to_set().insert(item));
}

/// The statuses of the plans.
pub open spec fn plan_statuses(s: StoreView) -> Seq<Seq<char>> {
    s.plans.rows.map_values(|p: PlanRowView| p.status)
}

/// Whether a list says of each status how many plans are in it.
pub open spec fn distributes(list: Seq<(String, usize)>, s: StoreView) -> bool {
    let names = list.map_values(|e: (String, usize)| e.0@);
    &&& names.no_duplicates()
    &&& names.to_set() == plan_statuses(s).to_set()
    &&& forall|i: int|
        0 <= i < list.len() ==> (#[trigger] list[i]).1 == count(
            s.plans.rows,
            plan_with(list[i].0@),
        )
}

/// How many plans are in each status.
fn distribution(db: &Store) -> (r: Vec<(String, usize)>)
    ensures
        distributes(r@, db@),
{
    let mut all: Vec<String> = Vec::new();
    let mut i: usize = 0;
    while i < db.plans.rows.len()
        invariant
            i <= db.plans.rows@.len(),
            all@.len() == i,
            forall|k: int| 0 <= k < i ==> (#[trigger] all@[k])@ == db.plans.rows@[k]@.status,
        decreases db.plans.rows@.len() - i,
    {
        all.push(db.plans.rows[i].status.clone());
        i += 1;
    }
    assert(texts(all@) =~= plan_statuses(db@));
    let names = distinct(&all);
    let mut out: Vec<(String, usize)> = Vec::new();
    let mut j: usize = 0;
    while j < names.len()
        invariant
            j <= names@.len(),
            out@.len() == j,
            forall|k: int|
                0 <= k < j ==> (#[trigger] out@[k]).0@ == names@[k]@ && out@[k].1 == count(
                    db@.plans.rows,
                    plan_with(names@[k]@),
                ),
        decreases names@.len() - j,
    {
        let n: usize = count_plans(db, names[j].as_str());
        out.push((names[j].clone(), n));
        j += 1;
    }
    assert(out@.map_values(|e: (String, usize)| e.0@) =~= texts(names@));
    out
}

/// The numbers over all plans.
pub struct Summary {
    pub total_plans: usize,
    pub done_plans: usize,
    pub total_tasks: usize,
    pub total_tokens: i64,
    pub active_agents: usize,
    pub plan_status_distribution: Vec<(String, usize)>,
}

/// The numbers over all plans.
pub fn summary(db: &Store) -> (r: Summary)
    ensures
        r.total_plans == db@.plans.rows.len(),
        r.done_plans == count(db@.plans.rows, plan_with("done"@)),
        r.total_tasks == db@.tasks.rows.len(),
        r.total_tokens == token_sum(db@.token_usage),
        r.active_agents == started_agents(db@.agent_activity).to_set().len(),
        distributes(r.plan_status_distribution@, db@),
{
    let active = select_where(
        &db.agent_activity,
        |a: &ActivityRow| -> (b: bool) ensures b == (a@.status == "started"@) {
            same(a.status.as_str(), "started")
        },
        Ghost(|a: ActivityRowView| a.status == "started"@),
    );
    let mut ids: Vec<String> = Vec::new();
    let mut i: usize = 0;
    while i < active.len()
        invariant
            i <= active@.len(),
            ids@.len() == i,
            forall|k: int| 0 <= k < i ==> (#[trigger] ids@[k])@ == active@[k]@.agent_id,
        decreases active@.len() - i,
    {
        ids.push(active[i].agent_id.clone());
        i += 1;
    }
    assert(texts(ids@) =~= started_agents(db@.agent_activity));
    Summary {
        total_plans: db.plans.rows.len(),
        done_plans: count_plans(db, "done"),
        total_tasks: db.tasks.rows.len(),
        total_tokens: sum_tokens(&db.token_usage),
        active_agents: distinct(&ids).len(),
        plan_status_distribution: distribution(db),
    }
}

/// For how many days costs are broken down: thirty, where nothing else is asked for, and never
/// more than a year.
pub fn cost_days(days: Option<u32>) -> (r: u32)
    ensures
        r == (match days {
            Some(d) => if d < 365 {
                d as int
            } else {
                365
            },
            None => 30,
        }),
{
    match days {
        Some(d) => if d < 365 {
            d
        } else {
            365
        },
        None => 30,
    }
}

// ---- projects ----

/// The plans of a project.
pub open spec fn plan_of_project(project: Seq<char>) -> spec_fn(PlanRowView) -> bool {
    |p: PlanRowView| p.project_id == project
}

/// A plan with what is written down about it.
pub struct AuditedPlan {
    pub plan: PlanRow,
    pub metadata: Option<PlanMetaRow>,
}

/// The plans of a project, in the order of their ids, each with what is written down about it.
pub fn project_audit(db: &Store, project_id: &str) -> (r: Vec<AuditedPlan>)
    ensures
        ({
            let rows = db@.plans.rows.filter(plan_of_project(project_id@));
            &&& r@.len() == rows.len()
            &&& forall|i: int|
                0 <= i < r@.len() ==> (#[trigger] r@[i]).plan@ == rows[i] && opt_meta(
                    r@[i].metadata,
                ) == first(db@.plan_metadata, notes_of(rows[i].id))
        }),
{
    let rows = select_where(
        &db.plans.rows,
        |p: &PlanRow| -> (b: bool) ensures b == plan_of_project(project_id@)(p@) {
            same(p.project_id.as_str(), project_id)
        },
        Ghost(plan_of_project(project_id@)),
    );
    let ghost found = views(rows@);
    let mut out: Vec<AuditedPlan> = Vec::new();
    let mut i: usize = 0;
    while i < rows.len()
        invariant
            i <= rows@.len(),
            found == views(rows@),
            out@.len() == i,
            forall|k: int|
                0 <= k < i ==> (#[trigger] out@[k]).plan@ == found[k] && opt_meta(out@[k].metadata)
                    == first(db@.plan_metadata, notes_of(found[k].id)),
        decreases rows@.len() - i,
    {
        let metadata = match find_meta(db, rows[i].id) {
            Some(k) => Some(db.plan_metadata[k].duplicate()),
            None => None,
        };
        let entry = AuditedPlan { plan: rows[i].duplicate(), metadata };
        out.push(entry);
        i += 1;
    }
    out
}

// ---- what was learned ----

/// What was learned from a plan.
#[derive(Debug, Clone)]
pub struct Learning {
    pub plan_id: i64,
    pub plan_name: String,
    pub project_id: String,
    pub key_learnings: String,
}

/// What a [`Learning`] holds.
pub struct LearningView {
    pub plan_id: i64,
    pub plan_name: Seq<char>,
    pub project_id: Seq<char>,
    pub key_learnings: Seq<char>,
}

impl View for Learning {
    type V = LearningView;

    open spec fn view(&self) -> LearningView {
        LearningView {
            plan_id: self.plan_id,
            plan_name: self.plan_name@,
            project_id: self.project_id@,
            key_learnings: self.key_learnings@,
        }
    }
}

impl Duplicate for Learning {
    fn duplicate(&self) -> (r: Self) {
        Learning {
            plan_id: self.plan_id,
            plan_name: self.plan_name.clone(),
            project_id: self.project_id.clone(),
            key_learnings: self.key_learnings.clone(),
        }
    }
}

/// What is written down as learned, where the plan is there and the text is not empty.
pub open spec fn learning_of(s: StoreView, m: PlanMetaRowView) -> Option<LearningView> {
    match (m.key_learnings_json, first(s.plans.rows, plan_is(m.plan_id))) {
        (Some(text), Some(p)) => if text.len() > 0 {
            Some(
                LearningView {
                    plan_id: p.id,
                    plan_name: p.name,
                    project_id: p.project_id,
                    key_learnings: text,
                },
            )
        } else {
            None
        },
        _ => None,
    }
}

/// All that was learned, in the order in which it is written down.
pub open spec fn all_learnings(s: StoreView, notes: Seq<PlanMetaRowView>) -> Seq<LearningView>
    decreases notes.len(),
{
    if notes.len() == 0 {
        Seq::empty()
    } else {
        let before = all_learnings(s, notes.drop_last());
        match learning_of(s, notes.last()) {
            Some(l) => before.push(l),
            None => before,
        }
    }
}

/// The order of learnings, the latest plan first.
pub open spec fn later_plan() -> spec_fn(LearningView, LearningView) -> bool {
    |a: LearningView, b: LearningView| a.plan_id > b.plan_id
}

/// What was learned from plans, the latest plan first, at most a hundred.
pub fn learnings(db: &Store) -> (r: Vec<Learning>)
    ensures
        sorts_first(views(r@), all_learnings(db@, db@.plan_metadata), later_plan(), 100),
{
    let ghost notes = db@.plan_metadata;
    let mut all: Vec<Learning> = Vec::new();
    let mut i: usize = 0;
    assert(notes.take(0) =~= Seq::empty());
    assert(views(all@) =~= Seq::empty());
    while i < db.plan_metadata.len()
        invariant
            i <= db.plan_metadata@.len(),
            notes == db@.plan_metadata,
            views(all@) == all_learnings(db@, notes.take(i as int)),
        decreases db.plan_metadata@.len() - i,
    {
        let m = &db.plan_metadata[i];
        assert(notes.take(i + 1).drop_last() =~= notes.take(i as int));
        assert(notes.take(i + 1).last() == m@);
        if let Some(text) = &m.key_learnings_json {
            if let Some(k) = find_plan(db, m.plan_id) {
                if !text.as_str().is_empty() {
                    let ghost before = views(all@);
                    let p = &db.plans.rows[k];
                    let l = Learning {
                        plan_id: p.id,
                        plan_name: p.name.clone(),
                        project_id: p.project_id.clone(),
                        key_learnings: text.clone(),
                    };
                    all.push(l);
                    assert(views(all@) =~= before.push(l@));
                }
            }
        }
        i += 1;
    }
    assert(notes.take(i as int) =~= notes);
    let mut sorted = sort_rows(
        &all,
        |a: &Learning, b: &Learning| -> (r: bool) ensures r == later_plan()(a@, b@) {
            a.plan_id > b.plan_id
        },
        Ghost(later_plan()),
    );
    assert(sorts(views(sorted@), all_learnings(db@, db@.plan_metadata), later_plan()));
    keep_first(&mut sorted, 100);
    sorted
}

/// The numbers over all plans, over the rows: one plan more is counted under its status, an agent
/// is active where it has started something, and the plans of a project are those that name it.
pub proof fn law_summary_over_rows(
    s: StoreView,
    p: PlanRowView,
    status: Seq<char>,
    project: Seq<char>,
    agent: Seq<char>,
    i: int,
)
    requires
        0 <= i < s.plans.rows.len(),
    ensures
        count(s.plans.rows.push(p), plan_with(status)) == count(s.plans.rows, plan_with(status))
            + if p.status == status {
            1int
        } else {
            0int
        },
        started_agents(s.agent_activity).contains(agent) <==> exists|k: int|
            0 <= k < s.agent_activity.len() && (#[trigger] s.agent_activity[k]).agent_id == agent
                && s.agent_activity[k].status == "started"@,
        s.plans.rows.filter(plan_of_project(project)).contains(s.plans.rows[i])
            <==> s.plans.rows[i].project_id == project,
        plan_statuses(s)[i] == s.plans.rows[i].status,
{
    let rows = s.agent_activity;
    let q = |a: ActivityRowView| a.status == "started"@;
    let f = rows.filter(q);
    crate::table::lemma_kept_at(s.plans.rows, plan_of_project(project), i);
    crate::table::lemma_kept(rows, q);
    assert(started_agents(rows) == f.map_values(|a: ActivityRowView| a.agent_id));
    if started_agents(rows).contains(agent) {
        let k = choose|k: int|
            0 <= k < started_agents(rows).len() && started_agents(rows)[k] == agent;
        assert(q(f[k]) && rows.contains(f[k]));
        let j = choose|j: int| 0 <= j < rows.len() && rows[j] == f[k];
        assert(rows[j].agent_id == agent && rows[j].status == "started"@);
    }
    if exists|k: int|
        0 <= k < rows.len() && (#[trigger] rows[k]).agent_id == agent && rows[k].status
            == "started"@ {
        let k = choose|k: int|
            0 <= k < rows.len() && (#[trigger] rows[k]).agent_id == agent && rows[k].status
                == "started"@;
        assert(q(rows[k]));
        let j = choose|j: int| 0 <= j < f.len() && f[j] == rows[k];
        assert(started_agents(rows)[j] == agent);
    }
    reveal(Seq::filter);
    assert(s.plans.rows.push(p).drop_last() =~= s.plans.rows);
}

/// What was learned is listed with its plan's key, name and project exactly where the plan is there
/// and the text is not empty; the latest plan comes first.
pub proof fn law_learnings_over_rows(
    s: StoreView,
    notes: Seq<PlanMetaRowView>,
    m: PlanMetaRowView,
    k: int,
    a: LearningView,
    b: LearningView,
)
    requires
        sound(s),
        0 <= k < s.plans.rows.len(),
        s.plans.rows[k].id == m.plan_id,
    ensures
        ({
            let p = s.plans.rows[k];
            all_learnings(s, notes.push(m)) == if m.key_learnings_json is Some
                && m.key_learnings_json->0.len() > 0 {
                all_learnings(s, notes).push(
                    LearningView {
                        plan_id: p.id,
                        plan_name: p.name,
                        project_id: p.project_id,
                        key_learnings: m.key_learnings_json->0,
                    },
                )
            } else {
                all_learnings(s, notes)
            }
        }),
        all_learnings(s, Seq::empty()).len() == 0,
        later_plan()(a, b) <==> a.plan_id > b.plan_id,
{
    crate::table::lemma_first_keyed::<PlanRow>(s.plans, plan_is(m.plan_id), k);
    assert(notes.push(m).drop_last() =~= notes);
}

/// The distribution names each status that some plan has, once, with the number of its plans.
pub proof fn law_distribution(list: Seq<(String, usize)>, s: StoreView, i: int, j: int, k: int)
    requires
        distributes(list, s),
        0 <= i < list.len(),
        0 <= j < list.len(),
        0 <= k < s.plans.rows.len(),
    ensures
        i != j ==> list[i].0@ != list[j].0@,
        list[i].1 == s.plans.rows.filter(|p: PlanRowView| p.status == list[i].0@).len(),
        list[i].1 > 0,
        exists|m: int|
            0 <= m < list.len() && (#[trigger] list[m]).0@ == s.plans.rows[k].status,
{
    let names = list.map_values(|e: (String, usize)| e.0@);
    let statuses = plan_statuses(s);
    assert(names[i] == list[i].0@ && names[j] == list[j].0@);
    assert(plan_with(list[i].0@) =~= (|p: PlanRowView| p.status == list[i].0@));
    assert(names.to_set().contains(names[i]));
    assert(statuses.contains(names[i]));
    let q = choose|q: int| 0 <= q < statuses.len() && statuses[q] == names[i];
    assert(plan_with(list[i].0@)(s.plans.rows[q]));
    crate::table::lemma_count_any(s.plans.rows, plan_with(list[i].0@));
    assert(statuses[k] == s.plans.rows[k].status);
    assert(statuses.to_set().contains(statuses[k]));
    assert(names.contains(statuses[k]));
    let m = choose|m: int| 0 <= m < names.len() && names[m] == statuses[k];
    assert(list[m].0@ == s.plans.rows[k].status);
}

} // verus!
