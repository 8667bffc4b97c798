//! Plan hierarchy: master plans, their plans, and what depends on what.

use crate::gates::{find_plan, plan_is};
use crate::rows::{PlanRow, PlanRowView, ProjectRow, ProjectRowView};
use crate::store::{sound, Store, StoreError, StoreView};
use crate::table::{
    any, any_where, find_where, first, lemma_count_step, select_where, views, Row, TableView,
};
use crate::text::{
    copy_opt, opt_text, parse_i64, parsed_i64, pieces, same, split_on, texts, trim, trimmed,
};
use vstd::prelude::*;

verus! {

// ---- dependencies ----

/// The statuses of a plan that nothing waits for.
pub open spec fn finished(status: Seq<char>) -> bool {
    status == "done"@ || status == "cancelled"@
}

/// Whether every plan that is named can be looked up and is finished. What is no number is
/// passed over. The first plan that is open, or not there, decides.
pub open spec fn all_finished(s: StoreView, names: Seq<Seq<char>>) -> Result<bool, StoreError>
    decreases names.len(),
{
    if names.len() == 0 {
        Ok(true)
    } else {
        match parsed_i64(trimmed(names[0])) {
            None => all_finished(s, names.skip(1)),
            Some(id) => match first(s.plans.rows, plan_is(id)) {
                None => Err(StoreError::NoRows),
                Some(p) => if finished(p.status) {
                    all_finished(s, names.skip(1))
                } else {
                    Ok(false)
                },
            },
        }
    }
}

/// Whether the plans that a plan depends on are finished.
pub open spec fn dependency_answer(s: StoreView, plan_id: i64) -> Result<bool, StoreError> {
    match first(s.plans.rows, plan_is(plan_id)) {
        None => Err(StoreError::NoRows),
        Some(p) => match p.depends_on {
            None => Ok(true),
            Some(deps) => if trimmed(deps).len() == 0 {
                Ok(true)
            } else {
                all_finished(s, pieces(deps, ','))
            },
        },
    }
}

/// Whether the plans that a plan depends on are finished. They are listed by their numbers,
/// with commas between.
pub fn dependencies_met(db: &Store, plan_id: i64) -> (r: Result<bool, StoreError>)
    ensures
        r == dependency_answer(db@, plan_id),
{
    let k = match find_plan(db, plan_id) {
        Some(k) => k,
        None => {
            return Err(StoreError::NoRows);
        },
    };
    let deps = match &db.plans.rows[k].depends_on {
        Some(d) => d.as_str(),
        None => {
            return Ok(true);
        },
    };
    if trim(deps).as_str().is_empty() {
        return Ok(true);
    }
    let names = split_on(deps, ',');
    let ghost all = texts(names@);
    let mut i: usize = 0;
    assert(all.skip(0) =~= all);
    while i < names.len()
        invariant
            i <= names@.len(),
            all == texts(names@),
            dependency_answer(db@, plan_id) == all_finished(db@, all),
            all_finished(db@, all) == all_finished(db@, all.skip(i as int)),
        decreases names@.len() - i,
    {
        assert(all.skip(i as int)[0] == names@[i as int]@);
        assert(all.skip(i as int).skip(1) =~= all.skip(i + 1));
        if let Some(id) = parse_i64(trim(names[i].as_str()).as_str()) {
            match find_plan(db, id) {
                None => {
                    return Err(StoreError::NoRows);
                },
                Some(d) => {
                    let status = db.plans.rows[d].status.as_str();
                    if !same(status, "done") && !same(status, "cancelled") {
                        return Ok(false);
                    }
                },
            }
        }
        i += 1;
    }
    Ok(true)
}

/// The plans that some names stand for are finished exactly where every name that is a number
/// is the number of a finished plan.
pub proof fn law_dependencies(s: StoreView, names: Seq<Seq<char>>)
    ensures
        all_finished(s, names) == Ok::<bool, StoreError>(true) <==> forall|i: int|
            0 <= i < names.len() ==> dependency_done(s, #[trigger] names[i]),
    decreases names.len(),
{
    if names.len() > 0 {
        let rest = names.skip(1);
        law_dependencies(s, rest);
        if dependency_done(s, names[0]) {
            assert(all_finished(s, names) == all_finished(s, rest));
            if (forall|i: int| 0 <= i < names.len() ==> dependency_done(s, #[trigger] names[i])) {
                assert forall|i: int| 0 <= i < rest.len() implies dependency_done(
                    s,
                    #[trigger] rest[i],
                ) by {
                    assert(rest[i] == names[i + 1]);
                }
            }
            if (forall|i: int| 0 <= i < rest.len() ==> dependency_done(s, #[trigger] rest[i])) {
                assert forall|i: int| 0 <= i < names.len() implies dependency_done(
                    s,
                    #[trigger] names[i],
                ) by {
                    if i > 0 {
                        assert(rest[i - 1] == names[i]);
                    }
                }
            }
        }
    }
}

/// Whether a name holds nothing up: it is no number, or the number of a finished plan.
pub open spec fn dependency_done(s: StoreView, name: Seq<char>) -> bool {
    match parsed_i64(trimmed(name)) {
        Some(id) => first(s.plans.rows, plan_is(id)) matches Some(p) && finished(p.status),
        None => true,
    }
}

// ---- what the plans of a master add up to ----

/// The plans of a master.
pub open spec fn under(master_id: i64) -> spec_fn(PlanRowView) -> bool {
    |p: PlanRowView| p.parent_plan_id == Some(master_id)
}

/// The sum of a number over some plans.
pub open spec fn plan_sum(rows: Seq<PlanRowView>, f: spec_fn(PlanRowView) -> int) -> int
    decreases rows.len(),
{
    if rows.len() == 0 {
        0
    } else {
        plan_sum(rows.drop_last(), f) + f(rows.last())
    }
}

/// The tasks of a plan.
pub open spec fn total_of() -> spec_fn(PlanRowView) -> int {
    |p: PlanRowView| p.tasks_total as int
}

/// The done tasks of a plan.
pub open spec fn done_of() -> spec_fn(PlanRowView) -> int {
    |p: PlanRowView| p.tasks_done as int
}

/// The status that the plans of a master add up to.
pub open spec fn rollup_status(children: Seq<PlanRowView>) -> Seq<char> {
    if !any(children, |c: PlanRowView| !finished(c.status)) {
        "done"@
    } else if any(children, |c: PlanRowView| c.status == "doing"@ || c.status == "in_progress"@) {
        "doing"@
    } else if any(children, |c: PlanRowView| c.status == "blocked"@) {
        "blocked"@
    } else {
        "todo"@
    }
}

/// What the plans of a master add up to: done tasks, all tasks, and the status.
pub open spec fn rollup(s: StoreView, master_id: i64) -> (int, int, Seq<char>) {
    let children = s.plans.rows.filter(under(master_id));
    if children.len() == 0 {
        (0, 0, "todo"@)
    } else {
        (
            plan_sum(children, done_of()),
            plan_sum(children, total_of()),
            rollup_status(children),
        )
    }
}

/// Whether a number can be held in 64 bits.
pub open spec fn fits(n: int) -> bool {
    i64::MIN <= n <= i64::MAX
}

/// Whether the sums over the plans of a master can be held in 64 bits, as far as they are
/// summed up.
pub open spec fn rollup_fits(s: StoreView, master_id: i64) -> bool {
    let children = s.plans.rows.filter(under(master_id));
    forall|k: int|
        0 <= k <= children.len() ==> fits(#[trigger] plan_sum(children.take(k), done_of())) && fits(
            plan_sum(children.take(k), total_of()),
        )
}

/// What the plans of a master add up to.
pub fn master_rollup(db: &Store, master_id: i64) -> (r: (i64, i64, String))
    requires
        rollup_fits(db@, master_id),
    ensures
        (r.0 as int, r.1 as int, r.2@) == rollup(db@, master_id),
{
    let children = select_where(
        &db.plans.rows,
        |p: &PlanRow| -> (b: bool) ensures b == under(master_id)(p@) {
            match p.parent_plan_id {
                Some(m) => m == master_id,
                None => false,
            }
        },
        Ghost(under(master_id)),
    );
    let ghost c = views(children@);
    assert(c.len() == children@.len());
    if children.len() == 0 {
        return (0, 0, "todo".to_owned());
    }
    let mut done: i64 = 0;
    let mut total: i64 = 0;
    let mut i: usize = 0;
    while i < children.len()
        invariant
            i <= children@.len(),
            c == views(children@),
            c == db@.plans.rows.filter(under(master_id)),
            rollup_fits(db@, master_id),
            done == plan_sum(c.take(i as int), done_of()),
            total == plan_sum(c.take(i as int), total_of()),
        decreases children@.len() - i,
    {
        proof {
            assert(c.take(i + 1).drop_last() =~= c.take(i as int));
            assert(c.take(i + 1).last() == children@[i as int]@);
            assert(fits(plan_sum(c.take(i + 1), done_of())));
        }
        done = done + children[i].tasks_done;
        total = total + children[i].tasks_total;
        i += 1;
    }
    assert(c.take(i as int) =~= c);
    let open = any_where(
        &children,
        |p: &PlanRow| -> (b: bool) ensures b == !finished(p@.status) {
            !same(p.status.as_str(), "done") && !same(p.status.as_str(), "cancelled")
        },
        Ghost(|c: PlanRowView| !finished(c.status)),
    );
    if !open {
        return (done, total, "done".to_owned());
    }
    let doing = any_where(
        &children,
        |p: &PlanRow| -> (b: bool)
            ensures b == (p@.status == "doing"@ || p@.status == "in_progress"@)
        { same(p.status.as_str(), "doing") || same(p.status.as_str(), "in_progress") },
        Ghost(|c: PlanRowView| c.status == "doing"@ || c.status == "in_progress"@),
    );
    if doing {
        return (done, total, "doing".to_owned());
    }
    let blocked = any_where(
        &children,
        |p: &PlanRow| -> (b: bool) ensures b == (p@.status == "blocked"@) {
            same(p.status.as_str(), "blocked")
        },
        Ghost(|c: PlanRowView| c.status == "blocked"@),
    );
    if blocked {
        (done, total, "blocked".to_owned())
    } else {
        (done, total, "todo".to_owned())
    }
}

// ---- the tree of a project's plans ----

/// A plan with the plans under it.
#[derive(Debug)]
pub struct PlanNode {
    pub id: i64,
    pub name: String,
    pub status: String,
    pub tasks_done: i64,
    pub tasks_total: i64,
    pub depends_on: Option<String>,
    pub execution_mode: Option<String>,
    pub is_master: bool,
    pub children: Vec<PlanNode>,
}

/// Whether two nodes hold the same, and so do all nodes under them.
pub open spec fn same_node(a: PlanNode, b: PlanNode) -> bool
    decreases a,
{
    &&& a.id == b.id
    &&& a.name@ == b.name@
    &&& a.status@ == b.status@
    &&& a.tasks_done == b.tasks_done
    &&& a.tasks_total == b.tasks_total
    &&& opt_text(a.depends_on) == opt_text(b.depends_on)
    &&& opt_text(a.execution_mode) == opt_text(b.execution_mode)
    &&& a.is_master == b.is_master
    &&& a.children@.len() == b.children@.len()
    &&& forall|j: int|
        0 <= j < a.children@.len() ==> same_node(#[trigger] a.children[j], b.children[j])
}

impl Clone for PlanNode {
    fn clone(&self) -> (r: Self)
        ensures
            same_node(*self, r),
        decreases self,
    {
        let mut children: Vec<PlanNode> = Vec::new();
        let mut i: usize = 0;
        while i < self.children.len()
            invariant
                i <= self.children@.len(),
                children@.len() == i,
                forall|j: int|
                    0 <= j < i ==> same_node(#[trigger] self.children[j], children@[j]),
            decreases self.children@.len() - i,
        {
            let child = self.children[i].clone();
            children.push(child);
            i += 1;
        }
        PlanNode {
            id: self.id,
            name: self.name.clone(),
            status: self.status.clone(),
            tasks_done: self.tasks_done,
            tasks_total: self.tasks_total,
            depends_on: copy_opt(&self.depends_on),
            execution_mode: copy_opt(&self.execution_mode),
            is_master: self.is_master,
            children,
        }
    }
}

/// The plans of a project.
#[derive(Debug, Clone)]
pub struct ProjectTree {
    pub project_id: String,
    pub project_name: String,
    pub plans: Vec<PlanNode>,
    pub total_tasks: i64,
    pub done_tasks: i64,
}

/// Whether a node shows a row.
pub open spec fn shows(n: PlanNode, p: PlanRowView) -> bool {
    &&& n.id == p.id
    &&& n.name@ == p.name
    &&& n.status@ == p.status
    &&& n.tasks_done == p.tasks_done
    &&& n.tasks_total == p.tasks_total
    &&& opt_text(n.depends_on) == p.depends_on
    &&& opt_text(n.execution_mode) == p.execution_mode
    &&& n.is_master == p.is_master
}

/// Whether a node shows a row, and its children show the rows of a list, in order, with
/// nothing under them.
pub open spec fn shows_family(n: PlanNode, p: PlanRowView, kids: Seq<PlanRowView>) -> bool {
    &&& shows(n, p)
    &&& n.children@.len() == kids.len()
    &&& forall|j: int|
        0 <= j < kids.len() ==> shows(#[trigger] n.children@[j], kids[j])
            && n.children@[j].children@.len() == 0
}

/// The plans of a project that are not cancelled.
pub open spec fn visible(project: Seq<char>) -> spec_fn(PlanRowView) -> bool {
    |p: PlanRowView| p.project_id == project && p.status != "cancelled"@
}

/// The master plans of a project.
pub open spec fn master_of(project: Seq<char>) -> spec_fn(PlanRowView) -> bool {
    |p: PlanRowView| visible(project)(p) && p.is_master
}

/// The first of some plans with the given id.
pub open spec fn first_with(masters: Seq<PlanRowView>, i: int, id: i64) -> bool {
    0 <= i < masters.len() && masters[i].id == id && forall|j: int|
        0 <= j < i ==> (#[trigger] masters[j]).id != id
}

/// The plans under a master: those that name it as their parent.
pub open spec fn child_of(project: Seq<char>, masters: Seq<PlanRowView>, i: int) -> spec_fn(
    PlanRowView,
) -> bool {
    |p: PlanRowView|
        visible(project)(p) && !p.is_master && (match p.parent_plan_id {
            Some(id) => first_with(masters, i, id),
            None => false,
        })
}

/// The plans under no master: those that name no parent, or none that is there.
pub open spec fn orphan_of(project: Seq<char>, masters: Seq<PlanRowView>) -> spec_fn(
    PlanRowView,
) -> bool {
    |p: PlanRowView|
        visible(project)(p) && !p.is_master && (match p.parent_plan_id {
            Some(id) => !any(masters, plan_is(id)),
            None => true,
        })
}

/// The sum of a number over a node and all that is under it.
pub open spec fn node_sum(n: PlanNode, f: spec_fn(PlanNode) -> int) -> int
    decreases n, n.children@.len() + 1,
{
    f(n) + children_sum(n, f, n.children@.len())
}

/// The sum of a number over the first children of a node and all that is under them.
pub open spec fn children_sum(n: PlanNode, f: spec_fn(PlanNode) -> int, k: nat) -> int
    decreases n, k,
{
    if k == 0 || k > n.children@.len() {
        0
    } else {
        children_sum(n, f, (k - 1) as nat) + node_sum(n.children[k - 1], f)
    }
}

/// Whether the sums over a node can be held in 64 bits, as far as they are summed up.
pub open spec fn sums_fit(n: PlanNode, f: spec_fn(PlanNode) -> int) -> bool
    decreases n,
{
    &&& fits(node_sum(n, f))
    &&& forall|k: nat| k <= n.children@.len() ==> fits(#[trigger] children_sum(n, f, k))
    &&& forall|j: int| 0 <= j < n.children@.len() ==> sums_fit(#[trigger] n.children[j], f)
}

/// The tasks of a node.
pub open spec fn node_total() -> spec_fn(PlanNode) -> int {
    |n: PlanNode| n.tasks_total as int
}

/// The done tasks of a node.
pub open spec fn node_done() -> spec_fn(PlanNode) -> int {
    |n: PlanNode| n.tasks_done as int
}

/// The tasks of a node and of all that is under it.
pub fn sum_total(node: &PlanNode) -> (r: i64)
    requires
        sums_fit(*node, node_total()),
    ensures
        r == node_sum(*node, node_total()),
    decreases node,
{
    let mut sum: i64 = 0;
    let mut i: usize = 0;
    while i < node.children.len()
        invariant
            i <= node.children@.len(),
            sums_fit(*node, node_total()),
            sum == children_sum(*node, node_total(), i as nat),
        decreases node.children@.len() - i,
    {
        assert(sums_fit(node.children[i as int], node_total()));
        assert(fits(children_sum(*node, node_total(), (i + 1) as nat)));
        sum = sum + sum_total(&node.children[i]);
        i += 1;
    }
    node.tasks_total + sum
}

/// The done tasks of a node and of all that is under it.
pub fn sum_done(node: &PlanNode) -> (r: i64)
    requires
        sums_fit(*node, node_done()),
    ensures
        r == node_sum(*node, node_done()),
    decreases node,
{
    let mut sum: i64 = 0;
    let mut i: usize = 0;
    while i < node.children.len()
        invariant
            i <= node.children@.len(),
            sums_fit(*node, node_done()),
            sum == children_sum(*node, node_done(), i as nat),
        decreases node.children@.len() - i,
    {
        assert(sums_fit(node.children[i as int], node_done()));
        assert(fits(children_sum(*node, node_done(), (i + 1) as nat)));
        sum = sum + sum_done(&node.children[i]);
        i += 1;
    }
    node.tasks_done + sum
}

/// The node that shows a row, with nothing under it.
pub fn row_to_node(row: &PlanRow) -> (n: PlanNode)
    ensures
        shows_family(n, row@, Seq::empty()),
{
    PlanNode {
        id: row.id,
        name: row.name.clone(),
        status: row.status.clone(),
        tasks_done: row.tasks_done,
        tasks_total: row.tasks_total,
        depends_on: copy_opt(&row.depends_on),
        execution_mode: copy_opt(&row.execution_mode),
        is_master: row.is_master,
        children: Vec::new(),
    }
}

/// The plans under a master.
pub open spec fn kids(s: StoreView, project: Seq<char>, i: int) -> Seq<PlanRowView> {
    s.plans.rows.filter(child_of(project, masters(s, project), i))
}

/// The master plans of a project.
pub open spec fn masters(s: StoreView, project: Seq<char>) -> Seq<PlanRowView> {
    s.plans.rows.filter(master_of(project))
}

/// The plans of a project that are under no master.
pub open spec fn orphans(s: StoreView, project: Seq<char>) -> Seq<PlanRowView> {
    s.plans.rows.filter(orphan_of(project, masters(s, project)))
}

/// The sum of a number over a master and the plans under it.
pub open spec fn family_sum(
    s: StoreView,
    project: Seq<char>,
    g: spec_fn(PlanRowView) -> int,
    i: int,
) -> int {
    g(masters(s, project)[i]) + plan_sum(kids(s, project, i), g)
}

/// The sum of a number over the first families of a project.
pub open spec fn families_sum(
    s: StoreView,
    project: Seq<char>,
    g: spec_fn(PlanRowView) -> int,
    k: nat,
) -> int
    decreases k,
{
    if k == 0 {
        0
    } else {
        families_sum(s, project, g, (k - 1) as nat) + family_sum(s, project, g, k - 1)
    }
}

/// The sum of a number over the first trees of a project: families, and after them the plans
/// that are under no master.
pub open spec fn forest_sum(
    s: StoreView,
    project: Seq<char>,
    g: spec_fn(PlanRowView) -> int,
    k: nat,
) -> int {
    let m = masters(s, project).len();
    if k <= m {
        families_sum(s, project, g, k)
    } else {
        families_sum(s, project, g, m) + plan_sum(orphans(s, project).take(k - m), g)
    }
}

/// Whether a number can be summed up over the trees of a project within 64 bits.
pub open spec fn forest_fits(
    s: StoreView,
    project: Seq<char>,
    g: spec_fn(PlanRowView) -> int,
) -> bool {
    let m = masters(s, project).len();
    &&& forall|k: nat|
        k <= m + orphans(s, project).len() ==> fits(#[trigger] forest_sum(s, project, g, k))
    &&& forall|i: int| 0 <= i < m ==> fits(#[trigger] family_sum(s, project, g, i))
    &&& forall|i: int, k: int|
        0 <= i < m && 0 <= k <= kids(s, project, i).len() ==> fits(
            #[trigger] plan_sum(kids(s, project, i).take(k), g),
        )
}

/// Whether a tree of nodes shows the plans of a project: masters with the plans under them,
/// and after them the plans that are under no master.
pub open spec fn shows_forest(plans: Seq<PlanNode>, s: StoreView, project: Seq<char>) -> bool {
    let m = masters(s, project).len();
    &&& plans.len() == m + orphans(s, project).len()
    &&& forall|i: int|
        0 <= i < m ==> shows_family(
            #[trigger] plans[i],
            masters(s, project)[i],
            kids(s, project, i),
        )
    &&& forall|i: int|
        m <= i < plans.len() ==> shows_family(
            #[trigger] plans[i],
            orphans(s, project)[i - m],
            Seq::empty(),
        )
}

/// The name of a project, which is its id where it is not known by name.
pub open spec fn project_title(s: StoreView, project: Seq<char>) -> Seq<char> {
    match first(s.projects, project_is(project)) {
        Some(p) => p.name,
        None => project,
    }
}

/// The project with the given id.
pub open spec fn project_is(project: Seq<char>) -> spec_fn(ProjectRowView) -> bool {
    |p: ProjectRowView| p.id == project
}

/// Whether a number of a node is the number of the row that it shows.
pub open spec fn agrees(
    f: spec_fn(PlanNode) -> int,
    g: spec_fn(PlanRowView) -> int,
) -> bool {
    &&& forall|n: PlanNode, p: PlanRowView| #[trigger] shows(n, p) ==> f(n) == g(p)
    &&& forall|p: PlanRowView| fits(#[trigger] g(p))
}

/// The sums over a node that shows a family are those over the family's rows.
proof fn lemma_family(
    n: PlanNode,
    p: PlanRowView,
    list: Seq<PlanRowView>,
    f: spec_fn(PlanNode) -> int,
    g: spec_fn(PlanRowView) -> int,
    k: nat,
)
    requires
        shows_family(n, p, list),
        agrees(f, g),
        k <= list.len(),
    ensures
        children_sum(n, f, k) == plan_sum(list.take(k as int), g),
        node_sum(n, f) == g(p) + plan_sum(list, g),
    decreases k,
{
    lemma_children(n, p, list, f, g, k);
    lemma_children(n, p, list, f, g, list.len());
    assert(list.take(list.len() as int) =~= list);
}

proof fn lemma_children(
    n: PlanNode,
    p: PlanRowView,
    list: Seq<PlanRowView>,
    f: spec_fn(PlanNode) -> int,
    g: spec_fn(PlanRowView) -> int,
    k: nat,
)
    requires
        shows_family(n, p, list),
        agrees(f, g),
        k <= list.len(),
    ensures
        children_sum(n, f, k) == plan_sum(list.take(k as int), g),
    decreases k,
{
    if k > 0 {
        lemma_children(n, p, list, f, g, (k - 1) as nat);
        assert(list.take(k as int).drop_last() =~= list.take(k - 1));
        let c = n.children@[k - 1];
        assert(shows(c, list[k - 1]));
        assert(node_sum(c, f) == f(c));
    }
}

/// The sums over a node that shows a family fit where those over the family's rows do.
proof fn lemma_family_fits(
    n: PlanNode,
    p: PlanRowView,
    list: Seq<PlanRowView>,
    f: spec_fn(PlanNode) -> int,
    g: spec_fn(PlanRowView) -> int,
)
    requires
        shows_family(n, p, list),
        agrees(f, g),
        fits(g(p) + plan_sum(list, g)),
        forall|k: int| 0 <= k <= list.len() ==> fits(#[trigger] plan_sum(list.take(k), g)),
    ensures
        sums_fit(n, f),
{
    lemma_family(n, p, list, f, g, 0);
    assert forall|k: nat| k <= n.children@.len() implies fits(#[trigger] children_sum(n, f, k)) by {
        lemma_family(n, p, list, f, g, k);
    }
    assert forall|j: int| 0 <= j < n.children@.len() implies sums_fit(
        #[trigger] n.children[j],
        f,
    ) by {
        let c = n.children@[j];
        assert(shows(c, list[j]));
        assert(fits(g(list[j])));
        assert(node_sum(c, f) == f(c));
        assert forall|k: nat| k <= c.children@.len() implies fits(
            #[trigger] children_sum(c, f, k),
        ) by {
            assert(k == 0);
        }
    }
}

/// The sums over the nodes of a forest, as they are summed up, are the sums over its rows, and
/// fit where those do.
proof fn lemma_forest(
    plans: Seq<PlanNode>,
    s: StoreView,
    project: Seq<char>,
    f: spec_fn(PlanNode) -> int,
    g: spec_fn(PlanRowView) -> int,
    k: int,
)
    requires
        shows_forest(plans, s, project),
        agrees(f, g),
        forest_fits(s, project, g),
        0 <= k < plans.len(),
    ensures
        sums_fit(plans[k], f),
        forest_sum(s, project, g, (k + 1) as nat) == forest_sum(s, project, g, k as nat) + node_sum(
            plans[k],
            f,
        ),
        fits(forest_sum(s, project, g, (k + 1) as nat)),
{
    let m = masters(s, project).len();
    if k < m {
        let list = kids(s, project, k);
        assert(shows_family(plans[k], masters(s, project)[k], list));
        assert(fits(family_sum(s, project, g, k)));
        assert forall|j: int| 0 <= j <= list.len() implies fits(
            #[trigger] plan_sum(list.take(j), g),
        ) by {
            assert(fits(plan_sum(kids(s, project, k).take(j), g)));
        }
        lemma_family_fits(plans[k], masters(s, project)[k], list, f, g);
        lemma_family(plans[k], masters(s, project)[k], list, f, g, 0);
    } else {
        let none = Seq::<PlanRowView>::empty();
        let o = orphans(s, project);
        let row = o[k - m];
        assert(shows_family(plans[k], row, none));
        assert(fits(g(row)));
        assert forall|j: int| 0 <= j <= none.len() implies fits(
            #[trigger] plan_sum(none.take(j), g),
        ) by {
            assert(none.take(j) =~= none);
        }
        lemma_family_fits(plans[k], row, none, f, g);
        lemma_family(plans[k], row, none, f, g, 0);
        assert(o.take(k + 1 - m).drop_last() =~= o.take(k - m));
        assert(o.take(k + 1 - m).last() == row);
        assert(o.take(0) =~= none);
    }
    assert(fits(forest_sum(s, project, g, (k + 1) as nat)));
}

/// The plans of a project as a tree of masters and their plans, with the plans under no master
/// behind them.
pub fn project_plan_tree(db: &Store, project_id: &str) -> (r: ProjectTree)
    requires
        forest_fits(db@, project_id@, total_of()),
        forest_fits(db@, project_id@, done_of()),
    ensures
        r.project_id@ == project_id@,
        r.project_name@ == project_title(db@, project_id@),
        shows_forest(r.plans@, db@, project_id@),
        r.total_tasks == plan_sum(db@.plans.rows.filter(visible(project_id@)), total_of()),
        r.done_tasks == plan_sum(db@.plans.rows.filter(visible(project_id@)), done_of()),
{
    let named = find_where(
        &db.projects,
        |p: &ProjectRow| -> (b: bool) ensures b == project_is(project_id@)(p@) {
            same(p.id.as_str(), project_id)
        },
        Ghost(project_is(project_id@)),
    );
    let project_name = match named {
        Some(k) => db.projects[k].name.clone(),
        None => project_id.to_owned(),
    };
    let ghost s = db@;
    let ghost project = project_id@;
    let ghost rows = db@.plans.rows;
    let ghost top = masters(s, project);
    let master_rows = select_where(
        &db.plans.rows,
        |p: &PlanRow| -> (b: bool) ensures b == master_of(project_id@)(p@) {
            same(p.project_id.as_str(), project_id) && !same(p.status.as_str(), "cancelled")
                && p.is_master
        },
        Ghost(master_of(project_id@)),
    );
    let mut plans: Vec<PlanNode> = Vec::new();
    let mut i: usize = 0;
    while i < master_rows.len()
        invariant
            i <= master_rows@.len(),
            plans@.len() == i,
            top == views(master_rows@),
            forall|k: int|
                0 <= k < i ==> shows_family(#[trigger] plans@[k], top[k], Seq::empty()),
        decreases master_rows@.len() - i,
    {
        let node = row_to_node(&master_rows[i]);
        plans.push(node);
        i += 1;
    }
    let mut loose: Vec<PlanNode> = Vec::new();
    let mut r: usize = 0;
    proof {
        reveal(Seq::filter);
        assert forall|k: int| 0 <= k < plans@.len() implies shows_family(
            #[trigger] plans@[k],
            top[k],
            rows.take(0).filter(child_of(project, top, k)),
        ) by {
            assert(rows.take(0).filter(child_of(project, top, k)) =~= Seq::empty());
        }
    }
    while r < db.plans.rows.len()
        invariant
            r <= db.plans.rows@.len(),
            rows == views(db.plans.rows@),
            project == project_id@,
            plans@.len() == top.len(),
            top == rows.filter(master_of(project)),
            forall|k: int|
                0 <= k < plans@.len() ==> shows_family(
                    #[trigger] plans@[k],
                    top[k],
                    rows.take(r as int).filter(child_of(project, top, k)),
                ),
            loose@.len() == rows.take(r as int).filter(orphan_of(project, top)).len(),
            forall|k: int|
                0 <= k < loose@.len() ==> shows_family(
                    #[trigger] loose@[k],
                    rows.take(r as int).filter(orphan_of(project, top))[k],
                    Seq::empty(),
                ),
        decreases db.plans.rows@.len() - r,
    {
        let row = &db.plans.rows[r];
        proof {
            assert(rows[r as int] == row@);
            assert forall|k: int| 0 <= k < top.len() implies rows.take(r + 1).filter(
                #[trigger] child_of(project, top, k),
            ) == if child_of(project, top, k)(row@) {
                rows.take(r as int).filter(child_of(project, top, k)).push(row@)
            } else {
                rows.take(r as int).filter(child_of(project, top, k))
            } by {
                lemma_count_step(rows, child_of(project, top, k), r as int);
            }
            lemma_count_step(rows, orphan_of(project, top), r as int);
        }
        let ghost before = plans@;
        if same(row.project_id.as_str(), project_id) && !same(row.status.as_str(), "cancelled")
            && !row.is_master {
            let home: Option<usize> = match row.parent_plan_id {
                Some(id) => find_node(&plans, id, Ghost(top)),
                None => None,
            };
            let node = row_to_node(row);
            match home {
                Some(h) => {
                    plans[h].children.push(node);
                    proof {
                        assert forall|k: int| 0 <= k < plans@.len() implies shows_family(
                            #[trigger] plans@[k],
                            top[k],
                            rows.take(r + 1).filter(child_of(project, top, k)),
                        ) by {
                            assert(shows_family(
                                before[k],
                                top[k],
                                rows.take(r as int).filter(child_of(project, top, k)),
                            ));
                            if k == h {
                                assert(child_of(project, top, k)(row@));
                            } else {
                                assert(!child_of(project, top, k)(row@));
                                assert(plans@[k] == before[k]);
                            }
                        }
                        assert(plan_is(row@.parent_plan_id->0)(top[h as int]));
                        assert(!orphan_of(project, top)(row@));
                    }
                },
                None => {
                    proof {
                        assert(orphan_of(project, top)(row@));
                        assert forall|k: int| 0 <= k < top.len() implies !(
                        #[trigger] child_of(project, top, k))(row@) by {
                            if let Some(id) = row@.parent_plan_id {
                                if first_with(top, k, id) {
                                    assert(plan_is(id)(top[k]));
                                }
                            }
                        }
                    }
                    loose.push(node);
                },
            }
        }
        r += 1;
        proof {
            assert forall|k: int| 0 <= k < plans@.len() implies shows_family(
                #[trigger] plans@[k],
                top[k],
                rows.take(r as int).filter(child_of(project, top, k)),
            ) by {
                if plans@ == before {
                    assert(shows_family(
                        before[k],
                        top[k],
                        rows.take(r - 1).filter(child_of(project, top, k)),
                    ));
                    assert(!child_of(project, top, k)(row@));
                }
            }
        }
    }
    assert(rows.take(r as int) =~= rows);
    let ghost families = plans@;
    let ghost rest = loose@;
    plans.append(&mut loose);
    proof {
        assert(plans@ == families + rest);
        assert forall|k: int| 0 <= k < top.len() implies shows_family(
            #[trigger] plans@[k],
            top[k],
            kids(s, project, k),
        ) by {
            assert(plans@[k] == families[k]);
        }
        assert forall|k: int| top.len() <= k < plans@.len() implies shows_family(
            #[trigger] plans@[k],
            orphans(s, project)[k - top.len()],
            Seq::empty(),
        ) by {
            assert(plans@[k] == rest[k - top.len()]);
        }
        assert(shows_forest(plans@, s, project));
    }
    let mut total: i64 = 0;
    let mut done: i64 = 0;
    let mut t: usize = 0;
    while t < plans.len()
        invariant
            t <= plans@.len(),
            s == db@,
            project == project_id@,
            shows_forest(plans@, s, project),
            forest_fits(s, project, total_of()),
            forest_fits(s, project, done_of()),
            total == forest_sum(s, project, total_of(), t as nat),
            done == forest_sum(s, project, done_of(), t as nat),
        decreases plans@.len() - t,
    {
        proof {
            lemma_forest(plans@, s, project, node_total(), total_of(), t as int);
            lemma_forest(plans@, s, project, node_done(), done_of(), t as int);
        }
        total = total + sum_total(&plans[t]);
        done = done + sum_done(&plans[t]);
        t += 1;
    }
    proof {
        law_tree_holds_each_plan_once(s, project, total_of());
        law_tree_holds_each_plan_once(s, project, done_of());
    }
    ProjectTree {
        project_id: project_id.to_owned(),
        project_name,
        plans,
        total_tasks: total,
        done_tasks: done,
    }
}

/// The place of the first master with the given id.
fn find_node(plans: &Vec<PlanNode>, id: i64, Ghost(top): Ghost<Seq<PlanRowView>>) -> (r: Option<
    usize,
>)
    requires
        plans@.len() == top.len(),
        forall|k: int| 0 <= k < plans@.len() ==> (#[trigger] plans@[k]).id == top[k].id,
    ensures
        match r {
            Some(k) => first_with(top, k as int, id),
            None => !any(top, plan_is(id)),
        },
{
    let mut i: usize = 0;
    while i < plans.len()
        invariant
            i <= plans@.len(),
            plans@.len() == top.len(),
            forall|k: int| 0 <= k < plans@.len() ==> (#[trigger] plans@[k]).id == top[k].id,
            forall|k: int| 0 <= k < i ==> (#[trigger] top[k]).id != id,
        decreases plans@.len() - i,
    {
        assert(plans@[i as int].id == top[i as int].id);
        if plans[i].id == id {
            return Some(i);
        }
        i += 1;
    }
    None
}

/// The sum over the plans under the first masters, as far as the given rows go.
spec fn kids_sum(
    rows: Seq<PlanRowView>,
    project: Seq<char>,
    top: Seq<PlanRowView>,
    g: spec_fn(PlanRowView) -> int,
    n: nat,
) -> int
    decreases n,
{
    if n == 0 {
        0
    } else {
        kids_sum(rows, project, top, g, (n - 1) as nat) + plan_sum(
            rows.filter(child_of(project, top, n - 1)),
            g,
        )
    }
}

/// One row more adds to the sum under the first `n` masters exactly where it is under one of
/// them.
proof fn lemma_kids_step(
    rows: Seq<PlanRowView>,
    project: Seq<char>,
    top: Seq<PlanRowView>,
    g: spec_fn(PlanRowView) -> int,
    n: nat,
    r: int,
    home: int,
)
    requires
        0 <= r < rows.len(),
        n <= top.len(),
        forall|k: int| 0 <= k < top.len() ==> (#[trigger] child_of(project, top, k)(rows[r]) <==> k == home),
    ensures
        kids_sum(rows.take(r + 1), project, top, g, n) == kids_sum(
            rows.take(r),
            project,
            top,
            g,
            n,
        ) + if 0 <= home < n {
            g(rows[r])
        } else {
            0
        },
    decreases n,
{
    if n > 0 {
        lemma_kids_step(rows, project, top, g, (n - 1) as nat, r, home);
        let p = child_of(project, top, n - 1);
        lemma_count_step(rows, p, r);
        assert(p(rows[r]) <==> n - 1 == home);
        let before = rows.take(r).filter(p);
        assert(before.push(rows[r]).drop_last() =~= before);
    }
}

/// The plans that are no masters are the plans under masters and the plans under none.
proof fn lemma_split(
    rows: Seq<PlanRowView>,
    project: Seq<char>,
    top: Seq<PlanRowView>,
    g: spec_fn(PlanRowView) -> int,
    r: int,
)
    requires
        0 <= r <= rows.len(),
    ensures
        plan_sum(rows.take(r).filter(visible(project)), g) == plan_sum(
            rows.take(r).filter(master_of(project)),
            g,
        ) + kids_sum(rows.take(r), project, top, g, top.len()) + plan_sum(
            rows.take(r).filter(orphan_of(project, top)),
            g,
        ),
    decreases r,
{
    if r == 0 {
        reveal(Seq::filter);
        assert(rows.take(0) =~= Seq::empty());
        lemma_kids_none(rows.take(0), project, top, g, top.len());
    } else {
        let q = r - 1;
        lemma_split(rows, project, top, g, q);
        let row = rows[q];
        lemma_count_step(rows, visible(project), q);
        lemma_count_step(rows, master_of(project), q);
        lemma_count_step(rows, orphan_of(project, top), q);
        let v = rows.take(q).filter(visible(project));
        let m = rows.take(q).filter(master_of(project));
        let o = rows.take(q).filter(orphan_of(project, top));
        assert(v.push(row).drop_last() =~= v);
        assert(m.push(row).drop_last() =~= m);
        assert(o.push(row).drop_last() =~= o);
        let home: int = if visible(project)(row) && !row.is_master && row.parent_plan_id is Some
            && any(top, plan_is(row.parent_plan_id->0)) {
            first_place(top, row.parent_plan_id->0)
        } else {
            -1
        };
        if home >= 0 || (visible(project)(row) && !row.is_master && row.parent_plan_id is Some) {
            lemma_first_place(top, row.parent_plan_id->0);
        }
        assert forall|k: int| 0 <= k < top.len() implies (#[trigger] child_of(
            project,
            top,
            k,
        )(row) <==> k == home) by {
            if child_of(project, top, k)(row) {
                assert(plan_is(row.parent_plan_id->0)(top[k]));
                if home < k {
                    assert(top[home].id != row.parent_plan_id->0);
                } else if k < home {
                    assert(top[k].id != row.parent_plan_id->0);
                }
            }
        }
        lemma_kids_step(rows, project, top, g, top.len(), q, home);
    }
}

/// Without rows there is nothing to sum up.
proof fn lemma_kids_none(
    rows: Seq<PlanRowView>,
    project: Seq<char>,
    top: Seq<PlanRowView>,
    g: spec_fn(PlanRowView) -> int,
    n: nat,
)
    requires
        rows.len() == 0,
    ensures
        kids_sum(rows, project, top, g, n) == 0,
    decreases n,
{
    reveal(Seq::filter);
    if n > 0 {
        lemma_kids_none(rows, project, top, g, (n - 1) as nat);
    }
}

/// The place of the first plan with the given id.
spec fn first_place(top: Seq<PlanRowView>, id: i64) -> int
    decreases top.len(),
{
    if top.len() == 0 {
        0
    } else if top[0].id == id {
        0
    } else {
        1 + first_place(top.skip(1), id)
    }
}

proof fn lemma_first_place(top: Seq<PlanRowView>, id: i64)
    ensures
        any(top, plan_is(id)) ==> first_with(top, first_place(top, id), id),
    decreases top.len(),
{
    if top.len() > 0 && top[0].id != id {
        let rest = top.skip(1);
        lemma_first_place(rest, id);
        if any(top, plan_is(id)) {
            let i = choose|i: int| 0 <= i < top.len() && plan_is(id)(#[trigger] top[i]);
            assert(plan_is(id)(rest[i - 1]));
            let f = first_place(rest, id);
            assert(top[f + 1] == rest[f]);
            assert forall|j: int| 0 <= j < f + 1 implies (#[trigger] top[j]).id != id by {
                if j > 0 {
                    assert(rest[j - 1] == top[j]);
                }
            }
        }
    }
}

/// The sum over the families is the sum over the masters and the sum over the plans under them.
proof fn lemma_families(
    s: StoreView,
    project: Seq<char>,
    g: spec_fn(PlanRowView) -> int,
    k: nat,
)
    requires
        k <= masters(s, project).len(),
    ensures
        families_sum(s, project, g, k) == plan_sum(masters(s, project).take(k as int), g)
            + kids_sum(s.plans.rows, project, masters(s, project), g, k),
    decreases k,
{
    let top = masters(s, project);
    if k > 0 {
        lemma_families(s, project, g, (k - 1) as nat);
        assert(top.take(k as int).drop_last() =~= top.take(k - 1));
    } else {
        assert(top.take(0) =~= Seq::empty());
    }
}

/// Every plan of a project that is not cancelled stands in the project's tree exactly once: a
/// sum over the tree is the sum over the plans.
pub proof fn law_tree_holds_each_plan_once(
    s: StoreView,
    project: Seq<char>,
    g: spec_fn(PlanRowView) -> int,
)
    ensures
        forest_sum(
            s,
            project,
            g,
            masters(s, project).len() + orphans(s, project).len(),
        ) == plan_sum(s.plans.rows.filter(visible(project)), g),
{
    let rows = s.plans.rows;
    let top = masters(s, project);
    let o = orphans(s, project);
    lemma_families(s, project, g, top.len());
    assert(top.take(top.len() as int) =~= top);
    assert(o.take(o.len() as int) =~= o);
    assert(rows.take(rows.len() as int) =~= rows);
    lemma_split(rows, project, top, g, rows.len() as int);
    if o.len() == 0 {
        assert(plan_sum(o, g) == 0);
    }
}

/// The dependencies of a plan are met exactly where it lists none, or where every number that it
/// lists is that of a plan that is done or cancelled. What is no number does not count.
pub proof fn law_dependencies_over_rows(s: StoreView, k: int)
    requires
        sound(s),
        0 <= k < s.plans.rows.len(),
    ensures
        ({
            let p = s.plans.rows[k];
            let names = pieces(p.depends_on->0, ',');
            &&& p.depends_on is None ==> dependency_answer(s, p.id) == Ok::<bool, StoreError>(true)
            &&& p.depends_on is Some ==> (dependency_answer(s, p.id) == Ok::<bool, StoreError>(true)
                <==> trimmed(p.depends_on->0).len() == 0 || forall|i: int|
                #![trigger names[i]]
                0 <= i < names.len() && parsed_i64(trimmed(names[i])) is Some ==> exists|m: int|
                    0 <= m < s.plans.rows.len() && (#[trigger] s.plans.rows[m]).id == parsed_i64(
                        trimmed(names[i]),
                    )->0 && (s.plans.rows[m].status == "done"@ || s.plans.rows[m].status
                        == "cancelled"@))
        }),
{
    let p = s.plans.rows[k];
    let names = pieces(p.depends_on->0, ',');
    crate::table::lemma_first_keyed::<PlanRow>(s.plans, plan_is(p.id), k);
    law_dependencies(s, names);
    assert forall|i: int| 0 <= i < names.len() implies (dependency_done(s, #[trigger] names[i])
        <==> (parsed_i64(trimmed(names[i])) is Some ==> exists|m: int|
        0 <= m < s.plans.rows.len() && (#[trigger] s.plans.rows[m]).id == parsed_i64(
            trimmed(names[i]),
        )->0 && (s.plans.rows[m].status == "done"@ || s.plans.rows[m].status
            == "cancelled"@))) by {
        if let Some(id) = parsed_i64(trimmed(names[i])) {
            crate::table::lemma_first_place(s.plans.rows, plan_is(id));
            if exists|m: int|
                0 <= m < s.plans.rows.len() && (#[trigger] s.plans.rows[m]).id == id && (
                s.plans.rows[m].status == "done"@ || s.plans.rows[m].status == "cancelled"@) {
                let m = choose|m: int|
                    0 <= m < s.plans.rows.len() && (#[trigger] s.plans.rows[m]).id == id && (
                    s.plans.rows[m].status == "done"@ || s.plans.rows[m].status
                        == "cancelled"@);
                crate::table::lemma_first_keyed::<PlanRow>(s.plans, plan_is(id), m);
            }
        }
    }
}

/// Names that are not all met: the first that is not decides. The answer is that the dependencies
/// are not met where its plan is there, and an error where it is not.
pub proof fn law_first_open_dependency(s: StoreView, names: Seq<Seq<char>>, i: int)
    requires
        0 <= i < names.len(),
        !dependency_done(s, names[i]),
        forall|j: int| 0 <= j < i ==> dependency_done(s, #[trigger] names[j]),
    ensures
        parsed_i64(trimmed(names[i])) is Some,
        all_finished(s, names) == if exists|m: int|
            0 <= m < s.plans.rows.len() && (#[trigger] s.plans.rows[m]).id == parsed_i64(
                trimmed(names[i]),
            )->0 {
            Ok::<bool, StoreError>(false)
        } else {
            Err(StoreError::NoRows)
        },
    decreases i,
{
    let rest = names.skip(1);
    if i > 0 {
        assert(rest[i - 1] == names[i]);
        assert forall|j: int| 0 <= j < i - 1 implies dependency_done(s, #[trigger] rest[j]) by {
            assert(rest[j] == names[j + 1]);
        }
        assert(dependency_done(s, names[0]));
        law_first_open_dependency(s, rest, i - 1);
    } else {
        let id = parsed_i64(trimmed(names[0]))->0;
        crate::table::lemma_first_place(s.plans.rows, plan_is(id));
    }
}

/// A plan that is not there has no answer.
pub proof fn law_dependencies_of_no_plan(s: StoreView, plan_id: i64)
    requires
        forall|k: int| 0 <= k < s.plans.rows.len() ==> (#[trigger] s.plans.rows[k]).id != plan_id,
    ensures
        dependency_answer(s, plan_id) == Err::<bool, StoreError>(StoreError::NoRows),
{
    crate::table::lemma_first_place(s.plans.rows, plan_is(plan_id));
}

/// The status that the plans of a master add up to: done where all of them are done or cancelled,
/// else doing where one is at work, else blocked where one is, else waiting.
pub proof fn law_rollup_status_over_rows(s: StoreView, master_id: i64)
    ensures
        ({
            let rows = s.plans.rows;
            let some = exists|k: int|
                0 <= k < rows.len() && (#[trigger] rows[k]).parent_plan_id == Some(master_id);
            let open = exists|k: int|
                0 <= k < rows.len() && (#[trigger] rows[k]).parent_plan_id == Some(master_id)
                    && rows[k].status != "done"@ && rows[k].status != "cancelled"@;
            let busy = exists|k: int|
                0 <= k < rows.len() && (#[trigger] rows[k]).parent_plan_id == Some(master_id) && (
                rows[k].status == "doing"@ || rows[k].status == "in_progress"@);
            let stopped = exists|k: int|
                0 <= k < rows.len() && (#[trigger] rows[k]).parent_plan_id == Some(master_id)
                    && rows[k].status == "blocked"@;
            &&& !some ==> rollup(s, master_id) == (0int, 0int, "todo"@)
            &&& some ==> rollup(s, master_id).2 == if !open {
                "done"@
            } else if busy {
                "doing"@
            } else if stopped {
                "blocked"@
            } else {
                "todo"@
            }
        }),
{
    let rows = s.plans.rows;
    let kids = rows.filter(under(master_id));
    let open = |c: PlanRowView| !finished(c.status);
    let busy = |c: PlanRowView| c.status == "doing"@ || c.status == "in_progress"@;
    let stopped = |c: PlanRowView| c.status == "blocked"@;
    crate::table::lemma_count_any(rows, under(master_id));
    lemma_any_kept(rows, under(master_id), open);
    lemma_any_kept(rows, under(master_id), busy);
    lemma_any_kept(rows, under(master_id), stopped);
    assert(any(kids, open) <==> any(kids, |c: PlanRowView| !finished(c.status)));
    assert(any(kids, busy) <==> any(
        kids,
        |c: PlanRowView| c.status == "doing"@ || c.status == "in_progress"@,
    ));
    assert(any(kids, stopped) <==> any(kids, |c: PlanRowView| c.status == "blocked"@));
    assert(any(rows, under(master_id)) <==> exists|k: int|
        0 <= k < rows.len() && (#[trigger] rows[k]).parent_plan_id == Some(master_id));
}

/// One of the rows that are kept satisfies a test exactly where a row satisfies both.
proof fn lemma_any_kept<V>(rows: Seq<V>, p: spec_fn(V) -> bool, q: spec_fn(V) -> bool)
    ensures
        any(rows.filter(p), q) <==> exists|k: int|
            0 <= k < rows.len() && p(#[trigger] rows[k]) && q(rows[k]),
{
    crate::table::lemma_kept(rows, p);
    let f = rows.filter(p);
    if any(f, q) {
        let k = choose|k: int| 0 <= k < f.len() && q(#[trigger] f[k]);
        assert(p(f[k]) && rows.contains(f[k]));
        let j = choose|j: int| 0 <= j < rows.len() && rows[j] == f[k];
        assert(p(rows[j]) && q(rows[j]));
    }
    if exists|k: int| 0 <= k < rows.len() && p(#[trigger] rows[k]) && q(rows[k]) {
        let k = choose|k: int| 0 <= k < rows.len() && p(#[trigger] rows[k]) && q(rows[k]);
        assert(f.contains(rows[k]));
        let j = choose|j: int| 0 <= j < f.len() && f[j] == rows[k];
        assert(q(f[j]));
    }
}

/// One plan more adds its done tasks and its tasks to the sums of its master, and to no other.
pub proof fn law_rollup_adds(s: StoreView, master_id: i64, p: PlanRowView)
    ensures
        ({
            let n = StoreView {
                plans: TableView { rows: s.plans.rows.push(p), last_id: s.plans.last_id },
                ..s
            };
            let old_sum = rollup(s, master_id);
            let new_sum = rollup(n, master_id);
            &&& p.parent_plan_id == Some(master_id) ==> new_sum.0 == old_sum.0 + p.tasks_done
                && new_sum.1 == old_sum.1 + p.tasks_total
            &&& p.parent_plan_id != Some(master_id) ==> new_sum == old_sum
        }),
{
    let rows = s.plans.rows;
    let more = rows.push(p);
    assert(more.drop_last() =~= rows);
    reveal(Seq::filter);
    let kids = rows.filter(under(master_id));
    if under(master_id)(p) {
        assert(more.filter(under(master_id)) == kids.push(p));
        assert(kids.push(p).drop_last() =~= kids);
    } else {
        assert(more.filter(under(master_id)) == kids);
    }
}

/// The plans of a project's tree, over the rows. A plan of the project that is not cancelled is a
/// master, or stands under the master that it names as its parent, or under none where that is not
/// a master of the project; no other plan is in the tree.
pub proof fn law_tree_over_rows(s: StoreView, project: Seq<char>, k: int, i: int)
    requires
        sound(s),
        0 <= k < s.plans.rows.len(),
        0 <= i < masters(s, project).len(),
    ensures
        ({
            let p = s.plans.rows[k];
            let shown = p.project_id == project && p.status != "cancelled"@;
            let parent = masters(s, project)[i];
            let has_parent = exists|m: int|
                0 <= m < s.plans.rows.len() && Some((#[trigger] s.plans.rows[m]).id)
                    == p.parent_plan_id && s.plans.rows[m].project_id == project
                    && s.plans.rows[m].status != "cancelled"@ && s.plans.rows[m].is_master;
            &&& masters(s, project).contains(p) <==> shown && p.is_master
            &&& kids(s, project, i).contains(p) <==> shown && !p.is_master && p.parent_plan_id
                == Some(parent.id)
            &&& orphans(s, project).contains(p) <==> shown && !p.is_master && !has_parent
        }),
{
    let rows = s.plans.rows;
    let p = rows[k];
    let top = masters(s, project);
    crate::table::lemma_kept_at(s.plans.rows, master_of(project), k);
    crate::table::lemma_kept_at(s.plans.rows, child_of(project, top, i), k);
    crate::table::lemma_kept_at(s.plans.rows, orphan_of(project, top), k);
    crate::table::lemma_kept(rows, master_of(project));
    if p.parent_plan_id == Some(top[i].id) {
        assert(first_with(top, i, top[i].id)) by {
            assert forall|j: int| 0 <= j < i implies (#[trigger] top[j]).id != top[i].id by {
                lemma_filter_places(rows, master_of(project), j, i);
                let (a, b) = choose|a: int, b: int|
                    0 <= a < b < rows.len() && #[trigger] rows[a] == top[j] && #[trigger] rows[b]
                        == top[i];
                assert(PlanRow::key(rows[a]) < PlanRow::key(rows[b]));
            }
        }
    }
    if let Some(id) = p.parent_plan_id {
        lemma_any_kept(rows, master_of(project), plan_is(id));
    }
}

/// Of two rows that are kept, the first stands before the second.
proof fn lemma_filter_places<V>(rows: Seq<V>, p: spec_fn(V) -> bool, i: int, j: int)
    requires
        0 <= i < j < rows.filter(p).len(),
    ensures
        exists|a: int, b: int|
            0 <= a < b < rows.len() && #[trigger] rows[a] == rows.filter(p)[i]
                && #[trigger] rows[b] == rows.filter(p)[j],
    decreases rows.len(),
{
    reveal(Seq::filter);
    let short = rows.drop_last();
    let f = rows.filter(p);
    let g = short.filter(p);
    crate::table::lemma_kept(short, p);
    if j < g.len() {
        lemma_filter_places(short, p, i, j);
        let (a, b) = choose|a: int, b: int|
            0 <= a < b < short.len() && #[trigger] short[a] == g[i] && #[trigger] short[b] == g[j];
        assert(rows[a] == f[i] && rows[b] == f[j]);
    } else {
        assert(f == g.push(rows.last()));
        assert(short.contains(g[i]));
        let a = choose|a: int| 0 <= a < short.len() && short[a] == g[i];
        let b = rows.len() - 1;
        assert(rows[a] == f[i] && rows[b] == f[j]);
    }
}

/// Without a master every plan of a project that is not cancelled stands alone.
pub proof fn law_tree_without_masters(s: StoreView, project: Seq<char>, k: int)
    requires
        0 <= k < s.plans.rows.len(),
        masters(s, project).len() == 0,
    ensures
        orphans(s, project).contains(s.plans.rows[k]) <==> s.plans.rows[k].project_id == project
            && s.plans.rows[k].status != "cancelled"@,
{
    let top = masters(s, project);
    crate::table::lemma_kept_at(s.plans.rows, orphan_of(project, top), k);
    crate::table::lemma_kept_at(s.plans.rows, master_of(project), k);
    assert(!top.contains(s.plans.rows[k]));
}

/// A node has the key, name, status, counts, dependencies and mode of the plan that it shows.
pub proof fn law_node_shows_plan(n: PlanNode, p: PlanRowView, below: Seq<PlanRowView>)
    ensures
        shows_family(n, p, below) ==> {
            &&& n.id == p.id && n.name@ == p.name && n.status@ == p.status
            &&& n.tasks_done == p.tasks_done && n.tasks_total == p.tasks_total
            &&& n.is_master == p.is_master
            &&& n.depends_on is Some <==> p.depends_on is Some
            &&& n.depends_on is Some ==> n.depends_on->0@ == p.depends_on->0
            &&& n.execution_mode is Some <==> p.execution_mode is Some
            &&& n.execution_mode is Some ==> n.execution_mode->0@ == p.execution_mode->0
            &&& n.children@.len() == below.len()
            &&& forall|j: int|
                0 <= j < below.len() ==> (#[trigger] n.children@[j]).id == below[j].id
                    && n.children@[j].children@.len() == 0
        },
{
    if shows_family(n, p, below) {
        assert forall|j: int| 0 <= j < below.len() implies (#[trigger] n.children@[j]).id
            == below[j].id && n.children@[j].children@.len() == 0 by {
            assert(shows(n.children@[j], below[j]));
        }
    }
}

/// A project goes by its name where it is known, by its id where it is not.
pub proof fn law_project_title(s: StoreView, project: Seq<char>)
    ensures
        match first(s.projects, |r: ProjectRowView| r.id == project) {
            Some(r) => project_title(s, project) == r.name,
            None => project_title(s, project) == project,
        },
{
    let p = |r: ProjectRowView| r.id == project;
    crate::table::lemma_first_place(s.projects, p);
    crate::table::lemma_first_place(s.projects, project_is(project));
    assert(p =~= project_is(project));
}

/// The sums over a node: its own tasks, and child by child all that is under it.
pub proof fn law_node_sums(n: PlanNode, k: int)
    requires
        0 <= k < n.children@.len(),
    ensures
        n.children@.len() > 0,
        node_sum(n, node_total()) == n.tasks_total + children_sum(
            n,
            node_total(),
            n.children@.len(),
        ),
        node_sum(n, node_done()) == n.tasks_done + children_sum(n, node_done(), n.children@.len()),
        children_sum(n, node_total(), 0) == 0 && children_sum(n, node_done(), 0) == 0,
        children_sum(n, node_total(), (k + 1) as nat) == children_sum(n, node_total(), k as nat)
            + node_sum(n.children[k], node_total()),
        children_sum(n, node_done(), (k + 1) as nat) == children_sum(n, node_done(), k as nat)
            + node_sum(n.children[k], node_done()),
        forall|j: int|
            0 <= j < n.children@.len() && (#[trigger] n.children[j]).children@.len() == 0
                ==> node_sum(n.children[j], node_total()) == n.children[j].tasks_total && node_sum(
                n.children[j],
                node_done(),
            ) == n.children[j].tasks_done,
{
}

/// A tree that shows a project has one node for each master, in order, with the plans under it, and
/// behind them one for each plan under none.
pub proof fn law_forest_of_a_project(
    plans: Seq<PlanNode>,
    s: StoreView,
    project: Seq<char>,
    i: int,
)
    requires
        shows_forest(plans, s, project),
        0 <= i < plans.len(),
    ensures
        ({
            let m = masters(s, project).len();
            &&& plans.len() == m + orphans(s, project).len()
            &&& i < m ==> plans[i].id == masters(s, project)[i].id && plans[i].children@.len()
                == kids(s, project, i).len()
            &&& i >= m ==> plans[i].id == orphans(s, project)[i - m].id && plans[i].children@.len()
                == 0
        }),
{
    let m = masters(s, project).len();
    if i < m {
        assert(shows_family(plans[i], masters(s, project)[i], kids(s, project, i)));
    } else {
        assert(shows_family(plans[i], orphans(s, project)[i - m], Seq::empty()));
    }
}

} // verus!
