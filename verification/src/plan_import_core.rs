//! Import of waves and tasks from a plan's specification.

use crate::evidence::task_is;
use crate::gates::{in_plan, plan_is, wave_is, wave_named};
use crate::json::{
    json_object_text, member_views, number_or_null, opt_number_member, opt_text_member, text_or_null,
    texts_member, write_object, Member, MemberView,
};
use crate::rows::{PlanRow, PlanRowView, TaskRow, TaskRowView, WaveRow, WaveRowView};
use crate::store::{sound, Store, StoreView};
use crate::table::{
    any, appended, count, count_where, find_where, first, full, lemma_first_any,
    lemma_updated_keyed, update_where, updated, views, Duplicate, Row, TableView,
};
use crate::text::{begins, cat3, copy_opt, opt_text, same, text_or_empty, texts};
use vstd::prelude::*;
use vstd::utf8::{decode_utf8, encode_utf8, encode_utf8_decode_utf8, is_char_boundary};

verus! {

/// A task of a specification.
#[derive(Debug)]
pub struct SpecTask {
    pub id: Option<String>,
    pub title: Option<String>,
    pub description: Option<String>,
    pub executor_agent: Option<String>,
    pub model: Option<String>,
    pub effort: Option<i64>,
    pub output_type: Option<String>,
    pub validator_agent: Option<String>,
    pub verify: Vec<String>,
}

/// What a [`SpecTask`] holds.
pub struct SpecTaskView {
    pub id: Option<Seq<char>>,
    pub title: Option<Seq<char>>,
    pub description: Option<Seq<char>>,
    pub executor_agent: Option<Seq<char>>,
    pub model: Option<Seq<char>>,
    pub effort: Option<i64>,
    pub output_type: Option<Seq<char>>,
    pub validator_agent: Option<Seq<char>>,
    pub verify: Seq<Seq<char>>,
}

impl View for SpecTask {
    type V = SpecTaskView;

    open spec fn view(&self) -> SpecTaskView {
        SpecTaskView {
            id: opt_text(self.id),
            title: opt_text(self.title),
            description: opt_text(self.description),
            executor_agent: opt_text(self.executor_agent),
            model: opt_text(self.model),
            effort: self.effort,
            output_type: opt_text(self.output_type),
            validator_agent: opt_text(self.validator_agent),
            verify: texts(self.verify@),
        }
    }
}

/// A wave of a specification.
#[derive(Debug)]
pub struct SpecWave {
    pub id: String,
    pub name: String,
    pub depends_on_wave: String,
    pub tasks: Vec<SpecTask>,
}

/// What a [`SpecWave`] holds.
pub struct SpecWaveView {
    pub id: Seq<char>,
    pub name: Seq<char>,
    pub depends_on_wave: Seq<char>,
    pub tasks: Seq<SpecTaskView>,
}

impl View for SpecWave {
    type V = SpecWaveView;

    open spec fn view(&self) -> SpecWaveView {
        SpecWaveView {
            id: self.id@,
            name: self.name@,
            depends_on_wave: self.depends_on_wave@,
            tasks: views(self.tasks@),
        }
    }
}

/// The specification of a plan.
#[derive(Debug)]
pub struct SpecYaml {
    pub waves: Vec<SpecWave>,
}

impl View for SpecYaml {
    type V = Seq<SpecWaveView>;

    open spec fn view(&self) -> Seq<SpecWaveView> {
        views(self.waves@)
    }
}

/// What an import did.
pub struct ImportStats {
    pub waves_created: u32,
    pub tasks_created: u32,
    pub waves_skipped: u32,
    pub tasks_skipped: u32,
    pub errors: Vec<String>,
}

/// What [`ImportStats`] hold.
pub struct ImportStatsView {
    pub waves_created: int,
    pub tasks_created: int,
    pub waves_skipped: int,
    pub tasks_skipped: int,
    pub errors: Seq<Seq<char>>,
}

impl View for ImportStats {
    type V = ImportStatsView;

    open spec fn view(&self) -> ImportStatsView {
        ImportStatsView {
            waves_created: self.waves_created as int,
            tasks_created: self.tasks_created as int,
            waves_skipped: self.waves_skipped as int,
            tasks_skipped: self.tasks_skipped as int,
            errors: texts(self.errors@),
        }
    }
}

/// The store and the statistics in the course of an import.
pub struct Progress {
    pub store: StoreView,
    pub stats: ImportStatsView,
}

/// The statistics with one error more.
pub open spec fn with_error(st: ImportStatsView, e: Seq<char>) -> ImportStatsView {
    ImportStatsView { errors: st.errors.push(e), ..st }
}

// ---- waves ----

/// A wave under a name, with what it depends on.
pub open spec fn renamed(name: Seq<char>, depends_on: Seq<char>) -> spec_fn(
    WaveRowView,
) -> WaveRowView {
    |w: WaveRowView| WaveRowView { name, depends_on_wave: Some(depends_on), ..w }
}

/// The name of a wave, which is its id where it has none.
pub open spec fn wave_title(w: SpecWaveView) -> Seq<char> {
    if w.name.len() == 0 {
        w.id
    } else {
        w.name
    }
}

/// The wave of the plan with the specified id, or a new one. Only a merge touches a wave that
/// is there. The second value is the wave's key, where there is one.
pub open spec fn wave_resolved(
    p: Progress,
    plan_id: i64,
    wave: SpecWaveView,
    mode: Seq<char>,
) -> (Progress, Option<i64>) {
    let s = p.store;
    match first(s.waves.rows, wave_named(plan_id, wave.id)) {
        Some(w) => {
            let stats = ImportStatsView { waves_skipped: p.stats.waves_skipped + 1, ..p.stats };
            let store = if mode == "merge"@ {
                StoreView {
                    waves: TableView {
                        rows: updated(
                            s.waves.rows,
                            wave_is(w.id),
                            renamed(wave_title(wave), wave.depends_on_wave),
                        ),
                        last_id: s.waves.last_id,
                    },
                    ..s
                }
            } else {
                s
            };
            (Progress { store, stats }, Some(w.id))
        },
        None => if full(s.waves) {
            (
                Progress {
                    stats: with_error(
                        p.stats,
                        "wave "@ + wave.id + ": database or disk is full"@,
                    ),
                    ..p
                },
                None,
            )
        } else {
            let id = (s.waves.last_id + 1) as i64;
            (
                Progress {
                    store: StoreView {
                        waves: appended(
                            s.waves,
                            WaveRowView {
                                id,
                                wave_id: wave.id,
                                plan_id,
                                name: wave_title(wave),
                                status: "pending"@,
                                depends_on_wave: Some(wave.depends_on_wave),
                                completed_at: None,
                            },
                        ),
                        ..s
                    },
                    stats: ImportStatsView {
                        waves_created: p.stats.waves_created + 1,
                        ..p.stats
                    },
                },
                Some(id),
            )
        },
    }
}

/// Finds the wave of the plan with the specified id, or inserts it.
pub fn resolve_wave(
    db: &mut Store,
    plan_id: i64,
    wave: &SpecWave,
    wave_name: &str,
    mode: &str,
    stats: &mut ImportStats,
) -> (r: Option<i64>)
    requires
        wave_name@ == wave_title(wave@),
        old(stats)@.waves_created < u32::MAX,
        old(stats)@.waves_skipped < u32::MAX,
    ensures
        (Progress { store: final(db)@, stats: final(stats)@ }, r) == wave_resolved(
            Progress { store: old(db)@, stats: old(stats)@ },
            plan_id,
            wave@,
            mode@,
        ),
        sound(old(db)@) ==> sound(final(db)@),
{
    let found = find_where(
        &db.waves.rows,
        |w: &WaveRow| -> (b: bool) ensures b == wave_named(plan_id, wave.id@)(w@) {
            w.plan_id == plan_id && same(w.wave_id.as_str(), wave.id.as_str())
        },
        Ghost(wave_named(plan_id, wave.id@)),
    );
    match found {
        Some(k) => {
            let id: i64 = db.waves.rows[k].id;
            stats.waves_skipped = stats.waves_skipped + 1;
            if same(mode, "merge") {
                proof {
                    if sound(db@) {
                        lemma_updated_keyed::<WaveRow>(
                            db@.waves,
                            wave_is(id),
                            renamed(wave_name@, wave.depends_on_wave@),
                        );
                    }
                }
                update_where(
                    &mut db.waves.rows,
                    |w: &WaveRow| -> (b: bool) ensures b == wave_is(id)(w@) { w.id == id },
                    |w: &WaveRow| -> (n: WaveRow)
                        ensures n@ == renamed(wave_name@, wave.depends_on_wave@)(w@)
                    {
                        WaveRow {
                            name: wave_name.to_owned(),
                            depends_on_wave: Some(wave.depends_on_wave.clone()),
                            ..w.duplicate()
                        }
                    },
                    Ghost(wave_is(id)),
                    Ghost(renamed(wave_name@, wave.depends_on_wave@)),
                );
            }
            Some(id)
        },
        None => {
            if db.waves.last_id == i64::MAX {
                let e = cat3("wave ", wave.id.as_str(), ": database or disk is full");
                let ghost before = texts(stats.errors@);
                stats.errors.push(e);
                assert(texts(stats.errors@) =~= before.push(e@));
                return None;
            }
            let id: i64 = db.waves.last_id + 1;
            db.waves.append(
                WaveRow {
                    id,
                    wave_id: wave.id.clone(),
                    plan_id,
                    name: wave_name.to_owned(),
                    status: "pending".to_owned(),
                    depends_on_wave: Some(wave.depends_on_wave.clone()),
                    completed_at: None,
                },
            );
            stats.waves_created = stats.waves_created + 1;
            Some(id)
        },
    }
}

// ---- tasks ----

/// The members of a task's metadata, by their names.
pub open spec fn metadata_members(t: SpecTaskView, order: nat) -> Seq<(Seq<char>, MemberView)> {
    seq![
        ("effort"@, number_or_null(t.effort)),
        ("model"@, text_or_null(t.model)),
        ("description"@, text_or_null(t.description)),
        ("output_type"@, text_or_null(t.output_type)),
        ("validator_agent"@, text_or_null(t.validator_agent)),
        ("verify"@, MemberView::Texts(t.verify)),
        ("order"@, MemberView::Number(order as int)),
    ]
}

/// The text of a task's metadata.
pub open spec fn metadata_of(t: SpecTaskView, order: nat) -> Seq<char> {
    json_object_text(metadata_members(t, order))
}

/// The text of a task's metadata.
fn metadata_text(t: &SpecTask, order: usize) -> (r: String)
    ensures
        r@ == metadata_of(t@, order as nat),
{
    let mut members: Vec<(String, Member)> = Vec::new();
    members.push(("effort".to_owned(), opt_number_member(t.effort)));
    members.push(("model".to_owned(), opt_text_member(&t.model)));
    members.push(("description".to_owned(), opt_text_member(&t.description)));
    members.push(("output_type".to_owned(), opt_text_member(&t.output_type)));
    members.push(("validator_agent".to_owned(), opt_text_member(&t.validator_agent)));
    members.push(("verify".to_owned(), texts_member(&t.verify)));
    members.push(("order".to_owned(), Member::Count(order as u64)));
    assert(member_views(members@) =~= metadata_members(t@, order as nat));
    write_object(members)
}

/// The title of a task.
pub open spec fn full_title(t: SpecTaskView) -> Seq<char> {
    match t.title {
        Some(s) => s,
        None => "untitled"@,
    }
}

/// The title that is stored: at most the first 500 bytes.
pub open spec fn short_title(t: SpecTaskView) -> Seq<char> {
    let bytes = encode_utf8(full_title(t));
    if bytes.len() > 500 {
        decode_utf8(bytes.subrange(0, 500))
    } else {
        full_title(t)
    }
}

/// Whether a title that is too long can be cut after 500 bytes without cutting a character.
pub open spec fn cuts_cleanly(t: SpecTaskView) -> bool {
    let bytes = encode_utf8(full_title(t));
    bytes.len() > 500 ==> is_char_boundary(bytes, 500)
}

/// The title that is stored.
pub fn stored_title(t: &SpecTask) -> (r: String)
    requires
        cuts_cleanly(t@),
    ensures
        r@ == short_title(t@),
{
    let title = match &t.title {
        Some(s) => s.as_str(),
        None => "untitled",
    };
    if title.as_bytes().len() > 500 {
        let (head, _tail) = title.split_at(500);
        proof {
            encode_utf8_decode_utf8(head@);
        }
        head.to_owned()
    } else {
        title.to_owned()
    }
}

/// The task of a plan with the given identifier.
pub open spec fn task_named(plan_id: i64, name: Seq<char>) -> spec_fn(TaskRowView) -> bool {
    |t: TaskRowView| t.plan_id == plan_id && t.task_id == Some(name)
}

/// The identifier of a task, empty where it has none.
pub open spec fn identifier(t: SpecTaskView) -> Seq<char> {
    text_or_empty(t.id)
}

/// A task with what a specification says of it.
pub open spec fn respecified(
    title: Seq<char>,
    agent: Option<Seq<char>>,
    metadata: Seq<char>,
    wave_id: i64,
) -> spec_fn(TaskRowView) -> TaskRowView {
    |t: TaskRowView|
        TaskRowView {
            title,
            executor_agent: agent,
            metadata: Some(metadata),
            wave_id: Some(wave_id),
            ..t
        }
}

/// A new task.
pub open spec fn new_task(
    id: i64,
    plan_id: i64,
    wave_id: i64,
    t: SpecTaskView,
    metadata: Seq<char>,
) -> TaskRowView {
    TaskRowView {
        id,
        task_id: Some(identifier(t)),
        plan_id,
        wave_id: Some(wave_id),
        title: short_title(t),
        status: "pending"@,
        executor_agent: t.executor_agent,
        metadata: Some(metadata),
        ..crate::rows::blank_task_row()
    }
}

/// One task imported. A task with the same identifier is kept: a merge gives it what is
/// specified, an append leaves it, and any other import reports it. A task without an
/// identifier is always new.
pub open spec fn task_imported(
    p: Progress,
    plan_id: i64,
    wave_id: i64,
    t: SpecTaskView,
    metadata: Seq<char>,
    mode: Seq<char>,
) -> Progress {
    let s = p.store;
    let name = identifier(t);
    let known = if name.len() > 0 {
        first(s.tasks.rows, task_named(plan_id, name))
    } else {
        None
    };
    match known {
        Some(k) => if mode == "merge"@ {
            Progress {
                store: StoreView {
                    tasks: TableView {
                        rows: updated(
                            s.tasks.rows,
                            task_is(k.id),
                            respecified(short_title(t), t.executor_agent, metadata, wave_id),
                        ),
                        last_id: s.tasks.last_id,
                    },
                    ..s
                },
                stats: ImportStatsView { tasks_skipped: p.stats.tasks_skipped + 1, ..p.stats },
            }
        } else if mode == "append"@ {
            Progress {
                stats: ImportStatsView { tasks_skipped: p.stats.tasks_skipped + 1, ..p.stats },
                ..p
            }
        } else {
            Progress {
                stats: with_error(
                    p.stats,
                    "task "@ + name
                        + ": UNIQUE constraint failed: tasks.plan_id, tasks.task_id"@,
                ),
                ..p
            }
        },
        None => if full(s.tasks) {
            Progress {
                stats: with_error(p.stats, "task "@ + name + ": database or disk is full"@),
                ..p
            }
        } else {
            Progress {
                store: StoreView {
                    tasks: appended(
                        s.tasks,
                        new_task((s.tasks.last_id + 1) as i64, plan_id, wave_id, t, metadata),
                    ),
                    ..s
                },
                stats: ImportStatsView { tasks_created: p.stats.tasks_created + 1, ..p.stats },
            }
        },
    }
}

/// Some tasks imported, one after the other.
pub open spec fn tasks_imported(
    p: Progress,
    plan_id: i64,
    wave_id: i64,
    tasks: Seq<SpecTaskView>,
    order: nat,
    mode: Seq<char>,
) -> Progress
    decreases tasks.len(),
{
    if tasks.len() == 0 {
        p
    } else {
        task_imported(
            tasks_imported(p, plan_id, wave_id, tasks.drop_last(), order, mode),
            plan_id,
            wave_id,
            tasks.last(),
            metadata_of(tasks.last(), order),
            mode,
        )
    }
}

fn push_error(stats: &mut ImportStats, head: &str, name: &str, tail: &str)
    ensures
        final(stats)@ == with_error(old(stats)@, head@ + name@ + tail@),
{
    let e = cat3(head, name, tail);
    let ghost before = texts(stats.errors@);
    stats.errors.push(e);
    assert(texts(stats.errors@) =~= before.push(e@));
}

/// Imports one task, whose metadata is given as a text.
pub fn import_task(
    db: &mut Store,
    plan_id: i64,
    wave_db_id: i64,
    task: &SpecTask,
    metadata: &str,
    mode: &str,
    stats: &mut ImportStats,
)
    requires
        cuts_cleanly(task@),
        old(stats)@.tasks_created < u32::MAX,
        old(stats)@.tasks_skipped < u32::MAX,
    ensures
        (Progress { store: final(db)@, stats: final(stats)@ }) == task_imported(
            Progress { store: old(db)@, stats: old(stats)@ },
            plan_id,
            wave_db_id,
            task@,
            metadata@,
            mode@,
        ),
        sound(old(db)@) ==> sound(final(db)@),
{
    let title = stored_title(task);
    let name = match &task.id {
        Some(s) => s.clone(),
        None => String::new(),
    };
    let known: Option<usize> = if name.as_str().is_empty() {
        None
    } else {
        find_where(
            &db.tasks.rows,
            |t: &TaskRow| -> (b: bool) ensures b == task_named(plan_id, name@)(t@) {
                t.plan_id == plan_id && (match &t.task_id {
                    Some(n) => same(n.as_str(), name.as_str()),
                    None => false,
                })
            },
            Ghost(task_named(plan_id, name@)),
        )
    };
    if let Some(k) = known {
        if same(mode, "merge") {
            let id: i64 = db.tasks.rows[k].id;
            let ghost g = respecified(
                title@,
                opt_text(task.executor_agent),
                metadata@,
                wave_db_id,
            );
            proof {
                if sound(db@) {
                    lemma_updated_keyed::<TaskRow>(db@.tasks, task_is(id), g);
                }
            }
            update_where(
                &mut db.tasks.rows,
                |t: &TaskRow| -> (b: bool) ensures b == task_is(id)(t@) { t.id == id },
                |t: &TaskRow| -> (n: TaskRow)
                    ensures n@ == respecified(title@, opt_text(task.executor_agent), metadata@, wave_db_id)(t@)
                {
                    TaskRow {
                        title: title.clone(),
                        executor_agent: copy_opt(&task.executor_agent),
                        metadata: Some(metadata.to_owned()),
                        wave_id: Some(wave_db_id),
                        ..t.duplicate()
                    }
                },
                Ghost(task_is(id)),
                Ghost(g),
            );
            stats.tasks_skipped = stats.tasks_skipped + 1;
        } else if same(mode, "append") {
            stats.tasks_skipped = stats.tasks_skipped + 1;
        } else {
            push_error(
                stats,
                "task ",
                name.as_str(),
                ": UNIQUE constraint failed: tasks.plan_id, tasks.task_id",
            );
        }
        return ;
    }
    if db.tasks.last_id == i64::MAX {
        push_error(stats, "task ", name.as_str(), ": database or disk is full");
        return ;
    }
    let id: i64 = db.tasks.last_id + 1;
    db.tasks.append(
        TaskRow {
            id,
            task_id: Some(name),
            plan_id,
            wave_id: Some(wave_db_id),
            title,
            status: "pending".to_owned(),
            executor_agent: copy_opt(&task.executor_agent),
            metadata: Some(metadata.to_owned()),
            ..TaskRow::default()
        },
    );
    stats.tasks_created = stats.tasks_created + 1;
}

/// The counters of an import leave room for `n` more tasks.
pub open spec fn room_for_tasks(st: ImportStatsView, n: int) -> bool {
    st.tasks_created + st.tasks_skipped + n <= u32::MAX
}

/// An import of tasks counts each of them at most once, and counts no wave.
proof fn lemma_tasks_counted(
    p: Progress,
    plan_id: i64,
    wave_id: i64,
    tasks: Seq<SpecTaskView>,
    order: nat,
    mode: Seq<char>,
)
    ensures
        ({
            let n = tasks_imported(p, plan_id, wave_id, tasks, order, mode).stats;
            &&& n.tasks_created + n.tasks_skipped + n.errors.len() == p.stats.tasks_created
                + p.stats.tasks_skipped + p.stats.errors.len() + tasks.len()
            &&& n.tasks_created >= p.stats.tasks_created
            &&& n.tasks_skipped >= p.stats.tasks_skipped
            &&& n.errors.len() >= p.stats.errors.len()
            &&& n.waves_created == p.stats.waves_created
            &&& n.waves_skipped == p.stats.waves_skipped
        }),
    decreases tasks.len(),
{
    if tasks.len() > 0 {
        lemma_tasks_counted(p, plan_id, wave_id, tasks.drop_last(), order, mode);
    }
}

/// Imports the tasks of a wave.
pub fn import_tasks(
    db: &mut Store,
    plan_id: i64,
    wave_db_id: i64,
    tasks: &Vec<SpecTask>,
    wave_order: usize,
    mode: &str,
    stats: &mut ImportStats,
)
    requires
        forall|i: int| 0 <= i < tasks@.len() ==> cuts_cleanly(#[trigger] views(tasks@)[i]),
        room_for_tasks(old(stats)@, tasks@.len() as int),
    ensures
        (Progress { store: final(db)@, stats: final(stats)@ }) == tasks_imported(
            Progress { store: old(db)@, stats: old(stats)@ },
            plan_id,
            wave_db_id,
            views(tasks@),
            wave_order as nat,
            mode@,
        ),
        sound(old(db)@) ==> sound(final(db)@),
{
    let ghost start = Progress { store: db@, stats: stats@ };
    let ghost all = views(tasks@);
    let mut i: usize = 0;
    assert(all.take(0) =~= Seq::empty());
    while i < tasks.len()
        invariant
            i <= tasks@.len(),
            all == views(tasks@),
            forall|k: int| 0 <= k < tasks@.len() ==> cuts_cleanly(#[trigger] views(tasks@)[k]),
            room_for_tasks(start.stats, tasks@.len() as int),
            (Progress { store: db@, stats: stats@ }) == tasks_imported(
                start,
                plan_id,
                wave_db_id,
                all.take(i as int),
                wave_order as nat,
                mode@,
            ),
            sound(start.store) ==> sound(db@),
        decreases tasks@.len() - i,
    {
        proof {
            lemma_tasks_counted(
                start,
                plan_id,
                wave_db_id,
                all.take(i as int),
                wave_order as nat,
                mode@,
            );
            assert(views(tasks@)[i as int] == tasks@[i as int]@);
            assert(all.take(i + 1).drop_last() =~= all.take(i as int));
            assert(all.take(i + 1).last() == tasks@[i as int]@);
        }
        let metadata = metadata_text(&tasks[i], wave_order);
        import_task(db, plan_id, wave_db_id, &tasks[i], metadata.as_str(), mode, stats);
        i += 1;
    }
    assert(all.take(i as int) =~= all);
}

// ---- the whole specification ----

/// One wave and its tasks imported.
pub open spec fn wave_imported(
    p: Progress,
    plan_id: i64,
    wave: SpecWaveView,
    order: nat,
    mode: Seq<char>,
) -> Progress {
    let (q, id) = wave_resolved(p, plan_id, wave, mode);
    match id {
        Some(w) => tasks_imported(q, plan_id, w, wave.tasks, order, mode),
        None => q,
    }
}

/// Some waves imported, one after the other.
pub open spec fn waves_imported(
    p: Progress,
    plan_id: i64,
    waves: Seq<SpecWaveView>,
    mode: Seq<char>,
) -> Progress
    decreases waves.len(),
{
    if waves.len() == 0 {
        p
    } else {
        wave_imported(
            waves_imported(p, plan_id, waves.drop_last(), mode),
            plan_id,
            waves.last(),
            (waves.len() - 1) as nat,
            mode,
        )
    }
}

/// The statistics of an import that has not begun.
pub open spec fn no_stats() -> ImportStatsView {
    ImportStatsView {
        waves_created: 0,
        tasks_created: 0,
        waves_skipped: 0,
        tasks_skipped: 0,
        errors: Seq::empty(),
    }
}

/// How many tasks some waves have.
pub open spec fn spec_tasks(waves: Seq<SpecWaveView>) -> int
    decreases waves.len(),
{
    if waves.len() == 0 {
        0
    } else {
        spec_tasks(waves.drop_last()) + waves.last().tasks.len()
    }
}

/// Whether an import can count the waves and tasks of a specification, and cut its titles.
pub open spec fn importable(waves: Seq<SpecWaveView>) -> bool {
    &&& waves.len() <= u32::MAX
    &&& spec_tasks(waves) <= u32::MAX
    &&& forall|i: int, j: int|
        0 <= i < waves.len() && 0 <= j < waves[i].tasks.len() ==> cuts_cleanly(
            #[trigger] waves[i].tasks[j],
        )
}

/// A number of rows, as it is stored.
pub open spec fn as_stored(n: nat) -> i64 {
    if n <= i64::MAX {
        n as i64
    } else {
        i64::MAX
    }
}

/// A plan with a number of tasks.
pub open spec fn with_total(total: i64) -> spec_fn(PlanRowView) -> PlanRowView {
    |p: PlanRowView| PlanRowView { tasks_total: total, ..p }
}

/// The store in which the plan knows how many tasks it has.
pub open spec fn with_plan_total(s: StoreView, plan_id: i64) -> StoreView {
    StoreView {
        plans: TableView {
            rows: updated(
                s.plans.rows,
                plan_is(plan_id),
                with_total(as_stored(count(s.tasks.rows, in_plan(plan_id)))),
            ),
            last_id: s.plans.last_id,
        },
        ..s
    }
}

/// A specification imported.
pub open spec fn spec_imported(
    s: StoreView,
    plan_id: i64,
    waves: Seq<SpecWaveView>,
    mode: Seq<char>,
) -> Progress {
    let p = waves_imported(Progress { store: s, stats: no_stats() }, plan_id, waves, mode);
    Progress { store: with_plan_total(p.store, plan_id), stats: p.stats }
}

/// An import counts each wave and each task at most once.
proof fn lemma_waves_counted(
    p: Progress,
    plan_id: i64,
    waves: Seq<SpecWaveView>,
    mode: Seq<char>,
)
    ensures
        ({
            let n = waves_imported(p, plan_id, waves, mode).stats;
            &&& n.waves_created + n.waves_skipped <= p.stats.waves_created + p.stats.waves_skipped
                + waves.len()
            &&& n.tasks_created + n.tasks_skipped <= p.stats.tasks_created + p.stats.tasks_skipped
                + spec_tasks(waves)
            &&& n.waves_created >= p.stats.waves_created
            &&& n.waves_skipped >= p.stats.waves_skipped
            &&& n.tasks_created >= p.stats.tasks_created
            &&& n.tasks_skipped >= p.stats.tasks_skipped
        }),
    decreases waves.len(),
{
    if waves.len() > 0 {
        let short = waves.drop_last();
        lemma_waves_counted(p, plan_id, short, mode);
        let before = waves_imported(p, plan_id, short, mode);
        let (q, id) = wave_resolved(before, plan_id, waves.last(), mode);
        if let Some(w) = id {
            lemma_tasks_counted(
                q,
                plan_id,
                w,
                waves.last().tasks,
                (waves.len() - 1) as nat,
                mode,
            );
        }
    }
}

/// The waves of a prefix have no more tasks than all of them.
proof fn lemma_spec_tasks(waves: Seq<SpecWaveView>, k: int)
    requires
        0 <= k <= waves.len(),
    ensures
        0 <= spec_tasks(waves.take(k)) <= spec_tasks(waves),
    decreases waves.len(),
{
    if waves.len() == 0 || k == waves.len() {
        assert(waves.take(k) =~= waves);
        if waves.len() > 0 {
            lemma_spec_tasks(waves.drop_last(), waves.len() - 1);
        }
    } else {
        assert(waves.take(k) =~= waves.drop_last().take(k));
        lemma_spec_tasks(waves.drop_last(), k);
    }
}

/// Inserts the waves and tasks of a specification into a plan. `append` adds what is new,
/// `merge` also brings what is there up to date.
pub fn import_waves_and_tasks(db: &mut Store, plan_id: i64, spec: &SpecYaml, mode: &str) -> (r:
    ImportStats)
    requires
        importable(spec@),
    ensures
        (Progress { store: final(db)@, stats: r@ }) == spec_imported(
            old(db)@,
            plan_id,
            spec@,
            mode@,
        ),
        sound(old(db)@) ==> sound(final(db)@),
{
    let ghost start = Progress { store: db@, stats: no_stats() };
    let ghost all = spec@;
    let mut stats = ImportStats {
        waves_created: 0,
        tasks_created: 0,
        waves_skipped: 0,
        tasks_skipped: 0,
        errors: Vec::new(),
    };
    assert(stats@.errors =~= Seq::empty());
    let mut i: usize = 0;
    assert(all.take(0) =~= Seq::empty());
    while i < spec.waves.len()
        invariant
            i <= spec.waves@.len(),
            all == views(spec.waves@),
            importable(all),
            start.stats == no_stats(),
            (Progress { store: db@, stats: stats@ }) == waves_imported(
                start,
                plan_id,
                all.take(i as int),
                mode@,
            ),
            sound(start.store) ==> sound(db@),
        decreases spec.waves@.len() - i,
    {
        let wave = &spec.waves[i];
        proof {
            lemma_waves_counted(start, plan_id, all.take(i as int), mode@);
            lemma_spec_tasks(all, i as int);
            lemma_spec_tasks(all, i + 1);
            assert(all.take(i + 1).drop_last() =~= all.take(i as int));
            assert(all.take(i + 1).last() == wave@);
            assert forall|k: int| 0 <= k < wave.tasks@.len() implies cuts_cleanly(
                #[trigger] views(wave.tasks@)[k],
            ) by {
                assert(cuts_cleanly(all[i as int].tasks[k]));
            }
        }
        let name = if wave.name.as_str().is_empty() {
            wave.id.clone()
        } else {
            wave.name.clone()
        };
        let found = resolve_wave(db, plan_id, wave, name.as_str(), mode, &mut stats);
        if let Some(id) = found {
            import_tasks(db, plan_id, id, &wave.tasks, i, mode, &mut stats);
        }
        i += 1;
    }
    assert(all.take(i as int) =~= all);
    let n: usize = count_where(
        &db.tasks.rows,
        |t: &TaskRow| -> (b: bool) ensures b == in_plan(plan_id)(t@) { t.plan_id == plan_id },
        Ghost(in_plan(plan_id)),
    );
    let total: i64 = if n as u64 <= i64::MAX as u64 {
        n as i64
    } else {
        i64::MAX
    };
    proof {
        if sound(db@) {
            lemma_updated_keyed::<PlanRow>(db@.plans, plan_is(plan_id), with_total(total));
        }
    }
    update_where(
        &mut db.plans.rows,
        |p: &PlanRow| -> (b: bool) ensures b == plan_is(plan_id)(p@) { p.id == plan_id },
        |p: &PlanRow| -> (q: PlanRow) ensures q@ == with_total(total)(p@) {
            PlanRow { tasks_total: total, ..p.duplicate() }
        },
        Ghost(plan_is(plan_id)),
        Ghost(with_total(total)),
    );
    stats
}

// ---- what holds of every import ----

/// The waves of a plan have different names, and so have its tasks, apart from those without
/// one.
pub open spec fn named_once(s: StoreView) -> bool {
    &&& forall|i: int, j: int|
        0 <= i < j < s.waves.rows.len() ==> !((#[trigger] s.waves.rows[i]).plan_id == (
        #[trigger] s.waves.rows[j]).plan_id && s.waves.rows[i].wave_id == s.waves.rows[j].wave_id)
    &&& forall|i: int, j: int|
        0 <= i < j < s.tasks.rows.len() && text_or_empty((#[trigger] s.tasks.rows[i]).task_id).len()
            > 0 ==> !(s.tasks.rows[i].plan_id == (#[trigger] s.tasks.rows[j]).plan_id
            && s.tasks.rows[i].task_id == s.tasks.rows[j].task_id)
}

proof fn lemma_wave_named_once(p: Progress, plan_id: i64, wave: SpecWaveView, mode: Seq<char>)
    requires
        named_once(p.store),
    ensures
        named_once(wave_resolved(p, plan_id, wave, mode).0.store),
{
    let s = p.store;
    let n = wave_resolved(p, plan_id, wave, mode).0.store;
    let known = wave_named(plan_id, wave.id);
    lemma_first_any(s.waves.rows, known);
    assert forall|i: int, j: int| 0 <= i < j < n.waves.rows.len() implies !((
    #[trigger] n.waves.rows[i]).plan_id == (#[trigger] n.waves.rows[j]).plan_id
        && n.waves.rows[i].wave_id == n.waves.rows[j].wave_id) by {
        if j < s.waves.rows.len() {
            assert(!(s.waves.rows[i].plan_id == s.waves.rows[j].plan_id && s.waves.rows[i].wave_id
                == s.waves.rows[j].wave_id));
        } else {
            assert(n.waves.rows[i] == s.waves.rows[i]);
            assert(!known(s.waves.rows[i]));
        }
    }
}

proof fn lemma_task_named_once(
    p: Progress,
    plan_id: i64,
    wave_id: i64,
    t: SpecTaskView,
    metadata: Seq<char>,
    mode: Seq<char>,
)
    requires
        named_once(p.store),
    ensures
        named_once(task_imported(p, plan_id, wave_id, t, metadata, mode).store),
{
    let s = p.store;
    let n = task_imported(p, plan_id, wave_id, t, metadata, mode).store;
    let known = task_named(plan_id, identifier(t));
    lemma_first_any(s.tasks.rows, known);
    assert forall|i: int, j: int|
        0 <= i < j < n.tasks.rows.len() && text_or_empty((#[trigger] n.tasks.rows[i]).task_id).len()
            > 0 implies !(n.tasks.rows[i].plan_id == (#[trigger] n.tasks.rows[j]).plan_id
        && n.tasks.rows[i].task_id == n.tasks.rows[j].task_id) by {
        if j < s.tasks.rows.len() {
            assert(n.tasks.rows[i].task_id == s.tasks.rows[i].task_id);
            assert(n.tasks.rows[i].plan_id == s.tasks.rows[i].plan_id);
            assert(n.tasks.rows[j].task_id == s.tasks.rows[j].task_id);
            assert(n.tasks.rows[j].plan_id == s.tasks.rows[j].plan_id);
        } else {
            assert(n.tasks.rows[i] == s.tasks.rows[i]);
            if identifier(t).len() > 0 {
                assert(!known(s.tasks.rows[i]));
            }
        }
    }
}

proof fn lemma_tasks_named_once(
    p: Progress,
    plan_id: i64,
    wave_id: i64,
    tasks: Seq<SpecTaskView>,
    order: nat,
    mode: Seq<char>,
)
    requires
        named_once(p.store),
    ensures
        named_once(tasks_imported(p, plan_id, wave_id, tasks, order, mode).store),
    decreases tasks.len(),
{
    if tasks.len() > 0 {
        lemma_tasks_named_once(p, plan_id, wave_id, tasks.drop_last(), order, mode);
        lemma_task_named_once(
            tasks_imported(p, plan_id, wave_id, tasks.drop_last(), order, mode),
            plan_id,
            wave_id,
            tasks.last(),
            metadata_of(tasks.last(), order),
            mode,
        );
    }
}

proof fn lemma_waves_named_once(
    p: Progress,
    plan_id: i64,
    waves: Seq<SpecWaveView>,
    mode: Seq<char>,
)
    requires
        named_once(p.store),
    ensures
        named_once(waves_imported(p, plan_id, waves, mode).store),
    decreases waves.len(),
{
    if waves.len() > 0 {
        lemma_waves_named_once(p, plan_id, waves.drop_last(), mode);
        let before = waves_imported(p, plan_id, waves.drop_last(), mode);
        lemma_wave_named_once(before, plan_id, waves.last(), mode);
        let (q, id) = wave_resolved(before, plan_id, waves.last(), mode);
        if let Some(w) = id {
            lemma_tasks_named_once(
                q,
                plan_id,
                w,
                waves.last().tasks,
                (waves.len() - 1) as nat,
                mode,
            );
        }
    }
}

/// No import, in whatever mode, brings a second wave or task of the same name into a plan.
pub proof fn law_import_keeps_names_apart(
    s: StoreView,
    plan_id: i64,
    waves: Seq<SpecWaveView>,
    mode: Seq<char>,
)
    requires
        named_once(s),
    ensures
        named_once(spec_imported(s, plan_id, waves, mode).store),
{
    lemma_waves_named_once(Progress { store: s, stats: no_stats() }, plan_id, waves, mode);
}

/// Whether keys are left for some waves and their tasks.
pub open spec fn keys_left(s: StoreView, waves: int, tasks: int) -> bool {
    s.waves.last_id + waves <= i64::MAX && s.tasks.last_id + tasks <= i64::MAX
}

/// Each wave and each task takes at most one key.
proof fn lemma_tasks_keys(
    p: Progress,
    plan_id: i64,
    wave_id: i64,
    tasks: Seq<SpecTaskView>,
    order: nat,
    mode: Seq<char>,
    waves: int,
    more: int,
)
    requires
        keys_left(p.store, waves, tasks.len() + more),
        more >= 0,
    ensures
        keys_left(tasks_imported(p, plan_id, wave_id, tasks, order, mode).store, waves, more),
    decreases tasks.len(),
{
    if tasks.len() > 0 {
        lemma_tasks_keys(p, plan_id, wave_id, tasks.drop_last(), order, mode, waves, more + 1);
    }
}

proof fn lemma_waves_keys(
    p: Progress,
    plan_id: i64,
    waves: Seq<SpecWaveView>,
    mode: Seq<char>,
    more_waves: int,
    more_tasks: int,
)
    requires
        keys_left(p.store, waves.len() + more_waves, spec_tasks(waves) + more_tasks),
        more_waves >= 0,
        more_tasks >= 0,
    ensures
        keys_left(waves_imported(p, plan_id, waves, mode).store, more_waves, more_tasks),
    decreases waves.len(),
{
    if waves.len() > 0 {
        let short = waves.drop_last();
        let last = waves.last();
        lemma_spec_tasks(waves, waves.len() - 1);
        assert(waves.take(waves.len() - 1) =~= short);
        lemma_waves_keys(
            p,
            plan_id,
            short,
            mode,
            more_waves + 1,
            more_tasks + last.tasks.len(),
        );
        let before = waves_imported(p, plan_id, short, mode);
        let (q, id) = wave_resolved(before, plan_id, last, mode);
        if let Some(w) = id {
            lemma_tasks_keys(
                q,
                plan_id,
                w,
                last.tasks,
                (waves.len() - 1) as nat,
                mode,
                more_waves,
                more_tasks,
            );
        }
    }
}

/// As long as keys are left, an import accounts for every wave and every task of the
/// specification: each wave was created or was there, and each task was created, was there,
/// or was reported.
pub proof fn law_import_accounts_for_all(
    s: StoreView,
    plan_id: i64,
    waves: Seq<SpecWaveView>,
    mode: Seq<char>,
)
    requires
        keys_left(s, waves.len() as int, spec_tasks(waves)),
    ensures
        ({
            let n = spec_imported(s, plan_id, waves, mode).stats;
            &&& n.waves_created + n.waves_skipped == waves.len()
            &&& n.tasks_created + n.tasks_skipped + n.errors.len() == spec_tasks(waves)
        }),
{
    lemma_accounts(Progress { store: s, stats: no_stats() }, plan_id, waves, mode, 0, 0);
}

proof fn lemma_accounts(
    p: Progress,
    plan_id: i64,
    waves: Seq<SpecWaveView>,
    mode: Seq<char>,
    more_waves: int,
    more_tasks: int,
)
    requires
        keys_left(p.store, waves.len() + more_waves, spec_tasks(waves) + more_tasks),
        more_waves >= 0,
        more_tasks >= 0,
    ensures
        ({
            let n = waves_imported(p, plan_id, waves, mode).stats;
            &&& n.waves_created + n.waves_skipped == p.stats.waves_created + p.stats.waves_skipped
                + waves.len()
            &&& n.tasks_created + n.tasks_skipped + n.errors.len() == p.stats.tasks_created
                + p.stats.tasks_skipped + p.stats.errors.len() + spec_tasks(waves)
        }),
    decreases waves.len(),
{
    if waves.len() > 0 {
        let short = waves.drop_last();
        let last = waves.last();
        lemma_spec_tasks(waves, waves.len() - 1);
        assert(waves.take(waves.len() - 1) =~= short);
        lemma_accounts(
            p,
            plan_id,
            short,
            mode,
            more_waves + 1,
            more_tasks + last.tasks.len(),
        );
        lemma_waves_keys(
            p,
            plan_id,
            short,
            mode,
            more_waves + 1,
            more_tasks + last.tasks.len(),
        );
        let before = waves_imported(p, plan_id, short, mode);
        let (q, id) = wave_resolved(before, plan_id, last, mode);
        assert(id is Some);
        lemma_tasks_counted(
            q,
            plan_id,
            id->0,
            last.tasks,
            (waves.len() - 1) as nat,
            mode,
        );
    }
}

/// Whether the plan has a wave for each of the specified ones.
pub open spec fn waves_there(s: StoreView, plan_id: i64, waves: Seq<SpecWaveView>) -> bool {
    forall|i: int|
        0 <= i < waves.len() ==> any(
            s.waves.rows,
            wave_named(plan_id, (#[trigger] waves[i]).id),
        )
}

/// Whether the plan has a task for each of the specified ones.
pub open spec fn tasks_there(s: StoreView, plan_id: i64, tasks: Seq<SpecTaskView>) -> bool {
    forall|j: int|
        0 <= j < tasks.len() ==> any(
            s.tasks.rows,
            task_named(plan_id, identifier(#[trigger] tasks[j])),
        )
}

/// Whether the plan has a task for each of those of the specified waves.
pub open spec fn all_tasks_there(s: StoreView, plan_id: i64, waves: Seq<SpecWaveView>) -> bool {
    forall|i: int|
        0 <= i < waves.len() ==> tasks_there(s, plan_id, (#[trigger] waves[i]).tasks)
}

/// Whether every task of the specified waves has an identifier.
pub open spec fn all_identified(waves: Seq<SpecWaveView>) -> bool {
    forall|i: int| 0 <= i < waves.len() ==> tasks_identified((#[trigger] waves[i]).tasks)
}

/// Whether every one of some tasks has an identifier.
pub open spec fn tasks_identified(tasks: Seq<SpecTaskView>) -> bool {
    forall|j: int| 0 <= j < tasks.len() ==> identifier(#[trigger] tasks[j]).len() > 0
}

/// A store that has the waves and tasks that another one has, under their names.
spec fn keeps_names(a: StoreView, b: StoreView) -> bool {
    &&& forall|plan: i64, name: Seq<char>|
        any(a.waves.rows, #[trigger] wave_named(plan, name)) ==> any(
            b.waves.rows,
            wave_named(plan, name),
        )
    &&& forall|plan: i64, name: Seq<char>|
        any(a.tasks.rows, #[trigger] task_named(plan, name)) ==> any(
            b.tasks.rows,
            task_named(plan, name),
        )
}

proof fn lemma_wave_keeps(p: Progress, plan_id: i64, wave: SpecWaveView, mode: Seq<char>)
    ensures
        keeps_names(p.store, wave_resolved(p, plan_id, wave, mode).0.store),
        wave_resolved(p, plan_id, wave, mode).1 is Some ==> any(
            wave_resolved(p, plan_id, wave, mode).0.store.waves.rows,
            wave_named(plan_id, wave.id),
        ),
{
    let s = p.store;
    let n = wave_resolved(p, plan_id, wave, mode).0.store;
    lemma_first_any(s.waves.rows, wave_named(plan_id, wave.id));
    assert forall|plan: i64, name: Seq<char>|
        any(s.waves.rows, #[trigger] wave_named(plan, name)) implies any(
        n.waves.rows,
        wave_named(plan, name),
    ) by {
        let q = wave_named(plan, name);
        let i = choose|i: int| 0 <= i < s.waves.rows.len() && q(#[trigger] s.waves.rows[i]);
        assert(q(n.waves.rows[i]));
    }
    if first(s.waves.rows, wave_named(plan_id, wave.id)) is None && !full(s.waves) {
        assert(wave_named(plan_id, wave.id)(n.waves.rows[n.waves.rows.len() - 1]));
    }
}

proof fn lemma_task_keeps(
    p: Progress,
    plan_id: i64,
    wave_id: i64,
    t: SpecTaskView,
    metadata: Seq<char>,
    mode: Seq<char>,
)
    ensures
        keeps_names(p.store, task_imported(p, plan_id, wave_id, t, metadata, mode).store),
        identifier(t).len() > 0 && !full(p.store.tasks) ==> any(
            task_imported(p, plan_id, wave_id, t, metadata, mode).store.tasks.rows,
            task_named(plan_id, identifier(t)),
        ),
{
    let s = p.store;
    let n = task_imported(p, plan_id, wave_id, t, metadata, mode).store;
    lemma_first_any(s.tasks.rows, task_named(plan_id, identifier(t)));
    assert forall|plan: i64, name: Seq<char>|
        any(s.tasks.rows, #[trigger] task_named(plan, name)) implies any(
        n.tasks.rows,
        task_named(plan, name),
    ) by {
        let q = task_named(plan, name);
        let i = choose|i: int| 0 <= i < s.tasks.rows.len() && q(#[trigger] s.tasks.rows[i]);
        assert(q(n.tasks.rows[i]));
    }
    if identifier(t).len() > 0 && !full(s.tasks) {
        if first(s.tasks.rows, task_named(plan_id, identifier(t))) is None {
            assert(task_named(plan_id, identifier(t))(n.tasks.rows[n.tasks.rows.len() - 1]));
        } else {
            assert(any(s.tasks.rows, task_named(plan_id, identifier(t))));
        }
    }
}

proof fn lemma_tasks_keep(
    p: Progress,
    plan_id: i64,
    wave_id: i64,
    tasks: Seq<SpecTaskView>,
    order: nat,
    mode: Seq<char>,
)
    requires
        p.store.tasks.last_id + tasks.len() <= i64::MAX,
        tasks_identified(tasks),
    ensures
        keeps_names(p.store, tasks_imported(p, plan_id, wave_id, tasks, order, mode).store),
        tasks_there(
            tasks_imported(p, plan_id, wave_id, tasks, order, mode).store,
            plan_id,
            tasks,
        ),
    decreases tasks.len(),
{
    if tasks.len() > 0 {
        let short = tasks.drop_last();
        assert forall|j: int| 0 <= j < short.len() implies identifier(#[trigger] short[j]).len()
            > 0 by {
            assert(short[j] == tasks[j]);
        }
        lemma_tasks_keep(p, plan_id, wave_id, short, order, mode);
        let before = tasks_imported(p, plan_id, wave_id, short, order, mode);
        lemma_tasks_keys(p, plan_id, wave_id, short, order, mode, 0, 1);
        assert(identifier(tasks[tasks.len() - 1]).len() > 0);
        lemma_task_keeps(
            before,
            plan_id,
            wave_id,
            tasks.last(),
            metadata_of(tasks.last(), order),
            mode,
        );
        let n = tasks_imported(p, plan_id, wave_id, tasks, order, mode).store;
        assert forall|j: int| 0 <= j < tasks.len() implies any(
            n.tasks.rows,
            task_named(plan_id, identifier(#[trigger] tasks[j])),
        ) by {
            if j < short.len() {
                assert(short[j] == tasks[j]);
                assert(any(before.store.tasks.rows, task_named(plan_id, identifier(short[j]))));
            }
        }
    }
}

proof fn lemma_waves_keep(
    p: Progress,
    plan_id: i64,
    waves: Seq<SpecWaveView>,
    mode: Seq<char>,
    more_waves: int,
    more_tasks: int,
)
    requires
        keys_left(p.store, waves.len() + more_waves, spec_tasks(waves) + more_tasks),
        more_waves >= 0,
        more_tasks >= 0,
        all_identified(waves),
    ensures
        waves_there(waves_imported(p, plan_id, waves, mode).store, plan_id, waves),
        all_tasks_there(waves_imported(p, plan_id, waves, mode).store, plan_id, waves),
    decreases waves.len(),
{
    if waves.len() > 0 {
        let short = waves.drop_last();
        let last = waves.last();
        lemma_spec_tasks(waves, waves.len() - 1);
        assert(waves.take(waves.len() - 1) =~= short);
        assert forall|i: int| 0 <= i < short.len() implies tasks_identified(
            (#[trigger] short[i]).tasks,
        ) by {
            assert(short[i] == waves[i]);
        }
        lemma_waves_keep(
            p,
            plan_id,
            short,
            mode,
            more_waves + 1,
            more_tasks + last.tasks.len(),
        );
        lemma_waves_keys(
            p,
            plan_id,
            short,
            mode,
            more_waves + 1,
            more_tasks + last.tasks.len(),
        );
        let before = waves_imported(p, plan_id, short, mode);
        lemma_wave_keeps(before, plan_id, last, mode);
        let (q, id) = wave_resolved(before, plan_id, last, mode);
        assert(tasks_identified(waves[waves.len() - 1].tasks));
        lemma_tasks_keep(q, plan_id, id->0, last.tasks, (waves.len() - 1) as nat, mode);
        let n = waves_imported(p, plan_id, waves, mode).store;
        assert forall|i: int| 0 <= i < waves.len() implies any(
            n.waves.rows,
            wave_named(plan_id, (#[trigger] waves[i]).id),
        ) && tasks_there(n, plan_id, waves[i].tasks) by {
            if i < short.len() {
                assert(short[i] == waves[i]);
                assert(any(before.store.waves.rows, wave_named(plan_id, short[i].id)));
                assert(any(q.store.waves.rows, wave_named(plan_id, waves[i].id)));
                let list = waves[i].tasks;
                assert(tasks_there(before.store, plan_id, short[i].tasks));
                assert forall|j: int| 0 <= j < list.len() implies any(
                    n.tasks.rows,
                    task_named(plan_id, identifier(#[trigger] list[j])),
                ) by {
                    assert(any(
                        before.store.tasks.rows,
                        task_named(plan_id, identifier(list[j])),
                    ));
                    assert(any(q.store.tasks.rows, task_named(plan_id, identifier(list[j]))));
                }
            } else {
                assert(any(q.store.waves.rows, wave_named(plan_id, last.id)));
            }
        }
    }
}

/// Where all is there, an append changes nothing and creates nothing.
proof fn lemma_append_idle(p: Progress, plan_id: i64, waves: Seq<SpecWaveView>)
    requires
        waves_there(p.store, plan_id, waves),
        all_tasks_there(p.store, plan_id, waves),
        all_identified(waves),
    ensures
        ({
            let n = waves_imported(p, plan_id, waves, "append"@);
            &&& n.store == p.store
            &&& n.stats.waves_created == p.stats.waves_created
            &&& n.stats.tasks_created == p.stats.tasks_created
            &&& n.stats.errors == p.stats.errors
        }),
    decreases waves.len(),
{
    reveal_strlit("append");
    reveal_strlit("merge");
    assert("append"@.len() == 6 && "merge"@.len() == 5);
    if waves.len() > 0 {
        let short = waves.drop_last();
        let last = waves.last();
        assert forall|i: int| 0 <= i < short.len() implies any(
            p.store.waves.rows,
            wave_named(plan_id, (#[trigger] short[i]).id),
        ) && tasks_there(p.store, plan_id, short[i].tasks) && tasks_identified(
            short[i].tasks,
        ) by {
            assert(short[i] == waves[i]);
        }
        lemma_append_idle(p, plan_id, short);
        let before = waves_imported(p, plan_id, short, "append"@);
        assert(waves[waves.len() - 1] == last);
        lemma_first_any(p.store.waves.rows, wave_named(plan_id, last.id));
        let (q, id) = wave_resolved(before, plan_id, last, "append"@);
        lemma_append_tasks_idle(q, plan_id, id->0, last.tasks, (waves.len() - 1) as nat);
    }
}

proof fn lemma_append_tasks_idle(
    p: Progress,
    plan_id: i64,
    wave_id: i64,
    tasks: Seq<SpecTaskView>,
    order: nat,
)
    requires
        tasks_there(p.store, plan_id, tasks),
        tasks_identified(tasks),
    ensures
        ({
            let n = tasks_imported(p, plan_id, wave_id, tasks, order, "append"@);
            &&& n.store == p.store
            &&& n.stats.waves_created == p.stats.waves_created
            &&& n.stats.tasks_created == p.stats.tasks_created
            &&& n.stats.errors == p.stats.errors
        }),
    decreases tasks.len(),
{
    reveal_strlit("append");
    reveal_strlit("merge");
    assert("append"@.len() == 6 && "merge"@.len() == 5);
    if tasks.len() > 0 {
        let short = tasks.drop_last();
        let last = tasks.last();
        assert forall|j: int| 0 <= j < short.len() implies any(
            p.store.tasks.rows,
            task_named(plan_id, identifier(#[trigger] short[j])),
        ) && identifier(short[j]).len() > 0 by {
            assert(short[j] == tasks[j]);
        }
        lemma_append_tasks_idle(p, plan_id, wave_id, short, order);
        assert(tasks[tasks.len() - 1] == last);
        lemma_first_any(p.store.tasks.rows, task_named(plan_id, identifier(last)));
    }
}

/// What is there after the waves have been imported is there after the whole import.
proof fn lemma_there_after(
    s: StoreView,
    plan_id: i64,
    waves: Seq<SpecWaveView>,
    mode: Seq<char>,
)
    requires
        ({
            let n = waves_imported(Progress { store: s, stats: no_stats() }, plan_id, waves, mode);
            waves_there(n.store, plan_id, waves) && all_tasks_there(n.store, plan_id, waves)
        }),
    ensures
        waves_there(spec_imported(s, plan_id, waves, mode).store, plan_id, waves),
        all_tasks_there(spec_imported(s, plan_id, waves, mode).store, plan_id, waves),
{
    let first_time = waves_imported(
        Progress { store: s, stats: no_stats() },
        plan_id,
        waves,
        mode,
    ).store;
    let once = spec_imported(s, plan_id, waves, mode).store;
    assert forall|i: int| 0 <= i < waves.len() implies any(
        once.waves.rows,
        wave_named(plan_id, (#[trigger] waves[i]).id),
    ) && tasks_there(once, plan_id, waves[i].tasks) by {
        assert(any(first_time.waves.rows, wave_named(plan_id, waves[i].id)));
        assert(tasks_there(first_time, plan_id, waves[i].tasks));
        let list = waves[i].tasks;
        assert forall|j: int| 0 <= j < list.len() implies any(
            once.tasks.rows,
            task_named(plan_id, identifier(#[trigger] list[j])),
        ) by {
            assert(any(first_time.tasks.rows, task_named(plan_id, identifier(list[j]))));
        }
    }
}

/// To append a specification whose tasks all have identifiers a second time, after it was
/// imported in whatever mode, changes nothing and creates nothing. A task without an identifier
/// is created anew by every import.
pub proof fn law_append_again_changes_nothing(
    s: StoreView,
    plan_id: i64,
    waves: Seq<SpecWaveView>,
    mode: Seq<char>,
)
    requires
        all_identified(waves),
        keys_left(s, waves.len() as int, spec_tasks(waves)),
    ensures
        ({
            let once = spec_imported(s, plan_id, waves, mode).store;
            let twice = spec_imported(once, plan_id, waves, "append"@);
            &&& twice.store == once
            &&& twice.stats.waves_created == 0
            &&& twice.stats.tasks_created == 0
            &&& twice.stats.errors.len() == 0
        }),
{
    lemma_waves_keep(Progress { store: s, stats: no_stats() }, plan_id, waves, mode, 0, 0);
    lemma_there_after(s, plan_id, waves, mode);
    let once = spec_imported(s, plan_id, waves, mode).store;
    lemma_append_idle(Progress { store: once, stats: no_stats() }, plan_id, waves);
    let total = as_stored(count(once.tasks.rows, in_plan(plan_id)));
    assert(updated(once.plans.rows, plan_is(plan_id), with_total(total)) =~= once.plans.rows);
}

/// Names that are kept twice are kept.
proof fn lemma_keeps_trans(a: StoreView, b: StoreView, c: StoreView)
    requires
        keeps_names(a, b),
        keeps_names(b, c),
    ensures
        keeps_names(a, c),
{
    assert forall|plan: i64, name: Seq<char>|
        any(a.waves.rows, #[trigger] wave_named(plan, name)) implies any(
        c.waves.rows,
        wave_named(plan, name),
    ) by {
        assert(any(b.waves.rows, wave_named(plan, name)));
    }
    assert forall|plan: i64, name: Seq<char>|
        any(a.tasks.rows, #[trigger] task_named(plan, name)) implies any(
        c.tasks.rows,
        task_named(plan, name),
    ) by {
        assert(any(b.tasks.rows, task_named(plan, name)));
    }
}

/// Tasks that are there stay there while names are kept.
proof fn lemma_tasks_stay(a: StoreView, b: StoreView, plan_id: i64, tasks: Seq<SpecTaskView>)
    requires
        keeps_names(a, b),
        tasks_there(a, plan_id, tasks),
    ensures
        tasks_there(b, plan_id, tasks),
{
    assert forall|j: int| 0 <= j < tasks.len() implies any(
        b.tasks.rows,
        task_named(plan_id, identifier(#[trigger] tasks[j])),
    ) by {
        assert(any(a.tasks.rows, task_named(plan_id, identifier(tasks[j]))));
    }
}

/// An import of tasks keeps all names. Where it reports no error, each task with an identifier
/// is there afterwards.
proof fn lemma_clean_tasks(
    p: Progress,
    plan_id: i64,
    wave_id: i64,
    tasks: Seq<SpecTaskView>,
    order: nat,
    mode: Seq<char>,
)
    ensures
        ({
            let n = tasks_imported(p, plan_id, wave_id, tasks, order, mode);
            &&& keeps_names(p.store, n.store)
            &&& tasks_identified(tasks) && n.stats.errors.len() == p.stats.errors.len()
                ==> tasks_there(n.store, plan_id, tasks)
        }),
    decreases tasks.len(),
{
    if tasks.len() > 0 {
        let short = tasks.drop_last();
        let last = tasks.last();
        let before = tasks_imported(p, plan_id, wave_id, short, order, mode);
        let n = tasks_imported(p, plan_id, wave_id, tasks, order, mode);
        lemma_clean_tasks(p, plan_id, wave_id, short, order, mode);
        lemma_tasks_counted(p, plan_id, wave_id, short, order, mode);
        lemma_task_keeps(before, plan_id, wave_id, last, metadata_of(last, order), mode);
        lemma_keeps_trans(p.store, before.store, n.store);
        if tasks_identified(tasks) && n.stats.errors.len() == p.stats.errors.len() {
            assert forall|j: int| 0 <= j < short.len() implies identifier(#[trigger] short[j]).len()
                > 0 by {
                assert(short[j] == tasks[j]);
            }
            assert(identifier(tasks[tasks.len() - 1]).len() > 0);
            lemma_tasks_stay(before.store, n.store, plan_id, short);
            lemma_first_any(before.store.tasks.rows, task_named(plan_id, identifier(last)));
            assert(any(n.store.tasks.rows, task_named(plan_id, identifier(last))));
            assert forall|j: int| 0 <= j < tasks.len() implies any(
                n.store.tasks.rows,
                task_named(plan_id, identifier(#[trigger] tasks[j])),
            ) by {
                if j < short.len() {
                    assert(short[j] == tasks[j]);
                }
            }
        }
    } else {
        assert(keeps_names(p.store, p.store));
    }
}

/// Where an import reports no error, it accounts for all waves and tasks, and each wave and
/// each task with an identifier is there afterwards.
proof fn lemma_clean_waves(
    p: Progress,
    plan_id: i64,
    waves: Seq<SpecWaveView>,
    mode: Seq<char>,
)
    ensures
        ({
            let n = waves_imported(p, plan_id, waves, mode);
            &&& n.stats.errors.len() >= p.stats.errors.len()
            &&& n.stats.errors.len() == p.stats.errors.len() ==> {
                &&& n.stats.waves_created + n.stats.waves_skipped == p.stats.waves_created
                    + p.stats.waves_skipped + waves.len()
                &&& n.stats.tasks_created + n.stats.tasks_skipped == p.stats.tasks_created
                    + p.stats.tasks_skipped + spec_tasks(waves)
                &&& waves_there(n.store, plan_id, waves)
                &&& all_identified(waves) ==> all_tasks_there(n.store, plan_id, waves)
            }
        }),
    decreases waves.len(),
{
    if waves.len() > 0 {
        let short = waves.drop_last();
        let last = waves.last();
        let order = (waves.len() - 1) as nat;
        let before = waves_imported(p, plan_id, short, mode);
        let n = waves_imported(p, plan_id, waves, mode);
        lemma_clean_waves(p, plan_id, short, mode);
        lemma_wave_keeps(before, plan_id, last, mode);
        let (q, id) = wave_resolved(before, plan_id, last, mode);
        if let Some(w) = id {
            lemma_tasks_counted(q, plan_id, w, last.tasks, order, mode);
            lemma_clean_tasks(q, plan_id, w, last.tasks, order, mode);
            lemma_keeps_trans(before.store, q.store, n.store);
        }
        if n.stats.errors.len() == p.stats.errors.len() {
            assert(id is Some);
            assert forall|i: int| 0 <= i < waves.len() implies any(
                n.store.waves.rows,
                wave_named(plan_id, (#[trigger] waves[i]).id),
            ) by {
                if i < short.len() {
                    assert(short[i] == waves[i]);
                    assert(any(before.store.waves.rows, wave_named(plan_id, short[i].id)));
                } else {
                    assert(any(q.store.waves.rows, wave_named(plan_id, last.id)));
                }
            }
            if all_identified(waves) {
                assert forall|i: int| 0 <= i < short.len() implies tasks_identified(
                    (#[trigger] short[i]).tasks,
                ) by {
                    assert(short[i] == waves[i]);
                }
                assert(tasks_identified(waves[waves.len() - 1].tasks));
                assert forall|i: int| 0 <= i < waves.len() implies tasks_there(
                    n.store,
                    plan_id,
                    (#[trigger] waves[i]).tasks,
                ) by {
                    if i < short.len() {
                        assert(short[i] == waves[i]);
                        lemma_tasks_stay(before.store, n.store, plan_id, short[i].tasks);
                    }
                }
            }
        }
    }
}

/// Where all tasks are there, a merge creates none and reports nothing.
proof fn lemma_merge_tasks_idle(
    p: Progress,
    plan_id: i64,
    wave_id: i64,
    tasks: Seq<SpecTaskView>,
    order: nat,
)
    requires
        tasks_there(p.store, plan_id, tasks),
        tasks_identified(tasks),
    ensures
        ({
            let n = tasks_imported(p, plan_id, wave_id, tasks, order, "merge"@).stats;
            &&& n.waves_created == p.stats.waves_created
            &&& n.tasks_created == p.stats.tasks_created
            &&& n.errors == p.stats.errors
        }),
    decreases tasks.len(),
{
    if tasks.len() > 0 {
        let short = tasks.drop_last();
        let last = tasks.last();
        assert forall|j: int| 0 <= j < short.len() implies any(
            p.store.tasks.rows,
            task_named(plan_id, identifier(#[trigger] short[j])),
        ) && identifier(short[j]).len() > 0 by {
            assert(short[j] == tasks[j]);
        }
        lemma_merge_tasks_idle(p, plan_id, wave_id, short, order);
        lemma_clean_tasks(p, plan_id, wave_id, short, order, "merge"@);
        let before = tasks_imported(p, plan_id, wave_id, short, order, "merge"@);
        assert(tasks[tasks.len() - 1] == last);
        assert(any(p.store.tasks.rows, task_named(plan_id, identifier(last))));
        assert(any(before.store.tasks.rows, task_named(plan_id, identifier(last))));
        lemma_first_any(before.store.tasks.rows, task_named(plan_id, identifier(last)));
    }
}

/// Where all is there, a merge creates nothing, reports nothing and keeps all names.
proof fn lemma_merge_idle(p: Progress, plan_id: i64, waves: Seq<SpecWaveView>)
    requires
        waves_there(p.store, plan_id, waves),
        all_tasks_there(p.store, plan_id, waves),
        all_identified(waves),
    ensures
        ({
            let n = waves_imported(p, plan_id, waves, "merge"@);
            &&& n.stats.waves_created == p.stats.waves_created
            &&& n.stats.tasks_created == p.stats.tasks_created
            &&& n.stats.errors == p.stats.errors
            &&& keeps_names(p.store, n.store)
        }),
    decreases waves.len(),
{
    if waves.len() > 0 {
        let short = waves.drop_last();
        let last = waves.last();
        let order = (waves.len() - 1) as nat;
        assert forall|i: int| 0 <= i < short.len() implies any(
            p.store.waves.rows,
            wave_named(plan_id, (#[trigger] short[i]).id),
        ) && tasks_there(p.store, plan_id, short[i].tasks) && tasks_identified(
            short[i].tasks,
        ) by {
            assert(short[i] == waves[i]);
        }
        lemma_merge_idle(p, plan_id, short);
        let before = waves_imported(p, plan_id, short, "merge"@);
        let n = waves_imported(p, plan_id, waves, "merge"@);
        assert(waves[waves.len() - 1] == last);
        assert(any(p.store.waves.rows, wave_named(plan_id, last.id)));
        assert(any(before.store.waves.rows, wave_named(plan_id, last.id)));
        lemma_first_any(before.store.waves.rows, wave_named(plan_id, last.id));
        lemma_wave_keeps(before, plan_id, last, "merge"@);
        let (q, id) = wave_resolved(before, plan_id, last, "merge"@);
        lemma_keeps_trans(p.store, before.store, q.store);
        lemma_tasks_stay(p.store, q.store, plan_id, last.tasks);
        lemma_merge_tasks_idle(q, plan_id, id->0, last.tasks, order);
        lemma_clean_tasks(q, plan_id, id->0, last.tasks, order, "merge"@);
        lemma_keeps_trans(p.store, q.store, n.store);
    }
}

/// An import that reports no error accounts for every wave and every task of the specification:
/// each was created or was there. The plan then counts all of its tasks.
pub proof fn law_clean_import_accounts_for_all(
    s: StoreView,
    plan_id: i64,
    waves: Seq<SpecWaveView>,
    mode: Seq<char>,
)
    requires
        spec_imported(s, plan_id, waves, mode).stats.errors.len() == 0,
    ensures
        ({
            let n = spec_imported(s, plan_id, waves, mode);
            &&& n.stats.waves_created + n.stats.waves_skipped == waves.len()
            &&& n.stats.tasks_created + n.stats.tasks_skipped == spec_tasks(waves)
            &&& first(n.store.plans.rows, plan_is(plan_id)) matches Some(p) ==> p.tasks_total
                == as_stored(count(n.store.tasks.rows, in_plan(plan_id)))
        }),
{
    let start = Progress { store: s, stats: no_stats() };
    lemma_clean_waves(start, plan_id, waves, mode);
    let n = waves_imported(start, plan_id, waves, mode).store;
    crate::table::lemma_first_updated(
        n.plans.rows,
        plan_is(plan_id),
        with_total(as_stored(count(n.tasks.rows, in_plan(plan_id)))),
    );
}

/// To merge a specification whose tasks all have identifiers into a plan into which it was
/// imported without an error, in whatever mode, creates nothing and reports nothing.
pub proof fn law_merge_again_creates_nothing(
    s: StoreView,
    plan_id: i64,
    waves: Seq<SpecWaveView>,
    mode: Seq<char>,
)
    requires
        all_identified(waves),
        spec_imported(s, plan_id, waves, mode).stats.errors.len() == 0,
    ensures
        ({
            let once = spec_imported(s, plan_id, waves, mode).store;
            let twice = spec_imported(once, plan_id, waves, "merge"@).stats;
            &&& twice.waves_created == 0
            &&& twice.tasks_created == 0
            &&& twice.errors.len() == 0
        }),
{
    lemma_clean_waves(Progress { store: s, stats: no_stats() }, plan_id, waves, mode);
    lemma_there_after(s, plan_id, waves, mode);
    let once = spec_imported(s, plan_id, waves, mode).store;
    lemma_merge_idle(Progress { store: once, stats: no_stats() }, plan_id, waves);
}

// ---- what an import stores ----

/// What is stored of one task that is not known yet, column by column, and what is changed of one
/// that is known. A new task is put behind the others under the next key, pending, with the
/// title, the executor and the metadata that were given, in the given wave of the given plan; the
/// other columns are empty. A merge gives a known task the title, the executor, the metadata and
/// the wave, and nothing else; every other row stays.
pub proof fn law_stored_task(
    p: Progress,
    plan_id: i64,
    wave_id: i64,
    t: SpecTaskView,
    metadata: Seq<char>,
    mode: Seq<char>,
    i: int,
)
    requires
        sound(p.store),
        t.title matches Some(title) ==> encode_utf8(title).len() <= 500,
    ensures
        ({
            let rows = p.store.tasks.rows;
            let n = task_imported(p, plan_id, wave_id, t, metadata, mode);
            let title = match t.title {
                Some(x) => x,
                None => "untitled"@,
            };
            let name = match t.id {
                Some(x) => x,
                None => Seq::empty(),
            };
            let known = name.len() > 0 && exists|k: int|
                0 <= k < rows.len() && (#[trigger] rows[k]).plan_id == plan_id && rows[k].task_id
                    == Some(name);
            &&& n.store == (StoreView { tasks: n.store.tasks, ..p.store })
            &&& !known && p.store.tasks.last_id < i64::MAX ==> {
                let r = n.store.tasks.rows[rows.len() as int];
                &&& n.store.tasks.rows.len() == rows.len() + 1
                &&& n.store.tasks.last_id == p.store.tasks.last_id + 1
                &&& n.stats.tasks_created == p.stats.tasks_created + 1
                &&& r.id == p.store.tasks.last_id + 1
                &&& r.plan_id == plan_id
                &&& r.wave_id == Some(wave_id)
                &&& r.task_id == Some(name)
                &&& r.title == title
                &&& r.executor_agent == t.executor_agent
                &&& r.metadata == Some(metadata)
                &&& r.status == "pending"@
                &&& r.description is None && r.notes is None && r.started_at is None
                &&& r.completed_at is None && r.spawn_failures is None
                &&& r.updated_at is None && r.last_heartbeat is None && r.locked_by is None
                &&& r.required_capabilities is None && r.claimed_files == Some("[]"@)
            }
            &&& 0 <= i < rows.len() ==> i < n.store.tasks.rows.len() && n.store.tasks.rows[i] == if mode
                == "merge"@ && name.len() > 0 && is_first_named(rows, i, plan_id, name) {
                TaskRowView {
                    title,
                    executor_agent: t.executor_agent,
                    metadata: Some(metadata),
                    wave_id: Some(wave_id),
                    ..rows[i]
                }
            } else {
                rows[i]
            }
            &&& known ==> n.store.tasks.rows.len() == rows.len() && n.stats.tasks_created
                == p.stats.tasks_created
            &&& known && mode == "merge"@ ==> n.stats.tasks_skipped == p.stats.tasks_skipped + 1
                && n.stats.errors == p.stats.errors
            &&& known && mode == "append"@ ==> n.store == p.store && n.stats.tasks_skipped
                == p.stats.tasks_skipped + 1 && n.stats.errors == p.stats.errors
        }),
{
    reveal_strlit("untitled");
    reveal_strlit("append");
    reveal_strlit("merge");
    assert("append"@.len() == 6 && "merge"@.len() == 5);
    let rows = p.store.tasks.rows;
    let name = identifier(t);
    let q = task_named(plan_id, name);
    assert(encode_utf8("untitled"@).len() <= 500) by {
        lemma_untitled();
    }
    crate::table::lemma_first_place(rows, q);
    assert(any(rows, q) <==> exists|k: int|
        0 <= k < rows.len() && (#[trigger] rows[k]).plan_id == plan_id && rows[k].task_id == Some(
            name,
        ));
    if name.len() > 0 && first(rows, q) is Some && 0 <= i < rows.len() {
        let k = choose|k: int|
            0 <= k < rows.len() && #[trigger] rows[k] == first(rows, q)->0 && q(rows[k]) && forall|
                j: int,
            |
                0 <= j < k ==> !q(#[trigger] rows[j]);
        if rows[i].id == rows[k].id {
            assert(i == k) by {
                if i < k {
                    assert(TaskRow::key(rows[i]) < TaskRow::key(rows[k]));
                } else if k < i {
                    assert(TaskRow::key(rows[k]) < TaskRow::key(rows[i]));
                }
            }
        }
        if is_first_named(rows, i, plan_id, name) {
            assert(i == k) by {
                if i < k {
                    assert(!q(rows[i]));
                } else if k < i {
                    assert(q(rows[k]));
                }
            }
        } else if i == k {
            assert(forall|j: int| 0 <= j < k ==> !q(#[trigger] rows[j]));
        }
    }
}

/// Whether a row is the first one with a name in a plan.
pub open spec fn is_first_named(
    rows: Seq<TaskRowView>,
    i: int,
    plan_id: i64,
    name: Seq<char>,
) -> bool {
    &&& 0 <= i < rows.len()
    &&& rows[i].plan_id == plan_id && rows[i].task_id == Some(name)
    &&& forall|j: int|
        0 <= j < i ==> !((#[trigger] rows[j]).plan_id == plan_id && rows[j].task_id == Some(name))
}

/// The name of a task without a title is short.
proof fn lemma_untitled()
    ensures
        encode_utf8("untitled"@).len() <= 500,
{
    reveal_strlit("untitled");
    let s = "untitled"@;
    assert(s.len() == 8);
    lemma_ascii_len(s);
}

/// A text of ASCII has as many bytes as characters.
proof fn lemma_ascii_len(s: Seq<char>)
    requires
        forall|i: int| 0 <= i < s.len() ==> (#[trigger] s[i] as u32) < 128,
    ensures
        encode_utf8(s).len() == s.len(),
    decreases s.len(),
{
    if s.len() > 0 {
        let rest = s.drop_first();
        assert forall|i: int| 0 <= i < rest.len() implies (#[trigger] rest[i] as u32) < 128 by {
            assert(rest[i] == s[i + 1]);
        }
        lemma_ascii_len(rest);
        assert((s[0] as u32) < 128);
    }
}

/// What is stored of one wave that is not known yet, column by column, and what a merge changes
/// of one that is: its name and what it depends on. A wave without a name is called by its id.
/// Every other row stays, and the wave that is found or made is the one of the plan with the
/// specified id.
pub proof fn law_stored_wave(
    p: Progress,
    plan_id: i64,
    wave: SpecWaveView,
    mode: Seq<char>,
    i: int,
)
    requires
        sound(p.store),
    ensures
        ({
            let rows = p.store.waves.rows;
            let (n, found) = wave_resolved(p, plan_id, wave, mode);
            let title = if wave.name.len() > 0 {
                wave.name
            } else {
                wave.id
            };
            let known = exists|k: int|
                0 <= k < rows.len() && (#[trigger] rows[k]).plan_id == plan_id && rows[k].wave_id
                    == wave.id;
            &&& n.store == (StoreView { waves: n.store.waves, ..p.store })
            &&& !known && p.store.waves.last_id < i64::MAX ==> {
                &&& n.store.waves.rows == rows.push(
                    WaveRowView {
                        id: (p.store.waves.last_id + 1) as i64,
                        wave_id: wave.id,
                        plan_id,
                        name: title,
                        status: "pending"@,
                        depends_on_wave: Some(wave.depends_on_wave),
                        completed_at: None,
                    },
                )
                &&& n.store.waves.last_id == p.store.waves.last_id + 1
                &&& n.stats.waves_created == p.stats.waves_created + 1
                &&& found == Some((p.store.waves.last_id + 1) as i64)
            }
            &&& known ==> n.store.waves.rows.len() == rows.len() && n.stats.waves_created
                == p.stats.waves_created && n.stats.waves_skipped == p.stats.waves_skipped + 1
                && n.stats.errors == p.stats.errors && exists|k: int|
                0 <= k < rows.len() && (#[trigger] rows[k]).plan_id == plan_id && rows[k].wave_id
                    == wave.id && found == Some(rows[k].id)
            &&& known && 0 <= i < rows.len() ==> n.store.waves.rows[i] == if mode == "merge"@ && found
                == Some(rows[i].id) {
                WaveRowView {
                    name: title,
                    depends_on_wave: Some(wave.depends_on_wave),
                    ..rows[i]
                }
            } else {
                rows[i]
            }
        }),
{
    let rows = p.store.waves.rows;
    let q = wave_named(plan_id, wave.id);
    crate::table::lemma_first_place(rows, q);
    if first(rows, q) is Some {
        let k = choose|k: int| 0 <= k < rows.len() && #[trigger] rows[k] == first(rows, q)->0;
        assert(q(rows[k]));
    }
}

/// Whether no task of a plan has a name.
spec fn absent(s: StoreView, plan_id: i64, name: Seq<char>) -> bool {
    forall|i: int|
        0 <= i < s.tasks.rows.len() ==> !((#[trigger] s.tasks.rows[i]).plan_id == plan_id
            && s.tasks.rows[i].task_id == Some(name))
}

/// Whether a row holds a task with a name in a plan.
spec fn stands(s: StoreView, r: int, plan_id: i64, name: Seq<char>) -> bool {
    0 <= r < s.tasks.rows.len() && s.tasks.rows[r].plan_id == plan_id && s.tasks.rows[r].task_id
        == Some(name)
}

/// To import a task of another name leaves a task, and its absence, as it was.
proof fn lemma_other_task(
    p: Progress,
    plan_id: i64,
    wave_id: i64,
    t: SpecTaskView,
    metadata: Seq<char>,
    mode: Seq<char>,
    name: Seq<char>,
    r: int,
)
    requires
        crate::table::keyed::<TaskRow>(p.store.tasks),
        t.id != Some(name),
        name.len() > 0,
    ensures
        ({
            let n = task_imported(p, plan_id, wave_id, t, metadata, mode);
            &&& crate::table::keyed::<TaskRow>(n.store.tasks)
            &&& n.store.waves == p.store.waves
            &&& absent(p.store, plan_id, name) ==> absent(n.store, plan_id, name)
            &&& stands(p.store, r, plan_id, name) ==> stands(n.store, r, plan_id, name)
                && n.store.tasks.rows[r] == p.store.tasks.rows[r]
        }),
{
    let rows = p.store.tasks.rows;
    let n = task_imported(p, plan_id, wave_id, t, metadata, mode);
    let q = task_named(plan_id, identifier(t));
    crate::table::lemma_first_place(rows, q);
    if identifier(t).len() > 0 && first(rows, q) is Some {
        let k = choose|k: int| 0 <= k < rows.len() && #[trigger] rows[k] == first(rows, q)->0;
        lemma_updated_keyed::<TaskRow>(
            p.store.tasks,
            task_is(rows[k].id),
            respecified(short_title(t), t.executor_agent, metadata, wave_id),
        );
        if stands(p.store, r, plan_id, name) && rows[r].id == rows[k].id {
            assert(r == k) by {
                if r < k {
                    assert(TaskRow::key(rows[r]) < TaskRow::key(rows[k]));
                } else if k < r {
                    assert(TaskRow::key(rows[k]) < TaskRow::key(rows[r]));
                }
            }
        }
        if absent(p.store, plan_id, name) {
            assert forall|i: int| 0 <= i < n.store.tasks.rows.len() implies !((
            #[trigger] n.store.tasks.rows[i]).plan_id == plan_id && n.store.tasks.rows[i].task_id
                == Some(name)) by {
                assert(!(rows[i].plan_id == plan_id && rows[i].task_id == Some(name)));
            }
        }
    } else if !full(p.store.tasks) {
        assert forall|i: int, j: int| 0 <= i < j < n.store.tasks.rows.len() implies TaskRow::key(
            #[trigger] n.store.tasks.rows[i],
        ) < TaskRow::key(#[trigger] n.store.tasks.rows[j]) by {
            if j == rows.len() {
                assert(TaskRow::key(rows[i]) <= p.store.tasks.last_id);
            }
        }
        if absent(p.store, plan_id, name) {
            assert forall|i: int| 0 <= i < n.store.tasks.rows.len() implies !((
            #[trigger] n.store.tasks.rows[i]).plan_id == plan_id && n.store.tasks.rows[i].task_id
                == Some(name)) by {
                if i < rows.len() {
                    assert(!(rows[i].plan_id == plan_id && rows[i].task_id == Some(name)));
                }
            }
        }
    }
}

/// To import tasks of other names leaves a task, and its absence, as it was.
proof fn lemma_other_tasks(
    p: Progress,
    plan_id: i64,
    wave_id: i64,
    tasks: Seq<SpecTaskView>,
    order: nat,
    mode: Seq<char>,
    name: Seq<char>,
    r: int,
)
    requires
        crate::table::keyed::<TaskRow>(p.store.tasks),
        forall|y: int| 0 <= y < tasks.len() ==> (#[trigger] tasks[y]).id != Some(name),
        name.len() > 0,
    ensures
        ({
            let n = tasks_imported(p, plan_id, wave_id, tasks, order, mode);
            &&& crate::table::keyed::<TaskRow>(n.store.tasks)
            &&& n.store.waves == p.store.waves
            &&& absent(p.store, plan_id, name) ==> absent(n.store, plan_id, name)
            &&& stands(p.store, r, plan_id, name) ==> stands(n.store, r, plan_id, name)
                && n.store.tasks.rows[r] == p.store.tasks.rows[r]
        }),
    decreases tasks.len(),
{
    if tasks.len() > 0 {
        let short = tasks.drop_last();
        assert forall|y: int| 0 <= y < short.len() implies (#[trigger] short[y]).id != Some(
            name,
        ) by {
            assert(short[y] == tasks[y]);
        }
        lemma_other_tasks(p, plan_id, wave_id, short, order, mode, name, r);
        assert(tasks[tasks.len() - 1].id != Some(name));
        lemma_other_task(
            tasks_imported(p, plan_id, wave_id, short, order, mode),
            plan_id,
            wave_id,
            tasks.last(),
            metadata_of(tasks.last(), order),
            mode,
            name,
            r,
        );
    }
}

/// Whether a row of the store is a task as a specification has it, in a wave of the plan with the
/// specified id.
pub open spec fn holds_task(
    s: StoreView,
    r: int,
    plan_id: i64,
    wave: Seq<char>,
    t: SpecTaskView,
    order: nat,
) -> bool {
    &&& 0 <= r < s.tasks.rows.len()
    &&& s.tasks.rows[r].plan_id == plan_id
    &&& s.tasks.rows[r].task_id == t.id
    &&& s.tasks.rows[r].status == "pending"@
    &&& s.tasks.rows[r].executor_agent == t.executor_agent
    &&& (t.title matches Some(title) && encode_utf8(title).len() <= 500) ==> s.tasks.rows[r].title
        == t.title->0
    &&& t.title is None ==> s.tasks.rows[r].title == "untitled"@
    &&& s.tasks.rows[r].metadata == Some(
        json_object_text(
            seq![
                (
                    "effort"@,
                    match t.effort {
                        Some(n) => MemberView::Number(n as int),
                        None => MemberView::Null,
                    },
                ),
                (
                    "model"@,
                    match t.model {
                        Some(x) => MemberView::Text(x),
                        None => MemberView::Null,
                    },
                ),
                (
                    "description"@,
                    match t.description {
                        Some(x) => MemberView::Text(x),
                        None => MemberView::Null,
                    },
                ),
                (
                    "output_type"@,
                    match t.output_type {
                        Some(x) => MemberView::Text(x),
                        None => MemberView::Null,
                    },
                ),
                (
                    "validator_agent"@,
                    match t.validator_agent {
                        Some(x) => MemberView::Text(x),
                        None => MemberView::Null,
                    },
                ),
                ("verify"@, MemberView::Texts(t.verify)),
                ("order"@, MemberView::Number(order as int)),
            ],
        ),
    )
    &&& exists|w: int|
        0 <= w < s.waves.rows.len() && (#[trigger] s.waves.rows[w]).plan_id == plan_id
            && s.waves.rows[w].wave_id == wave && s.tasks.rows[r].wave_id == Some(
            s.waves.rows[w].id,
        )
}

/// A task that is created is stored as it was specified.
proof fn lemma_task_made(
    p: Progress,
    plan_id: i64,
    wave_id: i64,
    wave: Seq<char>,
    t: SpecTaskView,
    order: nat,
    mode: Seq<char>,
    name: Seq<char>,
    w: int,
)
    requires
        !full(p.store.tasks),
        crate::table::keyed::<TaskRow>(p.store.tasks),
        absent(p.store, plan_id, name),
        t.id == Some(name),
        name.len() > 0,
        0 <= w < p.store.waves.rows.len(),
        p.store.waves.rows[w].plan_id == plan_id,
        p.store.waves.rows[w].wave_id == wave,
        p.store.waves.rows[w].id == wave_id,
    ensures
        ({
            let n = task_imported(p, plan_id, wave_id, t, metadata_of(t, order), mode).store;
            &&& holds_task(n, p.store.tasks.rows.len() as int, plan_id, wave, t, order)
            &&& crate::table::keyed::<TaskRow>(n.tasks)
            &&& n.waves == p.store.waves
        }),
{
    let rows = p.store.tasks.rows;
    let n = task_imported(p, plan_id, wave_id, t, metadata_of(t, order), mode).store;
    crate::table::lemma_first_place(rows, task_named(plan_id, name));
    lemma_untitled();
    assert(metadata_members(t, order) =~= seq![
            (
                "effort"@,
                match t.effort {
                    Some(n) => MemberView::Number(n as int),
                    None => MemberView::Null,
                },
            ),
            (
                "model"@,
                match t.model {
                    Some(x) => MemberView::Text(x),
                    None => MemberView::Null,
                },
            ),
            (
                "description"@,
                match t.description {
                    Some(x) => MemberView::Text(x),
                    None => MemberView::Null,
                },
            ),
            (
                "output_type"@,
                match t.output_type {
                    Some(x) => MemberView::Text(x),
                    None => MemberView::Null,
                },
            ),
            (
                "validator_agent"@,
                match t.validator_agent {
                    Some(x) => MemberView::Text(x),
                    None => MemberView::Null,
                },
            ),
            ("verify"@, MemberView::Texts(t.verify)),
            ("order"@, MemberView::Number(order as int)),
        ]);
    assert(n.waves.rows[w].id == wave_id);
    assert forall|i: int, j: int| 0 <= i < j < n.tasks.rows.len() implies TaskRow::key(
        #[trigger] n.tasks.rows[i],
    ) < TaskRow::key(#[trigger] n.tasks.rows[j]) by {
        if j == rows.len() {
            assert(TaskRow::key(rows[i]) <= p.store.tasks.last_id);
        }
    }
}

/// Among the tasks of a wave, the one with a name is stored as it was specified.
proof fn lemma_tasks_make(
    p: Progress,
    plan_id: i64,
    wave_id: i64,
    wave: Seq<char>,
    tasks: Seq<SpecTaskView>,
    order: nat,
    mode: Seq<char>,
    name: Seq<char>,
    w: int,
    b: int,
) -> (r: int)
    requires
        p.store.tasks.last_id + tasks.len() <= i64::MAX,
        crate::table::keyed::<TaskRow>(p.store.tasks),
        absent(p.store, plan_id, name),
        0 <= b < tasks.len(),
        tasks[b].id == Some(name),
        forall|y: int| 0 <= y < tasks.len() && y != b ==> (#[trigger] tasks[y]).id != Some(name),
        name.len() > 0,
        0 <= w < p.store.waves.rows.len(),
        p.store.waves.rows[w].plan_id == plan_id,
        p.store.waves.rows[w].wave_id == wave,
        p.store.waves.rows[w].id == wave_id,
    ensures
        ({
            let n = tasks_imported(p, plan_id, wave_id, tasks, order, mode).store;
            &&& holds_task(n, r, plan_id, wave, tasks[b], order)
            &&& crate::table::keyed::<TaskRow>(n.tasks)
            &&& n.waves == p.store.waves
        }),
    decreases tasks.len(),
{
    let short = tasks.drop_last();
    let before = tasks_imported(p, plan_id, wave_id, short, order, mode);
    let n = tasks_imported(p, plan_id, wave_id, tasks, order, mode).store;
    lemma_tasks_keys(p, plan_id, wave_id, short, order, mode, 0, 1);
    assert forall|y: int| 0 <= y < short.len() && y != b implies (#[trigger] short[y]).id != Some(
        name,
    ) by {
        assert(short[y] == tasks[y]);
    }
    if b == tasks.len() - 1 {
        lemma_other_tasks(p, plan_id, wave_id, short, order, mode, name, 0);
        lemma_task_made(before, plan_id, wave_id, wave, tasks[b], order, mode, name, w);
        before.store.tasks.rows.len() as int
    } else {
        let r = lemma_tasks_make(
            p,
            plan_id,
            wave_id,
            wave,
            short,
            order,
            mode,
            name,
            w,
            b,
        );
        assert(tasks[tasks.len() - 1].id != Some(name));
        lemma_other_task(
            before,
            plan_id,
            wave_id,
            tasks.last(),
            metadata_of(tasks.last(), order),
            mode,
            name,
            r,
        );
        r
    }
}

/// To find or make a wave leaves the tasks, and which wave is which.
proof fn lemma_wave_leaves(p: Progress, plan_id: i64, wave: SpecWaveView, mode: Seq<char>)
    ensures
        ({
            let (n, id) = wave_resolved(p, plan_id, wave, mode);
            &&& n.store.tasks == p.store.tasks
            &&& n.store.waves.rows.len() >= p.store.waves.rows.len()
            &&& forall|w: int|
                0 <= w < p.store.waves.rows.len() ==> (#[trigger] n.store.waves.rows[w]).id
                    == p.store.waves.rows[w].id && n.store.waves.rows[w].plan_id
                    == p.store.waves.rows[w].plan_id && n.store.waves.rows[w].wave_id
                    == p.store.waves.rows[w].wave_id
            &&& id is Some ==> exists|w: int|
                0 <= w < n.store.waves.rows.len() && (#[trigger] n.store.waves.rows[w]).plan_id
                    == plan_id && n.store.waves.rows[w].wave_id == wave.id && Some(
                    n.store.waves.rows[w].id,
                ) == id
        }),
{
    let rows = p.store.waves.rows;
    let (n, id) = wave_resolved(p, plan_id, wave, mode);
    crate::table::lemma_first_place(rows, wave_named(plan_id, wave.id));
    if first(rows, wave_named(plan_id, wave.id)) is Some {
        let k = choose|k: int|
            0 <= k < rows.len() && #[trigger] rows[k] == first(
                rows,
                wave_named(plan_id, wave.id),
            )->0;
        assert(n.store.waves.rows[k].id == rows[k].id);
    } else if id is Some {
        assert(n.store.waves.rows[rows.len() as int].plan_id == plan_id);
    }
}

/// Among the waves of a specification, the one task with a name is stored as it was specified.
proof fn lemma_waves_make(
    p: Progress,
    plan_id: i64,
    waves: Seq<SpecWaveView>,
    mode: Seq<char>,
    name: Seq<char>,
    a: int,
    b: int,
    more_waves: int,
    more_tasks: int,
) -> (r: int)
    requires
        keys_left(p.store, waves.len() + more_waves, spec_tasks(waves) + more_tasks),
        more_waves >= 0,
        more_tasks >= 0,
        crate::table::keyed::<TaskRow>(p.store.tasks),
        absent(p.store, plan_id, name),
        name.len() > 0,
        0 <= a < waves.len(),
        0 <= b < waves[a].tasks.len(),
        waves[a].tasks[b].id == Some(name),
        forall|x: int, y: int|
            0 <= x < waves.len() && 0 <= y < waves[x].tasks.len() && !(x == a && y == b) ==> (
            #[trigger] waves[x].tasks[y]).id != Some(name),
    ensures
        ({
            let n = waves_imported(p, plan_id, waves, mode).store;
            &&& holds_task(n, r, plan_id, waves[a].id, waves[a].tasks[b], a as nat)
            &&& crate::table::keyed::<TaskRow>(n.tasks)
        }),
    decreases waves.len(),
{
    let short = waves.drop_last();
    let last = waves.last();
    let order = (waves.len() - 1) as nat;
    let before = waves_imported(p, plan_id, short, mode);
    let n = waves_imported(p, plan_id, waves, mode).store;
    lemma_spec_tasks(waves, waves.len() - 1);
    assert(waves.take(waves.len() - 1) =~= short);
    lemma_waves_keys(p, plan_id, short, mode, more_waves + 1, more_tasks + last.tasks.len());
    assert forall|x: int, y: int|
        0 <= x < short.len() && 0 <= y < short[x].tasks.len() && !(x == a && y == b) implies (
    #[trigger] short[x].tasks[y]).id != Some(name) by {
        assert(short[x] == waves[x]);
        assert(waves[x].tasks[y].id != Some(name));
    }
    let (q, id) = wave_resolved(before, plan_id, last, mode);
    lemma_wave_leaves(before, plan_id, last, mode);
    if a == waves.len() - 1 {
        lemma_waves_without(p, plan_id, short, mode, name);
        let w = choose|w: int|
            0 <= w < q.store.waves.rows.len() && (#[trigger] q.store.waves.rows[w]).plan_id
                == plan_id && q.store.waves.rows[w].wave_id == last.id && Some(
                q.store.waves.rows[w].id,
            ) == id;
        assert forall|y: int| 0 <= y < last.tasks.len() && y != b implies (
        #[trigger] last.tasks[y]).id != Some(name) by {
            assert(waves[a].tasks[y].id != Some(name));
        }
        lemma_tasks_make(q, plan_id, id->0, last.id, last.tasks, order, mode, name, w, b)
    } else {
        let r = lemma_waves_make(
            p,
            plan_id,
            short,
            mode,
            name,
            a,
            b,
            more_waves + 1,
            more_tasks + last.tasks.len(),
        );
        assert forall|y: int| 0 <= y < last.tasks.len() implies (#[trigger] last.tasks[y]).id
            != Some(name) by {
            assert(waves[waves.len() - 1].tasks[y].id != Some(name));
        }
        let old_wave = choose|w: int|
            0 <= w < before.store.waves.rows.len() && (
            #[trigger] before.store.waves.rows[w]).plan_id == plan_id
                && before.store.waves.rows[w].wave_id == waves[a].id
                && before.store.tasks.rows[r].wave_id == Some(before.store.waves.rows[w].id);
        assert(q.store.waves.rows[old_wave].id == before.store.waves.rows[old_wave].id);
        lemma_other_tasks(q, plan_id, id->0, last.tasks, order, mode, name, r);
        assert(n.waves.rows[old_wave].id == before.store.waves.rows[old_wave].id);
        r
    }
}

/// Waves without a task of a name leave its absence.
proof fn lemma_waves_without(
    p: Progress,
    plan_id: i64,
    waves: Seq<SpecWaveView>,
    mode: Seq<char>,
    name: Seq<char>,
)
    requires
        crate::table::keyed::<TaskRow>(p.store.tasks),
        absent(p.store, plan_id, name),
        name.len() > 0,
        forall|x: int, y: int|
            0 <= x < waves.len() && 0 <= y < waves[x].tasks.len() ==> (
            #[trigger] waves[x].tasks[y]).id != Some(name),
    ensures
        absent(waves_imported(p, plan_id, waves, mode).store, plan_id, name),
        crate::table::keyed::<TaskRow>(waves_imported(p, plan_id, waves, mode).store.tasks),
    decreases waves.len(),
{
    if waves.len() > 0 {
        let short = waves.drop_last();
        let last = waves.last();
        assert forall|x: int, y: int|
            0 <= x < short.len() && 0 <= y < short[x].tasks.len() implies (
        #[trigger] short[x].tasks[y]).id != Some(name) by {
            assert(waves[x].tasks[y].id != Some(name));
        }
        lemma_waves_without(p, plan_id, short, mode, name);
        let before = waves_imported(p, plan_id, short, mode);
        lemma_wave_leaves(before, plan_id, last, mode);
        let (q, id) = wave_resolved(before, plan_id, last, mode);
        if let Some(w) = id {
            assert forall|y: int| 0 <= y < last.tasks.len() implies (#[trigger] last.tasks[y]).id
                != Some(name) by {
                assert(waves[waves.len() - 1].tasks[y].id != Some(name));
            }
            lemma_other_tasks(
                q,
                plan_id,
                w,
                last.tasks,
                (waves.len() - 1) as nat,
                mode,
                name,
                0,
            );
        }
    }
}

/// A specified task with an identifier that is new to the plan, and that no other specified task
/// has, stands in the store after the import, in whatever mode: pending, under its identifier, in
/// the plan and in the wave of the specified id, with the title and the executor that were
/// specified, and with all else that was specified in its metadata.
pub proof fn law_specified_task_is_stored(
    s: StoreView,
    plan_id: i64,
    waves: Seq<SpecWaveView>,
    mode: Seq<char>,
    a: int,
    b: int,
    name: Seq<char>,
) -> (r: int)
    requires
        sound(s),
        keys_left(s, waves.len() as int, spec_tasks(waves)),
        0 <= a < waves.len(),
        0 <= b < waves[a].tasks.len(),
        waves[a].tasks[b].id == Some(name),
        name.len() > 0,
        forall|i: int|
            0 <= i < s.tasks.rows.len() ==> !((#[trigger] s.tasks.rows[i]).plan_id == plan_id
                && s.tasks.rows[i].task_id == Some(name)),
        forall|x: int, y: int|
            0 <= x < waves.len() && 0 <= y < waves[x].tasks.len() && !(x == a && y == b) ==> (
            #[trigger] waves[x].tasks[y]).id != Some(name),
    ensures
        holds_task(
            spec_imported(s, plan_id, waves, mode).store,
            r,
            plan_id,
            waves[a].id,
            waves[a].tasks[b],
            a as nat,
        ),
        spec_imported(s, plan_id, waves, mode).store.tasks.rows[r].executor_agent
            == waves[a].tasks[b].executor_agent,
{
    let start = Progress { store: s, stats: no_stats() };
    let r = lemma_waves_make(start, plan_id, waves, mode, name, a, b, 0, 0);
    let m = waves_imported(start, plan_id, waves, mode).store;
    let n = spec_imported(s, plan_id, waves, mode).store;
    let w = choose|w: int|
        0 <= w < m.waves.rows.len() && (#[trigger] m.waves.rows[w]).plan_id == plan_id
            && m.waves.rows[w].wave_id == waves[a].id && m.tasks.rows[r].wave_id == Some(
            m.waves.rows[w].id,
        );
    assert(n.waves.rows[w].plan_id == plan_id);
    r
}

/// A title of more than 500 bytes is cut there: what is kept begins the title, and takes 500 bytes.
pub proof fn law_long_title(t: SpecTaskView, title: Seq<char>)
    requires
        t.title == Some(title),
        encode_utf8(title).len() > 500,
        is_char_boundary(encode_utf8(title), 500),
    ensures
        encode_utf8(short_title(t)).len() == 500,
        begins(title, short_title(t)),
{
    let bytes = encode_utf8(title);
    vstd::utf8::encode_utf8_valid_utf8(title);
    vstd::utf8::valid_utf8_split(bytes, 500);
    vstd::utf8::decode_utf8_split(bytes, 500);
    vstd::utf8::decode_utf8_encode_utf8(bytes.subrange(0, 500));
    encode_utf8_decode_utf8(title);
    let head = short_title(t);
    let tail = decode_utf8(bytes.subrange(500, bytes.len() as int));
    assert(title =~= head + tail);
    assert(title.subrange(0, head.len() as int) =~= head);
}

/// A task that is there twice in one plan is an error in any mode but the two that keep it, and so
/// is a task or a wave for which no key is left; what is stored stays as it is.
pub proof fn law_import_errors(
    p: Progress,
    plan_id: i64,
    wave_id: i64,
    t: SpecTaskView,
    wave: SpecWaveView,
    metadata: Seq<char>,
    mode: Seq<char>,
    name: Seq<char>,
)
    requires
        t.id == Some(name),
        name.len() > 0,
    ensures
        ({
            let rows = p.store.tasks.rows;
            let n = task_imported(p, plan_id, wave_id, t, metadata, mode);
            let m = wave_resolved(p, plan_id, wave, mode);
            let known = exists|k: int|
                0 <= k < rows.len() && (#[trigger] rows[k]).plan_id == plan_id && rows[k].task_id
                    == Some(name);
            let there = exists|k: int|
                0 <= k < p.store.waves.rows.len() && (#[trigger] p.store.waves.rows[k]).plan_id
                    == plan_id && p.store.waves.rows[k].wave_id == wave.id;
            &&& known && mode != "merge"@ && mode != "append"@ ==> n.store == p.store
                && n.stats.errors == p.stats.errors.push(
                "task "@ + name + ": UNIQUE constraint failed: tasks.plan_id, tasks.task_id"@,
            )
            &&& !known && p.store.tasks.last_id == i64::MAX ==> n.store == p.store
                && n.stats.errors == p.stats.errors.push(
                "task "@ + name + ": database or disk is full"@,
            )
            &&& !there && p.store.waves.last_id == i64::MAX ==> m.0.store == p.store && m.1 is None
                && m.0.stats.errors == p.stats.errors.push(
                "wave "@ + wave.id + ": database or disk is full"@,
            )
        }),
{
    let rows = p.store.tasks.rows;
    crate::table::lemma_first_place(rows, task_named(plan_id, name));
    crate::table::lemma_first_place(p.store.waves.rows, wave_named(plan_id, wave.id));
    if exists|k: int|
        0 <= k < rows.len() && (#[trigger] rows[k]).plan_id == plan_id && rows[k].task_id == Some(
            name,
        ) {
        let k = choose|k: int|
            0 <= k < rows.len() && (#[trigger] rows[k]).plan_id == plan_id && rows[k].task_id
                == Some(name);
        assert(task_named(plan_id, name)(rows[k]));
    }
}

/// The plan's number of tasks is that of its rows; no other plan, and no other column, changes.
pub proof fn law_plan_total(s: StoreView, plan_id: i64, k: int)
    requires
        0 <= k < s.plans.rows.len(),
    ensures
        ({
            let n = with_plan_total(s, plan_id);
            let p = s.plans.rows[k];
            let tasks = s.tasks.rows.filter(|t: TaskRowView| t.plan_id == plan_id).len();
            &&& n == (StoreView { plans: n.plans, ..s })
            &&& n.plans.last_id == s.plans.last_id
            &&& n.plans.rows.len() == s.plans.rows.len()
            &&& p.id != plan_id ==> n.plans.rows[k] == p
            &&& p.id == plan_id && tasks <= i64::MAX ==> n.plans.rows[k] == (PlanRowView {
                tasks_total: tasks as i64,
                ..p
            })
        }),
{
    assert(in_plan(plan_id) =~= (|t: TaskRowView| t.plan_id == plan_id));
}

} // verus!
