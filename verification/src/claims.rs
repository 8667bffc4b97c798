//! Files that agents claim while they work.

use crate::evidence::task_is;
use crate::file_conflict_gate::{claimed_by, lists};
use crate::gates::find_task;
use crate::json::{json_array_text, listed, parse_json_array, write_string_array};
use crate::rows::{TaskRow, TaskRowView};
use crate::store::{sound, Store, StoreView};
use crate::table::{
    any, first, lemma_count_any, lemma_first_any, lemma_first_updated, lemma_updated_keyed,
    update_where, updated, Duplicate, TableView,
};
use crate::text::texts;
use vstd::prelude::*;

verus! {

/// The answer to a claim.
pub enum ClaimAnswer {
    /// The task has claimed the file already.
    Known { files: Vec<String> },
    /// The file is among those that the task claims now.
    Added { files: Vec<String> },
    /// There is no such task.
    NotFound,
}

/// What a [`ClaimAnswer`] says.
pub enum ClaimAnswerView {
    Known { files: Seq<Seq<char>> },
    Added { files: Seq<Seq<char>> },
    NotFound,
}

impl View for ClaimAnswer {
    type V = ClaimAnswerView;

    open spec fn view(&self) -> ClaimAnswerView {
        match self {
            ClaimAnswer::Known { files } => ClaimAnswerView::Known { files: texts(files@) },
            ClaimAnswer::Added { files } => ClaimAnswerView::Added { files: texts(files@) },
            ClaimAnswer::NotFound => ClaimAnswerView::NotFound,
        }
    }
}

/// The text that lists the files of a task.
pub open spec fn claims_text(s: StoreView, task_id: i64) -> Seq<char> {
    match first(s.tasks.rows, task_is(task_id)) {
        Some(t) => match t.claimed_files {
            Some(text) => text,
            None => "[]"@,
        },
        None => "[]"@,
    }
}

/// A task that claims the files that a text lists.
pub open spec fn claiming(text: Seq<char>) -> spec_fn(TaskRowView) -> TaskRowView {
    |t: TaskRowView| TaskRowView { claimed_files: Some(text), ..t }
}

/// The store in which a task claims the files that a text lists.
pub open spec fn with_claims(s: StoreView, task_id: i64, text: Seq<char>) -> StoreView {
    StoreView {
        tasks: TableView {
            rows: updated(s.tasks.rows, task_is(task_id), claiming(text)),
            last_id: s.tasks.last_id,
        },
        ..s
    }
}

/// What a claim is answered, given the files claimed before.
pub open spec fn claim_answer(
    s: StoreView,
    task_id: i64,
    files: Seq<Seq<char>>,
    file: Seq<char>,
) -> ClaimAnswerView {
    if files.contains(file) {
        ClaimAnswerView::Known { files }
    } else if any(s.tasks.rows, task_is(task_id)) {
        ClaimAnswerView::Added { files: files.push(file) }
    } else {
        ClaimAnswerView::NotFound
    }
}

/// The store after a claim, given the files claimed before.
pub open spec fn after_claim(
    s: StoreView,
    task_id: i64,
    files: Seq<Seq<char>>,
    file: Seq<char>,
) -> StoreView {
    if files.contains(file) {
        s
    } else {
        with_claims(s, task_id, json_array_text(files.push(file)))
    }
}

/// Adds a file to those that were claimed before.
pub fn add_claim(db: &mut Store, task_id: i64, files: Vec<String>, file_path: &str) -> (r:
    ClaimAnswer)
    ensures
        r@ == claim_answer(old(db)@, task_id, texts(files@), file_path@),
        final(db)@ == after_claim(old(db)@, task_id, texts(files@), file_path@),
        r@ is Added ==> claimed_by(final(db)@, task_id) == texts(files@).push(file_path@),
        sound(old(db)@) ==> sound(final(db)@),
{
    if lists(&files, file_path) {
        return ClaimAnswer::Known { files };
    }
    let mut all = files;
    let ghost before = texts(all@);
    all.push(file_path.to_owned());
    assert(texts(all@) =~= before.push(file_path@));
    let text = write_string_array(&all);
    proof {
        if sound(db@) {
            lemma_updated_keyed::<TaskRow>(db@.tasks, task_is(task_id), claiming(text@));
        }
        lemma_count_any(db@.tasks.rows, task_is(task_id));
        lemma_first_any(db@.tasks.rows, task_is(task_id));
        lemma_first_updated(db@.tasks.rows, task_is(task_id), claiming(text@));
    }
    let n: usize = update_where(
        &mut db.tasks.rows,
        |t: &TaskRow| -> (b: bool) ensures b == task_is(task_id)(t@) { t.id == task_id },
        |t: &TaskRow| -> (m: TaskRow) ensures m@ == claiming(text@)(t@) {
            TaskRow { claimed_files: Some(text.clone()), ..t.duplicate() }
        },
        Ghost(task_is(task_id)),
        Ghost(claiming(text@)),
    );
    if n == 0 {
        ClaimAnswer::NotFound
    } else {
        ClaimAnswer::Added { files: all }
    }
}

/// Claims a file for a task, beside those that it has claimed before.
pub fn claim_file(db: &mut Store, task_id: i64, file_path: &str) -> (r: ClaimAnswer)
    ensures
        r@ == claim_answer(
            old(db)@,
            task_id,
            listed(claims_text(old(db)@, task_id)),
            file_path@,
        ),
        final(db)@ == after_claim(
            old(db)@,
            task_id,
            listed(claims_text(old(db)@, task_id)),
            file_path@,
        ),
        sound(old(db)@) ==> sound(final(db)@),
        r@ is Added ==> claimed_by(final(db)@, task_id) == listed(
            claims_text(old(db)@, task_id),
        ).push(file_path@),
{
    let current = match find_task(db, task_id) {
        Some(k) => match &db.tasks.rows[k].claimed_files {
            Some(t) => t.clone(),
            None => "[]".to_owned(),
        },
        None => "[]".to_owned(),
    };
    let files = parse_json_array(current.as_str());
    add_claim(db, task_id, files, file_path)
}

/// A claim, over the rows: a file that the task claims already changes nothing; any other is added
/// behind those that its text lists. No other task and no other column changes.
pub proof fn law_claim_over_rows(s: StoreView, i: int, file: Seq<char>, j: int)
    requires
        sound(s),
        0 <= i < s.tasks.rows.len(),
        0 <= j < s.tasks.rows.len(),
    ensures
        ({
            let t = s.tasks.rows[i];
            let text = match t.claimed_files {
                Some(text) => text,
                None => "[]"@,
            };
            let files = listed(claims_text(s, t.id));
            let n = after_claim(s, t.id, files, file);
            &&& claims_text(s, t.id) == text
            &&& files.contains(file) ==> n == s && claim_answer(s, t.id, files, file) == (
            ClaimAnswerView::Known { files })
            &&& !files.contains(file) ==> {
                &&& claim_answer(s, t.id, files, file) == (ClaimAnswerView::Added {
                    files: files.push(file),
                })
                &&& n == (StoreView { tasks: n.tasks, ..s })
                &&& n.tasks.last_id == s.tasks.last_id
                &&& n.tasks.rows.len() == s.tasks.rows.len()
                &&& n.tasks.rows[j] == if s.tasks.rows[j].id == t.id {
                    TaskRowView {
                        claimed_files: Some(json_array_text(files.push(file))),
                        ..s.tasks.rows[j]
                    }
                } else {
                    s.tasks.rows[j]
                }
            }
        }),
{
    let t = s.tasks.rows[i];
    crate::table::lemma_first_keyed::<TaskRow>(s.tasks, task_is(t.id), i);
    assert(task_is(t.id)(s.tasks.rows[i]));
}

/// A task that is not there claims no file.
pub proof fn law_claim_of_no_task(
    s: StoreView,
    task_id: i64,
    files: Seq<Seq<char>>,
    file: Seq<char>,
)
    requires
        forall|i: int| 0 <= i < s.tasks.rows.len() ==> (#[trigger] s.tasks.rows[i]).id != task_id,
        !files.contains(file),
    ensures
        claim_answer(s, task_id, files, file) is NotFound,
        claims_text(s, task_id) == "[]"@,
{
    crate::table::lemma_first_place(s.tasks.rows, task_is(task_id));
}

} // verus!
