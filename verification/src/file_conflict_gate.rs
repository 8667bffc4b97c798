//! File conflicts: tasks in progress that claim the same files.

use crate::evidence::task_is;
use crate::gates::{find_task, gate_error, GateError, GateErrorView};
use crate::json::{listed, parse_json_array};
use crate::rows::{TaskRow, TaskRowView};
use crate::store::{sound, Store, StoreView};
use crate::table::{first, lemma_count_step, select_where, views};
use crate::text::{cat2, cat3, cat5, dec, dec_i64, join, joined, same, texts};
use vstd::prelude::*;

verus! {

/// The text that Rust's debug format gives a list of strings.
pub uninterp spec fn debug_text(items: Seq<Seq<char>>) -> Seq<char>;

/// `format!` with `{:?}` on a list of strings: a function of the strings alone. How it
/// quotes and escapes them is left unsaid.
#[verifier::external_body]
fn debug_list(items: &Vec<String>) -> (r: String)
    ensures
        r@ == debug_text(texts(items@)),
{
    format!("{:?}", items)
}

/// The files that a task and its neighbour claim.
#[derive(Debug, Clone)]
pub struct Claim {
    pub task_id: i64,
    pub title: String,
    pub files: Vec<String>,
}

/// What a [`Claim`] holds.
pub struct ClaimView {
    pub task_id: i64,
    pub title: Seq<char>,
    pub files: Seq<Seq<char>>,
}

impl View for Claim {
    type V = ClaimView;

    open spec fn view(&self) -> ClaimView {
        ClaimView { task_id: self.task_id, title: self.title@, files: texts(self.files@) }
    }
}

/// The files that occur in `theirs`.
pub open spec fn also_in(theirs: Seq<Seq<char>>) -> spec_fn(Seq<char>) -> bool {
    |f: Seq<char>| theirs.contains(f)
}

/// The files of `mine` that occur in `theirs`, in the order of `mine`.
pub open spec fn shared(mine: Seq<Seq<char>>, theirs: Seq<Seq<char>>) -> Seq<Seq<char>> {
    mine.filter(also_in(theirs))
}

/// Whether the list holds the text.
pub fn lists(list: &Vec<String>, item: &str) -> (r: bool)
    ensures
        r == texts(list@).contains(item@),
{
    let ghost all = texts(list@);
    let mut i: usize = 0;
    while i < list.len()
        invariant
            i <= list@.len(),
            all == texts(list@),
            forall|k: int| 0 <= k < i ==> #[trigger] all[k] != item@,
        decreases list@.len() - i,
    {
        assert(all[i as int] == list@[i as int]@);
        if same(list[i].as_str(), item) {
            return true;
        }
        i += 1;
    }
    false
}

/// The files of `mine` that occur in `theirs`, in the order of `mine`.
pub fn shared_files(mine: &Vec<String>, theirs: &Vec<String>) -> (r: Vec<String>)
    ensures
        texts(r@) == shared(texts(mine@), texts(theirs@)),
{
    let ghost all = texts(mine@);
    let ghost p = also_in(texts(theirs@));
    let mut out: Vec<String> = Vec::new();
    let mut i: usize = 0;
    assert(texts(out@) =~= all.take(0).filter(p)) by {
        reveal(Seq::filter);
    }
    while i < mine.len()
        invariant
            i <= mine@.len(),
            all == texts(mine@),
            p == also_in(texts(theirs@)),
            texts(out@) == all.take(i as int).filter(p),
        decreases mine@.len() - i,
    {
        proof {
            lemma_count_step(all, p, i as int);
        }
        if lists(theirs, mine[i].as_str()) {
            let ghost before = texts(out@);
            out.push(mine[i].clone());
            assert(texts(out@) =~= before.push(all[i as int]));
        }
        i += 1;
    }
    assert(all.take(i as int) =~= all);
    out
}

/// The claims that share files with `mine`, each reduced to the shared files.
pub open spec fn overlaps(mine: Seq<Seq<char>>, claims: Seq<ClaimView>) -> Seq<ClaimView> {
    claims.map_values(
        |c: ClaimView| ClaimView { files: shared(mine, c.files), ..c },
    ).filter(|c: ClaimView| c.files.len() > 0)
}

/// The claims that share files with `mine`, each reduced to the shared files.
pub fn overlapping(mine: &Vec<String>, claims: &Vec<Claim>) -> (r: Vec<Claim>)
    ensures
        views(r@) == overlaps(texts(mine@), views(claims@)),
{
    let ghost mapped = views(claims@).map_values(
        |c: ClaimView| ClaimView { files: shared(texts(mine@), c.files), ..c },
    );
    let ghost p = |c: ClaimView| c.files.len() > 0;
    let mut out: Vec<Claim> = Vec::new();
    let mut i: usize = 0;
    assert(views(out@) =~= mapped.take(0).filter(p)) by {
        reveal(Seq::filter);
    }
    while i < claims.len()
        invariant
            i <= claims@.len(),
            mapped == views(claims@).map_values(
                |c: ClaimView| ClaimView { files: shared(texts(mine@), c.files), ..c },
            ),
            p == (|c: ClaimView| c.files.len() > 0),
            views(out@) == mapped.take(i as int).filter(p),
        decreases claims@.len() - i,
    {
        proof {
            lemma_count_step(mapped, p, i as int);
        }
        let files = shared_files(mine, &claims[i].files);
        assert(mapped[i as int].files == texts(files@));
        if files.len() > 0 {
            assert(texts(files@).len() > 0);
            let ghost before = views(out@);
            let c = Claim { task_id: claims[i].task_id, title: claims[i].title.clone(), files };
            out.push(c);
            assert(c@ == mapped[i as int]);
            assert(views(out@) =~= before.push(mapped[i as int]));
        } else {
            assert(texts(files@).len() == 0);
        }
        i += 1;
    }
    assert(mapped.take(i as int) =~= mapped);
    out
}

/// The other tasks in progress that claim files.
pub open spec fn rival(task_id: i64) -> spec_fn(TaskRowView) -> bool {
    |t: TaskRowView|
        t.status == "in_progress"@ && t.id != task_id && (match t.claimed_files {
            Some(text) => text != "[]"@,
            None => false,
        })
}

/// The files that a task's row lists.
pub open spec fn claimed(t: TaskRowView) -> Seq<Seq<char>> {
    match t.claimed_files {
        Some(text) => listed(text),
        None => Seq::empty(),
    }
}

/// The claims of the other tasks in progress.
pub open spec fn rival_claims(s: StoreView, task_id: i64) -> Seq<ClaimView> {
    s.tasks.rows.filter(rival(task_id)).map_values(
        |t: TaskRowView| ClaimView { task_id: t.id, title: t.title, files: claimed(t) },
    )
}

/// The files that a task claims.
pub open spec fn claimed_by(s: StoreView, task_id: i64) -> Seq<Seq<char>> {
    match first(s.tasks.rows, task_is(task_id)) {
        Some(t) => claimed(t),
        None => Seq::empty(),
    }
}

/// The files that a row lists.
fn row_files(t: &TaskRow) -> (r: Vec<String>)
    ensures
        texts(r@) == claimed(t@),
{
    match &t.claimed_files {
        Some(text) => parse_json_array(text.as_str()),
        None => {
            let none: Vec<String> = Vec::new();
            assert(texts(none@) =~= Seq::empty());
            none
        },
    }
}

/// The files that a task claims.
pub fn get_claimed_files(db: &Store, task_id: i64) -> (r: Vec<String>)
    ensures
        texts(r@) == claimed_by(db@, task_id),
{
    match find_task(db, task_id) {
        Some(k) => row_files(&db.tasks.rows[k]),
        None => {
            let none: Vec<String> = Vec::new();
            assert(texts(none@) =~= Seq::empty());
            none
        },
    }
}

/// The claims of the other tasks in progress.
pub fn get_rival_claims(db: &Store, task_id: i64) -> (r: Vec<Claim>)
    ensures
        views(r@) == rival_claims(db@, task_id),
{
    let rivals = select_where(
        &db.tasks.rows,
        |t: &TaskRow| -> (b: bool) ensures b == rival(task_id)(t@) {
            same(t.status.as_str(), "in_progress") && t.id != task_id && (match &t.claimed_files {
                Some(text) => !same(text.as_str(), "[]"),
                None => false,
            })
        },
        Ghost(rival(task_id)),
    );
    let mut out: Vec<Claim> = Vec::new();
    let mut i: usize = 0;
    while i < rivals.len()
        invariant
            i <= rivals@.len(),
            out@.len() == i,
            forall|k: int|
                0 <= k < i ==> (#[trigger] out@[k])@ == (ClaimView {
                    task_id: rivals@[k]@.id,
                    title: rivals@[k]@.title,
                    files: claimed(rivals@[k]@),
                }),
        decreases rivals@.len() - i,
    {
        let c = Claim {
            task_id: rivals[i].id,
            title: rivals[i].title.clone(),
            files: row_files(&rivals[i]),
        };
        out.push(c);
        i += 1;
    }
    assert(views(out@) =~= rival_claims(db@, task_id));
    out
}

/// How one overlap is described.
pub open spec fn described(c: ClaimView) -> Seq<char> {
    "task "@ + dec(c.task_id as int) + " ("@ + c.title + ") on "@ + debug_text(c.files)
}

/// How overlaps are described.
pub open spec fn conflict_text(task_id: i64, found: Seq<ClaimView>) -> Seq<char> {
    "task "@ + dec(task_id as int) + " overlaps with: "@ + joined(
        found.map_values(|c: ClaimView| described(c)),
        "; "@,
    )
}

/// What the files of a task have in common with those of other tasks in progress.
pub open spec fn file_conflicts(s: StoreView, task_id: i64) -> Option<Seq<char>> {
    let found = overlaps(claimed_by(s, task_id), rival_claims(s, task_id));
    if found.len() == 0 {
        None
    } else {
        Some(conflict_text(task_id, found))
    }
}

/// How overlaps are described.
fn describe(task_id: i64, found: &Vec<Claim>) -> (r: String)
    ensures
        r@ == conflict_text(task_id, views(found@)),
{
    let mut parts: Vec<String> = Vec::new();
    let mut i: usize = 0;
    while i < found.len()
        invariant
            i <= found@.len(),
            parts@.len() == i,
            forall|k: int| 0 <= k < i ==> (#[trigger] parts@[k])@ == described(found@[k]@),
        decreases found@.len() - i,
    {
        let mut part = cat5(
            "task ",
            dec_i64(found[i].task_id).as_str(),
            " (",
            found[i].title.as_str(),
            ") on ",
        );
        part.append(debug_list(&found[i].files).as_str());
        parts.push(part);
        i += 1;
    }
    assert(texts(parts@) =~= views(found@).map_values(|c: ClaimView| described(c)));
    let head = cat3("task ", dec_i64(task_id).as_str(), " overlaps with: ");
    cat2(head.as_str(), join(&parts, "; ").as_str())
}

/// Nothing overlaps with no files.
proof fn lemma_no_files(mine: Seq<Seq<char>>, claims: Seq<ClaimView>)
    requires
        mine.len() == 0,
    ensures
        overlaps(mine, claims).len() == 0,
{
    let mapped = claims.map_values(|c: ClaimView| ClaimView { files: shared(mine, c.files), ..c });
    let p = |c: ClaimView| c.files.len() > 0;
    crate::table::lemma_count_any(mapped, p);
    if crate::table::any(mapped, p) {
        let i = choose|i: int| 0 <= i < mapped.len() && p(#[trigger] mapped[i]);
        assert(mapped[i].files == shared(mine, claims[i].files));
        assert(shared(mine, claims[i].files).len() == 0) by {
            reveal(Seq::filter);
        }
    }
}

/// What the files of a task have in common with those of other tasks in progress.
pub fn find_file_conflicts(db: &Store, task_id: i64) -> (r: Option<String>)
    ensures
        crate::text::opt_text(r) == file_conflicts(db@, task_id),
{
    let mine = get_claimed_files(db, task_id);
    if mine.len() == 0 {
        proof {
            assert(texts(mine@).len() == 0);
            lemma_no_files(texts(mine@), rival_claims(db@, task_id));
        }
        return None;
    }
    let claims = get_rival_claims(db, task_id);
    let found = overlapping(&mine, &claims);
    assert(views(found@).len() == found@.len());
    if found.len() == 0 {
        None
    } else {
        Some(describe(task_id, &found))
    }
}

/// What the file conflict gate finds.
pub open spec fn file_conflict_error(s: StoreView, task_id: i64, block: bool) -> Option<
    GateErrorView,
> {
    match file_conflicts(s, task_id) {
        Some(text) if block => Some(
            GateErrorView {
                gate: "FileConflictGate"@,
                reason: text,
                expected: "no file overlap with in-progress tasks"@,
            },
        ),
        _ => None,
    }
}

/// Checks whether a task's claimed files overlap with those of other tasks in progress.
/// An overlap is an error only where conflicts are set to block.
pub fn file_conflict_check(db: &Store, task_id: i64, block: bool) -> (r: Result<(), GateError>)
    ensures
        gate_error(r) == file_conflict_error(db@, task_id, block),
{
    match find_file_conflicts(db, task_id) {
        Some(text) => if block {
            Err(
                GateError {
                    gate: "FileConflictGate",
                    reason: text,
                    expected: "no file overlap with in-progress tasks".to_owned(),
                },
            )
        } else {
            Ok(())
        },
        None => Ok(()),
    }
}

/// The files of a task overlap exactly where another task that is in progress lists a file that
/// the task lists too. An overlap is an error exactly where overlaps block.
pub proof fn law_overlapping_files(s: StoreView, i: int, block: bool)
    requires
        sound(s),
        0 <= i < s.tasks.rows.len(),
    ensures
        ({
            let t = s.tasks.rows[i];
            let overlap = exists|j: int, f: Seq<char>|
                0 <= j < s.tasks.rows.len() && (#[trigger] s.tasks.rows[j]).id != t.id
                    && s.tasks.rows[j].status == "in_progress"@ && s.tasks.rows[j].claimed_files
                    is Some && s.tasks.rows[j].claimed_files->0 != "[]"@ && t.claimed_files is Some
                    && listed(s.tasks.rows[j].claimed_files->0).contains(f) && #[trigger] listed(
                    t.claimed_files->0,
                ).contains(f);
            &&& file_conflicts(s, t.id) is Some <==> overlap
            &&& file_conflict_error(s, t.id, block) is Some <==> block && overlap
            &&& file_conflict_error(s, t.id, block) matches Some(e) ==> e.gate
                == "FileConflictGate"@ && Some(e.reason) == file_conflicts(s, t.id)
        }),
{
    let t = s.tasks.rows[i];
    let rows = s.tasks.rows;
    crate::table::lemma_first_keyed::<TaskRow>(s.tasks, task_is(t.id), i);
    let mine = claimed_by(s, t.id);
    let rivals = rows.filter(rival(t.id));
    let claims = rival_claims(s, t.id);
    let mapped = claims.map_values(|c: ClaimView| ClaimView { files: shared(mine, c.files), ..c });
    let p = |c: ClaimView| c.files.len() > 0;
    crate::table::lemma_count_any(mapped, p);
    crate::table::lemma_kept(rows, rival(t.id));
    if crate::table::any(mapped, p) {
        let k = choose|k: int| 0 <= k < mapped.len() && p(#[trigger] mapped[k]);
        let both = shared(mine, claims[k].files);
        crate::table::lemma_kept(mine, also_in(claims[k].files));
        let f = both[0];
        assert(claims[k].files == claimed(rivals[k]));
        assert(also_in(claims[k].files)(f) && mine.contains(f));
        assert(rival(t.id)(rivals[k]) && rows.contains(rivals[k]));
        let j = choose|j: int| 0 <= j < rows.len() && rows[j] == rivals[k];
        assert(rows[j].id != t.id);
        assert(listed(rows[j].claimed_files->0).contains(f));
        assert(listed(t.claimed_files->0).contains(f));
    }
    if exists|j: int, f: Seq<char>|
        0 <= j < rows.len() && (#[trigger] rows[j]).id != t.id && rows[j].status == "in_progress"@
            && rows[j].claimed_files is Some && rows[j].claimed_files->0 != "[]"@
            && t.claimed_files is Some && listed(rows[j].claimed_files->0).contains(f)
            && #[trigger] listed(t.claimed_files->0).contains(f) {
        let (j, f) = choose|j: int, f: Seq<char>|
            0 <= j < rows.len() && (#[trigger] rows[j]).id != t.id && rows[j].status
                == "in_progress"@ && rows[j].claimed_files is Some && rows[j].claimed_files->0
                != "[]"@ && t.claimed_files is Some && listed(rows[j].claimed_files->0).contains(f)
                && #[trigger] listed(t.claimed_files->0).contains(f);
        assert(rival(t.id)(rows[j]));
        let k = choose|k: int| 0 <= k < rivals.len() && rivals[k] == rows[j];
        assert(claims[k].files == claimed(rows[j]));
        crate::table::lemma_kept(mine, also_in(claims[k].files));
        let m = choose|m: int| 0 <= m < mine.len() && mine[m] == f;
        assert(also_in(claims[k].files)(mine[m]));
        assert(shared(mine, claims[k].files).contains(f));
        assert(p(mapped[k]));
    }
}

/// An overlap is told with the task and, for each other task, its key, its title and the files in
/// common.
pub proof fn law_what_overlaps_say(task_id: i64, found: Seq<ClaimView>, c: ClaimView)
    ensures
        described(c) == "task "@ + dec(c.task_id as int) + " ("@ + c.title + ") on "@ + debug_text(
            c.files,
        ),
        conflict_text(task_id, seq![c]) == "task "@ + dec(task_id as int) + " overlaps with: "@
            + described(c),
        found.len() > 0 ==> conflict_text(task_id, found.push(c)) == conflict_text(task_id, found)
            + "; "@ + described(c),
{
    let f = |c: ClaimView| described(c);
    assert(seq![c].map_values(f) =~= seq![described(c)]);
    assert(found.push(c).map_values(f) =~= found.map_values(f).push(described(c)));
    crate::text::law_joined(found.map_values(f), described(c), "; "@);
    let head = "task "@ + dec(task_id as int) + " overlaps with: "@;
    let list = joined(found.map_values(f), "; "@);
    assert(head + (list + "; "@ + described(c)) =~= head + list + "; "@ + described(c));
}

/// An overlap that blocks says what is expected, and one that does not block is no error.
pub proof fn law_overlap_is_expected(s: StoreView, task_id: i64)
    ensures
        file_conflict_error(s, task_id, true) matches Some(e) ==> e.expected
            == "no file overlap with in-progress tasks"@,
        file_conflict_error(s, task_id, false) is None,
{
}

} // verus!
