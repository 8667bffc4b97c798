//! Uploads of artifacts: which file is written where, and what is recorded of it.

use crate::artifacts::{record_artifact, with_artifact, ArtifactView};
use crate::evidence::{insert_evidence, with_evidence};
use crate::paths::{is_entry, lemma_parent_of_entry, parent_path};
use crate::store::{sound, Store, StoreError, StoreView};
use crate::table::full;
use crate::text::{
    cat2, cat3, dec, dec_i64, dec_nat, digit, from_chars, lemma_run, opt_text, parse_i64,
    parsed_i64, replace, replaced, run, to_chars,
};
use vstd::prelude::*;

verus! {

/// Whether Unicode counts a character among the letters and numbers.
pub uninterp spec fn letter_or_number(c: char) -> bool;

/// `char::is_alphanumeric`: a function of the character alone. Of the characters of ASCII, the
/// letters and the digits satisfy it; which others do is left to the tables of Unicode.
#[verifier::external_body]
fn is_alphanumeric(c: char) -> (r: bool)
    ensures
        r == letter_or_number(c),
        (c as u32) < 128 ==> r == ('0' <= c <= '9' || 'a' <= c <= 'z' || 'A' <= c <= 'Z'),
{
    c.is_alphanumeric()
}

/// Whether a character is a letter or a number: of ASCII the letters and the digits, and
/// otherwise what Unicode counts among them.
pub open spec fn alphanumeric(c: char) -> bool {
    if (c as u32) < 128 {
        '0' <= c <= '9' || 'a' <= c <= 'z' || 'A' <= c <= 'Z'
    } else {
        letter_or_number(c)
    }
}

/// Whether a character separates the parts of a path.
pub open spec fn is_separator(c: char) -> bool {
    c == '/' || c == '\\'
}

/// What stands behind the last separator.
pub open spec fn last_part(s: Seq<char>) -> Seq<char>
    decreases s.len(),
{
    if s.len() == 0 || is_separator(s.last()) {
        Seq::empty()
    } else {
        last_part(s.drop_last()).push(s.last())
    }
}

/// The characters that a file name keeps.
pub open spec fn safe_char() -> spec_fn(char) -> bool {
    |c: char| alphanumeric(c) || c == '-' || c == '_' || c == '.'
}

/// The dot.
pub open spec fn dot() -> spec_fn(char) -> bool {
    |c: char| c == '.'
}

/// The text without the dots at its start.
pub open spec fn without_leading_dots(s: Seq<char>) -> Seq<char> {
    s.skip(run(s, dot()) as int)
}

/// A file name that is safe to write: what stands behind the last separator, without pairs of
/// dots, without all but letters, numbers, dashes, underscores and dots, and without leading
/// dots.
pub open spec fn safe_name(raw: Seq<char>) -> Seq<char> {
    without_leading_dots(
        replaced(last_part(raw), ".."@, Seq::empty()).filter(safe_char()),
    )
}

/// Strips path separators and traversal components from a file name.
pub fn sanitize_filename(raw: &str) -> (r: String)
    ensures
        r@ == safe_name(raw@),
{
    let cs = to_chars(raw);
    let mut start: usize = cs.len();
    assert(cs@.take(cs@.len() as int) =~= cs@);
    assert(cs@.subrange(start as int, cs@.len() as int) =~= Seq::<char>::empty());
    assert(last_part(cs@.take(start as int)) + cs@.subrange(start as int, cs@.len() as int)
        =~= last_part(cs@));
    while start > 0 && !(cs[start - 1] == '/' || cs[start - 1] == '\\')
        invariant
            cs@ == raw@,
            start <= cs@.len(),
            last_part(cs@) == last_part(cs@.take(start as int)) + cs@.subrange(
                start as int,
                cs@.len() as int,
            ),
        decreases start,
    {
        let ghost t = cs@.take(start as int);
        assert(t.drop_last() =~= cs@.take(start - 1));
        assert(last_part(t) == last_part(t.drop_last()).push(t.last()));
        assert(last_part(cs@.take(start - 1)).push(cs@[start - 1]) + cs@.subrange(
            start as int,
            cs@.len() as int,
        ) =~= last_part(cs@.take(start - 1)) + cs@.subrange(start - 1, cs@.len() as int));
        start -= 1;
    }
    assert(last_part(cs@.take(start as int)) =~= Seq::<char>::empty());
    let part = from_chars(&cs, start, cs.len());
    assert(part@ =~= last_part(raw@));
    proof {
        reveal_strlit("..");
    }
    let empty = String::new();
    let joined = to_chars(replace(part.as_str(), "..", empty.as_str()).as_str());
    let ghost p = safe_char();
    let mut kept: Vec<char> = Vec::new();
    let mut i: usize = 0;
    assert(kept@ =~= joined@.take(0).filter(p)) by {
        reveal(Seq::filter);
    }
    while i < joined.len()
        invariant
            i <= joined@.len(),
            p == safe_char(),
            kept@ == joined@.take(i as int).filter(p),
        decreases joined@.len() - i,
    {
        proof {
            crate::table::lemma_count_step(joined@, p, i as int);
        }
        let c = joined[i];
        if is_alphanumeric(c) || c == '-' || c == '_' || c == '.' {
            kept.push(c);
        }
        i += 1;
    }
    assert(joined@.take(i as int) =~= joined@);
    let mut from: usize = 0;
    while from < kept.len() && kept[from] == '.'
        invariant
            from <= kept@.len(),
            forall|k: int| 0 <= k < from ==> dot()(#[trigger] kept@[k]),
        decreases kept@.len() - from,
    {
        from += 1;
    }
    proof {
        lemma_run(kept@, dot(), from as int);
        assert(kept@.subrange(from as int, kept@.len() as int) =~= without_leading_dots(kept@));
    }
    from_chars(&kept, from, kept.len())
}

/// The fields of an upload, as far as they came.
pub struct UploadForm {
    pub task_id: Option<String>,
    pub plan_id: Option<String>,
    pub name: Option<String>,
    pub artifact_type: Option<String>,
    pub file_name: Option<String>,
    /// Whether the content of the file came.
    pub has_file: bool,
}

/// What is to be done with an upload.
pub struct UploadPlan {
    pub task_id: i64,
    pub plan_id: i64,
    pub display_name: String,
    pub artifact_type: String,
    /// The file's name in the plan's directory.
    pub safe_file: String,
    /// The file's path below the directory of all artifacts.
    pub relative: String,
}

/// Why an upload is refused.
#[derive(Debug, Clone, Copy, PartialEq, Eq, Structural)]
pub enum UploadError {
    MissingFields,
    InvalidName,
}

impl UploadError {
    /// The error in words.
    pub open spec fn text(self) -> Seq<char> {
        match self {
            UploadError::MissingFields => "missing required fields: task_id, plan_id, file"@,
            UploadError::InvalidName => "invalid filename after sanitization"@,
        }
    }

    /// The error in words.
    pub fn message(self) -> (r: String)
        ensures
            r@ == self.text(),
    {
        match self {
            UploadError::MissingFields => "missing required fields: task_id, plan_id, file".to_owned(),
            UploadError::InvalidName => "invalid filename after sanitization".to_owned(),
        }
    }
}

/// The number in a field.
pub open spec fn number_in(field: Option<Seq<char>>) -> Option<i64> {
    match field {
        Some(text) => parsed_i64(text),
        None => None,
    }
}

/// The first of two texts, or else the second, or else a third.
pub open spec fn either(
    a: Option<Seq<char>>,
    b: Option<Seq<char>>,
    c: Seq<char>,
) -> Seq<char> {
    match a {
        Some(t) => t,
        None => match b {
            Some(t) => t,
            None => c,
        },
    }
}

/// The name under which an artifact is shown.
pub open spec fn shown_name(form: UploadForm) -> Seq<char> {
    either(opt_text(form.name), opt_text(form.file_name), "unnamed"@)
}

/// The name from which the file's name is made.
pub open spec fn raw_name(form: UploadForm) -> Seq<char> {
    either(opt_text(form.file_name), opt_text(form.name), "unnamed"@)
}

fn read_number(field: &Option<String>) -> (r: Option<i64>)
    ensures
        r == number_in(opt_text(*field)),
{
    match field {
        Some(text) => parse_i64(text.as_str()),
        None => None,
    }
}

/// Decides what is to be done with an upload.
pub fn plan_upload(form: &UploadForm) -> (r: Result<UploadPlan, UploadError>)
    ensures
        ({
            let task = number_in(opt_text(form.task_id));
            let plan = number_in(opt_text(form.plan_id));
            let safe = safe_name(raw_name(*form));
            if task is None || plan is None || !form.has_file {
                r == Err::<UploadPlan, UploadError>(UploadError::MissingFields)
            } else if safe.len() == 0 {
                r == Err::<UploadPlan, UploadError>(UploadError::InvalidName)
            } else {
                &&& r is Ok
                &&& Some(r->Ok_0.task_id) == task
                &&& Some(r->Ok_0.plan_id) == plan
                &&& r->Ok_0.display_name@ == shown_name(*form)
                &&& r->Ok_0.artifact_type@ == either(
                    opt_text(form.artifact_type),
                    None,
                    "document"@,
                )
                &&& r->Ok_0.safe_file@ == safe
                &&& r->Ok_0.relative@ == dec(r->Ok_0.plan_id as int) + "/"@ + safe
            }
        }),
{
    let (task_id, plan_id) = match (read_number(&form.task_id), read_number(&form.plan_id)) {
        (Some(t), Some(p)) => (t, p),
        _ => {
            return Err(UploadError::MissingFields);
        },
    };
    if !form.has_file {
        return Err(UploadError::MissingFields);
    }
    let display_name = match &form.name {
        Some(n) => n.clone(),
        None => match &form.file_name {
            Some(f) => f.clone(),
            None => "unnamed".to_owned(),
        },
    };
    let raw = match &form.file_name {
        Some(f) => f.clone(),
        None => display_name.clone(),
    };
    let safe_file = sanitize_filename(raw.as_str());
    if safe_file.as_str().is_empty() {
        return Err(UploadError::InvalidName);
    }
    let artifact_type = match &form.artifact_type {
        Some(t) => t.clone(),
        None => "document".to_owned(),
    };
    let relative = cat3(dec_i64(plan_id).as_str(), "/", safe_file.as_str());
    Ok(UploadPlan { task_id, plan_id, display_name, artifact_type, safe_file, relative })
}

/// The store after an upload has been recorded: the artifact, and evidence for the task as far
/// as a key is left for it.
pub open spec fn after_upload(
    s: StoreView,
    plan: UploadPlan,
    size: i64,
    now: Seq<char>,
) -> StoreView {
    let n = with_artifact(
        s,
        ArtifactView {
            id: 0,
            task_id: plan.task_id,
            plan_id: plan.plan_id,
            name: plan.display_name@,
            artifact_type: plan.artifact_type@,
            path: plan.relative@,
            size_bytes: size,
            mime_type: None,
            content_hash: None,
            created_at: now,
        },
    );
    if full(n.task_evidence) {
        n
    } else {
        with_evidence(
            n,
            plan.task_id,
            "artifact"@,
            plan.display_name@,
            "artifact_id="@ + dec(s.artifacts.last_id + 1),
            0,
            now,
        )
    }
}

/// Records an upload whose file has been written, and gives the id of the artifact.
pub fn record_upload(db: &mut Store, plan: &UploadPlan, size: i64, now: &str) -> (r: Result<
    i64,
    StoreError,
>)
    ensures
        full(old(db)@.artifacts) ==> r == Err::<i64, StoreError>(StoreError::Full) && final(db)@
            == old(db)@,
        !full(old(db)@.artifacts) ==> {
            &&& r == Ok::<i64, StoreError>((old(db)@.artifacts.last_id + 1) as i64)
            &&& final(db)@ == after_upload(old(db)@, *plan, size, now@)
        },
        sound(old(db)@) ==> sound(final(db)@),
{
    let recorded = record_artifact(
        db,
        plan.task_id,
        plan.plan_id,
        plan.display_name.as_str(),
        plan.artifact_type.as_str(),
        plan.relative.as_str(),
        size,
        now,
    );
    match recorded {
        Ok(id) => {
            if db.task_evidence.last_id != i64::MAX {
                insert_evidence(
                    db,
                    plan.task_id,
                    "artifact",
                    plan.display_name.as_str(),
                    cat2("artifact_id=", dec_i64(id).as_str()).as_str(),
                    0,
                    now,
                );
            }
            Ok(id)
        },
        Err(e) => Err(e),
    }
}

// ---- what holds of every name ----

/// What stands behind the last separator has no separator.
proof fn lemma_last_part(s: Seq<char>)
    ensures
        forall|i: int| 0 <= i < last_part(s).len() ==> !is_separator(#[trigger] last_part(s)[i]),
    decreases s.len(),
{
    if s.len() > 0 && !is_separator(s.last()) {
        lemma_last_part(s.drop_last());
        let before = last_part(s.drop_last());
        assert forall|i: int| 0 <= i < last_part(s).len() implies !is_separator(
            #[trigger] last_part(s)[i],
        ) by {
            if i < before.len() {
                assert(last_part(s)[i] == before[i]);
            } else {
                assert(last_part(s)[i] == s.last());
            }
        }
    }
}

/// To leave out a text brings no new characters.
proof fn lemma_replaced_by_nothing(s: Seq<char>, needle: Seq<char>)
    requires
        forall|i: int| 0 <= i < s.len() ==> !is_separator(#[trigger] s[i]),
    ensures
        forall|i: int|
            0 <= i < replaced(s, needle, Seq::empty()).len() ==> !is_separator(
                #[trigger] replaced(s, needle, Seq::empty())[i],
            ),
    decreases s.len(),
{
    let none = Seq::<char>::empty();
    let r = replaced(s, needle, none);
    if needle.len() > 0 && s.len() > 0 {
        if crate::text::begins(s, needle) {
            let rest = s.skip(needle.len() as int);
            assert forall|i: int| 0 <= i < rest.len() implies !is_separator(#[trigger] rest[i]) by {
                assert(rest[i] == s[i + needle.len()]);
            }
            lemma_replaced_by_nothing(rest, needle);
            assert(r =~= replaced(rest, needle, none));
        } else {
            let rest = s.skip(1);
            assert forall|i: int| 0 <= i < rest.len() implies !is_separator(#[trigger] rest[i]) by {
                assert(rest[i] == s[i + 1]);
            }
            lemma_replaced_by_nothing(rest, needle);
            assert forall|i: int| 0 <= i < r.len() implies !is_separator(#[trigger] r[i]) by {
                if i == 0 {
                    assert(r[0] == s[0]);
                } else {
                    assert(r[i] == replaced(rest, needle, none)[i - 1]);
                }
            }
        }
    }
}

/// Whether a text is another one with characters left out: it consists of the other's
/// characters at some places, in order.
pub open spec fn subsequence(a: Seq<char>, b: Seq<char>) -> bool {
    exists|at: Seq<int>| picked(a, b, at)
}

/// Whether a text consists of the characters of another one at the given places, in order.
pub open spec fn picked(a: Seq<char>, b: Seq<char>, at: Seq<int>) -> bool {
    &&& at.len() == a.len()
    &&& forall|i: int| 0 <= i < at.len() ==> 0 <= #[trigger] at[i] < b.len() && a[i] == b[at[i]]
    &&& forall|i: int, j: int| 0 <= i < j < at.len() ==> at[i] < at[j]
}

/// To leave out characters twice is to leave out characters.
proof fn lemma_subsequence_trans(a: Seq<char>, b: Seq<char>, c: Seq<char>)
    requires
        subsequence(a, b),
        subsequence(b, c),
    ensures
        subsequence(a, c),
{
    let f = choose|at: Seq<int>| picked(a, b, at);
    let g = choose|at: Seq<int>| picked(b, c, at);
    let h = f.map_values(|i: int| g[i]);
    assert forall|i: int| 0 <= i < h.len() implies 0 <= #[trigger] h[i] < c.len() && a[i]
        == c[h[i]] by {
        assert(h[i] == g[f[i]]);
    }
    assert forall|i: int, j: int| 0 <= i < j < h.len() implies h[i] < h[j] by {
        assert(f[i] < f[j]);
        assert(h[i] == g[f[i]] && h[j] == g[f[j]]);
    }
    assert(picked(a, c, h));
}

/// A text without its first characters is the text with characters left out.
proof fn lemma_skip_subsequence(s: Seq<char>, k: int)
    requires
        0 <= k <= s.len(),
    ensures
        subsequence(s.skip(k), s),
{
    assert(picked(s.skip(k), s, Seq::new((s.len() - k) as nat, |i: int| i + k)));
}

/// A text with the same character put before it as before another.
proof fn lemma_cons_subsequence(a: Seq<char>, b: Seq<char>, c: char)
    requires
        subsequence(a, b),
    ensures
        subsequence(seq![c] + a, seq![c] + b),
{
    let f = choose|at: Seq<int>| picked(a, b, at);
    let h = seq![0int] + f.map_values(|i: int| i + 1);
    let x = seq![c] + a;
    let y = seq![c] + b;
    assert forall|i: int| 0 <= i < h.len() implies 0 <= #[trigger] h[i] < y.len() && x[i]
        == y[h[i]] by {
        if i > 0 {
            assert(h[i] == f[i - 1] + 1);
        }
    }
    assert forall|i: int, j: int| 0 <= i < j < h.len() implies h[i] < h[j] by {
        assert(h[j] == f[j - 1] + 1);
        if i > 0 {
            assert(h[i] == f[i - 1] + 1);
            assert(f[i - 1] < f[j - 1]);
        }
    }
    assert(picked(x, y, h));
}

/// To leave out a text is to leave out characters.
proof fn lemma_replaced_subsequence(s: Seq<char>, needle: Seq<char>)
    ensures
        subsequence(replaced(s, needle, Seq::empty()), s),
    decreases s.len(),
{
    let none = Seq::<char>::empty();
    let r = replaced(s, needle, none);
    if needle.len() > 0 && s.len() > 0 {
        if crate::text::begins(s, needle) {
            let rest = s.skip(needle.len() as int);
            lemma_replaced_subsequence(rest, needle);
            assert(r =~= replaced(rest, needle, none));
            lemma_skip_subsequence(s, needle.len() as int);
            lemma_subsequence_trans(r, rest, s);
        } else {
            let rest = s.skip(1);
            lemma_replaced_subsequence(rest, needle);
            lemma_cons_subsequence(replaced(rest, needle, none), rest, s[0]);
            assert(r =~= seq![s[0]] + replaced(rest, needle, none));
            assert(s =~= seq![s[0]] + rest);
        }
    } else {
        lemma_skip_subsequence(s, 0);
        assert(s.skip(0) =~= s);
        assert(r =~= s);
    }
}

/// To keep some characters is to leave out the others.
proof fn lemma_filter_subsequence(s: Seq<char>, p: spec_fn(char) -> bool)
    ensures
        subsequence(s.filter(p), s),
    decreases s.len(),
{
    reveal(Seq::filter);
    if s.len() == 0 {
        assert(picked(s.filter(p), s, Seq::empty()));
    } else {
        let short = s.drop_last();
        lemma_filter_subsequence(short, p);
        let f = choose|at: Seq<int>| picked(short.filter(p), short, at);
        if p(s.last()) {
            let h = f.push(s.len() - 1);
            let x = s.filter(p);
            assert(x == short.filter(p).push(s.last()));
            assert forall|i: int| 0 <= i < h.len() implies 0 <= #[trigger] h[i] < s.len() && x[i]
                == s[h[i]] by {
                if i < f.len() {
                    assert(h[i] == f[i]);
                }
            }
            assert(picked(x, s, h));
        } else {
            assert forall|i: int| 0 <= i < f.len() implies 0 <= #[trigger] f[i] < s.len()
                && s.filter(p)[i] == s[f[i]] by {}
            assert(picked(s.filter(p), s, f));
        }
    }
}

/// A safe name has no separator and no leading dot, and consists of safe characters. It is what
/// stands behind the last separator, with characters left out. A pair of dots may still stand
/// in it, where a character between them was left out.
pub proof fn law_safe_name(raw: Seq<char>)
    ensures
        forall|i: int|
            0 <= i < safe_name(raw).len() ==> !is_separator(#[trigger] safe_name(raw)[i])
                && safe_char()(safe_name(raw)[i]),
        safe_name(raw).len() > 0 ==> safe_name(raw)[0] != '.',
        safe_name(raw).len() > 0 ==> is_entry(safe_name(raw)),
        subsequence(safe_name(raw), last_part(raw)),
{
    let part = last_part(raw);
    lemma_last_part(raw);
    lemma_replaced_by_nothing(part, ".."@);
    let joined = replaced(part, ".."@, Seq::empty());
    let p = safe_char();
    let f = joined.filter(p);
    assert forall|i: int| 0 <= i < f.len() implies !is_separator(#[trigger] f[i]) && p(f[i]) by {
        joined.lemma_filter_pred(p, i);
        assert(f.contains(f[i]));
        joined.lemma_filter_contains_rev(p, f[i]);
        let k = choose|k: int| 0 <= k < joined.len() && joined[k] == f[i];
        assert(!is_separator(joined[k]));
    }
    lemma_after_run(f);
    let safe = safe_name(raw);
    lemma_replaced_subsequence(part, ".."@);
    lemma_filter_subsequence(joined, p);
    lemma_skip_subsequence(f, run(f, dot()) as int);
    lemma_subsequence_trans(f, joined, part);
    lemma_subsequence_trans(safe, f, part);
    assert forall|i: int| 0 <= i < safe.len() implies !is_separator(#[trigger] safe[i])
        && safe_char()(safe[i]) by {
        assert(safe[i] == f[i + run(f, dot())]);
    }
    if safe.len() > 0 {
        assert forall|i: int| 0 <= i < safe.len() implies #[trigger] safe[i] != '/' by {
            assert(!is_separator(safe[i]));
        }
    }
}

/// What follows the leading dots does not begin with one.
proof fn lemma_after_run(s: Seq<char>)
    ensures
        run(s, dot()) <= s.len(),
        run(s, dot()) < s.len() ==> s[run(s, dot()) as int] != '.',
    decreases s.len(),
{
    if s.len() > 0 && s[0] == '.' {
        lemma_after_run(s.skip(1));
        let k = run(s.skip(1), dot());
        if k < s.skip(1).len() {
            assert(s.skip(1)[k as int] == s[k as int + 1]);
        }
    }
}

/// A decimal number consists of digits.
proof fn lemma_dec_nat(n: nat)
    ensures
        dec_nat(n).len() > 0,
        forall|i: int| 0 <= i < dec_nat(n).len() ==> '0' <= #[trigger] dec_nat(n)[i] <= '9',
    decreases n,
{
    if n >= 10 {
        lemma_dec_nat(n / 10);
        assert(n % 10 < 10);
    }
    assert forall|d: int| 0 <= d < 10 implies '0' <= #[trigger] digit(d) <= '9' by {}
}

/// An accepted upload is written into the directory of its plan, and nowhere else.
pub proof fn law_upload_stays_in_its_directory(plan_id: i64, raw: Seq<char>)
    requires
        safe_name(raw).len() > 0,
    ensures
        parent_path(dec(plan_id as int) + "/"@ + safe_name(raw)) == Some(dec(plan_id as int)),
{
    law_safe_name(raw);
    reveal_strlit("/");
    assert("/"@ =~= seq!['/']);
    let dir = dec(plan_id as int);
    let size: nat = if plan_id < 0 {
        (-plan_id) as nat
    } else {
        plan_id as nat
    };
    lemma_dec_nat(size);
    let digits = dec_nat(size);
    assert(dir.last() == digits.last());
    assert forall|i: int| 0 <= i < dir.len() implies #[trigger] dir[i] != '/' by {
        if plan_id < 0 {
            if i > 0 {
                assert(dir[i] == digits[i - 1]);
            }
        } else {
            assert(dir[i] == digits[i]);
        }
    }
    assert(dir[0] != '.') by {
        if plan_id >= 0 {
            assert(dir[0] == digits[0]);
        }
    }
    lemma_single_component(dir);
    lemma_parent_of_entry(dir, safe_name(raw));
}

/// A path of one component is its own last component.
proof fn lemma_single_component(s: Seq<char>)
    requires
        s.len() > 0,
        forall|i: int| 0 <= i < s.len() ==> #[trigger] s[i] != '/',
        s[0] != '.',
    ensures
        crate::paths::body_start(s) == 0,
        crate::paths::last_start(s, 0) == 0,
        !crate::paths::idle_last(s, 0),
{
    lemma_no_slash(s);
    assert(s.skip(0) =~= s);
}

proof fn lemma_no_slash(s: Seq<char>)
    requires
        forall|i: int| 0 <= i < s.len() ==> #[trigger] s[i] != '/',
    ensures
        crate::paths::last_start(s, 0) == 0,
    decreases s.len(),
{
    if s.len() > 0 {
        assert(s[s.len() - 1] != '/');
        let short = s.drop_last();
        assert forall|i: int| 0 <= i < short.len() implies #[trigger] short[i] != '/' by {
            assert(short[i] == s[i]);
        }
        lemma_no_slash(short);
    }
}

/// What stands behind the last separator is the last part.
proof fn lemma_last_part_of(dir: Seq<char>, sep: char, name: Seq<char>)
    requires
        sep == '/' || sep == '\\',
        forall|i: int| 0 <= i < name.len() ==> #[trigger] name[i] != '/' && name[i] != '\\',
    ensures
        last_part(name) == name,
        last_part(dir.push(sep) + name) == name,
    decreases name.len(),
{
    let s = dir.push(sep) + name;
    if name.len() > 0 {
        let short = name.drop_last();
        lemma_last_part_of(dir, sep, short);
        assert(s.drop_last() =~= dir.push(sep) + short);
        assert(s.last() == name.last());
        assert(name[name.len() - 1] != '/' && name[name.len() - 1] != '\\');
        assert(short.push(name.last()) =~= name);
    } else {
        assert(s =~= dir.push(sep));
        assert(last_part(name) =~= name);
        assert(last_part(s) =~= name);
    }
}

/// Where every character is kept, the text stays as it is.
proof fn lemma_all_kept(s: Seq<char>, p: spec_fn(char) -> bool)
    requires
        forall|i: int| 0 <= i < s.len() ==> p(#[trigger] s[i]),
    ensures
        s.filter(p) == s,
    decreases s.len(),
{
    reveal(Seq::filter);
    if s.len() > 0 {
        lemma_all_kept(s.drop_last(), p);
        assert(p(s[s.len() - 1]));
        assert(s.drop_last().push(s.last()) =~= s);
    } else {
        assert(s.filter(p) =~= s);
    }
}

/// A name of letters, digits, dashes, underscores and dots, without a pair of dots and without a
/// dot at its start, is kept as it is, and what stands before it and a separator is dropped.
pub proof fn law_safe_name_is_kept(dir: Seq<char>, sep: char, name: Seq<char>)
    requires
        sep == '/' || sep == '\\',
        forall|i: int|
            0 <= i < name.len() ==> 'a' <= #[trigger] name[i] <= 'z' || 'A' <= name[i] <= 'Z' || '0'
                <= name[i] <= '9' || name[i] == '-' || name[i] == '_' || name[i] == '.',
        !crate::text::occurs(name, ".."@),
        name.len() > 0 ==> name[0] != '.',
    ensures
        safe_name(name) == name,
        safe_name(dir.push(sep) + name) == name,
{
    lemma_last_part_of(dir, sep, name);
    crate::text::law_nothing_replaced(name, ".."@, Seq::empty());
    assert forall|i: int| 0 <= i < name.len() implies safe_char()(#[trigger] name[i]) by {
        assert((name[i] as u32) < 128);
    }
    lemma_all_kept(name, safe_char());
    assert(run(name, dot()) == 0);
    assert(name.skip(0) =~= name);
}

/// A form names what is shown before the file, and the file before what is shown; without either
/// it is `unnamed`. A number is what its field holds, where that is one.
pub proof fn law_names_of_an_upload(form: UploadForm)
    ensures
        form.name matches Some(n) ==> shown_name(form) == n@,
        form.name is None && form.file_name is Some ==> shown_name(form) == form.file_name->0@,
        form.file_name matches Some(n) ==> raw_name(form) == n@,
        form.file_name is None && form.name is Some ==> raw_name(form) == form.name->0@,
        form.name is None && form.file_name is None ==> shown_name(form) == "unnamed"@ && raw_name(
            form,
        ) == "unnamed"@,
        number_in(None) is None,
        forall|n: i64| #[trigger] number_in(Some(dec(n as int))) == Some(n),
{
    assert forall|n: i64| #[trigger] number_in(Some(dec(n as int))) == Some(n) by {
        crate::text::law_decimal_round_trip(n);
    }
}

/// A recorded upload is an artifact with the task, the plan, the names and the size, and evidence
/// of its type that names the artifact. Nothing else changes.
pub proof fn law_upload_over_rows(s: StoreView, plan: UploadPlan, size: i64, now: Seq<char>)
    requires
        s.artifacts.last_id < i64::MAX,
        s.task_evidence.last_id < i64::MAX,
    ensures
        ({
            let n = after_upload(s, plan, size, now);
            let a = n.artifacts.rows.last();
            let e = n.task_evidence.rows.last();
            &&& n == (StoreView { artifacts: n.artifacts, task_evidence: n.task_evidence, ..s })
            &&& n.artifacts.rows.drop_last() == s.artifacts.rows
            &&& n.task_evidence.rows.drop_last() == s.task_evidence.rows
            &&& a.id == s.artifacts.last_id + 1 && a.task_id == plan.task_id && a.plan_id
                == plan.plan_id
            &&& a.name == plan.display_name@ && a.artifact_type == plan.artifact_type@ && a.path
                == plan.relative@
            &&& a.size_bytes == size && a.mime_type is None && a.content_hash is None
                && a.created_at == now
            &&& e.id == s.task_evidence.last_id + 1 && e.task_id == plan.task_id
                && e.evidence_type == "artifact"@
            &&& e.command == plan.display_name@ && e.output_summary == "artifact_id="@ + dec(
                s.artifacts.last_id + 1,
            ) && e.exit_code == 0 && e.created_at == now
        }),
{
    let n = after_upload(s, plan, size, now);
    assert(n.artifacts.rows.drop_last() =~= s.artifacts.rows);
    assert(n.task_evidence.rows.drop_last() =~= s.task_evidence.rows);
}

/// What is said where an upload is refused.
pub proof fn law_why_an_upload_is_refused()
    ensures
        UploadError::MissingFields.text() == "missing required fields: task_id, plan_id, file"@,
        UploadError::InvalidName.text() == "invalid filename after sanitization"@,
{
}

/// A file name keeps the letters and the digits of ASCII, the letters and numbers of Unicode beyond
/// it, dashes, underscores and dots, and nothing else.
pub proof fn law_characters_of_a_name(c: char)
    ensures
        (c as u32) >= 128 ==> (safe_char()(c) <==> letter_or_number(c)),
        (c as u32) < 128 ==> (safe_char()(c) <==> 'a' <= c <= 'z' || 'A' <= c <= 'Z' || '0' <= c
            <= '9' || c == '-' || c == '_' || c == '.'),
        is_separator(c) <==> c == '/' || c == '\\',
{
}

} // verus!
