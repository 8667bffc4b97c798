//! Tables of rows: counting, finding, selecting, changing and removing rows.
//!
//! A table is a sequence of rows in the order of their ids. What a function does
//! to a table is stated over the rows' views, with `filter` and `map_values`.

use vstd::prelude::*;
use vstd::seq_lib::*;

verus! {

/// The rows by their views.
pub open spec fn views<R: View>(rows: Seq<R>) -> Seq<R::V> {
    rows.map_values(|r: R| r@)
}

/// Whether some row satisfies `p`.
pub open spec fn any<V>(rows: Seq<V>, p: spec_fn(V) -> bool) -> bool {
    exists|i: int| 0 <= i < rows.len() && p(#[trigger] rows[i])
}

/// The first row that satisfies `p`.
pub open spec fn first<V>(rows: Seq<V>, p: spec_fn(V) -> bool) -> Option<V>
    decreases rows.len(),
{
    if rows.len() == 0 {
        None
    } else if p(rows[0]) {
        Some(rows[0])
    } else {
        first(rows.skip(1), p)
    }
}

/// How many rows satisfy `p`.
pub open spec fn count<V>(rows: Seq<V>, p: spec_fn(V) -> bool) -> nat {
    rows.filter(p).len()
}

/// The rows, those that satisfy `p` changed by `g`.
pub open spec fn updated<V>(rows: Seq<V>, p: spec_fn(V) -> bool, g: spec_fn(V) -> V) -> Seq<V> {
    rows.map_values(|r: V| if p(r) { g(r) } else { r })
}

/// The rows without those that satisfy `p`.
pub open spec fn removed<V>(rows: Seq<V>, p: spec_fn(V) -> bool) -> Seq<V> {
    rows.filter(|r: V| !p(r))
}

/// A value that can be written down a second time.
pub trait Duplicate: View + Sized {
    /// The value again.
    fn duplicate(&self) -> (r: Self)
        ensures
            r@ == self@,
    ;
}

/// A row with a numeric primary key.
pub trait Row: Duplicate {
    /// The row's primary key.
    spec fn key(v: Self::V) -> i64;

    /// The row's primary key.
    fn id(&self) -> (r: i64)
        ensures
            r == Self::key(self@),
    ;
}

/// Rows with a numeric primary key, and the largest key ever given out.
pub struct Table<R> {
    pub rows: Vec<R>,
    pub last_id: i64,
}

/// What a table holds.
pub struct TableView<V> {
    pub rows: Seq<V>,
    pub last_id: i64,
}

impl<R: View> View for Table<R> {
    type V = TableView<R::V>;

    open spec fn view(&self) -> TableView<R::V> {
        TableView { rows: views(self.rows@), last_id: self.last_id }
    }
}

/// Rows in the strict order of their keys, none above the largest key given out.
pub open spec fn keyed<R: Row>(t: TableView<R::V>) -> bool {
    &&& 0 <= t.last_id
    &&& forall|i: int, j: int|
        0 <= i < j < t.rows.len() ==> R::key(#[trigger] t.rows[i]) < R::key(#[trigger] t.rows[j])
    &&& forall|i: int| 0 <= i < t.rows.len() ==> R::key(#[trigger] t.rows[i]) <= t.last_id
}

/// The table with one more row, under the next key.
pub open spec fn appended<V>(t: TableView<V>, row: V) -> TableView<V> {
    TableView { rows: t.rows.push(row), last_id: (t.last_id + 1) as i64 }
}

/// Whether no key is left to give out.
pub open spec fn full<V>(t: TableView<V>) -> bool {
    t.last_id == i64::MAX
}

impl<R: Row> Table<R> {
    /// An empty table.
    pub fn new() -> (t: Self)
        ensures
            t@ == (TableView { rows: Seq::<R::V>::empty(), last_id: 0i64 }),
            keyed::<R>(t@),
    {
        let t = Table { rows: Vec::new(), last_id: 0 };
        assert(t@.rows =~= Seq::<R::V>::empty());
        t
    }

    /// Puts a row behind the others. The caller gives it the next key.
    pub fn append(&mut self, row: R)
        requires
            !full(old(self)@),
        ensures
            final(self)@ == appended(old(self)@, row@),
            keyed::<R>(old(self)@) && R::key(row@) == old(self).last_id + 1 ==> keyed::<R>(
                final(self)@,
            ),
    {
        self.last_id = self.last_id + 1;
        self.rows.push(row);
        assert(self@.rows =~= old(self)@.rows.push(row@));
    }

    /// Puts a row with a key of its own where the order of keys wants it.
    /// A row whose key is taken is left out, and the answer is `false`.
    pub fn put(&mut self, row: R) -> (r: bool)
        requires
            keyed::<R>(old(self)@),
        ensures
            keyed::<R>(final(self)@),
            r == !any(old(self)@.rows, |v: R::V| R::key(v) == R::key(row@)),
            !r ==> final(self)@ == old(self)@,
            r ==> exists|at: int|
                {
                    &&& 0 <= at <= old(self)@.rows.len()
                    &&& final(self)@.rows == #[trigger] old(self)@.rows.insert(at, row@)
                },
            r ==> final(self).last_id == if R::key(row@) > old(self).last_id {
                R::key(row@)
            } else {
                old(self).last_id
            },
    {
        let key: i64 = row.id();
        let mut i: usize = 0;
        while i < self.rows.len() && self.rows[i].id() < key
            invariant
                i <= self.rows.len(),
                self@ == old(self)@,
                key == R::key(row@),
                forall|k: int| 0 <= k < i ==> R::key(#[trigger] self@.rows[k]) < key,
            decreases self.rows.len() - i,
        {
            assert(self@.rows[i as int] == self.rows@[i as int]@);
            i += 1;
        }
        if i < self.rows.len() && self.rows[i].id() == key {
            assert(R::key(self@.rows[i as int]) == key);
            return false;
        }
        assert(i < self.rows.len() ==> self@.rows[i as int] == self.rows@[i as int]@);
        assert forall|k: int| 0 <= k < self@.rows.len() implies R::key(#[trigger] self@.rows[k])
            != key by {
            if k > i {
                assert(R::key(self@.rows[i as int]) < R::key(self@.rows[k]));
            }
        }
        if key > self.last_id {
            self.last_id = key;
        }
        self.rows.insert(i, row);
        proof {
            assert(self@.rows =~= old(self)@.rows.insert(i as int, row@));
            assert forall|a: int, b: int| 0 <= a < b < self@.rows.len() implies R::key(
                #[trigger] self@.rows[a],
            ) < R::key(#[trigger] self@.rows[b]) by {
                let o = old(self)@.rows;
                let pa = if a < i { a } else { a - 1 };
                let pb = if b < i { b } else { b - 1 };
                if a != i && b != i {
                    assert(self@.rows[a] == o[pa]);
                    assert(self@.rows[b] == o[pb]);
                } else if a == i {
                    assert(self@.rows[b] == o[pb]);
                    if pb > i {
                        assert(R::key(o[i as int]) < R::key(o[pb]));
                    }
                } else {
                    assert(self@.rows[a] == o[pa]);
                }
            }
            assert forall|a: int| 0 <= a < self@.rows.len() implies R::key(
                #[trigger] self@.rows[a],
            ) <= self.last_id by {
                let o = old(self)@.rows;
                if a < i {
                    assert(self@.rows[a] == o[a]);
                } else if a > i {
                    assert(self@.rows[a] == o[a - 1]);
                }
            }
        }
        true
    }
}

// ---- what the rows of a table say ----

/// A prefix one row longer counts one more where that row satisfies `p`.
pub proof fn lemma_count_step<V>(rows: Seq<V>, p: spec_fn(V) -> bool, k: int)
    requires
        0 <= k < rows.len(),
    ensures
        rows.take(k + 1).filter(p) == if p(rows[k]) {
            rows.take(k).filter(p).push(rows[k])
        } else {
            rows.take(k).filter(p)
        },
{
    assert(rows.take(k + 1).drop_last() =~= rows.take(k));
    reveal(Seq::filter);
}

/// No row is counted where none satisfies `p`, and some is counted where one does.
pub proof fn lemma_count_any<V>(rows: Seq<V>, p: spec_fn(V) -> bool)
    ensures
        any(rows, p) <==> count(rows, p) > 0,
    decreases rows.len(),
{
    reveal(Seq::filter);
    if rows.len() > 0 {
        let short = rows.drop_last();
        lemma_count_any(short, p);
        if any(short, p) {
            let i = choose|i: int| 0 <= i < short.len() && p(#[trigger] short[i]);
            assert(p(rows[i]));
        }
        if p(rows.last()) {
            assert(p(rows[rows.len() - 1]));
        }
        if any(rows, p) {
            let i = choose|i: int| 0 <= i < rows.len() && p(#[trigger] rows[i]);
            if i < short.len() {
                assert(p(short[i]));
            }
        }
    }
}

/// There is a first row that satisfies `p` exactly where some row does.
pub proof fn lemma_first_any<V>(rows: Seq<V>, p: spec_fn(V) -> bool)
    ensures
        first(rows, p) is Some <==> any(rows, p),
        first(rows, p) matches Some(r) ==> p(r) && rows.contains(r),
    decreases rows.len(),
{
    if rows.len() > 0 {
        let rest = rows.skip(1);
        lemma_first_any(rest, p);
        if !p(rows[0]) {
            if any(rest, p) {
                let i = choose|i: int| 0 <= i < rest.len() && p(#[trigger] rest[i]);
                assert(p(rows[i + 1]));
            }
            if any(rows, p) {
                let i = choose|i: int| 0 <= i < rows.len() && p(#[trigger] rows[i]);
                assert(p(rest[i - 1]));
            }
            if first(rest, p) is Some {
                let j = choose|j: int| 0 <= j < rest.len() && rest[j] == first(rest, p)->0;
                assert(rows[j + 1] == first(rest, p)->0);
            }
        }
    }
}

/// The first row is the one at the first place that satisfies `p`.
pub proof fn lemma_first_at<V>(rows: Seq<V>, p: spec_fn(V) -> bool, k: int)
    requires
        0 <= k < rows.len(),
        p(rows[k]),
        forall|i: int| 0 <= i < k ==> !p(#[trigger] rows[i]),
    ensures
        first(rows, p) == Some(rows[k]),
    decreases rows.len(),
{
    if k > 0 {
        assert(!p(rows[0]));
        let rest = rows.skip(1);
        assert forall|i: int| 0 <= i < k - 1 implies !p(#[trigger] rest[i]) by {
            assert(rest[i] == rows[i + 1]);
        }
        lemma_first_at(rest, p, k - 1);
    }
}

/// Where a change touches the very rows that are looked for and leaves them to be found,
/// the first of them is the changed first one.
pub proof fn lemma_first_updated<V>(
    rows: Seq<V>,
    p: spec_fn(V) -> bool,
    g: spec_fn(V) -> V,
)
    requires
        forall|v: V| p(v) ==> p(#[trigger] g(v)),
    ensures
        first(updated(rows, p, g), p) == match first(rows, p) {
            Some(v) => Some(g(v)),
            None => None,
        },
    decreases rows.len(),
{
    let n = updated(rows, p, g);
    if rows.len() > 0 {
        lemma_first_updated(rows.skip(1), p, g);
        assert(n.skip(1) =~= updated(rows.skip(1), p, g));
        if p(rows[0]) {
            assert(n[0] == g(rows[0]));
        } else {
            assert(n[0] == rows[0]);
        }
    }
}

/// Where a change takes no row into or out of those that are looked for, the first of them is
/// the same one, changed if the change touches it.
pub proof fn lemma_first_changed<V>(
    rows: Seq<V>,
    p: spec_fn(V) -> bool,
    q: spec_fn(V) -> bool,
    g: spec_fn(V) -> V,
)
    requires
        forall|v: V| q(v) ==> (p(v) <==> p(#[trigger] g(v))),
    ensures
        first(updated(rows, q, g), p) == match first(rows, p) {
            Some(v) => Some(
                if q(v) {
                    g(v)
                } else {
                    v
                },
            ),
            None => None,
        },
    decreases rows.len(),
{
    let n = updated(rows, q, g);
    if rows.len() > 0 {
        lemma_first_changed(rows.skip(1), p, q, g);
        assert(n.skip(1) =~= updated(rows.skip(1), q, g));
        if q(rows[0]) {
            assert(n[0] == g(rows[0]));
        } else {
            assert(n[0] == rows[0]);
        }
    }
}

/// Changing rows without touching their keys keeps a table in order.
pub proof fn lemma_updated_keyed<R: Row>(
    t: TableView<R::V>,
    p: spec_fn(R::V) -> bool,
    g: spec_fn(R::V) -> R::V,
)
    requires
        keyed::<R>(t),
        forall|v: R::V| R::key(#[trigger] g(v)) == R::key(v),
    ensures
        keyed::<R>(TableView { rows: updated(t.rows, p, g), last_id: t.last_id }),
{
    let n = updated(t.rows, p, g);
    assert forall|i: int| 0 <= i < n.len() implies R::key(#[trigger] n[i]) == R::key(t.rows[i]) by {
        if p(t.rows[i]) {
            assert(n[i] == g(t.rows[i]));
        }
    }
}

/// Removing rows keeps a table in order.
pub proof fn lemma_filter_keyed<R: Row>(t: TableView<R::V>, p: spec_fn(R::V) -> bool)
    requires
        keyed::<R>(t),
    ensures
        keyed::<R>(TableView { rows: t.rows.filter(p), last_id: t.last_id }),
    decreases t.rows.len(),
{
    reveal(Seq::filter);
    if t.rows.len() > 0 {
        let short = TableView { rows: t.rows.drop_last(), last_id: t.last_id };
        assert forall|i: int, j: int| 0 <= i < j < short.rows.len() implies R::key(
            #[trigger] short.rows[i],
        ) < R::key(#[trigger] short.rows[j]) by {
            assert(short.rows[i] == t.rows[i]);
            assert(short.rows[j] == t.rows[j]);
        }
        lemma_filter_keyed::<R>(short, p);
        let f = short.rows.filter(p);
        let n = t.rows.filter(p);
        let last = t.rows.last();
        assert forall|i: int| 0 <= i < f.len() implies R::key(#[trigger] f[i]) < R::key(last) by {
            assert(f.contains(f[i]));
            short.rows.lemma_filter_contains_rev(p, f[i]);
            let j = choose|j: int| 0 <= j < short.rows.len() && short.rows[j] == f[i];
            assert(t.rows[j] == f[i]);
            assert(t.rows[t.rows.len() - 1] == last);
        }
        assert(n == if p(last) { f.push(last) } else { f });
        assert(t.rows[t.rows.len() - 1] == last);
        assert forall|i: int| 0 <= i < n.len() implies R::key(#[trigger] n[i]) <= t.last_id by {
            if i < f.len() {
                assert(n[i] == f[i]);
            }
        }
        assert forall|i: int, j: int| 0 <= i < j < n.len() implies R::key(#[trigger] n[i])
            < R::key(#[trigger] n[j]) by {
            let kept = TableView { rows: f, last_id: t.last_id };
            assert(n[i] == kept.rows[i]);
            if j < f.len() {
                assert(n[j] == kept.rows[j]);
                assert(R::key(kept.rows[i]) < R::key(kept.rows[j]));
            } else {
                assert(n[j] == last);
                assert(R::key(f[i]) < R::key(last));
            }
        }
    }
}

/// The largest key of some rows.
pub open spec fn largest<R: Row>(rows: Seq<R::V>) -> Option<i64>
    decreases rows.len(),
{
    if rows.len() == 0 {
        None
    } else {
        match largest::<R>(rows.drop_last()) {
            Some(k) if k >= R::key(rows.last()) => Some(k),
            _ => Some(R::key(rows.last())),
        }
    }
}

/// The smallest key of some rows.
pub open spec fn smallest<R: Row>(rows: Seq<R::V>) -> Option<i64>
    decreases rows.len(),
{
    if rows.len() == 0 {
        None
    } else {
        match smallest::<R>(rows.drop_last()) {
            Some(k) if k <= R::key(rows.last()) => Some(k),
            _ => Some(R::key(rows.last())),
        }
    }
}

/// The largest key is the key of some row, and no row has a larger one.
pub proof fn lemma_largest<R: Row>(rows: Seq<R::V>)
    ensures
        rows.len() > 0 <==> largest::<R>(rows) is Some,
        largest::<R>(rows) matches Some(k) ==> {
            &&& exists|i: int| 0 <= i < rows.len() && R::key(#[trigger] rows[i]) == k
            &&& forall|i: int| 0 <= i < rows.len() ==> R::key(#[trigger] rows[i]) <= k
        },
    decreases rows.len(),
{
    if rows.len() > 0 {
        let short = rows.drop_last();
        lemma_largest::<R>(short);
        assert(rows[rows.len() - 1] == rows.last());
        assert forall|i: int| 0 <= i < rows.len() implies R::key(#[trigger] rows[i])
            <= largest::<R>(rows)->0 by {
            if i < short.len() {
                assert(short[i] == rows[i]);
            }
        }
        if short.len() > 0 {
            let i = choose|i: int|
                0 <= i < short.len() && R::key(#[trigger] short[i]) == largest::<R>(short)->0;
            assert(rows[i] == short[i]);
        }
    }
}

/// The smallest key is the key of some row, and no row has a smaller one.
pub proof fn lemma_smallest<R: Row>(rows: Seq<R::V>)
    ensures
        rows.len() > 0 <==> smallest::<R>(rows) is Some,
        smallest::<R>(rows) matches Some(k) ==> {
            &&& exists|i: int| 0 <= i < rows.len() && R::key(#[trigger] rows[i]) == k
            &&& forall|i: int| 0 <= i < rows.len() ==> R::key(#[trigger] rows[i]) >= k
        },
    decreases rows.len(),
{
    if rows.len() > 0 {
        let short = rows.drop_last();
        lemma_smallest::<R>(short);
        assert(rows[rows.len() - 1] == rows.last());
        assert forall|i: int| 0 <= i < rows.len() implies R::key(#[trigger] rows[i])
            >= smallest::<R>(rows)->0 by {
            if i < short.len() {
                assert(short[i] == rows[i]);
            }
        }
        if short.len() > 0 {
            let i = choose|i: int|
                0 <= i < short.len() && R::key(#[trigger] short[i]) == smallest::<R>(short)->0;
            assert(rows[i] == short[i]);
        }
    }
}

/// A row is among those that satisfy `p` exactly where it is a row that satisfies `p`.
pub proof fn lemma_kept<V>(rows: Seq<V>, p: spec_fn(V) -> bool)
    ensures
        forall|i: int|
            0 <= i < rows.len() && p(#[trigger] rows[i]) ==> rows.filter(p).contains(rows[i]),
        forall|k: int|
            #![trigger rows.filter(p)[k]]
            0 <= k < rows.filter(p).len() ==> p(rows.filter(p)[k]) && rows.contains(
                rows.filter(p)[k],
            ),
{
    let f = rows.filter(p);
    assert forall|i: int| 0 <= i < rows.len() && p(#[trigger] rows[i]) implies f.contains(
        rows[i],
    ) by {
        rows.lemma_filter_contains(p, i);
    }
    assert forall|k: int| #![trigger f[k]] 0 <= k < f.len() implies p(f[k]) && rows.contains(
        f[k],
    ) by {
        rows.lemma_filter_pred(p, k);
        assert(f.contains(f[k]));
        rows.lemma_filter_contains_rev(p, f[k]);
    }
}

/// A row is among those that are kept exactly where it satisfies `p`.
pub proof fn lemma_kept_at<V>(rows: Seq<V>, p: spec_fn(V) -> bool, i: int)
    requires
        0 <= i < rows.len(),
    ensures
        rows.filter(p).contains(rows[i]) <==> p(rows[i]),
{
    lemma_kept(rows, p);
    let f = rows.filter(p);
    if f.contains(rows[i]) {
        let k = choose|k: int| 0 <= k < f.len() && f[k] == rows[i];
        assert(p(f[k]));
    }
}

/// The keys of the rows that satisfy `p` are exactly the keys that such a row has.
pub proof fn lemma_kept_keys<R: Row>(rows: Seq<R::V>, p: spec_fn(R::V) -> bool, id: i64)
    ensures
        keys::<R>(rows.filter(p)).contains(id) <==> exists|i: int|
            0 <= i < rows.len() && p(#[trigger] rows[i]) && R::key(rows[i]) == id,
{
    let f = rows.filter(p);
    let ids = keys::<R>(f);
    lemma_kept(rows, p);
    if ids.contains(id) {
        let k = choose|k: int| 0 <= k < ids.len() && ids[k] == id;
        assert(p(f[k]) && rows.contains(f[k]));
        let i = choose|i: int| 0 <= i < rows.len() && rows[i] == f[k];
        assert(p(rows[i]) && R::key(rows[i]) == id);
    }
    if exists|i: int| 0 <= i < rows.len() && p(#[trigger] rows[i]) && R::key(rows[i]) == id {
        let i = choose|i: int| 0 <= i < rows.len() && p(#[trigger] rows[i]) && R::key(rows[i]) == id;
        let k = choose|k: int| 0 <= k < f.len() && f[k] == rows[i];
        assert(ids[k] == id);
    }
}

/// The smallest key of the rows that satisfy `p` is that of one of them, and none has a smaller
/// one.
pub proof fn lemma_smallest_of<R: Row>(rows: Seq<R::V>, p: spec_fn(R::V) -> bool)
    ensures
        match smallest::<R>(rows.filter(p)) {
            Some(k) => {
                &&& exists|i: int| 0 <= i < rows.len() && p(#[trigger] rows[i]) && R::key(rows[i]) == k
                &&& forall|i: int| 0 <= i < rows.len() && p(#[trigger] rows[i]) ==> R::key(rows[i]) >= k
            },
            None => forall|i: int| 0 <= i < rows.len() ==> !p(#[trigger] rows[i]),
        },
{
    let f = rows.filter(p);
    lemma_kept(rows, p);
    lemma_smallest::<R>(f);
    assert forall|i: int| 0 <= i < rows.len() && p(#[trigger] rows[i]) implies smallest::<R>(f)
        is Some && R::key(rows[i]) >= smallest::<R>(f)->0 by {
        assert(f.contains(rows[i]));
        let k = choose|k: int| 0 <= k < f.len() && f[k] == rows[i];
        assert(R::key(f[k]) >= smallest::<R>(f)->0);
    }
    if let Some(k) = smallest::<R>(f) {
        let x = choose|x: int| 0 <= x < f.len() && R::key(#[trigger] f[x]) == k;
        assert(p(f[x]) && rows.contains(f[x]));
        let i = choose|i: int| 0 <= i < rows.len() && rows[i] == f[x];
        assert(p(rows[i]) && R::key(rows[i]) == k);
    }
}

/// The largest key of the rows that satisfy `p` is that of one of them, and none has a larger
/// one.
pub proof fn law_largest_key<R: Row>(rows: Seq<R::V>, p: spec_fn(R::V) -> bool)
    ensures
        match largest::<R>(rows.filter(p)) {
            Some(k) => {
                &&& exists|i: int| 0 <= i < rows.len() && p(#[trigger] rows[i]) && R::key(rows[i]) == k
                &&& forall|i: int| 0 <= i < rows.len() && p(#[trigger] rows[i]) ==> R::key(rows[i]) <= k
            },
            None => forall|i: int| 0 <= i < rows.len() ==> !p(#[trigger] rows[i]),
        },
{
    let f = rows.filter(p);
    lemma_kept(rows, p);
    lemma_largest::<R>(f);
    assert forall|i: int| 0 <= i < rows.len() && p(#[trigger] rows[i]) implies largest::<R>(f)
        is Some && R::key(rows[i]) <= largest::<R>(f)->0 by {
        assert(f.contains(rows[i]));
        let k = choose|k: int| 0 <= k < f.len() && f[k] == rows[i];
        assert(R::key(f[k]) <= largest::<R>(f)->0);
    }
    if let Some(k) = largest::<R>(f) {
        let x = choose|x: int| 0 <= x < f.len() && R::key(#[trigger] f[x]) == k;
        assert(p(f[x]) && rows.contains(f[x]));
        let i = choose|i: int| 0 <= i < rows.len() && rows[i] == f[x];
        assert(p(rows[i]) && R::key(rows[i]) == k);
    }
}

/// In a table in the order of its keys a row is the first one with its key.
pub proof fn lemma_first_keyed<R: Row>(t: TableView<R::V>, p: spec_fn(R::V) -> bool, i: int)
    requires
        keyed::<R>(t),
        0 <= i < t.rows.len(),
        p(t.rows[i]),
        forall|v: R::V| #[trigger] p(v) ==> R::key(v) == R::key(t.rows[i]),
    ensures
        first(t.rows, p) == Some(t.rows[i]),
{
    assert forall|j: int| 0 <= j < i implies !p(#[trigger] t.rows[j]) by {
        assert(R::key(t.rows[j]) < R::key(t.rows[i]));
    }
    lemma_first_at(t.rows, p, i);
}

/// The first row that satisfies `p` stands before every other that does.
pub proof fn lemma_first_place<V>(rows: Seq<V>, p: spec_fn(V) -> bool)
    ensures
        match first(rows, p) {
            Some(r) => exists|i: int|
                0 <= i < rows.len() && #[trigger] rows[i] == r && p(r) && forall|j: int|
                    0 <= j < i ==> !p(#[trigger] rows[j]),
            None => forall|i: int| 0 <= i < rows.len() ==> !p(#[trigger] rows[i]),
        },
    decreases rows.len(),
{
    if rows.len() > 0 {
        let rest = rows.skip(1);
        lemma_first_place(rest, p);
        if p(rows[0]) {
            assert(rows[0] == first(rows, p)->0);
        } else {
            match first(rest, p) {
                Some(r) => {
                    let i = choose|i: int|
                        0 <= i < rest.len() && #[trigger] rest[i] == r && p(r) && forall|j: int|
                            0 <= j < i ==> !p(#[trigger] rest[j]);
                    assert(rows[i + 1] == r);
                    assert forall|j: int| 0 <= j < i + 1 implies !p(#[trigger] rows[j]) by {
                        if j > 0 {
                            assert(rest[j - 1] == rows[j]);
                        }
                    }
                },
                None => {
                    assert forall|i: int| 0 <= i < rows.len() implies !p(#[trigger] rows[i]) by {
                        if i > 0 {
                            assert(rest[i - 1] == rows[i]);
                        }
                    }
                },
            }
        }
    }
}

// ---- walking the rows ----

/// The largest key of the rows that satisfy the test.
pub fn largest_where<R: Row, F: Fn(&R) -> bool>(
    rows: &Vec<R>,
    f: F,
    Ghost(p): Ghost<spec_fn(R::V) -> bool>,
) -> (r: Option<i64>)
    requires
        forall|r: &R| f.requires((r,)),
        forall|r: &R, b: bool| f.ensures((r,), b) ==> b == p(r@),
    ensures
        r == largest::<R>(views(rows@).filter(p)),
{
    let mut best: Option<i64> = None;
    let mut i: usize = 0;
    let ghost v = views(rows@);
    assert(largest::<R>(v.take(0).filter(p)) is None) by {
        reveal(Seq::filter);
    }
    while i < rows.len()
        invariant
            i <= rows.len(),
            v == views(rows@),
            forall|r: &R| f.requires((r,)),
            forall|r: &R, b: bool| f.ensures((r,), b) ==> b == p(r@),
            best == largest::<R>(v.take(i as int).filter(p)),
        decreases rows.len() - i,
    {
        proof {
            lemma_count_step(v, p, i as int);
        }
        if f(&rows[i]) {
            let ghost before = v.take(i as int).filter(p);
            let key: i64 = rows[i].id();
            best = match best {
                Some(k) if k >= key => Some(k),
                _ => Some(key),
            };
            assert(before.push(v[i as int]).drop_last() =~= before);
        }
        i += 1;
    }
    assert(v.take(i as int) =~= v);
    best
}

/// The smallest key of the rows that satisfy the test.
pub fn smallest_where<R: Row, F: Fn(&R) -> bool>(
    rows: &Vec<R>,
    f: F,
    Ghost(p): Ghost<spec_fn(R::V) -> bool>,
) -> (r: Option<i64>)
    requires
        forall|r: &R| f.requires((r,)),
        forall|r: &R, b: bool| f.ensures((r,), b) ==> b == p(r@),
    ensures
        r == smallest::<R>(views(rows@).filter(p)),
{
    let mut best: Option<i64> = None;
    let mut i: usize = 0;
    let ghost v = views(rows@);
    assert(smallest::<R>(v.take(0).filter(p)) is None) by {
        reveal(Seq::filter);
    }
    while i < rows.len()
        invariant
            i <= rows.len(),
            v == views(rows@),
            forall|r: &R| f.requires((r,)),
            forall|r: &R, b: bool| f.ensures((r,), b) ==> b == p(r@),
            best == smallest::<R>(v.take(i as int).filter(p)),
        decreases rows.len() - i,
    {
        proof {
            lemma_count_step(v, p, i as int);
        }
        if f(&rows[i]) {
            let ghost before = v.take(i as int).filter(p);
            let key: i64 = rows[i].id();
            best = match best {
                Some(k) if k <= key => Some(k),
                _ => Some(key),
            };
            assert(before.push(v[i as int]).drop_last() =~= before);
        }
        i += 1;
    }
    assert(v.take(i as int) =~= v);
    best
}

/// How many rows satisfy the test.
pub fn count_where<R: View, F: Fn(&R) -> bool>(
    rows: &Vec<R>,
    f: F,
    Ghost(p): Ghost<spec_fn(R::V) -> bool>,
) -> (n: usize)
    requires
        forall|r: &R| f.requires((r,)),
        forall|r: &R, b: bool| f.ensures((r,), b) ==> b == p(r@),
    ensures
        n == count(views(rows@), p),
{
    let mut n: usize = 0;
    let mut i: usize = 0;
    let ghost v = views(rows@);
    assert(v.take(0).filter(p).len() == 0) by {
        reveal(Seq::filter);
    }
    while i < rows.len()
        invariant
            i <= rows.len(),
            n <= i,
            v == views(rows@),
            forall|r: &R| f.requires((r,)),
            forall|r: &R, b: bool| f.ensures((r,), b) ==> b == p(r@),
            n == v.take(i as int).filter(p).len(),
        decreases rows.len() - i,
    {
        proof {
            lemma_count_step(v, p, i as int);
        }
        if f(&rows[i]) {
            n += 1;
        }
        i += 1;
    }
    assert(v.take(i as int) =~= v);
    n
}

/// The place of the first row that satisfies the test.
pub fn find_where<R: View, F: Fn(&R) -> bool>(
    rows: &Vec<R>,
    f: F,
    Ghost(p): Ghost<spec_fn(R::V) -> bool>,
) -> (r: Option<usize>)
    requires
        forall|r: &R| f.requires((r,)),
        forall|r: &R, b: bool| f.ensures((r,), b) ==> b == p(r@),
    ensures
        r matches Some(k) ==> k < rows@.len() && p(rows@[k as int]@) && first(views(rows@), p)
            == Some(rows@[k as int]@),
        r is None ==> first(views(rows@), p) is None && !any(views(rows@), p),
        r is Some <==> any(views(rows@), p),
{
    let mut i: usize = 0;
    let ghost v = views(rows@);
    while i < rows.len()
        invariant
            i <= rows.len(),
            v == views(rows@),
            forall|r: &R| f.requires((r,)),
            forall|r: &R, b: bool| f.ensures((r,), b) ==> b == p(r@),
            forall|k: int| 0 <= k < i ==> !p(#[trigger] v[k]),
        decreases rows.len() - i,
    {
        if f(&rows[i]) {
            proof {
                assert(p(v[i as int]));
                lemma_first_at(v, p, i as int);
            }
            return Some(i);
        }
        i += 1;
    }
    proof {
        lemma_first_any(v, p);
    }
    None
}

/// Whether some row satisfies the test.
pub fn any_where<R: View, F: Fn(&R) -> bool>(
    rows: &Vec<R>,
    f: F,
    Ghost(p): Ghost<spec_fn(R::V) -> bool>,
) -> (r: bool)
    requires
        forall|r: &R| f.requires((r,)),
        forall|r: &R, b: bool| f.ensures((r,), b) ==> b == p(r@),
    ensures
        r == any(views(rows@), p),
{
    find_where(rows, f, Ghost(p)).is_some()
}

/// Copies of the rows that satisfy the test, in order.
pub fn select_where<R: Duplicate, F: Fn(&R) -> bool>(
    rows: &Vec<R>,
    f: F,
    Ghost(p): Ghost<spec_fn(R::V) -> bool>,
) -> (out: Vec<R>)
    requires
        forall|r: &R| f.requires((r,)),
        forall|r: &R, b: bool| f.ensures((r,), b) ==> b == p(r@),
    ensures
        views(out@) == views(rows@).filter(p),
{
    let mut out: Vec<R> = Vec::new();
    let mut i: usize = 0;
    let ghost v = views(rows@);
    assert(v.take(0).filter(p) =~= views(out@)) by {
        reveal(Seq::filter);
    }
    while i < rows.len()
        invariant
            i <= rows.len(),
            v == views(rows@),
            forall|r: &R| f.requires((r,)),
            forall|r: &R, b: bool| f.ensures((r,), b) ==> b == p(r@),
            views(out@) == v.take(i as int).filter(p),
        decreases rows.len() - i,
    {
        proof {
            lemma_count_step(v, p, i as int);
        }
        if f(&rows[i]) {
            let ghost before = views(out@);
            let row = rows[i].duplicate();
            out.push(row);
            assert(views(out@) =~= before.push(v[i as int]));
        }
        i += 1;
    }
    assert(v.take(i as int) =~= v);
    out
}

/// The keys of the rows that satisfy the test, in order.
pub fn ids_where<R: Row, F: Fn(&R) -> bool>(
    rows: &Vec<R>,
    f: F,
    Ghost(p): Ghost<spec_fn(R::V) -> bool>,
) -> (out: Vec<i64>)
    requires
        forall|r: &R| f.requires((r,)),
        forall|r: &R, b: bool| f.ensures((r,), b) ==> b == p(r@),
    ensures
        out@ == keys::<R>(views(rows@).filter(p)),
{
    let mut out: Vec<i64> = Vec::new();
    let mut i: usize = 0;
    let ghost v = views(rows@);
    assert(keys::<R>(v.take(0).filter(p)) =~= out@) by {
        reveal(Seq::filter);
    }
    while i < rows.len()
        invariant
            i <= rows.len(),
            v == views(rows@),
            forall|r: &R| f.requires((r,)),
            forall|r: &R, b: bool| f.ensures((r,), b) ==> b == p(r@),
            out@ == keys::<R>(v.take(i as int).filter(p)),
        decreases rows.len() - i,
    {
        proof {
            lemma_count_step(v, p, i as int);
        }
        if f(&rows[i]) {
            let ghost before = v.take(i as int).filter(p);
            out.push(rows[i].id());
            assert(keys::<R>(before.push(v[i as int])) =~= keys::<R>(before).push(
                R::key(v[i as int]),
            ));
        }
        i += 1;
    }
    assert(v.take(i as int) =~= v);
    out
}

/// The keys of the rows.
pub open spec fn keys<R: Row>(rows: Seq<R::V>) -> Seq<i64> {
    rows.map_values(|v: R::V| R::key(v))
}

/// Changes the rows that satisfy the test, and says how many they were.
pub fn update_where<R: View, F: Fn(&R) -> bool, G: Fn(&R) -> R>(
    rows: &mut Vec<R>,
    f: F,
    g: G,
    Ghost(p): Ghost<spec_fn(R::V) -> bool>,
    Ghost(q): Ghost<spec_fn(R::V) -> R::V>,
) -> (n: usize)
    requires
        forall|r: &R| f.requires((r,)),
        forall|r: &R, b: bool| f.ensures((r,), b) ==> b == p(r@),
        forall|r: &R| g.requires((r,)),
        forall|r: &R, s: R| g.ensures((r,), s) ==> s@ == q(r@),
    ensures
        views(final(rows)@) == updated(views(old(rows)@), p, q),
        n == count(views(old(rows)@), p),
{
    let mut n: usize = 0;
    let mut i: usize = 0;
    let ghost v = views(rows@);
    assert(v.take(0).filter(p).len() == 0) by {
        reveal(Seq::filter);
    }
    while i < rows.len()
        invariant
            i <= rows.len(),
            n <= i,
            v == views(old(rows)@),
            rows@.len() == v.len(),
            forall|r: &R| f.requires((r,)),
            forall|r: &R, b: bool| f.ensures((r,), b) ==> b == p(r@),
            forall|r: &R| g.requires((r,)),
            forall|r: &R, s: R| g.ensures((r,), s) ==> s@ == q(r@),
            n == v.take(i as int).filter(p).len(),
            forall|k: int| 0 <= k < i ==> (#[trigger] rows@[k])@ == updated(v, p, q)[k],
            forall|k: int| i <= k < rows@.len() ==> (#[trigger] rows@[k])@ == v[k],
        decreases rows.len() - i,
    {
        proof {
            lemma_count_step(v, p, i as int);
        }
        if f(&rows[i]) {
            let row = g(&rows[i]);
            rows[i] = row;
            n += 1;
        }
        i += 1;
    }
    assert(v.take(i as int) =~= v);
    assert(views(rows@) =~= updated(v, p, q));
    n
}

/// Removes the rows that satisfy the test, and says how many they were.
pub fn remove_where<R: Duplicate, F: Fn(&R) -> bool>(
    rows: &mut Vec<R>,
    f: F,
    Ghost(p): Ghost<spec_fn(R::V) -> bool>,
) -> (n: usize)
    requires
        forall|r: &R| f.requires((r,)),
        forall|r: &R, b: bool| f.ensures((r,), b) ==> b == p(r@),
    ensures
        views(final(rows)@) == removed(views(old(rows)@), p),
        n == count(views(old(rows)@), p),
{
    let mut kept: Vec<R> = Vec::new();
    let mut n: usize = 0;
    let mut i: usize = 0;
    let ghost v = views(rows@);
    let ghost np = |r: R::V| !p(r);
    assert(v.take(0).filter(p).len() == 0 && v.take(0).filter(np) =~= views(kept@)) by {
        reveal(Seq::filter);
    }
    while i < rows.len()
        invariant
            i <= rows.len(),
            n <= i,
            v == views(rows@),
            rows@ == old(rows)@,
            np == (|r: R::V| !p(r)),
            forall|r: &R| f.requires((r,)),
            forall|r: &R, b: bool| f.ensures((r,), b) ==> b == p(r@),
            n == v.take(i as int).filter(p).len(),
            views(kept@) == v.take(i as int).filter(np),
        decreases rows.len() - i,
    {
        proof {
            lemma_count_step(v, p, i as int);
            lemma_count_step(v, np, i as int);
        }
        if f(&rows[i]) {
            n += 1;
        } else {
            let ghost before = views(kept@);
            let row = rows[i].duplicate();
            kept.push(row);
            assert(views(kept@) =~= before.push(v[i as int]));
        }
        i += 1;
    }
    assert(v.take(i as int) =~= v);
    *rows = kept;
    n
}

/// The sum of some numbers, where it and every partial sum fits in 64 bits.
pub open spec fn checked_sum(numbers: Seq<i64>) -> Option<i64>
    decreases numbers.len(),
{
    if numbers.len() == 0 {
        Some(0)
    } else {
        match checked_sum(numbers.drop_last()) {
            Some(n) => if i64::MIN <= n + numbers.last() <= i64::MAX {
                Some((n + numbers.last()) as i64)
            } else {
                None
            },
            None => None,
        }
    }
}

/// A sum that does not fit stays unknown.
proof fn lemma_sum_unknown(numbers: Seq<i64>, k: int)
    requires
        0 <= k <= numbers.len(),
        checked_sum(numbers.take(k)) is None,
    ensures
        checked_sum(numbers) is None,
    decreases numbers.len(),
{
    if k == numbers.len() {
        assert(numbers.take(k) =~= numbers);
    } else {
        assert(numbers.drop_last().take(k) =~= numbers.take(k));
        lemma_sum_unknown(numbers.drop_last(), k);
    }
}

/// The sum of some numbers, where it and every partial sum fits in 64 bits.
pub fn sum_numbers(numbers: &Vec<i64>) -> (r: Option<i64>)
    ensures
        r == checked_sum(numbers@),
{
    let mut sum: i64 = 0;
    let mut i: usize = 0;
    assert(numbers@.take(0) =~= Seq::<i64>::empty());
    while i < numbers.len()
        invariant
            i <= numbers@.len(),
            checked_sum(numbers@.take(i as int)) == Some(sum),
        decreases numbers@.len() - i,
    {
        assert(numbers@.take(i + 1).drop_last() =~= numbers@.take(i as int));
        match sum.checked_add(numbers[i]) {
            Some(n) => {
                sum = n;
            },
            None => {
                proof {
                    lemma_sum_unknown(numbers@, i + 1);
                }
                return None;
            },
        }
        i += 1;
    }
    assert(numbers@.take(i as int) =~= numbers@);
    Some(sum)
}

/// A number of each of the rows that satisfy the test, in order.
pub fn numbers_where<R: View, F: Fn(&R) -> bool, G: Fn(&R) -> i64>(
    rows: &Vec<R>,
    f: F,
    g: G,
    Ghost(p): Ghost<spec_fn(R::V) -> bool>,
    Ghost(q): Ghost<spec_fn(R::V) -> i64>,
) -> (out: Vec<i64>)
    requires
        forall|r: &R| f.requires((r,)),
        forall|r: &R, b: bool| f.ensures((r,), b) ==> b == p(r@),
        forall|r: &R| g.requires((r,)),
        forall|r: &R, n: i64| g.ensures((r,), n) ==> n == q(r@),
    ensures
        out@ == views(rows@).filter(p).map_values(q),
{
    let mut out: Vec<i64> = Vec::new();
    let mut i: usize = 0;
    let ghost v = views(rows@);
    assert(v.take(0).filter(p).map_values(q) =~= out@) by {
        reveal(Seq::filter);
    }
    while i < rows.len()
        invariant
            i <= rows.len(),
            v == views(rows@),
            forall|r: &R| f.requires((r,)),
            forall|r: &R, b: bool| f.ensures((r,), b) ==> b == p(r@),
            forall|r: &R| g.requires((r,)),
            forall|r: &R, n: i64| g.ensures((r,), n) ==> n == q(r@),
            out@ == v.take(i as int).filter(p).map_values(q),
        decreases rows.len() - i,
    {
        proof {
            lemma_count_step(v, p, i as int);
        }
        if f(&rows[i]) {
            let ghost before = v.take(i as int).filter(p);
            let n: i64 = g(&rows[i]);
            out.push(n);
            assert(before.push(v[i as int]).map_values(q) =~= before.map_values(q).push(
                q(v[i as int]),
            ));
        }
        i += 1;
    }
    assert(v.take(i as int) =~= v);
    out
}

} // verus!
