//! Rows in the order of a text.

use crate::table::{views, Duplicate};
use crate::text::to_chars;
use vstd::prelude::*;
use vstd::seq_lib::{to_multiset_build, to_multiset_insert};

verus! {

/// Whether one text stands before another, character by character.
pub open spec fn precedes(a: Seq<char>, b: Seq<char>) -> bool
    decreases a.len(),
{
    if b.len() == 0 {
        false
    } else if a.len() == 0 {
        true
    } else if a[0] != b[0] {
        a[0] < b[0]
    } else {
        precedes(a.skip(1), b.skip(1))
    }
}

/// Texts are ordered: of two texts at most one stands before the other, and the order is
/// handed on.
pub proof fn lemma_precedes(a: Seq<char>, b: Seq<char>, c: Seq<char>)
    ensures
        !(precedes(a, b) && precedes(b, a)),
        !precedes(b, a) && !precedes(c, b) ==> !precedes(c, a),
    decreases a.len(),
{
    if a.len() > 0 && b.len() > 0 {
        if c.len() > 0 {
            lemma_precedes(a.skip(1), b.skip(1), c.skip(1));
        } else {
            lemma_precedes(a.skip(1), b.skip(1), Seq::empty());
        }
    }
}

/// Whether one text stands before another.
pub fn less(a: &str, b: &str) -> (r: bool)
    ensures
        r == precedes(a@, b@),
{
    let x = to_chars(a);
    let y = to_chars(b);
    let mut i: usize = 0;
    assert(a@.skip(0) =~= a@);
    assert(b@.skip(0) =~= b@);
    loop
        invariant
            x@ == a@,
            y@ == b@,
            i <= x@.len(),
            i <= y@.len(),
            precedes(a@, b@) == precedes(a@.skip(i as int), b@.skip(i as int)),
        decreases x@.len() - i,
    {
        if i == y.len() {
            return false;
        }
        if i == x.len() {
            return true;
        }
        assert(a@.skip(i as int)[0] == x@[i as int]);
        assert(b@.skip(i as int)[0] == y@[i as int]);
        if x[i] != y[i] {
            return x[i] < y[i];
        }
        assert(a@.skip(i as int).skip(1) =~= a@.skip(i + 1));
        assert(b@.skip(i as int).skip(1) =~= b@.skip(i + 1));
        i += 1;
    }
}

/// Whether a comparison orders its values: of two values at most one comes before the other,
/// and the order is handed on.
pub open spec fn orders<V>(lt: spec_fn(V, V) -> bool) -> bool {
    &&& forall|a: V, b: V| !(#[trigger] lt(a, b) && #[trigger] lt(b, a))
    &&& forall|a: V, b: V, c: V| !(#[trigger] lt(b, a)) && !(#[trigger] lt(c, b)) ==> !lt(c, a)
}

/// Whether a list holds given rows in order. Rows of which none comes before the other may
/// stand in any order.
pub open spec fn sorts<V>(out: Seq<V>, rows: Seq<V>, lt: spec_fn(V, V) -> bool) -> bool {
    out.to_multiset() == rows.to_multiset() && in_order(out, lt)
}

/// Whether rows stand in order.
pub open spec fn in_order<V>(rows: Seq<V>, lt: spec_fn(V, V) -> bool) -> bool {
    forall|i: int, j: int| 0 <= i < j < rows.len() ==> !lt(#[trigger] rows[j], #[trigger] rows[i])
}

/// The rows in order.
pub fn sort_rows<R: Duplicate, F: Fn(&R, &R) -> bool>(
    rows: &Vec<R>,
    f: F,
    Ghost(lt): Ghost<spec_fn(R::V, R::V) -> bool>,
) -> (out: Vec<R>)
    requires
        forall|a: &R, b: &R| f.requires((a, b)),
        forall|a: &R, b: &R, r: bool| f.ensures((a, b), r) ==> r == lt(a@, b@),
        orders(lt),
    ensures
        sorts(views(out@), views(rows@), lt),
        out@.len() == rows@.len(),
{
    let mut out: Vec<R> = Vec::new();
    let mut i: usize = 0;
    let ghost v = views(rows@);
    assert(views(out@) =~= v.take(0));
    while i < rows.len()
        invariant
            i <= rows.len(),
            v == views(rows@),
            orders(lt),
            forall|a: &R, b: &R| f.requires((a, b)),
            forall|a: &R, b: &R, r: bool| f.ensures((a, b), r) ==> r == lt(a@, b@),
            sorts(views(out@), v.take(i as int), lt),
            out@.len() == i,
        decreases rows.len() - i,
    {
        let row = rows[i].duplicate();
        let mut at: usize = out.len();
        let ghost o = views(out@);
        while at > 0
            invariant
                at <= out@.len(),
                o == views(out@),
                forall|a: &R, b: &R| f.requires((a, b)),
                forall|a: &R, b: &R, r: bool| f.ensures((a, b), r) ==> r == lt(a@, b@),
                forall|k: int| at <= k < o.len() ==> lt(row@, #[trigger] o[k]),
            ensures
                at > 0 ==> !lt(row@, o[at - 1]),
            decreases at,
        {
            assert(o[at - 1] == out@[at - 1]@);
            if !f(&row, &out[at - 1]) {
                break;
            }
            at -= 1;
        }
        proof {
            assert(row@ == v[i as int]);
            lemma_insert_sorted(o, at as int, row@, lt);
            assert(v.take(i + 1) =~= v.take(i as int).push(v[i as int]));
            to_multiset_build(v.take(i as int), v[i as int]);
            to_multiset_insert(o, at as int, row@);
        }
        out.insert(at, row);
        assert(views(out@) =~= o.insert(at as int, row@));
        i += 1;
    }
    assert(v.take(i as int) =~= v);
    out
}

/// A row put behind those before it and in front of those after it leaves the rows in order.
proof fn lemma_insert_sorted<V>(o: Seq<V>, at: int, row: V, lt: spec_fn(V, V) -> bool)
    requires
        0 <= at <= o.len(),
        orders(lt),
        in_order(o, lt),
        forall|k: int| at <= k < o.len() ==> lt(row, #[trigger] o[k]),
        at > 0 ==> !lt(row, o[at - 1]),
    ensures
        in_order(o.insert(at, row), lt),
{
    let n = o.insert(at, row);
    assert forall|i: int, j: int| 0 <= i < j < n.len() implies !lt(
        #[trigger] n[j],
        #[trigger] n[i],
    ) by {
        let a = if i < at { i } else { i - 1 };
        let b = if j < at { j } else { j - 1 };
        if i != at && j != at {
            assert(n[i] == o[a]);
            assert(n[j] == o[b]);
        } else if i == at {
            assert(n[j] == o[b]);
            assert(lt(row, o[b]));
        } else {
            assert(n[i] == o[a]);
            if a < at - 1 {
                assert(!lt(o[at - 1], o[a]));
            }
        }
    }
}

/// The order of rows by a text, the smallest first, or the largest first.
pub open spec fn by_text<V>(key: spec_fn(V) -> Seq<char>, down: bool) -> spec_fn(V, V) -> bool {
    |a: V, b: V|
        if down {
            precedes(key(b), key(a))
        } else {
            precedes(key(a), key(b))
        }
}

/// Texts order rows.
pub proof fn lemma_by_text<V>(key: spec_fn(V) -> Seq<char>, down: bool)
    ensures
        orders(by_text(key, down)),
{
    let lt = by_text(key, down);
    assert forall|a: V, b: V| !(#[trigger] lt(a, b) && #[trigger] lt(b, a)) by {
        lemma_precedes(key(a), key(b), key(a));
    }
    assert forall|a: V, b: V, c: V| !(#[trigger] lt(b, a)) && !(#[trigger] lt(c, b)) implies !lt(
        c,
        a,
    ) by {
        if down {
            lemma_precedes(key(c), key(b), key(a));
        } else {
            lemma_precedes(key(a), key(b), key(c));
        }
    }
}

/// Whether a list holds the first `limit` of given rows in order, or all of them where there are
/// fewer.
pub open spec fn sorts_first<V>(
    out: Seq<V>,
    rows: Seq<V>,
    lt: spec_fn(V, V) -> bool,
    limit: nat,
) -> bool {
    exists|all: Seq<V>| #[trigger]
        sorts(all, rows, lt) && out == if all.len() > limit {
            all.take(limit as int)
        } else {
            all
        }
}

/// The first rows of a list.
pub fn keep_first<R: View>(rows: &mut Vec<R>, limit: usize)
    ensures
        views(final(rows)@) == if old(rows)@.len() > limit {
            views(old(rows)@).take(limit as int)
        } else {
            views(old(rows)@)
        },
{
    if rows.len() > limit {
        rows.truncate(limit);
        assert(views(rows@) =~= views(old(rows)@).take(limit as int));
    }
}

/// One text stands before another exactly where, behind the characters that they begin with
/// alike, it ends first or goes on with the smaller character.
pub proof fn law_order_of_texts(a: Seq<char>, b: Seq<char>, n: int)
    requires
        0 <= n <= a.len(),
        n <= b.len(),
        a.take(n) == b.take(n),
        n < a.len() && n < b.len() ==> a[n] != b[n],
    ensures
        precedes(a, b) <==> n < b.len() && (n == a.len() || n < a.len() && a[n] < b[n]),
    decreases n,
{
    if n > 0 {
        assert(a.take(n)[0] == a[0] && b.take(n)[0] == b[0]);
        let x = a.skip(1);
        let y = b.skip(1);
        assert(x.take(n - 1) =~= y.take(n - 1)) by {
            assert forall|k: int| 0 <= k < n - 1 implies x[k] == y[k] by {
                assert(a.take(n)[k + 1] == a[k + 1]);
                assert(b.take(n)[k + 1] == b[k + 1]);
                assert(x[k] == a[k + 1]);
                assert(y[k] == b[k + 1]);
            }
        }
        law_order_of_texts(x, y, n - 1);
    }
}

/// A sorted list holds the rows that were sorted, as often as they were there, and by a text the
/// smallest comes first, or the largest where the order goes down.
pub proof fn law_sorted_rows<V>(
    out: Seq<V>,
    rows: Seq<V>,
    key: spec_fn(V) -> Seq<char>,
    down: bool,
    i: int,
    j: int,
)
    requires
        sorts(out, rows, by_text(key, down)),
        0 <= i < j < out.len(),
    ensures
        out.len() == rows.len(),
        rows.contains(out[i]),
        down ==> !precedes(key(out[i]), key(out[j])),
        !down ==> !precedes(key(out[j]), key(out[i])),
{
    broadcast use vstd::seq_lib::group_to_multiset_ensures;

    assert(out.to_multiset().len() == out.len());
    assert(rows.to_multiset().len() == rows.len());
    assert(out.contains(out[i]));
    assert(rows.to_multiset().count(out[i]) > 0);
    assert(!by_text(key, down)(out[j], out[i]));
}

/// The first rows in order are as many as the limit allows, each of them one of the rows, and they
/// stand in order.
pub proof fn law_first_rows<V>(
    out: Seq<V>,
    rows: Seq<V>,
    lt: spec_fn(V, V) -> bool,
    limit: nat,
    i: int,
    j: int,
)
    requires
        sorts_first(out, rows, lt, limit),
    ensures
        out.len() == if rows.len() > limit {
            limit
        } else {
            rows.len()
        },
        0 <= i < out.len() ==> rows.contains(out[i]),
        0 <= i < j < out.len() ==> !lt(out[j], out[i]),
{
    broadcast use vstd::seq_lib::group_to_multiset_ensures;

    let all = choose|all: Seq<V>| #[trigger]
        sorts(all, rows, lt) && out == if all.len() > limit {
            all.take(limit as int)
        } else {
            all
        };
    assert(all.to_multiset().len() == all.len());
    assert(rows.to_multiset().len() == rows.len());
    if 0 <= i < out.len() {
        assert(all.contains(all[i]));
        assert(rows.to_multiset().count(all[i]) > 0);
    }
    if 0 <= i < j < out.len() {
        assert(!lt(all[j], all[i]));
    }
}

} // verus!
