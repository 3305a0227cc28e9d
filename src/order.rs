//! Orderings and selections of record sequences by timestamp, and the facts
//! about them that the stores rely on.
use vstd::prelude::*;
use crate::record::{Timestamped, TS};

verus! {

/// The records of `s` are in non-decreasing timestamp order.
pub open spec fn sorted_by_ts<R: Timestamped>(s: Seq<R::V>) -> bool {
    forall|i: int, j: int|
        0 <= i <= j < s.len() ==> R::timestamp_of(#[trigger] s[i]) <= R::timestamp_of(#[trigger] s[j])
}

/// Holds of a record that carries timestamp `t`.
pub open spec fn ts_is<R: Timestamped>(t: TS) -> spec_fn(R::V) -> bool {
    |v: R::V| R::timestamp_of(v) == t
}

/// Holds of a record with a timestamp of at least `first_ts`.
pub open spec fn ts_at_least<R: Timestamped>(first_ts: TS) -> spec_fn(R::V) -> bool {
    |v: R::V| R::timestamp_of(v) >= first_ts
}

/// Holds of a record with a timestamp in `[first_ts, last_ts]`.
pub open spec fn ts_between<R: Timestamped>(first_ts: TS, last_ts: TS) -> spec_fn(R::V) -> bool {
    |v: R::V| first_ts <= R::timestamp_of(v) && R::timestamp_of(v) <= last_ts
}

/// The records of `s` that carry timestamp `t`, in their order in `s`.
pub open spec fn with_ts<R: Timestamped>(s: Seq<R::V>, t: TS) -> Seq<R::V> {
    s.filter(ts_is::<R>(t))
}

/// `t` is `s` stably sorted by timestamp: in timestamp order, and the records
/// of each timestamp in the order they had in `s`.
pub open spec fn is_stable_sort_of<R: Timestamped>(t: Seq<R::V>, s: Seq<R::V>) -> bool {
    &&& sorted_by_ts::<R>(t)
    &&& forall|k: TS| #[trigger] with_ts::<R>(t, k) == with_ts::<R>(s, k)
}

/// The records of `s` with a timestamp of at least `first_ts`, in their order in `s`.
pub open spec fn at_or_after<R: Timestamped>(s: Seq<R::V>, first_ts: TS) -> Seq<R::V> {
    s.filter(ts_at_least::<R>(first_ts))
}

/// The records of `s` with a timestamp in `[first_ts, last_ts]`, in their order in `s`.
pub open spec fn within<R: Timestamped>(s: Seq<R::V>, first_ts: TS, last_ts: TS) -> Seq<R::V> {
    s.filter(ts_between::<R>(first_ts, last_ts))
}

/// `i` is the first position of sorted `s` whose timestamp is at least `t`.
pub open spec fn is_lower_bound<R: Timestamped>(s: Seq<R::V>, t: TS, i: int) -> bool {
    &&& 0 <= i <= s.len()
    &&& forall|j: int| 0 <= j < i ==> R::timestamp_of(#[trigger] s[j]) < t
    &&& forall|j: int| i <= j < s.len() ==> R::timestamp_of(#[trigger] s[j]) >= t
}

pub proof fn lemma_filter_none<A>(s: Seq<A>, pred: spec_fn(A) -> bool)
    requires
        forall|i: int| 0 <= i < s.len() ==> !pred(#[trigger] s[i]),
    ensures
        s.filter(pred) == Seq::<A>::empty(),
    decreases s.len(),
{
    reveal(Seq::filter);
    if s.len() > 0 {
        lemma_filter_none(s.drop_last(), pred);
    }
    assert(s.filter(pred) =~= Seq::<A>::empty());
}

pub proof fn lemma_filter_all<A>(s: Seq<A>, pred: spec_fn(A) -> bool)
    requires
        forall|i: int| 0 <= i < s.len() ==> pred(#[trigger] s[i]),
    ensures
        s.filter(pred) == s,
    decreases s.len(),
{
    reveal(Seq::filter);
    if s.len() > 0 {
        lemma_filter_all(s.drop_last(), pred);
        assert(s.drop_last().push(s.last()) =~= s);
    } else {
        assert(s =~= Seq::<A>::empty());
    }
}

/// Filtering a sequence with one more record at its end.
pub proof fn lemma_filter_last<A>(s: Seq<A>, pred: spec_fn(A) -> bool)
    requires
        s.len() > 0,
    ensures
        s.filter(pred) == (if pred(s.last()) {
            s.drop_last().filter(pred).push(s.last())
        } else {
            s.drop_last().filter(pred)
        }),
{
    reveal(Seq::filter);
}

proof fn lemma_push_injective<A>(a: Seq<A>, b: Seq<A>, x: A, y: A)
    requires
        a.push(x) == b.push(y),
    ensures
        a == b,
        x == y,
{
    assert(a.push(x).drop_last() =~= a);
    assert(b.push(y).drop_last() =~= b);
    assert(a.push(x).last() == x);
}

/// In a sorted sequence, the last record carries the greatest timestamp.
proof fn lemma_last_is_latest<R: Timestamped>(s: Seq<R::V>, t: TS)
    requires
        sorted_by_ts::<R>(s),
        s.len() > 0,
        R::timestamp_of(s.last()) < t,
    ensures
        with_ts::<R>(s, t) == Seq::<R::V>::empty(),
{
    let pred = ts_is::<R>(t);
    assert forall|i: int| 0 <= i < s.len() implies !pred(#[trigger] s[i]) by {
        assert(R::timestamp_of(s[i]) <= R::timestamp_of(s[s.len() - 1]));
    }
    lemma_filter_none(s, pred);
}

/// Two sorted sequences that hold the same records of each timestamp, in the
/// same order, are equal: a stable sort has exactly one result.
pub proof fn lemma_stable_sort_unique<R: Timestamped>(a: Seq<R::V>, b: Seq<R::V>)
    requires
        sorted_by_ts::<R>(a),
        sorted_by_ts::<R>(b),
        forall|k: TS| #[trigger] with_ts::<R>(a, k) == with_ts::<R>(b, k),
    ensures
        a == b,
    decreases a.len() + b.len(),
{
    if a.len() == 0 || b.len() == 0 {
        if a.len() > 0 {
            let k = R::timestamp_of(a.last());
            lemma_filter_last(a, ts_is::<R>(k));
            lemma_filter_none(b, ts_is::<R>(k));
            assert(with_ts::<R>(a, k).len() > 0);
            assert(with_ts::<R>(b, k).len() == 0);
        } else if b.len() > 0 {
            let k = R::timestamp_of(b.last());
            lemma_filter_last(b, ts_is::<R>(k));
            lemma_filter_none(a, ts_is::<R>(k));
            assert(with_ts::<R>(b, k).len() > 0);
            assert(with_ts::<R>(a, k).len() == 0);
        }
        assert(a =~= b);
    } else {
        let x = a.last();
        let y = b.last();
        let tx = R::timestamp_of(x);
        let ty = R::timestamp_of(y);
        lemma_filter_last(a, ts_is::<R>(tx));
        lemma_filter_last(b, ts_is::<R>(ty));
        if tx < ty {
            lemma_last_is_latest::<R>(a, ty);
            assert(with_ts::<R>(b, ty).len() > 0);
        }
        if ty < tx {
            lemma_last_is_latest::<R>(b, tx);
            assert(with_ts::<R>(a, tx).len() > 0);
        }
        assert(tx == ty);
        let a2 = a.drop_last();
        let b2 = b.drop_last();
        assert(ts_is::<R>(tx)(x));
        assert(ts_is::<R>(tx)(y));
        assert(with_ts::<R>(a, tx) == with_ts::<R>(a2, tx).push(x));
        assert(with_ts::<R>(b, tx) == with_ts::<R>(b2, tx).push(y));
        assert(with_ts::<R>(a, tx) == with_ts::<R>(b, tx));
        lemma_push_injective(with_ts::<R>(a2, tx), with_ts::<R>(b2, tx), x, y);
        assert forall|k: TS| #[trigger] with_ts::<R>(a2, k) == with_ts::<R>(b2, k) by {
            lemma_filter_last(a, ts_is::<R>(k));
            lemma_filter_last(b, ts_is::<R>(k));
            assert(with_ts::<R>(a, k) == with_ts::<R>(b, k));
        }
        assert(sorted_by_ts::<R>(a2));
        assert(sorted_by_ts::<R>(b2));
        lemma_stable_sort_unique::<R>(a2, b2);
        assert(a =~= a2.push(x));
        assert(b =~= b2.push(y));
    }
}

/// Placing record `i` of `s` at position `j`, after every record of the sorted
/// prefix `s[..i]` that is not later than it, extends the sorted prefix by one
/// and keeps the records of each timestamp in their order.
pub proof fn lemma_place<R: Timestamped>(s: Seq<R::V>, i: int, j: int)
    requires
        0 <= j <= i < s.len(),
        sorted_by_ts::<R>(s.subrange(0, i)),
        forall|m: int| j <= m < i ==> R::timestamp_of(#[trigger] s[m]) > R::timestamp_of(s[i]),
        j > 0 ==> R::timestamp_of(s[j - 1]) <= R::timestamp_of(s[i]),
    ensures
        ({
            let s2 = s.remove(i).insert(j, s[i]);
            &&& s2.len() == s.len()
            &&& sorted_by_ts::<R>(s2.subrange(0, i + 1))
            &&& forall|k: TS| #[trigger]
                with_ts::<R>(s2.subrange(0, i + 1), k) == with_ts::<R>(s.subrange(0, i + 1), k)
            &&& s2.subrange(i + 1, s.len() as int) == s.subrange(i + 1, s.len() as int)
        }),
{
    let x = s[i];
    let tx = R::timestamp_of(x);
    let p = s.subrange(0, i);
    let a = p.subrange(0, j);
    let b = p.subrange(j, i);
    let s2 = s.remove(i).insert(j, x);
    let single = seq![x];
    assert(s2.subrange(0, i + 1) =~= a + single + b);
    assert(s.subrange(0, i + 1) =~= p.push(x));
    assert(p =~= a + b);
    assert(s2.subrange(i + 1, s.len() as int) =~= s.subrange(i + 1, s.len() as int));
    assert forall|m: int| 0 <= m < j implies R::timestamp_of(#[trigger] p[m]) <= tx by {
        assert(R::timestamp_of(p[m]) <= R::timestamp_of(p[j - 1]));
    }
    assert(sorted_by_ts::<R>(s2.subrange(0, i + 1))) by {
        let c = s2.subrange(0, i + 1);
        assert forall|u: int, w: int| 0 <= u <= w < c.len() implies R::timestamp_of(
            #[trigger] c[u],
        ) <= R::timestamp_of(#[trigger] c[w]) by {
            if w < j {
                assert(c[u] == p[u] && c[w] == p[w]);
            } else if w == j {
                assert(c[w] == x);
                if u < j {
                    assert(c[u] == p[u]);
                }
            } else {
                assert(c[w] == p[w - 1]);
                if u < j {
                    assert(c[u] == p[u]);
                    assert(R::timestamp_of(p[w - 1]) > tx);
                } else if u == j {
                    assert(c[u] == x);
                } else {
                    assert(c[u] == p[u - 1]);
                }
            }
        }
    }
    assert forall|k: TS| #[trigger]
        with_ts::<R>(s2.subrange(0, i + 1), k) == with_ts::<R>(s.subrange(0, i + 1), k) by {
        let pred = ts_is::<R>(k);
        Seq::filter_distributes_over_add(a + single, b, pred);
        Seq::filter_distributes_over_add(a, single, pred);
        Seq::filter_distributes_over_add(a, b, pred);
        lemma_filter_last(p.push(x), pred);
        lemma_filter_last(single, pred);
        assert(p.push(x).drop_last() =~= p);
        assert(single.drop_last() =~= Seq::<R::V>::empty());
        lemma_filter_none(Seq::<R::V>::empty(), pred);
        if tx == k {
            assert forall|m: int| 0 <= m < b.len() implies !pred(#[trigger] b[m]) by {
                assert(b[m] == s[j + m]);
            }
            lemma_filter_none(b, pred);
            assert(a.filter(pred) + b.filter(pred) + seq![x] =~= a.filter(pred) + seq![x]
                + b.filter(pred));
        } else {
            assert(a.filter(pred) + Seq::<R::V>::empty() =~= a.filter(pred));
        }
    }
}

/// In a sorted sequence, the records from the lower bound of `t` on are those
/// with a timestamp of at least `t`.
pub proof fn lemma_suffix_at_or_after<R: Timestamped>(s: Seq<R::V>, t: TS, i: int)
    requires
        is_lower_bound::<R>(s, t, i),
    ensures
        s.subrange(i, s.len() as int) == at_or_after::<R>(s, t),
{
    let pred = ts_at_least::<R>(t);
    let a = s.subrange(0, i);
    let b = s.subrange(i, s.len() as int);
    assert(s =~= a + b);
    Seq::filter_distributes_over_add(a, b, pred);
    assert forall|m: int| 0 <= m < a.len() implies !pred(#[trigger] a[m]) by {
        assert(a[m] == s[m]);
    }
    assert forall|m: int| 0 <= m < b.len() implies pred(#[trigger] b[m]) by {
        assert(b[m] == s[i + m]);
    }
    lemma_filter_none(a, pred);
    lemma_filter_all(b, pred);
    assert(Seq::<R::V>::empty() + b =~= b);
}

/// No record of `s` carries timestamp `t` exactly when `s` holds no record of
/// timestamp `t` in its per-timestamp selection.
pub proof fn lemma_with_ts_empty<R: Timestamped>(s: Seq<R::V>, t: TS)
    ensures
        with_ts::<R>(s, t).len() == 0 <==> forall|j: int|
            0 <= j < s.len() ==> R::timestamp_of(#[trigger] s[j]) != t,
{
    if forall|j: int| 0 <= j < s.len() ==> R::timestamp_of(#[trigger] s[j]) != t {
        lemma_filter_none(s, ts_is::<R>(t));
    } else {
        let j = choose|j: int| 0 <= j < s.len() && R::timestamp_of(#[trigger] s[j]) == t;
        s.lemma_filter_contains(ts_is::<R>(t), j);
    }
}

} // verus!
