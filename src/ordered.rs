//! A timestamp-keyed store with unique keys: the key of each record is its
//! own timestamp, and a later write at a timestamp replaces the earlier one.
use vstd::prelude::*;
use std::collections::BTreeMap;
use crate::granularity::BarGranularity;
use crate::record::{views_of, Bar, NormalizedBook, Timestamped, TS};
use crate::traits::{DataUpdate, LocalDataMethods};

verus! {

broadcast use vstd::std_specs::btree::group_btree_axioms;

/// A strictly ordered index from timestamp to record, tagged with the
/// granularity it was created with.
#[derive(Debug)]
pub struct OrderedStore<R: Timestamped> {
    granularity: BarGranularity,
    data: BTreeMap<TS, R>,
}

/// The ordered store of aggregated bars.
pub type BarDataSet = OrderedStore<Bar>;

/// The ordered store of order-book snapshots.
pub type BookDataSet = OrderedStore<NormalizedBook>;

/// `r` lists, in strictly ascending timestamp order, exactly the records of
/// `m` whose timestamp lies in `[lo, hi]`.
pub open spec fn lists_range<R: Timestamped>(m: Map<TS, R::V>, r: Seq<R::V>, lo: int, hi: int) -> bool {
    &&& forall|i: int, j: int|
        0 <= i < j < r.len() ==> R::timestamp_of(#[trigger] r[i]) < R::timestamp_of(#[trigger] r[j])
    &&& forall|i: int|
        0 <= i < r.len() ==> {
            let k = R::timestamp_of(#[trigger] r[i]);
            &&& lo <= k <= hi
            &&& m.contains_key(k)
            &&& m[k] == r[i]
        }
    &&& forall|k: TS|
        #![trigger m.contains_key(k)]
        m.contains_key(k) && lo <= k <= hi ==> exists|i: int|
            0 <= i < r.len() && R::timestamp_of(#[trigger] r[i]) == k
}

/// The map after each record of `s`, in order, is written at its own timestamp.
pub open spec fn inserted_all<R: Timestamped>(m: Map<TS, R::V>, s: Seq<R::V>) -> Map<TS, R::V>
    decreases s.len(),
{
    if s.len() == 0 {
        m
    } else {
        inserted_all::<R>(m, s.drop_last()).insert(R::timestamp_of(s.last()), s.last())
    }
}

/// Relies on BTreeMap::range: it yields the entries whose keys lie in
/// `[lo, hi]`, in ascending key order. It panics when `lo > hi`.
#[verifier::external_body]
fn keys_in_range<R>(m: &BTreeMap<TS, R>, lo: TS, hi: TS) -> (r: Vec<TS>)
    requires
        lo <= hi,
    ensures
        forall|i: int, j: int| 0 <= i < j < r@.len() ==> r@[i] < r@[j],
        forall|k: TS| #[trigger] r@.contains(k) <==> (m@.contains_key(k) && lo <= k <= hi),
{
    m.range(lo..=hi).map(|(k, _)| *k).collect()
}

impl<R: Timestamped> View for OrderedStore<R> {
    type V = Map<TS, R::V>;

    closed spec fn view(&self) -> Map<TS, R::V> {
        self.data@.map_values(|r: R| r@)
    }
}

impl<R: Timestamped> OrderedStore<R> {
    /// Each record is stored under its own timestamp.
    #[verifier::type_invariant]
    closed spec fn keyed_by_timestamp(self) -> bool {
        forall|k: TS| #[trigger]
            self.data@.contains_key(k) ==> R::timestamp_of(self.data@[k]@) == k
    }

    pub closed spec fn spec_granularity(&self) -> BarGranularity {
        self.granularity
    }

    pub fn new(granularity: BarGranularity) -> (r: Self)
        ensures
            r@ == Map::<TS, R::V>::empty(),
            r.spec_granularity() == granularity,
    {
        let r = OrderedStore { granularity, data: BTreeMap::new() };
        assert(r@ =~= Map::<TS, R::V>::empty());
        r
    }

    pub fn granularity(&self) -> (r: BarGranularity)
        ensures
            r == self.spec_granularity(),
    {
        self.granularity
    }

    /// Writes `record` at `timestamp`, replacing any record already there.
    pub fn single_insert(&mut self, timestamp: TS, record: R)
        requires
            R::timestamp_of(record@) == timestamp,
        ensures
            final(self)@ == old(self)@.insert(timestamp, record@),
            final(self).spec_granularity() == old(self).spec_granularity(),
    {
        let mut held = OrderedStore { granularity: self.granularity, data: BTreeMap::new() };
        std::mem::swap(self, &mut held);
        proof {
            use_type_invariant(&held);
        }
        let OrderedStore { granularity, mut data } = held;
        data.insert(timestamp, record);
        *self = OrderedStore { granularity, data };
        assert(self@ =~= old(self)@.insert(timestamp, record@));
    }

    /// Copies out the records with a timestamp in `[first_ts, last_ts]`, in
    /// ascending timestamp order; none when `first_ts > last_ts`.
    pub fn get_range(&self, first_ts: TS, last_ts: TS) -> (r: Vec<R>)
        ensures
            lists_range::<R>(self@, views_of(r@), first_ts as int, last_ts as int),
            first_ts > last_ts ==> r@.len() == 0,
    {
        proof {
            use_type_invariant(self);
        }
        let mut out: Vec<R> = Vec::new();
        if first_ts > last_ts {
            assert(views_of(out@) =~= Seq::<R::V>::empty());
            return out;
        }
        let keys = keys_in_range(&self.data, first_ts, last_ts);
        let n = keys.len();
        assert forall|p: int| 0 <= p < n implies self.data@.contains_key(#[trigger] keys@[p]) by {
            assert(keys@.contains(keys@[p]));
        }
        let mut i: usize = 0;
        while i < n
            invariant
                0 <= i <= n,
                n == keys@.len(),
                out@.len() == i,
                forall|p: int| 0 <= p < i ==> #[trigger] out@[p]@ == self@[keys@[p]],
                forall|p: int| 0 <= p < n ==> self.data@.contains_key(#[trigger] keys@[p]),
                self.keyed_by_timestamp(),
            decreases n - i,
        {
            let k = keys[i];
            match self.data.get(&k) {
                Some(rec) => {
                    let x = rec.duplicate();
                    out.push(x);
                },
                None => {},
            }
            i = i + 1;
        }
        proof {
            let v = views_of(out@);
            assert forall|p: int| 0 <= p < v.len() implies R::timestamp_of(#[trigger] v[p])
                == keys@[p] && self@.contains_key(keys@[p]) && self@[keys@[p]] == v[p] by {
                assert(v[p] == out@[p]@);
                assert(keys@.contains(keys@[p]));
            }
            assert forall|k: TS|
                #![trigger self@.contains_key(k)]
                self@.contains_key(k) && first_ts <= k <= last_ts implies exists|p: int|
                    0 <= p < v.len() && R::timestamp_of(#[trigger] v[p]) == k by {
                assert(self.data@.contains_key(k));
                assert(keys@.contains(k));
                let p = choose|p: int| 0 <= p < keys@.len() && keys@[p] == k;
                assert(R::timestamp_of(v[p]) == k);
            }
            assert forall|p: int, q: int| 0 <= p < q < v.len() implies R::timestamp_of(
                #[trigger] v[p],
            ) < R::timestamp_of(#[trigger] v[q]) by {}
            assert forall|p: int| 0 <= p < v.len() implies first_ts <= R::timestamp_of(
                #[trigger] v[p],
            ) <= last_ts by {
                assert(keys@.contains(keys@[p]));
            }
        }
        out
    }
}

impl<R: Timestamped> LocalDataMethods for OrderedStore<R> {
    type Output = Vec<R>;

    /// Copies out the records with a timestamp of at least `first_ts`, in
    /// ascending timestamp order.
    fn get_timestamp_lookback(&self, first_ts: TS) -> (r: Vec<R>)
        ensures
            lists_range::<R>(self@, views_of(r@), first_ts as int, TS::MAX as int),
    {
        self.get_range(first_ts, TS::MAX)
    }

    fn get_timestamp_window(&self, first_ts: TS, last_ts: TS) -> (r: Vec<R>)
        ensures
            lists_range::<R>(self@, views_of(r@), first_ts as int, last_ts as int),
            first_ts > last_ts ==> r@.len() == 0,
    {
        self.get_range(first_ts, last_ts)
    }
}

impl<R: Timestamped> DataUpdate for OrderedStore<R> {
    type NewData = Vec<R>;

    /// Writes each record of the batch, in order, at its own timestamp.
    fn update(&mut self, data: Vec<R>)
        ensures
            final(self)@ == inserted_all::<R>(old(self)@, views_of(data@)),
            final(self).spec_granularity() == old(self).spec_granularity(),
    {
        let ghost batch = data@;
        for x in it: data
            invariant
                it.seq() == batch,
                self.granularity == old(self).granularity,
                self@ == inserted_all::<R>(old(self)@, views_of(batch.subrange(0, it.index() as int))),
        {
            let ghost done = batch.subrange(0, it.index() + 1);
            let ghost xv = x@;
            let t = x.timestamp();
            self.single_insert(t, x);
            proof {
                assert(views_of(done).drop_last() =~= views_of(batch.subrange(0, it.index() as int)));
                assert(views_of(done).last() == xv);
            }
        }
        assert(batch.subrange(0, batch.len() as int) =~= batch);
    }
}

/// Last write wins: after two writes at timestamp `t`, a range query that
/// covers `t` holds the second record there and no other; a query of exactly
/// `[t, t]` returns that record alone.
pub proof fn lemma_last_write_wins<R: Timestamped>(
    m: Map<TS, R::V>,
    t: TS,
    first: R::V,
    second: R::V,
    lo: int,
    hi: int,
    r: Seq<R::V>,
)
    requires
        R::timestamp_of(first) == t,
        R::timestamp_of(second) == t,
        lo <= t <= hi,
        lists_range::<R>(m.insert(t, first).insert(t, second), r, lo, hi),
    ensures
        r.contains(second),
        forall|i: int| 0 <= i < r.len() && R::timestamp_of(#[trigger] r[i]) == t ==> r[i] == second,
        first != second ==> !r.contains(first),
        lo == t && hi == t ==> r == seq![second],
{
    let m2 = m.insert(t, first).insert(t, second);
    assert(m2.contains_key(t));
    let i = choose|i: int| 0 <= i < r.len() && R::timestamp_of(#[trigger] r[i]) == t;
    assert(r[i] == second);
    if first != second && r.contains(first) {
        let j = choose|j: int| 0 <= j < r.len() && r[j] == first;
        assert(R::timestamp_of(r[j]) == t);
    }
    if lo == t && hi == t {
        if r.len() > 1 {
            assert(R::timestamp_of(r[0]) < R::timestamp_of(r[1]));
        }
        assert(r =~= seq![second]);
    }
}

/// A range query returns a subset of the lookback query from the same first
/// timestamp, and both come in strictly ascending timestamp order.
pub proof fn lemma_range_within_lookback<R: Timestamped>(
    m: Map<TS, R::V>,
    first_ts: TS,
    last_ts: TS,
    range: Seq<R::V>,
    lookback: Seq<R::V>,
)
    requires
        lists_range::<R>(m, range, first_ts as int, last_ts as int),
        lists_range::<R>(m, lookback, first_ts as int, TS::MAX as int),
    ensures
        forall|i: int| 0 <= i < range.len() ==> lookback.contains(#[trigger] range[i]),
        forall|i: int, j: int|
            0 <= i < j < range.len() ==> R::timestamp_of(#[trigger] range[i]) < R::timestamp_of(
                #[trigger] range[j],
            ),
        forall|i: int, j: int|
            0 <= i < j < lookback.len() ==> R::timestamp_of(#[trigger] lookback[i])
                < R::timestamp_of(#[trigger] lookback[j]),
{
    assert forall|i: int| 0 <= i < range.len() implies lookback.contains(#[trigger] range[i]) by {
        let k = R::timestamp_of(range[i]);
        assert(m.contains_key(k));
        let j = choose|j: int| 0 <= j < lookback.len() && R::timestamp_of(#[trigger] lookback[j]) == k;
        assert(lookback[j] == range[i]);
    }
}

} // verus!
