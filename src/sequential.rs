//! An append-biased sequence of records that may share timestamps, with an
//! explicit stable sort, exact and nearest search, and lookback and window
//! retrieval.
use vstd::prelude::*;
use std::collections::VecDeque;
use crate::error::DataError;
use crate::order::{
    at_or_after, is_lower_bound, is_stable_sort_of, lemma_filter_last, lemma_place,
    lemma_stable_sort_unique, lemma_suffix_at_or_after, lemma_with_ts_empty, sorted_by_ts, ts_between, ts_is, with_ts, within,
};
use crate::record::{lemma_views_push, views_of, NormalizedTicks, Timestamped, TS};
use crate::traits::DataUpdate;

verus! {

/// A labelled sequence of records, possibly unsorted, possibly with several
/// records per timestamp.
#[derive(Debug, Clone)]
pub struct SequentialStore<R> {
    identifier: String,
    data: VecDeque<R>,
}

/// The sequential store of trade events.
pub type TickDataSet = SequentialStore<NormalizedTicks>;

impl<R: Timestamped> View for SequentialStore<R> {
    type V = Seq<R::V>;

    closed spec fn view(&self) -> Seq<R::V> {
        views_of(self.data@)
    }
}

/// Relies on VecDeque::shrink_to_fit: it releases spare capacity and leaves
/// the elements as they are.
#[verifier::external_body]
fn release_spare_capacity<R>(data: &mut VecDeque<R>)
    ensures
        final(data)@ == old(data)@,
{
    data.shrink_to_fit();
}

impl<R: Timestamped> SequentialStore<R> {
    /// The label of the series.
    pub closed spec fn spec_identifier(&self) -> Seq<char> {
        self.identifier@
    }

    pub fn new(identifier: String) -> (r: Self)
        ensures
            r@ == Seq::<R::V>::empty(),
            r.spec_identifier() == identifier@,
    {
        let r = SequentialStore { identifier, data: VecDeque::new() };
        assert(r@ =~= Seq::<R::V>::empty());
        r
    }

    /// An empty store with room for `capacity` records before it reallocates.
    pub fn new_with_capacity(identifier: String, capacity: usize) -> (r: Self)
        ensures
            r@ == Seq::<R::V>::empty(),
            r.spec_identifier() == identifier@,
    {
        let r = SequentialStore { identifier, data: VecDeque::with_capacity(capacity) };
        assert(r@ =~= Seq::<R::V>::empty());
        r
    }

    pub fn identifier(&self) -> (r: &str)
        ensures
            r@ == self.spec_identifier(),
    {
        self.identifier.as_str()
    }

    pub fn set_identifier(&mut self, new_identifier: String)
        ensures
            final(self)@ == old(self)@,
            final(self).spec_identifier() == new_identifier@,
    {
        self.identifier = new_identifier;
    }

    /// A copy of the record at `index`, or `None` past the end.
    pub fn get(&self, index: usize) -> (r: Option<R>)
        ensures
            match r {
                Some(x) => index < self@.len() && x@ == self@[index as int],
                None => index >= self@.len(),
            },
    {
        if index < self.data.len() {
            Some(self.data[index].duplicate())
        } else {
            None
        }
    }

    pub fn shrink_to_fit(&mut self)
        ensures
            final(self)@ == old(self)@,
            final(self).spec_identifier() == old(self).spec_identifier(),
    {
        release_spare_capacity(&mut self.data);
    }

    pub fn len(&self) -> (r: usize)
        ensures
            r == self@.len(),
    {
        self.data.len()
    }

    pub fn is_empty(&self) -> (r: bool)
        ensures
            r == (self@.len() == 0),
    {
        self.data.len() == 0
    }

    /// Keeps the first `len` records and drops the rest.
    pub fn truncate(&mut self, len: usize)
        ensures
            final(self)@ == (if len <= old(self)@.len() {
                old(self)@.subrange(0, len as int)
            } else {
                old(self)@
            }),
            final(self).spec_identifier() == old(self).spec_identifier(),
    {
        self.data.truncate(len);
        assert(len <= old(self)@.len() ==> self@ =~= old(self)@.subrange(0, len as int));
    }

    /// Orders the records by timestamp, keeping the records of each timestamp
    /// in the order they had. A store that is already sorted is only read,
    /// in one pass.
    pub fn sort_by_timestamp(&mut self)
        ensures
            is_stable_sort_of::<R>(final(self)@, old(self)@),
            final(self).spec_identifier() == old(self).spec_identifier(),
    {
        let ghost orig = self@;
        let n = self.data.len();
        let mut i: usize = 0;
        while i < n
            invariant
                0 <= i <= n,
                n == self.data@.len(),
                orig.len() == n,
                self.identifier == old(self).identifier,
                orig == old(self)@,
                sorted_by_ts::<R>(self@.subrange(0, i as int)),
                forall|k: TS| #[trigger]
                    with_ts::<R>(self@.subrange(0, i as int), k) == with_ts::<R>(
                        orig.subrange(0, i as int),
                        k,
                    ),
                self@.subrange(i as int, n as int) == orig.subrange(i as int, n as int),
            decreases n - i,
        {
            let t = self.data[i].timestamp();
            let mut j: usize = i;
            while j > 0 && self.data[j - 1].timestamp() > t
                invariant
                    0 <= j <= i < n,
                    n == self.data@.len(),
                    t == R::timestamp_of(self@[i as int]),
                    forall|m: int| j <= m < i ==> R::timestamp_of(#[trigger] self@[m]) > t,
                decreases j,
            {
                j = j - 1;
            }
            let ghost before = self@;
            proof {
                assert(self@.subrange(0, i as int).len() == i);
                lemma_place::<R>(before, i as int, j as int);
            }
            if j < i {
                match self.data.remove(i) {
                    Some(x) => {
                        self.data.insert(j, x);
                    },
                    None => {},
                }
                assert(self@ =~= before.remove(i as int).insert(j as int, before[i as int]));
            } else {
                assert(before.remove(i as int).insert(j as int, before[i as int]) =~= before);
            }
            proof {
                let s2 = self@;
                assert(s2.subrange(i + 1, n as int) =~= orig.subrange(i + 1, n as int)) by {
                    assert(before.subrange(i + 1, n as int) =~= orig.subrange(i + 1, n as int))
                        by {
                        assert forall|m: int| i + 1 <= m < n implies before[m] == orig[m] by {
                            assert(before.subrange(i as int, n as int)[m - i] == orig.subrange(
                                i as int,
                                n as int,
                            )[m - i]);
                        }
                    }
                }
                assert(before.subrange(0, i + 1) =~= before.subrange(0, i as int).push(
                    before[i as int],
                ));
                assert(orig.subrange(0, i + 1) =~= orig.subrange(0, i as int).push(orig[i as int]));
                assert(before[i as int] == orig[i as int]) by {
                    assert(before.subrange(i as int, n as int)[0] == orig.subrange(
                        i as int,
                        n as int,
                    )[0]);
                }
                assert forall|k: TS| #[trigger]
                    with_ts::<R>(s2.subrange(0, i + 1), k) == with_ts::<R>(
                        orig.subrange(0, i + 1),
                        k,
                    ) by {
                    lemma_filter_last(before.subrange(0, i + 1), ts_is::<R>(k));
                    lemma_filter_last(orig.subrange(0, i + 1), ts_is::<R>(k));
                    assert(before.subrange(0, i + 1).drop_last() =~= before.subrange(0, i as int));
                    assert(orig.subrange(0, i + 1).drop_last() =~= orig.subrange(0, i as int));
                    assert(with_ts::<R>(before.subrange(0, i as int), k) == with_ts::<R>(
                        orig.subrange(0, i as int),
                        k,
                    ));
                }
            }
            i = i + 1;
        }
        proof {
            assert(self@.subrange(0, n as int) =~= self@);
            assert(orig.subrange(0, n as int) =~= orig);
        }
    }

    /// The timestamp of the last record, or `None` for an empty store.
    pub fn back_timestamp(&self) -> (r: Option<TS>)
        ensures
            r == (if self@.len() == 0 {
                None::<TS>
            } else {
                Some(R::timestamp_of(self@.last()))
            }),
    {
        let n = self.data.len();
        if n == 0 {
            None
        } else {
            Some(self.data[n - 1].timestamp())
        }
    }

    /// The first position whose timestamp is at least `target`, in a sorted store.
    fn lower_bound(&self, target: TS) -> (r: usize)
        requires
            sorted_by_ts::<R>(self@),
        ensures
            is_lower_bound::<R>(self@, target, r as int),
    {
        let mut lo: usize = 0;
        let mut hi: usize = self.data.len();
        while lo < hi
            invariant
                0 <= lo <= hi <= self@.len(),
                sorted_by_ts::<R>(self@),
                forall|j: int| 0 <= j < lo ==> R::timestamp_of(#[trigger] self@[j]) < target,
                forall|j: int| hi <= j < self@.len() ==> R::timestamp_of(#[trigger] self@[j]) >= target,
            decreases hi - lo,
        {
            let mid = lo + (hi - lo) / 2;
            if self.data[mid].timestamp() < target {
                assert forall|j: int| 0 <= j <= mid implies R::timestamp_of(
                    #[trigger] self@[j],
                ) < target by {
                    assert(R::timestamp_of(self@[j]) <= R::timestamp_of(self@[mid as int]));
                }
                lo = mid + 1;
            } else {
                assert forall|j: int| mid <= j < self@.len() implies R::timestamp_of(
                    #[trigger] self@[j],
                ) >= target by {
                    assert(R::timestamp_of(self@[mid as int]) <= R::timestamp_of(self@[j]));
                }
                hi = mid;
            }
        }
        lo
    }

    /// Sorts the store, then finds the first record whose timestamp is exactly
    /// `target_timestamp`. Of several such records, the one at the lowest
    /// position is found.
    pub fn binary_search_timestamp_index(&mut self, target_timestamp: TS) -> (r: Result<
        usize,
        DataError,
    >)
        ensures
            is_stable_sort_of::<R>(final(self)@, old(self)@),
            final(self).spec_identifier() == old(self).spec_identifier(),
            r is Err <==> with_ts::<R>(old(self)@, target_timestamp).len() == 0,
            match r {
                Ok(i) => {
                    &&& i < final(self)@.len()
                    &&& R::timestamp_of(final(self)@[i as int]) == target_timestamp
                    &&& forall|j: int|
                        0 <= j < i ==> R::timestamp_of(#[trigger] final(self)@[j])
                            != target_timestamp
                },
                Err(e) => {
                    &&& e == DataError::NotFound
                    &&& forall|j: int|
                        0 <= j < final(self)@.len() ==> R::timestamp_of(#[trigger] final(self)@[j])
                            != target_timestamp
                },
            },
    {
        self.sort_by_timestamp();
        let i = self.lower_bound(target_timestamp);
        assert(is_lower_bound::<R>(self@, target_timestamp, i as int));
        if i < self.data.len() && self.data[i].timestamp() == target_timestamp {
            assert(self@[i as int] == self.data@[i as int]@);
            proof {
                lemma_with_ts_empty::<R>(self@, target_timestamp);
            }
            Ok(i)
        } else {
            proof {
                lemma_with_ts_empty::<R>(self@, target_timestamp);
            }
            Err(DataError::NotFound)
        }
    }

    /// Sorts the store, then finds the first position whose timestamp is at
    /// least `target_timestamp`: the first exact match if there is one, else
    /// the first later record, else the length of the store.
    pub fn find_nearest_ts_index(&mut self, target_timestamp: TS) -> (r: usize)
        ensures
            is_stable_sort_of::<R>(final(self)@, old(self)@),
            final(self).spec_identifier() == old(self).spec_identifier(),
            is_lower_bound::<R>(final(self)@, target_timestamp, r as int),
            (forall|j: int|
                0 <= j < final(self)@.len() ==> R::timestamp_of(#[trigger] final(self)@[j])
                    < target_timestamp) ==> r == final(self)@.len(),
    {
        self.sort_by_timestamp();
        let r = self.lower_bound(target_timestamp);
        if r < self.data.len() {
            assert(R::timestamp_of(self@[r as int]) >= target_timestamp);
        }
        r
    }

    /// Sorts the store, then copies out every record with a timestamp of at
    /// least `first_ts`, in timestamp order.
    pub fn get_data_by_timestamp_lookback(&mut self, first_ts: TS) -> (r: Vec<R>)
        ensures
            is_stable_sort_of::<R>(final(self)@, old(self)@),
            final(self).spec_identifier() == old(self).spec_identifier(),
            views_of(r@) == at_or_after::<R>(final(self)@, first_ts),
    {
        let start = self.find_nearest_ts_index(first_ts);
        let end = self.data.len();
        let mut out: Vec<R> = Vec::with_capacity(end - start);
        let mut i: usize = start;
        while i < end
            invariant
                start <= i <= end,
                end == self@.len(),
                views_of(out@) == self@.subrange(start as int, i as int),
            decreases end - i,
        {
            let x = self.data[i].duplicate();
            proof {
                lemma_views_push(out@, x);
                assert(self@.subrange(start as int, i + 1) =~= self@.subrange(start as int, i as int).push(
                    x@,
                ));
            }
            out.push(x);
            i = i + 1;
        }
        proof {
            lemma_suffix_at_or_after::<R>(self@, first_ts, start as int);
        }
        out
    }

    /// Copies out every record with a timestamp in `[first_ts, last_ts]`, in
    /// the store's current order. This does not sort: the result is in
    /// timestamp order only if the store is.
    pub fn get_data_by_timestamp_window(&self, first_ts: TS, last_ts: TS) -> (r: Vec<R>)
        ensures
            views_of(r@) == within::<R>(self@, first_ts, last_ts),
    {
        let n = self.data.len();
        let mut out: Vec<R> = Vec::new();
        let mut i: usize = 0;
        while i < n
            invariant
                0 <= i <= n,
                n == self@.len(),
                views_of(out@) == within::<R>(self@.subrange(0, i as int), first_ts, last_ts),
            decreases n - i,
        {
            let t = self.data[i].timestamp();
            proof {
                lemma_filter_last(self@.subrange(0, i + 1), ts_between::<R>(first_ts, last_ts));
                assert(self@.subrange(0, i + 1).drop_last() =~= self@.subrange(0, i as int));
            }
            if first_ts <= t && t <= last_ts {
                let x = self.data[i].duplicate();
                proof {
                    lemma_views_push(out@, x);
                }
                out.push(x);
                assert(views_of(out@) == within::<R>(
                    self@.subrange(0, i + 1),
                    first_ts,
                    last_ts,
                ));
            }
            i = i + 1;
        }
        assert(self@.subrange(0, n as int) =~= self@);
        out
    }
}

impl<R: Timestamped> DataUpdate for SequentialStore<R> {
    type NewData = Vec<R>;

    /// Appends the batch, in its order, after the records already held.
    fn update(&mut self, data: Vec<R>)
        ensures
            final(self)@ == old(self)@ + views_of(data@),
            final(self).spec_identifier() == old(self).spec_identifier(),
    {
        let ghost batch = data@;
        for x in it: data
            invariant
                it.seq() == batch,
                self.identifier == old(self).identifier,
                self@ == old(self)@ + views_of(batch.subrange(0, it.index() as int)),
        {
            proof {
                lemma_views_push(self.data@, x);
                assert(views_of(batch.subrange(0, it.index() + 1)) =~= views_of(
                    batch.subrange(0, it.index() as int),
                ).push(x@));
            }
            self.data.push_back(x);
        }
        assert(batch.subrange(0, batch.len() as int) =~= batch);
    }
}

/// Sorting a second time changes nothing: a stable sort of a stably sorted
/// sequence is that sequence.
pub proof fn lemma_sort_idempotent<R: Timestamped>(
    s: Seq<R::V>,
    once: Seq<R::V>,
    twice: Seq<R::V>,
)
    requires
        is_stable_sort_of::<R>(once, s),
        is_stable_sort_of::<R>(twice, once),
    ensures
        twice == once,
{
    lemma_stable_sort_unique::<R>(twice, once);
}

} // verus!
