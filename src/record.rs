//! The timestamped records a store holds: aggregated bars, order-book
//! snapshots and trade events.
//!
//! Prices and quantities are carried as the bit pattern of their binary64
//! value (`FloatBits`): the store orders, selects and copies records by
//! timestamp and never computes on these numbers, so it keeps them exactly
//! as they came in.
use vstd::prelude::*;

verus! {

/// A timestamp, in the unit of the source it came from.
pub type TS = i64;

/// The IEEE-754 binary64 bit pattern of a price, a size or a volume.
#[derive(Debug, Clone, Copy, PartialEq, Eq, Structural)]
pub struct FloatBits(pub u64);

/// The views of a sequence of values, one for one.
pub open spec fn views_of<T: View>(s: Seq<T>) -> Seq<T::V> {
    s.map_values(|x: T| x@)
}

pub proof fn lemma_views_push<T: View>(s: Seq<T>, x: T)
    ensures
        views_of(s.push(x)) == views_of(s).push(x@),
{
    assert(views_of(s.push(x)) =~= views_of(s).push(x@));
}

/// A record that occupies one instant: the unit of storage of both stores.
pub trait Timestamped: View + Sized {
    /// The timestamp of a record, read from its view.
    spec fn timestamp_of(v: Self::V) -> TS;

    fn timestamp(&self) -> (r: TS)
        ensures
            r == Self::timestamp_of(self@),
    ;

    /// An independent copy of the record.
    fn duplicate(&self) -> (r: Self)
        ensures
            r@ == self@,
    ;
}

/// An aggregate over a fixed calendar interval, keyed by its closing timestamp.
#[derive(Debug, Clone, Copy, PartialEq, Eq, Structural)]
pub struct Bar {
    pub o: FloatBits,
    pub h: FloatBits,
    pub l: FloatBits,
    pub c: FloatBits,
    pub v: FloatBits,
    pub ts: TS,
}

impl Bar {
    pub fn new(o: FloatBits, h: FloatBits, l: FloatBits, c: FloatBits, v: FloatBits, ts: TS) -> (r:
        Bar)
        ensures
            r == (Bar { o, h, l, c, v, ts }),
    {
        Bar { o, h, l, c, v, ts }
    }
}

impl View for Bar {
    type V = Bar;

    open spec fn view(&self) -> Bar {
        *self
    }
}

impl Timestamped for Bar {
    open spec fn timestamp_of(v: Bar) -> TS {
        v.ts
    }

    fn timestamp(&self) -> (r: TS) {
        self.ts
    }

    fn duplicate(&self) -> (r: Bar) {
        *self
    }
}

/// One price level of an order book.
#[derive(Debug, Clone, Copy, PartialEq, Eq, Structural)]
pub struct Quotes {
    pub level: FloatBits,
    pub qty: FloatBits,
    pub count: Option<u64>,
}

/// A point-in-time view of an order book's bid and ask levels for a symbol.
#[derive(Debug, Clone)]
pub struct NormalizedBook {
    pub symbol: String,
    pub depth: u16,
    pub bids: Vec<Quotes>,
    pub asks: Vec<Quotes>,
    pub ts: TS,
}

/// Copies a list of quote levels, level by level.
fn copy_quotes(q: &Vec<Quotes>) -> (r: Vec<Quotes>)
    ensures
        r@ == q@,
{
    let mut r: Vec<Quotes> = Vec::with_capacity(q.len());
    let mut i: usize = 0;
    while i < q.len()
        invariant
            i <= q@.len(),
            r@ == q@.subrange(0, i as int),
        decreases q@.len() - i,
    {
        r.push(q[i]);
        i = i + 1;
    }
    assert(r@ =~= q@);
    r
}

impl View for NormalizedBook {
    /// Symbol, depth, bid levels, ask levels and timestamp.
    type V = (Seq<char>, u16, Seq<Quotes>, Seq<Quotes>, TS);

    open spec fn view(&self) -> Self::V {
        (self.symbol@, self.depth, self.bids@, self.asks@, self.ts)
    }
}

impl Timestamped for NormalizedBook {
    open spec fn timestamp_of(v: Self::V) -> TS {
        v.4
    }

    fn timestamp(&self) -> (r: TS) {
        self.ts
    }

    fn duplicate(&self) -> (r: NormalizedBook) {
        NormalizedBook {
            symbol: self.symbol.clone(),
            depth: self.depth,
            bids: copy_quotes(&self.bids),
            asks: copy_quotes(&self.asks),
            ts: self.ts,
        }
    }
}

/// The side of the book a trade took liquidity from.
#[derive(Debug, Clone, Copy, PartialEq, Eq, Structural)]
pub enum Side {
    Buy,
    Sell,
}

impl Side {
    /// The lower-case name of the side.
    pub fn as_ref(&self) -> (r: &'static str)
        ensures
            r@ == (match *self {
                Side::Buy => "buy"@,
                Side::Sell => "sell"@,
            }),
    {
        match self {
            Side::Buy => "buy",
            Side::Sell => "sell",
        }
    }
}

/// A single executed trade. Several trades may share a timestamp.
#[derive(Debug, Clone)]
pub struct NormalizedTicks {
    pub symbol: String,
    pub side: Side,
    pub px: FloatBits,
    pub qty: FloatBits,
    pub local_ids: u32,
    pub server_id: i64,
    pub tx_ts: TS,
}

impl View for NormalizedTicks {
    type V = NormalizedTicks;

    open spec fn view(&self) -> NormalizedTicks {
        *self
    }
}

impl Timestamped for NormalizedTicks {
    open spec fn timestamp_of(v: NormalizedTicks) -> TS {
        v.tx_ts
    }

    fn timestamp(&self) -> (r: TS) {
        self.tx_ts
    }

    fn duplicate(&self) -> (r: NormalizedTicks) {
        NormalizedTicks {
            symbol: self.symbol.clone(),
            side: self.side,
            px: self.px,
            qty: self.qty,
            local_ids: self.local_ids,
            server_id: self.server_id,
            tx_ts: self.tx_ts,
        }
    }
}

} // verus!
