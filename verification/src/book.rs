//! The order-book data model: price levels, per-source snapshots, and the
//! consolidated summary that the engine publishes.

use vstd::prelude::*;

use crate::DEPTH;

verus! {

/// One price/amount/venue-label entry at a given depth rank of an order-book
/// side. Prices and amounts are fixed-point integers; both are always copied
/// verbatim from upstream data, never recomputed.
pub struct Level {
    pub price: u64,
    pub amount: u64,
    pub exchange: String,
}

/// Mathematical value of a [`Level`].
#[verifier::ext_equal]
pub struct LevelV {
    pub price: int,
    pub amount: int,
    pub exchange: Seq<char>,
}

impl View for Level {
    type V = LevelV;

    open spec fn view(&self) -> LevelV {
        LevelV {
            price: self.price as int,
            amount: self.amount as int,
            exchange: self.exchange@,
        }
    }
}

/// The two sides of a book. Bids order by descending price, asks by ascending
/// price; the merge and the sortedness invariant are parameterized by this.
#[derive(Clone, Copy)]
pub enum Side {
    Bid,
    Ask,
}

/// The values of a sequence of levels.
pub open spec fn levels_view(v: Seq<Level>) -> Seq<LevelV> {
    v.map_values(|l: Level| l@)
}

/// `l1` is at least as good an offer as `l2` on the given side.
pub open spec fn at_least_as_good(l1: LevelV, l2: LevelV, side: Side) -> bool {
    match side {
        Side::Bid => l1.price >= l2.price,
        Side::Ask => l1.price <= l2.price,
    }
}

/// Sorted best-first in the side's order (descending prices for bids,
/// ascending for asks), ties allowed.
pub open spec fn sorted_side(s: Seq<LevelV>, side: Side) -> bool {
    forall|i: int, j: int|
        0 <= i <= j < s.len() ==> #[trigger] at_least_as_good(s[i], s[j], side)
}

/// A normalized fixed-depth book from one source: exactly [`DEPTH`] levels per
/// side, sorted best-first. The upstream connector guarantees this shape; the
/// engine does not re-validate it.
pub struct OrderbookSnapshot {
    pub bids: Vec<Level>,
    pub asks: Vec<Level>,
}

impl OrderbookSnapshot {
    /// The shape the upstream connector promises.
    pub open spec fn wf(self) -> bool {
        &&& self.bids@.len() == DEPTH
        &&& self.asks@.len() == DEPTH
        &&& sorted_side(levels_view(self.bids@), Side::Bid)
        &&& sorted_side(levels_view(self.asks@), Side::Ask)
    }
}

/// A consolidated top-of-book view. `spread` is the best ask price minus the
/// best bid price; a crossed book gives a negative spread, which is propagated
/// as-is rather than corrected.
pub struct Summary {
    pub spread: i128,
    pub bids: Vec<Level>,
    pub asks: Vec<Level>,
}

/// Mathematical value of a [`Summary`].
#[verifier::ext_equal]
pub struct SummaryV {
    pub spread: int,
    pub bids: Seq<LevelV>,
    pub asks: Seq<LevelV>,
}

impl View for Summary {
    type V = SummaryV;

    open spec fn view(&self) -> SummaryV {
        SummaryV {
            spread: self.spread as int,
            bids: levels_view(self.bids@),
            asks: levels_view(self.asks@),
        }
    }
}

/// Copies a level verbatim: price, amount and venue label unchanged.
pub fn copy_level(level: &Level) -> (r: Level)
    ensures
        r@ == level@,
{
    Level {
        price: level.price,
        amount: level.amount,
        exchange: level.exchange.clone(),
    }
}

/// Copies a sequence of levels verbatim.
pub fn copy_levels(v: &Vec<Level>) -> (r: Vec<Level>)
    ensures
        levels_view(r@) == levels_view(v@),
{
    let mut r: Vec<Level> = Vec::new();
    let mut i: usize = 0;
    while i < v.len()
        invariant
            i <= v@.len(),
            r@.len() == i,
            forall|k: int| 0 <= k < i ==> r@[k]@ == v@[k]@,
        decreases v@.len() - i,
    {
        r.push(copy_level(&v[i]));
        i += 1;
    }
    proof {
        assert(levels_view(r@) =~= levels_view(v@));
    }
    r
}

/// Copies a summary so that each recipient owns its level data independently.
pub fn copy_summary(s: &Summary) -> (r: Summary)
    ensures
        r@ == s@,
{
    Summary {
        spread: s.spread,
        bids: copy_levels(&s.bids),
        asks: copy_levels(&s.asks),
    }
}

} // verus!
