//! The aggregation engine: holds the last known snapshot per source, tracks
//! cross-source staleness, merges the two books and publishes the consolidated
//! view through the distributor — synchronously, within each `process` call.

use vstd::prelude::*;

use crate::book::{
    copy_levels, levels_view, sorted_side, Level, LevelV, OrderbookSnapshot, Side, Summary,
    SummaryV,
};
use crate::distributor::{deliver_all, Distributor};
use crate::merge::{lemma_merge_properties, merge, spec_merge};
use crate::{DEPTH, LEAD_TOLERANCE};

verus! {

/// The closed set of upstream sources. Any other origin of an update is
/// unrepresentable by construction rather than checked at run time.
#[derive(Clone, Copy)]
pub enum Source {
    First,
    Second,
}

/// The other source.
pub open spec fn other(source: Source) -> Source {
    match source {
        Source::First => Source::Second,
        Source::Second => Source::First,
    }
}

/// An observability warning: the named source has produced `lead` consecutive
/// updates with no interleaving update from the other source. Raising it never
/// blocks or delays publication.
pub struct LeadWarning {
    pub exchange: String,
    pub lead: u64,
}

/// Mathematical value of a [`LeadWarning`].
#[verifier::ext_equal]
pub struct LeadWarningV {
    pub exchange: Seq<char>,
    pub lead: nat,
}

/// The values of an optional warning.
pub open spec fn opt_warning_view(o: Option<LeadWarning>) -> Option<LeadWarningV> {
    match o {
        Option::Some(w) => Option::Some(
            LeadWarningV { exchange: w.exchange@, lead: w.lead as nat },
        ),
        Option::None => Option::None,
    }
}

/// The aggregation engine's state: the last snapshot of each source, replaced
/// wholesale on every update, and the two lead counters.
pub struct Aggregator {
    pub best_bids_01: Option<Vec<Level>>,
    pub best_asks_01: Option<Vec<Level>>,
    pub best_bids_02: Option<Vec<Level>>,
    pub best_asks_02: Option<Vec<Level>>,
    pub exchange_01_name: String,
    pub exchange_02_name: String,
    pub lead_01: u64,
    pub lead_02: u64,
}

/// Mathematical value of an [`Aggregator`].
#[verifier::ext_equal]
pub struct AggregatorV {
    pub bids_01: Option<Seq<LevelV>>,
    pub asks_01: Option<Seq<LevelV>>,
    pub bids_02: Option<Seq<LevelV>>,
    pub asks_02: Option<Seq<LevelV>>,
    pub exchange_01: Seq<char>,
    pub exchange_02: Seq<char>,
    pub lead_01: nat,
    pub lead_02: nat,
}

/// The values of an optionally stored book side.
pub open spec fn opt_levels_view(o: Option<Vec<Level>>) -> Option<Seq<LevelV>> {
    match o {
        Option::Some(v) => Option::Some(levels_view(v@)),
        Option::None => Option::None,
    }
}

impl View for Aggregator {
    type V = AggregatorV;

    open spec fn view(&self) -> AggregatorV {
        AggregatorV {
            bids_01: opt_levels_view(self.best_bids_01),
            asks_01: opt_levels_view(self.best_asks_01),
            bids_02: opt_levels_view(self.best_bids_02),
            asks_02: opt_levels_view(self.best_asks_02),
            exchange_01: self.exchange_01_name@,
            exchange_02: self.exchange_02_name@,
            lead_01: self.lead_01 as nat,
            lead_02: self.lead_02 as nat,
        }
    }
}

impl AggregatorV {
    /// Every stored book side has exactly [`DEPTH`] entries sorted best-first,
    /// and bids and asks of one source are stored together.
    pub open spec fn wf(self) -> bool {
        &&& self.bids_01 is Some <==> self.asks_01 is Some
        &&& self.bids_02 is Some <==> self.asks_02 is Some
        &&& self.bids_01 matches Some(b) ==> b.len() == DEPTH && sorted_side(b, Side::Bid)
        &&& self.asks_01 matches Some(a) ==> a.len() == DEPTH && sorted_side(a, Side::Ask)
        &&& self.bids_02 matches Some(b) ==> b.len() == DEPTH && sorted_side(b, Side::Bid)
        &&& self.asks_02 matches Some(a) ==> a.len() == DEPTH && sorted_side(a, Side::Ask)
    }

    /// The stored lead counter of a source.
    pub open spec fn lead(self, source: Source) -> nat {
        match source {
            Source::First => self.lead_01,
            Source::Second => self.lead_02,
        }
    }

    /// Whether a source has ever reported.
    pub open spec fn has_reported(self, source: Source) -> bool {
        match source {
            Source::First => self.bids_01 is Some,
            Source::Second => self.bids_02 is Some,
        }
    }
}

/// The state after one update: the reporting source's books replaced wholesale,
/// its lead counter incremented, the other source's counter reset to zero.
pub open spec fn spec_update(
    s: AggregatorV,
    source: Source,
    bids: Seq<LevelV>,
    asks: Seq<LevelV>,
) -> AggregatorV {
    match source {
        Source::First => AggregatorV {
            bids_01: Some(bids),
            asks_01: Some(asks),
            lead_01: s.lead_01 + 1,
            lead_02: 0,
            ..s
        },
        Source::Second => AggregatorV {
            bids_02: Some(bids),
            asks_02: Some(asks),
            lead_01: 0,
            lead_02: s.lead_02 + 1,
            ..s
        },
    }
}

/// The summary published from a state in which at least one source has
/// reported: the two-source merge of both sides capped at [`DEPTH`], or a
/// verbatim pass-through of the only reporting source's books, with the spread
/// taken from the top level of each side.
pub open spec fn spec_summary(s: AggregatorV) -> SummaryV
    recommends
        s.has_reported(Source::First) || s.has_reported(Source::Second),
{
    if s.bids_01 is Some && s.bids_02 is Some {
        let bids = spec_merge(s.bids_01.unwrap(), s.bids_02.unwrap(), DEPTH as nat, Side::Bid);
        let asks = spec_merge(s.asks_01.unwrap(), s.asks_02.unwrap(), DEPTH as nat, Side::Ask);
        SummaryV { spread: asks[0].price - bids[0].price, bids, asks }
    } else if s.bids_01 is Some {
        SummaryV {
            spread: s.asks_01.unwrap()[0].price - s.bids_01.unwrap()[0].price,
            bids: s.bids_01.unwrap(),
            asks: s.asks_01.unwrap(),
        }
    } else {
        SummaryV {
            spread: s.asks_02.unwrap()[0].price - s.bids_02.unwrap()[0].price,
            bids: s.bids_02.unwrap(),
            asks: s.asks_02.unwrap(),
        }
    }
}

/// The warning owed after an update from `source` left the engine in state `s`:
/// one naming the source's exchange and the magnitude of its lead whenever that
/// lead has reached the tolerance, and none otherwise.
pub open spec fn spec_warning(s: AggregatorV, source: Source) -> Option<LeadWarningV> {
    match source {
        Source::First => if s.lead_01 >= LEAD_TOLERANCE {
            Some((LeadWarningV { exchange: s.exchange_01, lead: s.lead_01 }))
        } else {
            None
        },
        Source::Second => if s.lead_02 >= LEAD_TOLERANCE {
            Some((LeadWarningV { exchange: s.exchange_02, lead: s.lead_02 }))
        } else {
            None
        },
    }
}

impl Aggregator {
    /// A fresh engine: no source has reported and both lead counters are zero.
    pub fn new(exchange_01_name: String, exchange_02_name: String) -> (r: Aggregator)
        ensures
            r@.bids_01 is None,
            r@.asks_01 is None,
            r@.bids_02 is None,
            r@.asks_02 is None,
            r@.lead_01 == 0,
            r@.lead_02 == 0,
            r@.exchange_01 == exchange_01_name@,
            r@.exchange_02 == exchange_02_name@,
            r@.wf(),
    {
        Aggregator {
            best_bids_01: None,
            best_asks_01: None,
            best_bids_02: None,
            best_asks_02: None,
            exchange_01_name,
            exchange_02_name,
            lead_01: 0,
            lead_02: 0,
        }
    }

    /// The consolidated summary of the current state.
    fn current_summary(&self) -> (s: Summary)
        requires
            self@.wf(),
            self@.has_reported(Source::First) || self@.has_reported(Source::Second),
        ensures
            s@ == spec_summary(self@),
    {
        if self.best_bids_01.is_some() && self.best_bids_02.is_some() {
            let bids_01 = self.best_bids_01.as_ref().unwrap();
            let asks_01 = self.best_asks_01.as_ref().unwrap();
            let bids_02 = self.best_bids_02.as_ref().unwrap();
            let asks_02 = self.best_asks_02.as_ref().unwrap();
            let merged_best_bids = merge(bids_01, bids_02, DEPTH, Side::Bid);
            let merged_best_asks = merge(asks_01, asks_02, DEPTH, Side::Ask);
            proof {
                lemma_merge_properties(
                    levels_view(bids_01@),
                    levels_view(bids_02@),
                    DEPTH as nat,
                    Side::Bid,
                );
                lemma_merge_properties(
                    levels_view(asks_01@),
                    levels_view(asks_02@),
                    DEPTH as nat,
                    Side::Ask,
                );
            }
            let spread: i128 = merged_best_asks[0].price as i128 - merged_best_bids[0].price
                as i128;
            Summary { spread, bids: merged_best_bids, asks: merged_best_asks }
        } else if self.best_bids_01.is_some() {
            let bids = self.best_bids_01.as_ref().unwrap();
            let asks = self.best_asks_01.as_ref().unwrap();
            let spread: i128 = asks[0].price as i128 - bids[0].price as i128;
            Summary { spread, bids: copy_levels(bids), asks: copy_levels(asks) }
        } else {
            let bids = self.best_bids_02.as_ref().unwrap();
            let asks = self.best_asks_02.as_ref().unwrap();
            let spread: i128 = asks[0].price as i128 - bids[0].price as i128;
            Summary { spread, bids: copy_levels(bids), asks: copy_levels(asks) }
        }
    }

    /// Consumes one update from one source: replaces that source's stored
    /// books wholesale, advances the staleness counters, and publishes the
    /// consolidated summary through `spmc` before returning. The returned
    /// warning, owed exactly when the reporting source's lead has reached the
    /// tolerance, names the source and the magnitude; it never blocks the
    /// publication that has already happened.
    pub fn process(
        &mut self,
        source: Source,
        snapshot: OrderbookSnapshot,
        spmc: &mut Distributor,
    ) -> (warning: Option<LeadWarning>)
        requires
            old(self)@.wf(),
            snapshot.wf(),
            old(spmc)@.wf(),
            old(self)@.lead(source) < u64::MAX,
        ensures
            final(self)@ == spec_update(
                old(self)@,
                source,
                levels_view(snapshot.bids@),
                levels_view(snapshot.asks@),
            ),
            final(self)@.wf(),
            final(spmc)@.wf(),
            final(spmc)@.next_id == old(spmc)@.next_id,
            final(spmc)@.capacity == old(spmc)@.capacity,
            final(spmc)@.subs == deliver_all(
                old(spmc)@.subs,
                old(spmc)@.capacity as int,
                spec_summary(final(self)@),
            ),
            opt_warning_view(warning) == spec_warning(final(self)@, source),
    {
        let warning: Option<LeadWarning>;
        match source {
            Source::First => {
                self.best_bids_01 = Some(snapshot.bids);
                self.best_asks_01 = Some(snapshot.asks);
                self.lead_01 = self.lead_01 + 1;
                self.lead_02 = 0;
                warning = if self.lead_01 >= LEAD_TOLERANCE {
                    Some(
                        LeadWarning { exchange: self.exchange_01_name.clone(), lead: self.lead_01 },
                    )
                } else {
                    None
                };
            }
            Source::Second => {
                self.best_bids_02 = Some(snapshot.bids);
                self.best_asks_02 = Some(snapshot.asks);
                self.lead_01 = 0;
                self.lead_02 = self.lead_02 + 1;
                warning = if self.lead_02 >= LEAD_TOLERANCE {
                    Some(
                        LeadWarning { exchange: self.exchange_02_name.clone(), lead: self.lead_02 },
                    )
                } else {
                    None
                };
            }
        }
        proof {
            assert(self@ =~= spec_update(
                old(self)@,
                source,
                levels_view(snapshot.bids@),
                levels_view(snapshot.asks@),
            ));
        }
        let summary = self.current_summary();
        spmc.broadcast(&summary);
        warning
    }
}

/// Idempotence of publication: reprocessing an unchanged snapshot for one
/// source while the other source's stored books are unchanged reproduces the
/// same published summary (only the staleness counters move).
pub proof fn lemma_process_idempotent(
    s0: AggregatorV,
    source: Source,
    bids: Seq<LevelV>,
    asks: Seq<LevelV>,
)
    ensures
        spec_summary(spec_update(spec_update(s0, source, bids, asks), source, bids, asks))
            == spec_summary(spec_update(s0, source, bids, asks)),
{
    let s1 = spec_update(s0, source, bids, asks);
    let s2 = spec_update(s1, source, bids, asks);
    assert(s2.bids_01 == s1.bids_01);
    assert(s2.asks_01 == s1.asks_01);
    assert(s2.bids_02 == s1.bids_02);
    assert(s2.asks_02 == s1.asks_02);
}

/// Single-source fallback: while the other source has never reported, an
/// update from one source publishes that source's own books verbatim, with the
/// spread taken from its own top levels.
pub proof fn lemma_single_source_fallback(
    s0: AggregatorV,
    source: Source,
    bids: Seq<LevelV>,
    asks: Seq<LevelV>,
)
    requires
        !s0.has_reported(other(source)),
        bids.len() > 0,
        asks.len() > 0,
    ensures
        spec_summary(spec_update(s0, source, bids, asks)) == (SummaryV {
            spread: asks[0].price - bids[0].price,
            bids,
            asks,
        }),
{
}

/// A run of consecutive updates, all from one source.
pub open spec fn spec_run_same_source(
    s: AggregatorV,
    source: Source,
    snaps: Seq<(Seq<LevelV>, Seq<LevelV>)>,
) -> AggregatorV
    decreases snaps.len(),
{
    if snaps.len() == 0 {
        s
    } else {
        spec_run_same_source(
            spec_update(s, source, snaps[0].0, snaps[0].1),
            source,
            snaps.drop_first(),
        )
    }
}

/// Staleness accounting: after `k >= 1` consecutive updates from one source
/// with none from the other, the reporting source's counter has grown by `k`
/// and the other source's counter is zero; the next update from the other
/// source resets the reporting source's counter to zero.
pub proof fn lemma_staleness_counter(
    s0: AggregatorV,
    source: Source,
    snaps: Seq<(Seq<LevelV>, Seq<LevelV>)>,
    next_bids: Seq<LevelV>,
    next_asks: Seq<LevelV>,
)
    requires
        snaps.len() >= 1,
    ensures
        spec_run_same_source(s0, source, snaps).lead(source) == s0.lead(source) + snaps.len(),
        spec_run_same_source(s0, source, snaps).lead(other(source)) == 0,
        spec_update(
            spec_run_same_source(s0, source, snaps),
            other(source),
            next_bids,
            next_asks,
        ).lead(source) == 0,
    decreases snaps.len(),
{
    let s1 = spec_update(s0, source, snaps[0].0, snaps[0].1);
    if snaps.len() == 1 {
        assert(spec_run_same_source(s1, source, snaps.drop_first()) == s1);
    } else {
        lemma_staleness_counter(s1, source, snaps.drop_first(), next_bids, next_asks);
    }
}

} // verus!
