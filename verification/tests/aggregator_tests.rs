use orderbook_agg::aggregator::{Aggregator, Source};
use orderbook_agg::book::{Level, OrderbookSnapshot, Summary};
use orderbook_agg::distributor::Distributor;
use orderbook_agg::DEPTH;

fn level(price: u64, amount: u64, exchange: &str) -> Level {
    Level { price, amount, exchange: exchange.to_string() }
}

fn book(prices: &[u64], amount: u64, exchange: &str) -> Vec<Level> {
    prices.iter().map(|p| level(*p, amount, exchange)).collect()
}

/// Bids descending from `top`, asks ascending from `top + 2`.
fn snapshot(top: u64, amount: u64, exchange: &str) -> OrderbookSnapshot {
    let bids: Vec<u64> = (0..DEPTH as u64).map(|i| top - i).collect();
    let asks: Vec<u64> = (0..DEPTH as u64).map(|i| top + 2 + i).collect();
    OrderbookSnapshot {
        bids: book(&bids, amount, exchange),
        asks: book(&asks, amount, exchange),
    }
}

fn assert_summaries_equal(a: &Summary, b: &Summary) {
    assert_eq!(a.spread, b.spread);
    assert_eq!(a.bids.len(), b.bids.len());
    assert_eq!(a.asks.len(), b.asks.len());
    for (x, y) in a.bids.iter().zip(b.bids.iter()) {
        assert_eq!(x.price, y.price);
        assert_eq!(x.amount, y.amount);
        assert_eq!(x.exchange, y.exchange);
    }
    for (x, y) in a.asks.iter().zip(b.asks.iter()) {
        assert_eq!(x.price, y.price);
        assert_eq!(x.amount, y.amount);
        assert_eq!(x.exchange, y.exchange);
    }
}

#[test]
fn single_source_fallback_passes_books_through() {
    let mut agg = Aggregator::new("one".to_string(), "two".to_string());
    let mut dist = Distributor::new(16);
    let handle = dist.subscribe();

    agg.process(Source::First, snapshot(100, 5, "one"), &mut dist);

    let summary = dist.recv(handle).expect("one summary published");
    assert_eq!(summary.bids.len(), DEPTH);
    assert_eq!(summary.asks.len(), DEPTH);
    // the books are passed through verbatim
    for (i, l) in summary.bids.iter().enumerate() {
        assert_eq!(l.price, 100 - i as u64);
        assert_eq!(l.amount, 5);
        assert_eq!(l.exchange, "one".to_string());
    }
    for (i, l) in summary.asks.iter().enumerate() {
        assert_eq!(l.price, 102 + i as u64);
        assert_eq!(l.amount, 5);
        assert_eq!(l.exchange, "one".to_string());
    }
    // spread from the source's own top levels
    assert_eq!(summary.spread, 2);
    assert!(dist.recv(handle).is_none());
}

#[test]
fn merged_summary_caps_at_depth_and_takes_spread_from_merged_tops() {
    let mut agg = Aggregator::new("one".to_string(), "two".to_string());
    let mut dist = Distributor::new(16);
    let handle = dist.subscribe();

    agg.process(Source::First, snapshot(100, 5, "one"), &mut dist);
    agg.process(Source::Second, snapshot(104, 7, "two"), &mut dist);

    // skip the single-source summary
    dist.recv(handle).expect("first summary");
    let summary = dist.recv(handle).expect("merged summary");
    assert_eq!(summary.bids.len(), DEPTH);
    assert_eq!(summary.asks.len(), DEPTH);
    // best bid 104 from the second source, best ask 102 from the first:
    // the merged book is crossed and the negative spread is propagated.
    assert_eq!(summary.bids[0].price, 104);
    assert_eq!(summary.bids[0].exchange, "two".to_string());
    assert_eq!(summary.asks[0].price, 102);
    assert_eq!(summary.asks[0].exchange, "one".to_string());
    assert_eq!(summary.spread, -2);
}

#[test]
fn reprocessing_unchanged_snapshot_reproduces_summary() {
    let mut agg = Aggregator::new("one".to_string(), "two".to_string());
    let mut dist = Distributor::new(16);
    let handle = dist.subscribe();

    agg.process(Source::First, snapshot(100, 5, "one"), &mut dist);
    agg.process(Source::Second, snapshot(101, 7, "two"), &mut dist);
    dist.recv(handle).expect("first summary");
    let merged = dist.recv(handle).expect("merged summary");

    agg.process(Source::Second, snapshot(101, 7, "two"), &mut dist);
    let again = dist.recv(handle).expect("reprocessed summary");
    assert_summaries_equal(&merged, &again);

    agg.process(Source::First, snapshot(100, 5, "one"), &mut dist);
    let again = dist.recv(handle).expect("reprocessed summary");
    assert_summaries_equal(&merged, &again);
}

#[test]
fn staleness_counters_track_consecutive_leads() {
    let mut agg = Aggregator::new("one".to_string(), "two".to_string());
    let mut dist = Distributor::new(64);

    let w1 = agg.process(Source::First, snapshot(100, 5, "one"), &mut dist);
    assert!(w1.is_none());
    assert_eq!(agg.lead_01, 1);
    assert_eq!(agg.lead_02, 0);

    let w2 = agg.process(Source::First, snapshot(100, 5, "one"), &mut dist);
    assert!(w2.is_none());
    assert_eq!(agg.lead_01, 2);
    assert_eq!(agg.lead_02, 0);

    let w3 = agg.process(Source::First, snapshot(100, 5, "one"), &mut dist);
    let warning = w3.expect("tolerance reached");
    assert_eq!(warning.exchange, "one".to_string());
    assert_eq!(warning.lead, 3);
    assert_eq!(agg.lead_01, 3);
    assert_eq!(agg.lead_02, 0);

    // the next update from the other source resets the leader's counter
    let w4 = agg.process(Source::Second, snapshot(99, 7, "two"), &mut dist);
    assert!(w4.is_none());
    assert_eq!(agg.lead_01, 0);
    assert_eq!(agg.lead_02, 1);
}

#[test]
fn warning_keeps_growing_while_lead_grows() {
    let mut agg = Aggregator::new("one".to_string(), "two".to_string());
    let mut dist = Distributor::new(64);

    for _ in 0..4 {
        agg.process(Source::Second, snapshot(200, 1, "two"), &mut dist);
    }
    let w = agg.process(Source::Second, snapshot(200, 1, "two"), &mut dist);
    let warning = w.expect("far past tolerance");
    assert_eq!(warning.exchange, "two".to_string());
    assert_eq!(warning.lead, 5);
}
