use orderbook_agg::book::{Level, Side};
use orderbook_agg::merge::merge;
use orderbook_agg::DEPTH;

fn level(price: u64, amount: u64, exchange: &str) -> Level {
    Level { price, amount, exchange: exchange.to_string() }
}

fn book(prices: &[u64], amount: u64, exchange: &str) -> Vec<Level> {
    prices.iter().map(|p| level(*p, amount, exchange)).collect()
}

#[test]
fn should_merge_bids() {
    let levels_01 = book(&[20, 19, 18, 17, 16, 15, 14, 13, 12, 11], 13, "");
    let levels_02 = book(&[26, 24, 22, 20, 18, 16, 14, 12, 10, 8], 37, "");

    let merged = merge(&levels_01, &levels_02, DEPTH, Side::Bid);

    assert!(merged[0].amount == 37 && merged[0].price == 26);
    assert!(merged[1].amount == 37 && merged[1].price == 24);
    assert!(merged[2].amount == 37 && merged[2].price == 22);
    assert!(merged[3].amount == 37 && merged[3].price == 20);
    assert!(merged[4].amount == 13 && merged[4].price == 20);
    assert!(merged[5].amount == 13 && merged[5].price == 19);
    assert!(merged[6].amount == 37 && merged[6].price == 18);
    assert!(merged[7].amount == 13 && merged[7].price == 18);
    assert!(merged[8].amount == 13 && merged[8].price == 17);
    assert!(merged[9].amount == 37 && merged[9].price == 16);
}

#[test]
fn should_merge_asks() {
    let levels_01 = book(&[10, 11, 12, 13, 14, 15, 16, 17, 18, 19], 13, "");
    let levels_02 = book(&[6, 8, 10, 12, 14, 16, 18, 20, 22, 24], 37, "");

    let merged = merge(&levels_01, &levels_02, DEPTH, Side::Ask);

    assert!(merged[0].amount == 37 && merged[0].price == 6);
    assert!(merged[1].amount == 37 && merged[1].price == 8);
    assert!(merged[2].amount == 13 && merged[2].price == 10);
    assert!(merged[3].amount == 37 && merged[3].price == 10);
    assert!(merged[4].amount == 13 && merged[4].price == 11);
    assert!(merged[5].amount == 13 && merged[5].price == 12);
    assert!(merged[6].amount == 37 && merged[6].price == 12);
    assert!(merged[7].amount == 13 && merged[7].price == 13);
    assert!(merged[8].amount == 13 && merged[8].price == 14);
    assert!(merged[9].amount == 37 && merged[9].price == 14);
}

#[test]
fn should_merge_real_data_bids() {
    // Live bid prices, quoted in fixed-point units of 1e-8.
    let levels_01 = book(
        &[
            7450500, 7450200, 7450100, 7449600, 7449200, 7449000, 7448900, 7448800, 7448600,
            7448500,
        ],
        1,
        "Binance",
    );
    let levels_02 = book(
        &[
            7448857, 7446791, 7446225, 7444281, 7443557, 7443065, 7442312, 7442092, 7441886,
            7441000,
        ],
        1,
        "Bitstamp",
    );

    let merged = merge(&levels_01, &levels_02, DEPTH * 2, Side::Bid);

    assert!(merged[0].price == 7450500 && merged[0].exchange == "Binance".to_string());
    assert!(merged[1].price == 7450200 && merged[1].exchange == "Binance".to_string());
    assert!(merged[2].price == 7450100 && merged[2].exchange == "Binance".to_string());
    assert!(merged[3].price == 7449600 && merged[3].exchange == "Binance".to_string());
    assert!(merged[4].price == 7449200 && merged[4].exchange == "Binance".to_string());
    assert!(merged[5].price == 7449000 && merged[5].exchange == "Binance".to_string());
    assert!(merged[6].price == 7448900 && merged[6].exchange == "Binance".to_string());
    assert!(merged[7].price == 7448857 && merged[7].exchange == "Bitstamp".to_string());
    assert!(merged[8].price == 7448800 && merged[8].exchange == "Binance".to_string());
    assert!(merged[9].price == 7448600 && merged[9].exchange == "Binance".to_string());
    assert!(merged[10].price == 7448500 && merged[10].exchange == "Binance".to_string());
    assert!(merged[11].price == 7446791 && merged[11].exchange == "Bitstamp".to_string());
    assert!(merged[12].price == 7446225 && merged[12].exchange == "Bitstamp".to_string());
    assert!(merged[19].price == 7441000 && merged[19].exchange == "Bitstamp".to_string());
}

#[test]
fn bid_tie_prefers_second_source_ask_tie_prefers_first() {
    let levels_01 = book(&[50, 49, 48, 47, 46, 45, 44, 43, 42, 41], 13, "one");
    let levels_02 = book(&[50, 49, 48, 47, 46, 45, 44, 43, 42, 41], 37, "two");

    let merged_bids = merge(&levels_01, &levels_02, DEPTH, Side::Bid);
    assert_eq!(merged_bids[0].price, 50);
    assert_eq!(merged_bids[0].amount, 37);
    assert_eq!(merged_bids[0].exchange, "two".to_string());
    assert_eq!(merged_bids[1].amount, 13);
    assert_eq!(merged_bids[1].exchange, "one".to_string());

    let asks_01 = book(&[41, 42, 43, 44, 45, 46, 47, 48, 49, 50], 13, "one");
    let asks_02 = book(&[41, 42, 43, 44, 45, 46, 47, 48, 49, 50], 37, "two");
    let merged_asks = merge(&asks_01, &asks_02, DEPTH, Side::Ask);
    assert_eq!(merged_asks[0].price, 41);
    assert_eq!(merged_asks[0].amount, 13);
    assert_eq!(merged_asks[0].exchange, "one".to_string());
    assert_eq!(merged_asks[1].amount, 37);
    assert_eq!(merged_asks[1].exchange, "two".to_string());
}

#[test]
fn merge_is_capped_and_sorted() {
    let levels_01 = book(&[20, 19, 18, 17, 16, 15, 14, 13, 12, 11], 13, "one");
    let levels_02 = book(&[26, 24, 22, 20, 18, 16, 14, 12, 10, 8], 37, "two");

    let merged = merge(&levels_01, &levels_02, DEPTH, Side::Bid);
    assert_eq!(merged.len(), DEPTH);
    for w in merged.windows(2) {
        assert!(w[0].price >= w[1].price);
    }

    let all = merge(&levels_01, &levels_02, DEPTH * 3, Side::Bid);
    assert_eq!(all.len(), DEPTH * 2);
}
