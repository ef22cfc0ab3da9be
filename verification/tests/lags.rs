use processor::lags::{meta_data, time_series_data, y_data, MetaRow, Snapshot, LAGS};
use processor::rows::{Auction, AuctionRow, FeatureRow, JoinedBid, Stats, Wide};

fn stats(total_spend: usize) -> Stats {
    Stats {
        total_spend,
        wins: 1,
        sum_delta: 12,
        sum_delta_sq: Wide { hi: 0, lo: 144 },
        sum_price: 3,
        sum_price_sq: Wide { hi: 0, lo: 9 },
    }
}

fn row(auction_id: i32, price: u64, stats: Option<Stats>) -> FeatureRow {
    FeatureRow {
        bid: JoinedBid {
            auction_id,
            price,
            timestamp: 1_000 * price as i64,
            username: "ann".to_string(),
            delta: 10 * price as i64 + auction_id as i64,
            prior_bid_dist: price as i64 - 1,
            final_bid: price == 3,
            stats,
        },
        auction: AuctionRow {
            auction: Auction {
                auction_id,
                start_time: 0,
                bin_price: 1_000 + auction_id as u64,
                no_jumper_limit: 50,
                exchangeable: true,
                one_per_user: false,
                no_re_entry: true,
                is_bindolence: Some(false),
                percent_off: Some(5),
                end_time: Some(9),
            },
            start_hour: 7,
            start_minute: 42,
        },
    }
}

fn snapshot(auction_id: i32, price: u64, stats: Option<Stats>) -> Option<Snapshot> {
    Some(Snapshot { prior_bid_dist: price as i64 - 1, delta: 10 * price as i64 + auction_id as i64, stats })
}

#[test]
fn a_window_has_nine_entries() {
    assert_eq!(LAGS, 8);
    let out = time_series_data(&vec![row(1, 1, None)]);
    assert_eq!(out.len(), 1);
    assert_eq!(out[0].lags.len(), 9);
    assert_eq!(out[0].lags[0], snapshot(1, 1, None));
    assert!(out[0].lags[1..].iter().all(|lag| lag.is_none()));
}

#[test]
fn lags_stay_within_the_auction() {
    let df = vec![
        row(1, 1, None),
        row(2, 1, None),
        row(1, 2, Some(stats(4))),
        row(2, 2, Some(stats(6))),
        row(1, 3, Some(stats(5))),
    ];
    let out = time_series_data(&df);
    assert_eq!(out.len(), 5);
    let last = &out[4].lags;
    assert_eq!(last[0], snapshot(1, 3, Some(stats(5))));
    assert_eq!(last[1], snapshot(1, 2, Some(stats(4))));
    assert_eq!(last[2], snapshot(1, 1, None));
    assert!(last[3..].iter().all(|lag| lag.is_none()));
    let other = &out[3].lags;
    assert_eq!(other[0], snapshot(2, 2, Some(stats(6))));
    assert_eq!(other[1], snapshot(2, 1, None));
    assert_eq!(other[2], None);
}

#[test]
fn lags_reach_back_eight_bids() {
    let df: Vec<FeatureRow> = (1..=12).map(|price| row(1, price, None)).collect();
    let out = time_series_data(&df);
    let last = &out[11].lags;
    for k in 0..=8usize {
        assert_eq!(last[k], snapshot(1, 12 - k as u64, None));
    }
    let ninth = &out[8].lags;
    assert_eq!(ninth[8], snapshot(1, 1, None));
    let eighth = &out[7].lags;
    assert_eq!(eighth[7], snapshot(1, 1, None));
    assert_eq!(eighth[8], None);
}

#[test]
fn static_features_of_a_row() {
    let out = meta_data(&vec![row(3, 2, None)]);
    assert_eq!(
        out,
        vec![MetaRow {
            price: 2,
            bin_price: 1_003,
            no_jumper_limit: 50,
            exchangeable: true,
            one_per_user: false,
            no_re_entry: true,
            is_bindolence: Some(false),
            percent_off: Some(5),
            start_hour: 7,
            start_minute: 42,
        }]
    );
}

#[test]
fn labels_are_the_final_bid_flags() {
    let df = vec![row(1, 1, None), row(1, 3, None), row(2, 3, None), row(2, 2, None)];
    assert_eq!(y_data(&df), vec![false, true, true, false]);
    assert!(y_data(&Vec::new()).is_empty());
}
