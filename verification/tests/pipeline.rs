use processor::pipeline::{adf_bdf_make_df, process_data, write_frames};
use processor::rows::{Auction, AuctionRow, Bid, JoinedBid};

const SECOND: i64 = 1_000_000;
const MINUTE: i64 = 60 * SECOND;
const HOUR: i64 = 60 * MINUTE;
const DAY: i64 = 24 * HOUR;

fn recorded_auction(auction_id: i32, start_time: i64, ended: bool) -> Auction {
    Auction {
        auction_id,
        start_time,
        bin_price: 9_900,
        no_jumper_limit: 300,
        exchangeable: false,
        one_per_user: false,
        no_re_entry: false,
        is_bindolence: None,
        percent_off: if auction_id % 2 == 0 { Some(20) } else { None },
        end_time: if ended { Some(start_time + HOUR) } else { None },
    }
}

fn recorded() -> (Vec<Auction>, Vec<Bid>) {
    let users = ["ann", "bob", "cy"];
    let mut adf = Vec::new();
    let mut bdf = Vec::new();
    for k in 0..12i32 {
        let start = (k as i64) * DAY + (k as i64) * 7 * MINUTE;
        adf.push(recorded_auction(k, start, k != 4));
        for price in 1..=5u64 {
            if k == 6 && price == 3 {
                continue;
            }
            bdf.push(Bid {
                auction_id: k,
                price,
                timestamp: start + (price as i64) * 11 * SECOND + 500_000,
                username: users[((k as u64 + price) % 3) as usize].to_string(),
            });
        }
    }
    bdf.push(Bid { auction_id: 77, price: 1, timestamp: 5, username: "ghost".to_string() });
    (adf, bdf)
}

#[test]
fn joining_bids_with_auctions() {
    let auction = |auction_id: i32| AuctionRow {
        auction: recorded_auction(auction_id, 100, true),
        start_hour: 1,
        start_minute: 2,
    };
    let bid = |auction_id: i32, price: u64| JoinedBid {
        auction_id,
        price,
        timestamp: 200,
        username: "ann".to_string(),
        delta: 3,
        prior_bid_dist: -1,
        final_bid: false,
        stats: None,
    };
    let adf = vec![auction(1), auction(2)];
    let bdf = vec![bid(2, 1), bid(3, 1), bid(1, 1), bid(2, 2)];
    let df = adf_bdf_make_df(&adf, &bdf);
    assert_eq!(df.len(), 3);
    assert_eq!(df[0].bid, bid(2, 1));
    assert_eq!(df[0].auction, auction(2));
    assert_eq!(df[1].bid, bid(1, 1));
    assert_eq!(df[1].auction, auction(1));
    assert_eq!(df[2].bid, bid(2, 2));
}

#[test]
fn run_keeps_complete_auctions_only() {
    let (adf, bdf) = recorded();
    let out = process_data(&adf, &bdf);
    assert_eq!(out.df.len(), 10 * 5);
    assert!(out.df.iter().all(|r| r.bid.auction_id != 4 && r.bid.auction_id != 6 && r.bid.auction_id != 77));
    assert!(out.df.iter().all(|r| r.auction.auction.is_bindolence == Some(false)));
    assert!(out.df.iter().all(|r| r.auction.auction.percent_off.is_some()));
    assert!(out.df.windows(2).all(|w| w[0].bid.timestamp <= w[1].bid.timestamp));
}

#[test]
fn run_gives_nonnegative_deltas_and_one_final_bid_per_auction() {
    let (adf, bdf) = recorded();
    let out = process_data(&adf, &bdf);
    for row in out.df.iter() {
        assert!(row.bid.delta >= 0);
        assert_eq!(row.bid.final_bid, row.bid.price == 5);
        assert_eq!(row.bid.delta, if row.bid.price == 1 { 11 } else { 11 });
    }
    for k in [0, 1, 2, 3, 5, 7, 8, 9, 10, 11] {
        assert_eq!(out.df.iter().filter(|r| r.bid.auction_id == k && r.bid.final_bid).count(), 1);
    }
}

#[test]
fn run_splits_by_auction_after_the_warm_up() {
    let (adf, bdf) = recorded();
    let out = process_data(&adf, &bdf);
    let retained = [5, 7, 8, 9, 10, 11];
    let count = |frames: &processor::pipeline::Frames| frames.y.len();
    assert_eq!(count(&out.train) + count(&out.val) + count(&out.test), retained.len() * 5);
    assert_eq!(count(&out.train), 4 * 5);
    assert_eq!(count(&out.val), 5);
    assert_eq!(count(&out.test), 5);
    for frames in [&out.train, &out.val, &out.test] {
        assert_eq!(frames.tdf.len(), frames.mdf.len());
        assert_eq!(frames.tdf.len(), frames.y.len());
        assert!(frames.tdf.iter().all(|r| r.lags.len() == 9 && r.lags[0].is_some()));
        assert_eq!(frames.y.iter().filter(|won| **won).count() * 5, frames.y.len());
    }
}

#[test]
fn run_twice_gives_the_same_tables() {
    let (adf, bdf) = recorded();
    let first = process_data(&adf, &bdf);
    let second = process_data(&adf, &bdf);
    assert_eq!(first, second);
    assert!(!first.user_stats.is_empty());
}

#[test]
fn frames_of_a_part() {
    let (adf, bdf) = recorded();
    let out = process_data(&adf, &bdf);
    let frames = write_frames(&out.df);
    assert_eq!(frames.tdf.len(), out.df.len());
    assert_eq!(frames.mdf.len(), out.df.len());
    assert_eq!(frames.y, out.df.iter().map(|r| r.bid.final_bid).collect::<Vec<bool>>());
    assert_eq!(frames.mdf[0].price, out.df[0].bid.price);
}

#[test]
fn run_on_nothing() {
    let out = process_data(&Vec::new(), &Vec::new());
    assert!(out.df.is_empty() && out.user_stats.is_empty());
    assert!(out.train.y.is_empty() && out.val.y.is_empty() && out.test.y.is_empty());
}
