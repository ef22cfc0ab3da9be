use processor::filter::{adf_bdf_remove_incomplete_auctions, bids_after, is_complete};
use processor::rows::{Auction, Bid};

fn auction_with_end(auction_id: i32, end_time: Option<i64>) -> Auction {
    Auction {
        auction_id,
        start_time: 1_000,
        bin_price: 2_500,
        no_jumper_limit: 100,
        exchangeable: true,
        one_per_user: false,
        no_re_entry: false,
        is_bindolence: Some(true),
        percent_off: Some(10),
        end_time,
    }
}

fn placed(auction_id: i32, price: u64) -> Bid {
    Bid { auction_id, price, timestamp: 2_000 + price as i64, username: "ann".to_string() }
}

#[test]
fn auction_with_a_gap_is_excluded() {
    let adf = vec![auction_with_end(1, Some(9_000))];
    let bdf = vec![placed(1, 1), placed(1, 2), placed(1, 4)];
    assert!(!is_complete(&adf[0], &bdf));
    let (auctions, bids) = adf_bdf_remove_incomplete_auctions(&adf, &bdf);
    assert!(auctions.is_empty());
    assert!(bids.is_empty());
}

#[test]
fn only_complete_auctions_and_their_bids_stay() {
    let adf = vec![
        auction_with_end(1, Some(9_000)),
        auction_with_end(2, Some(9_000)),
        auction_with_end(3, None),
        auction_with_end(4, Some(9_000)),
        auction_with_end(5, Some(9_000)),
    ];
    let bdf = vec![
        placed(2, 1),
        placed(1, 1),
        placed(3, 1),
        placed(2, 2),
        placed(1, 2),
        placed(99, 1),
        placed(2, 4),
        placed(3, 2),
        placed(1, 3),
        placed(5, 1),
    ];
    let (auctions, bids) = adf_bdf_remove_incomplete_auctions(&adf, &bdf);
    assert_eq!(auctions, vec![adf[0], adf[4]]);
    assert_eq!(bids, vec![placed(1, 1), placed(1, 2), placed(1, 3), placed(5, 1)]);
}

#[test]
fn auction_without_bids_is_not_complete() {
    let adf = vec![auction_with_end(4, Some(9_000))];
    let bdf: Vec<Bid> = Vec::new();
    assert!(!is_complete(&adf[0], &bdf));
    let (auctions, bids) = adf_bdf_remove_incomplete_auctions(&adf, &bdf);
    assert!(auctions.is_empty());
    assert!(bids.is_empty());
}

#[test]
fn repeated_counter_is_not_complete() {
    let adf = vec![auction_with_end(1, Some(9_000))];
    let bdf = vec![placed(1, 1), placed(1, 1), placed(1, 2)];
    assert!(!is_complete(&adf[0], &bdf));
}

#[test]
fn bids_after_a_point_in_time() {
    let bdf = vec![placed(1, 1), placed(1, 2), placed(1, 3)];
    let kept = bids_after(&bdf, 2_002);
    assert_eq!(kept, vec![placed(1, 3)]);
    assert_eq!(bids_after(&bdf, i64::MIN), bdf);
    assert!(bids_after(&bdf, i64::MAX).is_empty());
}
