use processor::history::{bdf_user_historical_stats, bdf_user_stats_join, EVERY, OFFSET, PERIOD};
use processor::rows::{BidRow, Stats, UserStat, Wide};

const MINUTE: i64 = 60_000_000;
const DAY: i64 = 86_400_000_000;

fn wide(lo: u128) -> Wide {
    Wide { hi: 0, lo }
}

fn indexed(rows: Vec<(&str, i64, u64, i64, bool)>) -> Vec<BidRow> {
    rows.into_iter()
        .enumerate()
        .map(|(idx, (username, timestamp, price, delta, final_bid))| BidRow {
            auction_id: 1,
            price,
            timestamp,
            username: username.to_string(),
            delta,
            prior_bid_dist: -1,
            final_bid,
            idx,
        })
        .collect()
}

#[test]
fn window_constants() {
    assert_eq!(EVERY, 30 * MINUTE);
    assert_eq!(OFFSET, 30 * MINUTE);
    assert_eq!(PERIOD, 4 * DAY);
}

#[test]
fn buckets_of_one_user() {
    let bdf = indexed(vec![
        ("ann", 10 * MINUTE, 1, 600, false),
        ("ann", 40 * MINUTE, 2, 1800, false),
        ("ann", 70 * MINUTE, 3, 1800, true),
    ]);
    let stats = bdf_user_historical_stats(&bdf);
    let expected = vec![
        UserStat {
            username: "ann".to_string(),
            idx: 1,
            stats: Stats {
                total_spend: 2,
                wins: 1,
                sum_delta: 3600,
                sum_delta_sq: wide(6_480_000),
                sum_price: 5,
                sum_price_sq: wide(13),
            },
        },
        UserStat {
            username: "ann".to_string(),
            idx: 2,
            stats: Stats {
                total_spend: 1,
                wins: 1,
                sum_delta: 1800,
                sum_delta_sq: wide(3_240_000),
                sum_price: 3,
                sum_price_sq: wide(9),
            },
        },
    ];
    assert_eq!(stats, expected);
}

#[test]
fn first_bid_of_a_user_has_no_history() {
    let bdf = indexed(vec![
        ("ann", 10 * MINUTE, 1, 600, false),
        ("ann", 40 * MINUTE, 2, 1800, false),
        ("ann", 70 * MINUTE, 3, 1800, true),
    ]);
    let stats = bdf_user_historical_stats(&bdf);
    let joined = bdf_user_stats_join(&bdf, &stats);
    assert_eq!(joined.len(), 3);
    assert_eq!(joined[0].stats, None);
    assert_eq!(joined[1].stats, Some(stats[0].stats));
    assert_eq!(joined[2].stats, Some(stats[1].stats));
    assert_eq!(joined[1].username, "ann");
    assert_eq!(joined[2].price, 3);
    assert_eq!(joined[2].final_bid, true);
}

#[test]
fn user_with_a_single_bid_has_no_bucket() {
    let bdf = indexed(vec![("solo", 17 * MINUTE, 1, 5, true)]);
    let stats = bdf_user_historical_stats(&bdf);
    assert!(stats.is_empty());
    let joined = bdf_user_stats_join(&bdf, &stats);
    assert_eq!(joined[0].stats, None);
}

#[test]
fn equal_buckets_are_kept_once() {
    let bdf = indexed(vec![("ann", 10 * MINUTE, 1, 600, false), ("ann", 70 * MINUTE, 2, 3600, true)]);
    let stats = bdf_user_historical_stats(&bdf);
    assert_eq!(stats.len(), 1);
    assert_eq!(stats[0].idx, 1);
    assert_eq!(stats[0].stats.total_spend, 1);
    assert_eq!(stats[0].stats.sum_delta, 3600);
}

#[test]
fn window_closes_after_four_days() {
    let bdf = indexed(vec![
        ("ann", 0, 1, 0, false),
        ("ann", 30 * MINUTE, 2, 1800, false),
        ("ann", 30 * MINUTE + 4 * DAY - 1, 3, 7, false),
        ("ann", 30 * MINUTE + 4 * DAY, 4, 9, true),
    ]);
    let stats = bdf_user_historical_stats(&bdf);
    assert_eq!(stats[0].idx, 1);
    assert_eq!(stats[0].stats.total_spend, 2);
    assert_eq!(stats[0].stats.sum_delta, 1807);
    assert_eq!(stats[0].stats.wins, 0);
    assert_eq!(stats[1].idx, 2);
    assert_eq!(stats[1].stats.total_spend, 2);
    assert_eq!(stats[1].stats.sum_delta, 16);
    assert_eq!(stats[1].stats.wins, 1);
    let last = stats.last().unwrap();
    assert_eq!(last.idx, 3);
    assert_eq!(last.stats.total_spend, 1);
}

#[test]
fn table_is_ordered_by_username() {
    let bdf = indexed(vec![
        ("bob", 10 * MINUTE, 1, 1, false),
        ("ann", 11 * MINUTE, 2, 2, false),
        ("Zed", 12 * MINUTE, 3, 3, false),
        ("bob", 50 * MINUTE, 4, 4, false),
        ("ann", 51 * MINUTE, 5, 5, false),
        ("Zed", 52 * MINUTE, 6, 6, true),
        ("annabel", 53 * MINUTE, 7, 7, false),
        ("annabel", 95 * MINUTE, 8, 8, false),
    ]);
    let stats = bdf_user_historical_stats(&bdf);
    let names: Vec<&str> = stats.iter().map(|s| s.username.as_str()).collect();
    assert_eq!(names, vec!["Zed", "ann", "annabel", "bob"]);
    assert_eq!(stats.iter().map(|s| s.idx).collect::<Vec<usize>>(), vec![5, 4, 7, 3]);
}

#[test]
fn joined_bucket_never_starts_after_the_bid() {
    let mut rows = Vec::new();
    for k in 0..40i64 {
        let name = if k % 3 == 0 { "ann" } else if k % 3 == 1 { "bob" } else { "cy" };
        rows.push((name, k * 17 * MINUTE, (k + 1) as u64, k, k % 7 == 0));
    }
    let bdf = indexed(rows);
    let stats = bdf_user_historical_stats(&bdf);
    let joined = bdf_user_stats_join(&bdf, &stats);
    for (bid, with_history) in bdf.iter().zip(joined.iter()) {
        let eligible: Vec<&UserStat> =
            stats.iter().filter(|s| s.username == bid.username && s.idx <= bid.idx).collect();
        match with_history.stats {
            Some(found) => {
                let latest = eligible.iter().map(|s| s.idx).max().unwrap();
                assert!(latest <= bid.idx);
                assert!(eligible.iter().any(|s| s.idx == latest && s.stats == found));
            }
            None => assert!(eligible.is_empty()),
        }
    }
    assert_eq!(joined[0].stats, None);
    assert_eq!(joined[1].stats, None);
    assert_eq!(joined[2].stats, None);
    assert!(joined[39].stats.is_some());
}

#[test]
fn join_takes_the_last_of_equal_indices() {
    let bdf = indexed(vec![("ann", 0, 1, 0, false), ("ann", 1, 2, 0, false), ("ann", 2, 3, 0, false)]);
    let stat = |username: &str, idx: usize, total_spend: usize| UserStat {
        username: username.to_string(),
        idx,
        stats: Stats {
            total_spend,
            wins: 0,
            sum_delta: 0,
            sum_delta_sq: wide(0),
            sum_price: 0,
            sum_price_sq: wide(0),
        },
    };
    let stats = vec![stat("ann", 1, 10), stat("bob", 0, 20), stat("ann", 1, 30), stat("ann", 3, 40)];
    let joined = bdf_user_stats_join(&bdf, &stats);
    assert_eq!(joined[0].stats, None);
    assert_eq!(joined[1].stats.map(|s| s.total_spend), Some(30));
    assert_eq!(joined[2].stats.map(|s| s.total_spend), Some(30));
}

#[test]
fn sums_of_squares_beyond_128_bits() {
    let bdf = indexed(vec![
        ("ann", 0, 1, 0, false),
        ("ann", 30 * MINUTE, u64::MAX, i64::MIN, false),
        ("ann", 31 * MINUTE, u64::MAX, i64::MIN, false),
    ]);
    let stats = bdf_user_historical_stats(&bdf);
    let first = stats[0].stats;
    assert_eq!(first.total_spend, 2);
    assert_eq!(first.sum_price, 2 * (u64::MAX as u128));
    assert_eq!(first.sum_delta, 2 * (i64::MIN as i128));
    assert_eq!(first.sum_delta_sq, Wide { hi: 0, lo: 1u128 << 127 });
    assert_eq!(first.sum_price_sq, Wide { hi: 1, lo: u128::MAX - (1u128 << 66) + 3 });
}
