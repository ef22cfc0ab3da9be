use processor::rows::{Auction, AuctionRow, FeatureRow, JoinedBid};
use processor::split::{part_of, rank_by_start, train_test_split, warm_up_span, Part, Started};

const HOUR: i64 = 3_600_000_000;
const DAY: i64 = 24 * HOUR;

fn row(auction_id: i32, start_time: i64, price: u64) -> FeatureRow {
    FeatureRow {
        bid: JoinedBid {
            auction_id,
            price,
            timestamp: start_time + 1_000_000 * price as i64,
            username: "ann".to_string(),
            delta: 1,
            prior_bid_dist: -1,
            final_bid: false,
            stats: None,
        },
        auction: AuctionRow {
            auction: Auction {
                auction_id,
                start_time,
                bin_price: 100,
                no_jumper_limit: 10,
                exchangeable: false,
                one_per_user: false,
                no_re_entry: false,
                is_bindolence: Some(false),
                percent_off: Some(0),
                end_time: Some(start_time + HOUR),
            },
            start_hour: 0,
            start_minute: 0,
        },
    }
}

fn ids(rows: &Vec<FeatureRow>) -> Vec<i32> {
    rows.iter().map(|r| r.bid.auction_id).collect()
}

#[test]
fn warm_up_is_four_days_and_one_hour() {
    assert_eq!(warm_up_span(), 349_200_000_000);
    assert_eq!(warm_up_span(), 4 * DAY + HOUR);
}

#[test]
fn ten_auctions_split_seven_two_one() {
    let mut df = vec![row(0, 0, 1)];
    for k in 1..=10 {
        df.push(row(k, 5 * DAY + (k as i64) * HOUR, 1));
        df.push(row(k, 5 * DAY + (k as i64) * HOUR, 2));
    }
    let (train, val, test) = train_test_split(&df);
    assert_eq!(ids(&train), vec![1, 1, 2, 2, 3, 3, 4, 4, 5, 5, 6, 6, 7, 7]);
    assert_eq!(ids(&val), vec![8, 8, 9, 9]);
    assert_eq!(ids(&test), vec![10, 10]);
}

#[test]
fn every_retained_auction_is_in_exactly_one_part() {
    let mut df = vec![row(0, 0, 1)];
    for k in 1..=23 {
        let start = 5 * DAY + ((k * 7) % 23) as i64 * HOUR;
        for price in 1..=3 {
            df.push(row(k, start, price));
        }
    }
    let (train, val, test) = train_test_split(&df);
    assert_eq!(train.len() + val.len() + test.len(), 23 * 3);
    for k in 1..=23 {
        let places = [&train, &val, &test].iter().filter(|part| part.iter().any(|r| r.bid.auction_id == k)).count();
        assert_eq!(places, 1);
    }
    assert!(![&train, &val, &test].iter().any(|part| part.iter().any(|r| r.bid.auction_id == 0)));
    assert_eq!(train.len() / 3, 14);
    assert_eq!(val.len() / 3, 5);
    assert_eq!(test.len() / 3, 4);
}

#[test]
fn parts_follow_start_time_not_table_order() {
    let df = vec![
        row(0, 0, 1),
        row(5, 9 * DAY, 1),
        row(4, 8 * DAY, 1),
        row(3, 7 * DAY, 1),
        row(2, 6 * DAY, 1),
        row(1, 5 * DAY, 1),
    ];
    let (train, val, test) = train_test_split(&df);
    assert_eq!(ids(&train), vec![4, 3, 2, 1]);
    assert_eq!(ids(&val), vec![5]);
    assert_eq!(ids(&test), Vec::<i32>::new());
}

#[test]
fn start_at_the_end_of_the_warm_up_is_left_out() {
    let span = warm_up_span();
    let df = vec![row(0, 1_000, 1), row(1, 1_000 + span, 1), row(2, 1_000 + span + 1, 1)];
    let (train, val, test) = train_test_split(&df);
    assert_eq!(ids(&train), vec![2]);
    assert!(val.is_empty());
    assert!(test.is_empty());
}

#[test]
fn empty_table_gives_empty_parts() {
    let (train, val, test) = train_test_split(&Vec::new());
    assert!(train.is_empty() && val.is_empty() && test.is_empty());
}

#[test]
fn table_within_the_warm_up_gives_empty_parts() {
    let df = vec![row(1, 0, 1), row(2, DAY, 1), row(3, 4 * DAY, 1)];
    let (train, val, test) = train_test_split(&df);
    assert!(train.is_empty() && val.is_empty() && test.is_empty());
}

#[test]
fn parts_of_ranks() {
    assert_eq!(part_of(0, 1), Part::Train);
    assert_eq!(part_of(0, 10), Part::Train);
    assert_eq!(part_of(6, 10), Part::Train);
    assert_eq!(part_of(7, 10), Part::Validation);
    assert_eq!(part_of(8, 10), Part::Validation);
    assert_eq!(part_of(9, 10), Part::Test);
    assert_eq!(part_of(1, 2), Part::Train);
    assert_eq!(part_of(2, 4), Part::Train);
    assert_eq!(part_of(3, 4), Part::Validation);
    assert_eq!(part_of(usize::MAX - 1, usize::MAX), Part::Test);
}

#[test]
fn ranking_is_stable() {
    let auctions = vec![
        Started { auction_id: 1, start_time: 30 },
        Started { auction_id: 2, start_time: 10 },
        Started { auction_id: 3, start_time: 30 },
        Started { auction_id: 4, start_time: -7 },
        Started { auction_id: 5, start_time: 10 },
    ];
    let ranking = rank_by_start(&auctions);
    assert_eq!(ranking.iter().map(|a| a.auction_id).collect::<Vec<i32>>(), vec![4, 2, 5, 1, 3]);
}
