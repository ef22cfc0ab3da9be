use processor::rows::{Auction, AuctionRow};
use processor::temporal::{adf_handle_nulls, adf_sin_cos_start_time, HOUR_PERIOD, MINUTE_PERIOD};

fn started(start_time: i64) -> Auction {
    Auction {
        auction_id: 1,
        start_time,
        bin_price: 1,
        no_jumper_limit: 2,
        exchangeable: false,
        one_per_user: false,
        no_re_entry: true,
        is_bindolence: None,
        percent_off: None,
        end_time: None,
    }
}

fn clock(start_time: i64) -> (u8, u8) {
    let rows = adf_sin_cos_start_time(&vec![started(start_time)]);
    (rows[0].start_hour, rows[0].start_minute)
}

#[test]
fn hour_and_minute_of_the_start() {
    assert_eq!(clock(1_700_000_000_000_000), (22, 13));
    assert_eq!(clock(0), (0, 0));
    assert_eq!(clock(3_599_999_999), (0, 59));
    assert_eq!(clock(3_600_000_000), (1, 0));
    assert_eq!(clock(86_399_999_999), (23, 59));
    assert_eq!(clock(86_400_000_000), (0, 0));
}

#[test]
fn hour_and_minute_before_the_epoch() {
    assert_eq!(clock(-1), (23, 59));
    assert_eq!(clock(-60_000_000), (23, 59));
    assert_eq!(clock(-60_000_001), (23, 58));
    assert_eq!(clock(-3_600_000_000), (23, 0));
    assert_eq!(clock(-86_400_000_000), (0, 0));
}

#[test]
fn extreme_timestamps_have_a_clock_reading() {
    let (hour, minute) = clock(i64::MAX);
    assert!(hour < 24 && minute < 60);
    let (hour, minute) = clock(i64::MIN);
    assert!(hour < 24 && minute < 60);
}

#[test]
fn both_periods_are_24() {
    assert_eq!(HOUR_PERIOD, 24);
    assert_eq!(MINUTE_PERIOD, 24);
}

#[test]
fn clock_keeps_the_auction() {
    let auctions = vec![started(5), started(7_200_000_000)];
    let rows = adf_sin_cos_start_time(&auctions);
    assert_eq!(rows.len(), 2);
    assert_eq!(rows[0].auction, auctions[0]);
    assert_eq!(rows[1].auction, auctions[1]);
    assert_eq!(rows[1].start_hour, 2);
}

#[test]
fn absent_values_get_defaults() {
    let mut with_values = started(0);
    with_values.is_bindolence = Some(true);
    with_values.percent_off = Some(35);
    let rows = vec![
        AuctionRow { auction: started(0), start_hour: 3, start_minute: 4 },
        AuctionRow { auction: with_values, start_hour: 5, start_minute: 6 },
    ];
    let out = adf_handle_nulls(&rows);
    assert_eq!(out[0].auction.is_bindolence, Some(false));
    assert_eq!(out[0].auction.percent_off, Some(0));
    assert_eq!(out[1].auction.is_bindolence, Some(true));
    assert_eq!(out[1].auction.percent_off, Some(35));
    assert_eq!((out[0].start_hour, out[0].start_minute), (3, 4));
    assert_eq!(out[1].auction.no_re_entry, true);
    assert_eq!(out[1].auction.bin_price, 1);
}
