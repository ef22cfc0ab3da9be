//! The clock reading of an auction's start, and defaults for absent values.
//!
//! The hour and the minute of the start are the phases of the cyclical
//! encoding: the encoded features are the sine and the cosine of
//! `2 * pi * hour / HOUR_PERIOD` and of `2 * pi * minute / MINUTE_PERIOD`.

use vstd::arithmetic::div_mod::{lemma_fundamental_div_mod, lemma_fundamental_div_mod_converse};
use vstd::prelude::*;
use crate::rows::{Auction, AuctionRow};

verus! {

/// The period by which the hour of the day is normalized.
pub const HOUR_PERIOD: u8 = 24;

/// The period by which the minute of the hour is normalized.  It is 24 as
/// well, not 60.
pub const MINUTE_PERIOD: u8 = 24;

/// Microseconds in a minute.
pub const MICROS_PER_MINUTE: i64 = 60_000_000;

/// Microseconds in an hour.
pub const MICROS_PER_HOUR: i64 = 3_600_000_000;

/// The hour of the day, 0 to 23, of a timestamp in microseconds.
pub open spec fn hour_of(timestamp: int) -> int {
    (timestamp / (MICROS_PER_HOUR as int)) % 24
}

/// The minute of the hour, 0 to 59, of a timestamp in microseconds.
pub open spec fn minute_of(timestamp: int) -> int {
    (timestamp / (MICROS_PER_MINUTE as int)) % 60
}

/// An auction with the clock reading of its start.
pub open spec fn clocked(auction: Auction) -> AuctionRow {
    AuctionRow {
        auction,
        start_hour: hour_of(auction.start_time as int) as u8,
        start_minute: minute_of(auction.start_time as int) as u8,
    }
}

/// A row with absent values replaced: no flag means `false`, no discount
/// means 0.
pub open spec fn with_defaults(row: AuctionRow) -> AuctionRow {
    AuctionRow {
        auction: Auction {
            is_bindolence: Some(
                match row.auction.is_bindolence {
                    Some(flag) => flag,
                    None => false,
                },
            ),
            percent_off: Some(
                match row.auction.percent_off {
                    Some(percent) => percent,
                    None => 0i32,
                },
            ),
            ..row.auction
        },
        ..row
    }
}

/// The number of whole `unit`s from the epoch to `timestamp`, rounded down,
/// taken modulo `period`.
fn phase(timestamp: i64, unit: i64, period: i64) -> (r: u8)
    requires
        unit > 0,
        0 < period <= 255,
    ensures
        r == (timestamp as int / unit as int) % (period as int),
{
    if timestamp >= 0 {
        let whole: i64 = timestamp / unit;
        let r: i64 = whole % period;
        r as u8
    } else {
        let back: i64 = -(timestamp + 1);
        let whole: i64 = back / unit;
        let r: i64 = whole % period;
        proof {
            let t = timestamp as int;
            let u = unit as int;
            let p = period as int;
            let q = whole as int;
            assert(q == (-(t + 1)) / u);
            assert(t / u == -q - 1) by (nonlinear_arith)
                requires
                    u > 0,
                    t < 0,
                    q == (-(t + 1)) / u,
            ;
            let k = q / p;
            let rest = q % p;
            lemma_fundamental_div_mod(q, p);
            assert(-q - 1 == (-k - 1) * p + (p - 1 - rest)) by (nonlinear_arith)
                requires
                    q == p * k + rest,
            ;
            lemma_fundamental_div_mod_converse(-q - 1, p, -k - 1, p - 1 - rest);
        }
        (period - 1 - r) as u8
    }
}

/// Reads the hour and the minute of each auction's start.
pub fn adf_sin_cos_start_time(adf: &Vec<Auction>) -> (out: Vec<AuctionRow>)
    ensures
        out@ == Seq::new(adf@.len(), |i: int| clocked(adf@[i])),
{
    let mut out: Vec<AuctionRow> = Vec::new();
    let mut i: usize = 0;
    while i < adf.len()
        invariant
            i <= adf@.len(),
            out@.len() == i,
            forall|j: int| 0 <= j < i ==> out@[j] == clocked(adf@[j]),
        decreases adf@.len() - i,
    {
        let start_hour = phase(adf[i].start_time, MICROS_PER_HOUR, 24);
        let start_minute = phase(adf[i].start_time, MICROS_PER_MINUTE, 60);
        out.push(AuctionRow { auction: adf[i], start_hour, start_minute });
        i += 1;
    }
    proof {
        assert(out@ =~= Seq::new(adf@.len(), |i: int| clocked(adf@[i])));
    }
    out
}

/// Replaces absent values by their defaults in every row.
pub fn adf_handle_nulls(adf: &Vec<AuctionRow>) -> (out: Vec<AuctionRow>)
    ensures
        out@ == Seq::new(adf@.len(), |i: int| with_defaults(adf@[i])),
{
    let mut out: Vec<AuctionRow> = Vec::new();
    let mut i: usize = 0;
    while i < adf.len()
        invariant
            i <= adf@.len(),
            out@.len() == i,
            forall|j: int| 0 <= j < i ==> out@[j] == with_defaults(adf@[j]),
        decreases adf@.len() - i,
    {
        let row = adf[i];
        let flag = match row.auction.is_bindolence {
            Some(flag) => flag,
            None => false,
        };
        let percent = match row.auction.percent_off {
            Some(percent) => percent,
            None => 0i32,
        };
        out.push(
            AuctionRow {
                auction: Auction {
                    auction_id: row.auction.auction_id,
                    start_time: row.auction.start_time,
                    bin_price: row.auction.bin_price,
                    no_jumper_limit: row.auction.no_jumper_limit,
                    exchangeable: row.auction.exchangeable,
                    one_per_user: row.auction.one_per_user,
                    no_re_entry: row.auction.no_re_entry,
                    is_bindolence: Some(flag),
                    percent_off: Some(percent),
                    end_time: row.auction.end_time,
                },
                start_hour: row.start_hour,
                start_minute: row.start_minute,
            },
        );
        i += 1;
    }
    proof {
        assert(out@ =~= Seq::new(adf@.len(), |i: int| with_defaults(adf@[i])));
    }
    out
}

} // verus!
