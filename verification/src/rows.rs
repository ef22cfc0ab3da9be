//! The rows that flow through the pipeline.
//!
//! Timestamps are microseconds since the epoch.  A bid's `price` is its
//! counter within the auction: the first bid has price 1, the next 2, and so
//! on.  Money amounts are whole minor units.

use vstd::prelude::*;
use crate::order::gather;

verus! {

/// An auction as recorded.
#[derive(Clone, Copy, Debug, PartialEq, Eq)]
pub struct Auction {
    pub auction_id: i32,
    pub start_time: i64,
    pub bin_price: u64,
    pub no_jumper_limit: u64,
    pub exchangeable: bool,
    pub one_per_user: bool,
    pub no_re_entry: bool,
    pub is_bindolence: Option<bool>,
    pub percent_off: Option<i32>,
    pub end_time: Option<i64>,
}

/// An auction together with the clock reading of its start.
#[derive(Clone, Copy, Debug, PartialEq, Eq)]
pub struct AuctionRow {
    pub auction: Auction,
    /// Hour of the day of the start, 0 to 23.
    pub start_hour: u8,
    /// Minute of the hour of the start, 0 to 59.
    pub start_minute: u8,
}

/// A bid as recorded.
#[derive(Clone, Debug, PartialEq, Eq)]
pub struct Bid {
    pub auction_id: i32,
    pub price: u64,
    pub timestamp: i64,
    pub username: String,
}

/// A bid with the columns that the timing stages derive.  A column holds
/// zero (`false` for the flag) until its stage has run.
#[derive(Clone, Debug, PartialEq, Eq)]
pub struct BidRow {
    pub auction_id: i32,
    pub price: u64,
    pub timestamp: i64,
    pub username: String,
    /// Whole seconds since the previous bid of the auction, or since its start.
    pub delta: i64,
    /// Counter distance to the same user's previous bid in the auction, -1 if none.
    pub prior_bid_dist: i64,
    /// Whether the bid carries the highest counter of its auction.
    pub final_bid: bool,
    /// Position of the bid among all bids in timestamp order.
    pub idx: usize,
}

/// A sum of squares, which may exceed 128 bits: `hi * 2^128 + lo`.
#[derive(Clone, Copy, Debug, PartialEq, Eq)]
pub struct Wide {
    pub hi: u64,
    pub lo: u128,
}

/// Exact aggregates over the bids of one user in one time window.  Means
/// and deviations are quotients of these.
#[derive(Clone, Copy, Debug, PartialEq, Eq)]
pub struct Stats {
    /// Number of bids in the window.
    pub total_spend: usize,
    /// Number of those bids that won their auction.
    pub wins: usize,
    pub sum_delta: i128,
    pub sum_delta_sq: Wide,
    pub sum_price: u128,
    pub sum_price_sq: Wide,
}

/// The aggregates of one user over one window, with the index of the
/// earliest bid in it.
#[derive(Clone, Debug, PartialEq, Eq)]
pub struct UserStat {
    pub username: String,
    pub idx: usize,
    pub stats: Stats,
}

/// A bid with the history of its user, if any is known at that point.
#[derive(Clone, Debug, PartialEq, Eq)]
pub struct JoinedBid {
    pub auction_id: i32,
    pub price: u64,
    pub timestamp: i64,
    pub username: String,
    pub delta: i64,
    pub prior_bid_dist: i64,
    pub final_bid: bool,
    pub stats: Option<Stats>,
}

/// A bid with its auction: one row of the combined feature table.
#[derive(Clone, Debug, PartialEq, Eq)]
pub struct FeatureRow {
    pub bid: JoinedBid,
    pub auction: AuctionRow,
}

/// Rows of which an equal copy can be made.
pub trait Duplicate: Sized {
    /// A copy of the row.
    fn duplicate(&self) -> (r: Self)
        ensures
            r == *self,
    ;
}

impl Duplicate for Bid {
    fn duplicate(&self) -> (r: Bid) {
        Bid {
            auction_id: self.auction_id,
            price: self.price,
            timestamp: self.timestamp,
            username: self.username.clone(),
        }
    }
}

impl Duplicate for BidRow {
    fn duplicate(&self) -> (r: BidRow) {
        BidRow {
            auction_id: self.auction_id,
            price: self.price,
            timestamp: self.timestamp,
            username: self.username.clone(),
            delta: self.delta,
            prior_bid_dist: self.prior_bid_dist,
            final_bid: self.final_bid,
            idx: self.idx,
        }
    }
}

impl Duplicate for UserStat {
    fn duplicate(&self) -> (r: UserStat) {
        UserStat { username: self.username.clone(), idx: self.idx, stats: self.stats }
    }
}

impl Duplicate for JoinedBid {
    fn duplicate(&self) -> (r: JoinedBid) {
        JoinedBid {
            auction_id: self.auction_id,
            price: self.price,
            timestamp: self.timestamp,
            username: self.username.clone(),
            delta: self.delta,
            prior_bid_dist: self.prior_bid_dist,
            final_bid: self.final_bid,
            stats: self.stats,
        }
    }
}

impl Duplicate for FeatureRow {
    fn duplicate(&self) -> (r: FeatureRow) {
        FeatureRow { bid: self.bid.duplicate(), auction: self.auction }
    }
}

/// Gathers copies of `rows` in the given order.
pub fn gather_copies<T: Duplicate>(rows: &Vec<T>, order: &Vec<usize>) -> (out: Vec<T>)
    requires
        forall|p: int| 0 <= p < order@.len() ==> (#[trigger] order@[p]) < rows@.len(),
    ensures
        out@ == gather(rows@, order@),
{
    let mut out: Vec<T> = Vec::new();
    let mut p: usize = 0;
    while p < order.len()
        invariant
            p <= order@.len(),
            forall|q: int| 0 <= q < order@.len() ==> (#[trigger] order@[q]) < rows@.len(),
            out@.len() == p,
            forall|q: int| 0 <= q < p ==> out@[q] == rows@[order@[q] as int],
        decreases order@.len() - p,
    {
        out.push(rows[order[p]].duplicate());
        p += 1;
    }
    proof {
        assert(out@ =~= gather(rows@, order@));
    }
    out
}

} // verus!
