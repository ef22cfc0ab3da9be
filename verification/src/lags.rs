//! The three tables that are written for each part of the split: the lag
//! windows, the static auction features and the labels.

use vstd::prelude::*;
use crate::groups::{lemma_previous_where, previous_where};
use crate::rows::{FeatureRow, Stats};

verus! {

/// The number of earlier bids of the auction that a lag window looks back on.
pub const LAGS: usize = 8;

/// The features of a bid that change from bid to bid.  The six history
/// features derive from `stats`, which is absent where the user had no
/// history yet.
#[derive(Clone, Copy, Debug, PartialEq, Eq)]
pub struct Snapshot {
    pub prior_bid_dist: i64,
    pub delta: i64,
    pub stats: Option<Stats>,
}

/// The lag window of one bid: entry `k` is the snapshot of the bid `k`
/// places earlier in the same auction, absent where the auction has fewer
/// earlier bids.  Entry 0 is the bid itself.
#[derive(Clone, Debug, PartialEq, Eq)]
pub struct LagRow {
    pub lags: Vec<Option<Snapshot>>,
}

/// The features of a bid that its auction fixes.
#[derive(Clone, Copy, Debug, PartialEq, Eq)]
pub struct MetaRow {
    pub price: u64,
    pub bin_price: u64,
    pub no_jumper_limit: u64,
    pub exchangeable: bool,
    pub one_per_user: bool,
    pub no_re_entry: bool,
    pub is_bindolence: Option<bool>,
    pub percent_off: Option<i32>,
    pub start_hour: u8,
    pub start_minute: u8,
}

/// The snapshot of a row.
pub open spec fn snapshot_of(row: FeatureRow) -> Snapshot {
    Snapshot { prior_bid_dist: row.bid.prior_bid_dist, delta: row.bid.delta, stats: row.bid.stats }
}

/// The static features of a row.
pub open spec fn meta_of(row: FeatureRow) -> MetaRow {
    MetaRow {
        price: row.bid.price,
        bin_price: row.auction.auction.bin_price,
        no_jumper_limit: row.auction.auction.no_jumper_limit,
        exchangeable: row.auction.auction.exchangeable,
        one_per_user: row.auction.auction.one_per_user,
        no_re_entry: row.auction.auction.no_re_entry,
        is_bindolence: row.auction.auction.is_bindolence,
        percent_off: row.auction.auction.percent_off,
        start_hour: row.auction.start_hour,
        start_minute: row.auction.start_minute,
    }
}

/// The rows of one auction.
pub open spec fn of_auction(auction_id: i32) -> spec_fn(FeatureRow) -> bool {
    |row: FeatureRow| row.bid.auction_id == auction_id
}

/// The position of the row `k` places before row `at` within its auction.
pub open spec fn earlier(rows: Seq<FeatureRow>, at: int, k: nat) -> Option<int>
    decreases k,
{
    if k == 0 {
        Some(at)
    } else {
        match earlier(rows, at, (k - 1) as nat) {
            Some(j) => previous_where(rows, of_auction(rows[at].bid.auction_id), j),
            None => None,
        }
    }
}

/// Entry `k` of the lag window of row `at`.
pub open spec fn lag(rows: Seq<FeatureRow>, at: int, k: nat) -> Option<Snapshot> {
    match earlier(rows, at, k) {
        Some(j) => Some(snapshot_of(rows[j])),
        None => None,
    }
}

/// The lag window of row `at`.
pub open spec fn lag_window(rows: Seq<FeatureRow>, at: int) -> Seq<Option<Snapshot>> {
    Seq::new((LAGS + 1) as nat, |k: int| lag(rows, at, k as nat))
}

/// A lag reaches back within the table, to a row of the same auction.
pub proof fn lemma_earlier(rows: Seq<FeatureRow>, at: int, k: nat)
    requires
        0 <= at < rows.len(),
    ensures
        match earlier(rows, at, k) {
            Some(j) => 0 <= j <= at - k && rows[j].bid.auction_id == rows[at].bid.auction_id,
            None => k > 0,
        },
    decreases k,
{
    if k > 0 {
        lemma_earlier(rows, at, (k - 1) as nat);
        match earlier(rows, at, (k - 1) as nat) {
            Some(j) => {
                lemma_previous_where(rows, of_auction(rows[at].bid.auction_id), j);
            },
            None => {},
        }
    }
}

/// Finds the last row of the auction before `below`.
fn find_previous(df: &Vec<FeatureRow>, auction_id: i32, below: usize) -> (found: Option<usize>)
    requires
        below <= df@.len(),
    ensures
        match found {
            Some(j) => previous_where(df@, of_auction(auction_id), below as int) == Some(j as int) && j < below,
            None => previous_where(df@, of_auction(auction_id), below as int) is None,
        },
{
    let mut m: usize = below;
    while m > 0
        invariant
            m <= below <= df@.len(),
            previous_where(df@, of_auction(auction_id), below as int) == previous_where(
                df@,
                of_auction(auction_id),
                m as int,
            ),
        decreases m,
    {
        if df[m - 1].bid.auction_id == auction_id {
            return Some(m - 1);
        }
        m -= 1;
    }
    None
}

/// Builds the lag window of row `at`.
fn window_of(df: &Vec<FeatureRow>, at: usize) -> (row: LagRow)
    requires
        at < df@.len(),
    ensures
        row.lags@ == lag_window(df@, at as int),
{
    let mut lags: Vec<Option<Snapshot>> = Vec::new();
    let mut reached: Option<usize> = Some(at);
    let mut k: usize = 0;
    while k <= LAGS
        invariant
            k <= LAGS + 1,
            at < df@.len(),
            lags@.len() == k,
            forall|j: int| 0 <= j < k ==> lags@[j] == lag(df@, at as int, j as nat),
            match reached {
                Some(j) => earlier(df@, at as int, k as nat) == Some(j as int) && j < df@.len(),
                None => earlier(df@, at as int, k as nat) is None,
            },
        decreases LAGS + 1 - k,
    {
        match reached {
            Some(j) => {
                lags.push(
                    Some(
                        Snapshot {
                            prior_bid_dist: df[j].bid.prior_bid_dist,
                            delta: df[j].bid.delta,
                            stats: df[j].bid.stats,
                        },
                    ),
                );
                reached = find_previous(df, df[at].bid.auction_id, j);
            },
            None => {
                lags.push(None);
            },
        }
        k += 1;
    }
    proof {
        assert(lags@ =~= lag_window(df@, at as int));
    }
    LagRow { lags }
}

/// The lag windows of a table: for each bid the snapshots of the bid itself
/// and of the 8 bids before it in the same auction, in the order of the
/// table.  The auction id is not part of the result.
pub fn time_series_data(df: &Vec<FeatureRow>) -> (out: Vec<LagRow>)
    ensures
        out@.len() == df@.len(),
        forall|i: int| 0 <= i < df@.len() ==> (#[trigger] out@[i]).lags@ == lag_window(df@, i),
{
    let mut out: Vec<LagRow> = Vec::new();
    let mut i: usize = 0;
    while i < df.len()
        invariant
            i <= df@.len(),
            out@.len() == i,
            forall|j: int| 0 <= j < i ==> (#[trigger] out@[j]).lags@ == lag_window(df@, j),
        decreases df@.len() - i,
    {
        out.push(window_of(df, i));
        i += 1;
    }
    out
}

/// The static features of each row of a table.
pub fn meta_data(df: &Vec<FeatureRow>) -> (out: Vec<MetaRow>)
    ensures
        out@ == Seq::new(df@.len(), |i: int| meta_of(df@[i])),
{
    let mut out: Vec<MetaRow> = Vec::new();
    let mut i: usize = 0;
    while i < df.len()
        invariant
            i <= df@.len(),
            out@.len() == i,
            forall|j: int| 0 <= j < i ==> out@[j] == meta_of(df@[j]),
        decreases df@.len() - i,
    {
        out.push(
            MetaRow {
                price: df[i].bid.price,
                bin_price: df[i].auction.auction.bin_price,
                no_jumper_limit: df[i].auction.auction.no_jumper_limit,
                exchangeable: df[i].auction.auction.exchangeable,
                one_per_user: df[i].auction.auction.one_per_user,
                no_re_entry: df[i].auction.auction.no_re_entry,
                is_bindolence: df[i].auction.auction.is_bindolence,
                percent_off: df[i].auction.auction.percent_off,
                start_hour: df[i].auction.start_hour,
                start_minute: df[i].auction.start_minute,
            },
        );
        i += 1;
    }
    proof {
        assert(out@ =~= Seq::new(df@.len(), |i: int| meta_of(df@[i])));
    }
    out
}

/// The label of each row of a table: whether the bid won its auction.
pub fn y_data(df: &Vec<FeatureRow>) -> (out: Vec<bool>)
    ensures
        out@ == Seq::new(df@.len(), |i: int| df@[i].bid.final_bid),
{
    let mut out: Vec<bool> = Vec::new();
    let mut i: usize = 0;
    while i < df.len()
        invariant
            i <= df@.len(),
            out@.len() == i,
            forall|j: int| 0 <= j < i ==> out@[j] == df@[j].bid.final_bid,
        decreases df@.len() - i,
    {
        out.push(df[i].bid.final_bid);
        i += 1;
    }
    proof {
        assert(out@ =~= Seq::new(df@.len(), |i: int| df@[i].bid.final_bid));
    }
    out
}

} // verus!
