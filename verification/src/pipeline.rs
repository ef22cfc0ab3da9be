//! The whole pipeline, from recorded auctions and bids to the tables of the
//! three parts of the split.
//!
//! Every table is a function of the recorded rows alone: running the
//! pipeline twice on the same rows gives the same tables, row for row.

use vstd::prelude::*;
use crate::filter::{adf_bdf_remove_incomplete_auctions, bids_of_complete, complete_auctions};
use crate::groups::keep_where;
use crate::history::{bdf_user_historical_stats, bdf_user_stats_join, joined, user_stats};
use crate::lags::{lag_window, meta_data, meta_of, time_series_data, y_data, LagRow, MetaRow};
use crate::rows::{Auction, AuctionRow, Bid, BidRow, Duplicate, FeatureRow, JoinedBid, UserStat};
use crate::split::{ranked, select, train_test_split, Part};
use crate::temporal::{adf_handle_nulls, adf_sin_cos_start_time, clocked, with_defaults};
use crate::timing::{
    adf_bdf_calculate_bid_deltas, auction_of, bdf_distance_to_prior_bid, bdf_mark_final_bid,
    bdf_mark_timestamp_index, find_auction, with_deltas, with_distances, with_final, with_index,
};

verus! {

/// The three tables that are written for one part of the split.
#[derive(Clone, Debug, PartialEq, Eq)]
pub struct Frames {
    /// The lag windows.
    pub tdf: Vec<LagRow>,
    /// The static auction features.
    pub mdf: Vec<MetaRow>,
    /// The labels.
    pub y: Vec<bool>,
}

/// Everything that a run of the pipeline yields.
#[derive(Clone, Debug, PartialEq, Eq)]
pub struct Processed {
    /// The table of user statistics.
    pub user_stats: Vec<UserStat>,
    /// The combined feature table.
    pub df: Vec<FeatureRow>,
    pub train: Frames,
    pub val: Frames,
    pub test: Frames,
}

/// The first `n` bids, each with its auction.  Bids whose auction is not in
/// the table are left out.
pub open spec fn combined(adf: Seq<AuctionRow>, bids: Seq<JoinedBid>, n: nat) -> Seq<FeatureRow>
    decreases n,
{
    if n == 0 {
        Seq::empty()
    } else {
        let before = combined(adf, bids, (n - 1) as nat);
        match auction_of(adf, bids[n - 1].auction_id, adf.len()) {
            Some(auction) => before.push(FeatureRow { bid: bids[n - 1], auction }),
            None => before,
        }
    }
}

/// Whether the three tables are those of a part.
pub open spec fn frames_of(frames: Frames, part: Seq<FeatureRow>) -> bool {
    &&& frames.tdf@.len() == part.len()
    &&& forall|i: int| 0 <= i < part.len() ==> (#[trigger] frames.tdf@[i]).lags@ == lag_window(part, i)
    &&& frames.mdf@ == Seq::new(part.len(), |i: int| meta_of(part[i]))
    &&& frames.y@ == Seq::new(part.len(), |i: int| part[i].bid.final_bid)
}

/// The complete auctions with clock readings and defaults.
pub open spec fn prepared_auctions(adf: Seq<Auction>, bdf: Seq<Bid>) -> Seq<AuctionRow> {
    let kept = keep_where(adf, complete_auctions(bdf), adf.len());
    Seq::new(kept.len(), |i: int| with_defaults(clocked(kept[i])))
}

/// The bids of complete auctions with all timing columns, in timestamp
/// order.
pub open spec fn prepared_bids(adf: Seq<Auction>, bdf: Seq<Bid>) -> Seq<BidRow> {
    let kept = keep_where(bdf, bids_of_complete(adf, bdf), bdf.len());
    with_index(with_final(with_distances(with_deltas(prepared_auctions(adf, bdf), kept))))
}

/// The combined feature table of a run.
pub open spec fn feature_table(adf: Seq<Auction>, bdf: Seq<Bid>) -> Seq<FeatureRow> {
    let bids = prepared_bids(adf, bdf);
    let stats = user_stats(bids);
    let with_history = Seq::new(bids.len(), |i: int| joined(stats, bids[i]));
    combined(prepared_auctions(adf, bdf), with_history, with_history.len())
}

/// Whether `out` is what a run on the given rows yields.
pub open spec fn result_of(out: Processed, adf: Seq<Auction>, bdf: Seq<Bid>) -> bool {
    &&& out.user_stats@ == user_stats(prepared_bids(adf, bdf))
    &&& out.df@ == feature_table(adf, bdf)
    &&& frames_of(out.train, select(out.df@, ranked(out.df@), Part::Train, out.df@.len()))
    &&& frames_of(out.val, select(out.df@, ranked(out.df@), Part::Validation, out.df@.len()))
    &&& frames_of(out.test, select(out.df@, ranked(out.df@), Part::Test, out.df@.len()))
}

/// Whether two sets of tables hold the same rows in the same order.
pub open spec fn same_frames(a: Frames, b: Frames) -> bool {
    &&& a.tdf@.len() == b.tdf@.len()
    &&& forall|i: int| 0 <= i < a.tdf@.len() ==> (#[trigger] a.tdf@[i]).lags@ == b.tdf@[i].lags@
    &&& a.mdf@ == b.mdf@
    &&& a.y@ == b.y@
}

/// Running the pipeline again on the same rows reproduces every table, row
/// for row.
pub proof fn lemma_rerun_same(a: Processed, b: Processed, adf: Seq<Auction>, bdf: Seq<Bid>)
    requires
        result_of(a, adf, bdf),
        result_of(b, adf, bdf),
    ensures
        a.user_stats@ == b.user_stats@,
        a.df@ == b.df@,
        same_frames(a.train, b.train),
        same_frames(a.val, b.val),
        same_frames(a.test, b.test),
{
}

/// Puts every bid together with its auction, in the order of the bids.
pub fn adf_bdf_make_df(adf: &Vec<AuctionRow>, bdf: &Vec<JoinedBid>) -> (df: Vec<FeatureRow>)
    ensures
        df@ == combined(adf@, bdf@, bdf@.len()),
{
    let mut df: Vec<FeatureRow> = Vec::new();
    let mut i: usize = 0;
    while i < bdf.len()
        invariant
            i <= bdf@.len(),
            df@ == combined(adf@, bdf@, i as nat),
        decreases bdf@.len() - i,
    {
        match find_auction(adf, bdf[i].auction_id) {
            Some(auction) => {
                df.push(FeatureRow { bid: bdf[i].duplicate(), auction });
            },
            None => {},
        }
        i += 1;
    }
    df
}

/// Builds the three tables of one part of the split.
pub fn write_frames(df: &Vec<FeatureRow>) -> (frames: Frames)
    ensures
        frames_of(frames, df@),
{
    Frames { tdf: time_series_data(df), mdf: meta_data(df), y: y_data(df) }
}

/// Runs the pipeline on the recorded auctions and bids.
pub fn process_data(adf: &Vec<Auction>, bdf: &Vec<Bid>) -> (out: Processed)
    ensures
        result_of(out, adf@, bdf@),
{
    let kept = adf_bdf_remove_incomplete_auctions(adf, bdf);
    let clock = adf_sin_cos_start_time(&kept.0);
    let auctions = adf_handle_nulls(&clock);
    proof {
        assert(auctions@ =~= prepared_auctions(adf@, bdf@));
    }
    let timed = adf_bdf_calculate_bid_deltas(&auctions, &kept.1);
    let spaced = bdf_distance_to_prior_bid(&timed);
    let marked = bdf_mark_final_bid(&spaced);
    let bids = bdf_mark_timestamp_index(&marked);
    let user_stats = bdf_user_historical_stats(&bids);
    let with_history = bdf_user_stats_join(&bids, &user_stats);
    let df = adf_bdf_make_df(&auctions, &with_history);
    let parts = train_test_split(&df);
    let train = write_frames(&parts.0);
    let val = write_frames(&parts.1);
    let test = write_frames(&parts.2);
    Processed { user_stats, df, train, val, test }
}

} // verus!
