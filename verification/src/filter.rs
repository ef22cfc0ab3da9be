//! Removal of auctions that were not observed completely.
//!
//! An auction is complete when its end was recorded and its bids are all
//! there: the highest bid counter equals the number of bids.  A gap in the
//! counters, or no recorded end, drops the auction with all its bids.  Bids
//! that refer to no auction of the table are dropped as well.

use vstd::prelude::*;
use crate::groups::{count_where, highest, keep_where};
use crate::rows::{Auction, Bid, Duplicate};

verus! {

/// The bids of one auction.
pub open spec fn bids_of(auction_id: i32) -> spec_fn(Bid) -> bool {
    |bid: Bid| bid.auction_id == auction_id
}

/// The counter of a bid.
pub open spec fn counter() -> spec_fn(Bid) -> nat {
    |bid: Bid| bid.price as nat
}

/// Whether the auction has a recorded end and a bid for every counter up to
/// its highest.
pub open spec fn complete(auction: Auction, bids: Seq<Bid>) -> bool {
    &&& auction.end_time is Some
    &&& count_where(bids, bids_of(auction.auction_id), bids.len()) > 0
    &&& count_where(bids, bids_of(auction.auction_id), bids.len()) == highest(
        bids,
        bids_of(auction.auction_id),
        counter(),
        bids.len(),
    )
}

/// The complete auctions.
pub open spec fn complete_auctions(bids: Seq<Bid>) -> spec_fn(Auction) -> bool {
    |auction: Auction| complete(auction, bids)
}

/// Whether one of the first `n` auctions is complete and has the given id.
pub open spec fn complete_within(auctions: Seq<Auction>, bids: Seq<Bid>, auction_id: i32, n: int) -> bool {
    exists|a: int|
        0 <= a < n && a < auctions.len() && (#[trigger] auctions[a]).auction_id == auction_id && complete(
            auctions[a],
            bids,
        )
}

/// The bids of complete auctions.
pub open spec fn bids_of_complete(auctions: Seq<Auction>, bids: Seq<Bid>) -> spec_fn(Bid) -> bool {
    |bid: Bid| complete_within(auctions, bids, bid.auction_id, auctions.len() as int)
}

/// The bids placed strictly after a point in time.
pub open spec fn placed_after(lower: i64) -> spec_fn(Bid) -> bool {
    |bid: Bid| bid.timestamp > lower
}

/// Keeps the bids placed strictly after `lower`, in table order.
pub fn bids_after(bdf: &Vec<Bid>, lower: i64) -> (out: Vec<Bid>)
    ensures
        out@ == keep_where(bdf@, placed_after(lower), bdf@.len()),
{
    let mut out: Vec<Bid> = Vec::new();
    let mut i: usize = 0;
    while i < bdf.len()
        invariant
            i <= bdf@.len(),
            out@ == keep_where(bdf@, placed_after(lower), i as nat),
        decreases bdf@.len() - i,
    {
        if bdf[i].timestamp > lower {
            out.push(bdf[i].duplicate());
        }
        i += 1;
    }
    out
}

/// Counts the bids of an auction and finds its highest counter.
fn count_and_highest(bdf: &Vec<Bid>, auction_id: i32) -> (found: (usize, u64))
    ensures
        found.0 == count_where(bdf@, bids_of(auction_id), bdf@.len()),
        found.1 == highest(bdf@, bids_of(auction_id), counter(), bdf@.len()),
{
    let mut entries: usize = 0;
    let mut max_price: u64 = 0;
    let mut i: usize = 0;
    while i < bdf.len()
        invariant
            i <= bdf@.len(),
            entries <= i,
            entries == count_where(bdf@, bids_of(auction_id), i as nat),
            max_price == highest(bdf@, bids_of(auction_id), counter(), i as nat),
        decreases bdf@.len() - i,
    {
        if bdf[i].auction_id == auction_id {
            entries += 1;
            if bdf[i].price > max_price {
                max_price = bdf[i].price;
            }
        }
        i += 1;
    }
    (entries, max_price)
}

/// Decides whether an auction is complete.
pub fn is_complete(auction: &Auction, bdf: &Vec<Bid>) -> (r: bool)
    ensures
        r == complete(*auction, bdf@),
{
    if auction.end_time.is_none() {
        return false;
    }
    let found = count_and_highest(bdf, auction.auction_id);
    found.0 > 0 && found.0 as u128 == found.1 as u128
}

/// Keeps the complete auctions and their bids, each in table order.
pub fn adf_bdf_remove_incomplete_auctions(adf: &Vec<Auction>, bdf: &Vec<Bid>) -> (out: (Vec<Auction>, Vec<Bid>))
    ensures
        out.0@ == keep_where(adf@, complete_auctions(bdf@), adf@.len()),
        out.1@ == keep_where(bdf@, bids_of_complete(adf@, bdf@), bdf@.len()),
{
    let mut auctions: Vec<Auction> = Vec::new();
    let mut flags: Vec<bool> = Vec::new();
    let mut a: usize = 0;
    while a < adf.len()
        invariant
            a <= adf@.len(),
            flags@.len() == a,
            forall|k: int| 0 <= k < a ==> flags@[k] == complete(adf@[k], bdf@),
            auctions@ == keep_where(adf@, complete_auctions(bdf@), a as nat),
        decreases adf@.len() - a,
    {
        let whole = is_complete(&adf[a], bdf);
        flags.push(whole);
        if whole {
            auctions.push(adf[a]);
        }
        a += 1;
    }
    let mut bids: Vec<Bid> = Vec::new();
    let mut i: usize = 0;
    while i < bdf.len()
        invariant
            i <= bdf@.len(),
            flags@.len() == adf@.len(),
            forall|k: int| 0 <= k < adf@.len() ==> flags@[k] == complete(adf@[k], bdf@),
            bids@ == keep_where(bdf@, bids_of_complete(adf@, bdf@), i as nat),
        decreases bdf@.len() - i,
    {
        let mut kept = false;
        let mut k: usize = 0;
        while k < adf.len() && !kept
            invariant
                k <= adf@.len(),
                i < bdf@.len(),
                flags@.len() == adf@.len(),
                forall|m: int| 0 <= m < adf@.len() ==> flags@[m] == complete(adf@[m], bdf@),
                kept ==> complete_within(adf@, bdf@, bdf@[i as int].auction_id, adf@.len() as int),
                !kept ==> !complete_within(adf@, bdf@, bdf@[i as int].auction_id, k as int),
            decreases adf@.len() - k,
        {
            if adf[k].auction_id == bdf[i].auction_id && flags[k] {
                kept = true;
                proof {
                    assert(adf@[k as int].auction_id == bdf@[i as int].auction_id);
                }
            } else {
                proof {
                    if complete_within(adf@, bdf@, bdf@[i as int].auction_id, k + 1) {
                        let w = choose|w: int|
                            0 <= w < k + 1 && w < adf@.len() && (#[trigger] adf@[w]).auction_id == bdf@[i as int].auction_id
                                && complete(adf@[w], bdf@);
                        assert(w < k);
                    }
                }
            }
            k += 1;
        }
        if kept {
            bids.push(bdf[i].duplicate());
        }
        i += 1;
    }
    (auctions, bids)
}

} // verus!
