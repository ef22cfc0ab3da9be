//! Timing of bids within their auction.
//!
//! For every bid: the whole seconds since the previous bid of its auction
//! (or since the start of the auction for its first bid), the distance in
//! counters to the same user's previous bid in the auction, whether it
//! carries the auction's highest counter, and its position among all bids in
//! timestamp order.

use vstd::prelude::*;
use crate::filter::bids_of;
use crate::groups::{
    highest, keep_where, lemma_count_bound, lemma_count_positive, lemma_highest, lemma_keep_where,
    lemma_previous_where, previous_where,
};
use crate::order::{
    gather, lemma_integers_strict_weak, lemma_stable_order_entries, lemma_stable_order_sorted, sort_order,
    stable_order, SortKey,
};
use crate::rows::{gather_copies, AuctionRow, Bid, BidRow, Duplicate};

verus! {

/// A span of microseconds in whole seconds, rounded towards zero.
pub open spec fn whole_seconds(micros: int) -> int {
    if micros >= 0 {
        micros / 1_000_000
    } else {
        -((-micros) / 1_000_000)
    }
}

/// The first of the first `n` auctions with the given id.
pub open spec fn auction_of(adf: Seq<AuctionRow>, auction_id: i32, n: nat) -> Option<AuctionRow>
    decreases n,
{
    if n == 0 {
        None
    } else {
        match auction_of(adf, auction_id, (n - 1) as nat) {
            Some(row) => Some(row),
            None => if adf[n - 1].auction.auction_id == auction_id {
                Some(adf[n - 1])
            } else {
                None
            },
        }
    }
}

/// The start time of the auction with the given id.
pub open spec fn start_of(adf: Seq<AuctionRow>, auction_id: i32) -> Option<i64> {
    match auction_of(adf, auction_id, adf.len()) {
        Some(row) => Some(row.auction.start_time),
        None => None,
    }
}

/// The bids whose auction is in the table.
pub open spec fn with_auction(adf: Seq<AuctionRow>) -> spec_fn(Bid) -> bool {
    |bid: Bid| start_of(adf, bid.auction_id) is Some
}

/// The counters of a list of bids.
pub open spec fn bid_prices(bids: Seq<Bid>) -> Seq<u64> {
    Seq::new(bids.len(), |i: int| bids[i].price)
}

/// The bids ordered by counter, equal counters in their given order.
pub open spec fn bids_by_price(bids: Seq<Bid>) -> Seq<Bid> {
    gather(bids, stable_order(bid_prices(bids), bids.len()))
}

/// The delta of the bid at position `at` of a table ordered by counter.
pub open spec fn delta_at(adf: Seq<AuctionRow>, sorted: Seq<Bid>, at: int) -> int {
    let bid = sorted[at];
    match previous_where(sorted, bids_of(bid.auction_id), at) {
        Some(j) => whole_seconds(bid.timestamp - sorted[j].timestamp),
        None => match start_of(adf, bid.auction_id) {
            Some(start) => whole_seconds(bid.timestamp - start),
            None => 0,
        },
    }
}

/// The bid at position `at` with its delta.
pub open spec fn timed(adf: Seq<AuctionRow>, sorted: Seq<Bid>, at: int) -> BidRow {
    BidRow {
        auction_id: sorted[at].auction_id,
        price: sorted[at].price,
        timestamp: sorted[at].timestamp,
        username: sorted[at].username,
        delta: delta_at(adf, sorted, at) as i64,
        prior_bid_dist: 0,
        final_bid: false,
        idx: 0,
    }
}

/// The bids that have an auction, ordered by counter, each with its delta.
pub open spec fn with_deltas(adf: Seq<AuctionRow>, bids: Seq<Bid>) -> Seq<BidRow> {
    let sorted = bids_by_price(keep_where(bids, with_auction(adf), bids.len()));
    Seq::new(sorted.len(), |at: int| timed(adf, sorted, at))
}

/// The rows of one user in one auction.
pub open spec fn same_bidder(auction_id: i32, username: Seq<char>) -> spec_fn(BidRow) -> bool {
    |row: BidRow| row.auction_id == auction_id && row.username@ == username
}

/// The rows of one auction.
pub open spec fn rows_of(auction_id: i32) -> spec_fn(BidRow) -> bool {
    |row: BidRow| row.auction_id == auction_id
}

/// The counter of a row.
pub open spec fn row_counter() -> spec_fn(BidRow) -> nat {
    |row: BidRow| row.price as nat
}

/// The counters of a list of rows.
pub open spec fn row_prices(rows: Seq<BidRow>) -> Seq<u64> {
    Seq::new(rows.len(), |i: int| rows[i].price)
}

/// The timestamps of a list of rows.
pub open spec fn row_times(rows: Seq<BidRow>) -> Seq<i64> {
    Seq::new(rows.len(), |i: int| rows[i].timestamp)
}

/// The rows ordered by counter, equal counters in their given order.
pub open spec fn rows_by_price(rows: Seq<BidRow>) -> Seq<BidRow> {
    gather(rows, stable_order(row_prices(rows), rows.len()))
}

/// The rows ordered by timestamp, equal timestamps in their given order.
pub open spec fn rows_by_time(rows: Seq<BidRow>) -> Seq<BidRow> {
    gather(rows, stable_order(row_times(rows), rows.len()))
}

/// The distance in counters from the row at position `at` to the previous
/// row of the same user in the same auction; -1 where there is none, or
/// where the distance does not fit the column.
pub open spec fn distance_at(sorted: Seq<BidRow>, at: int) -> int {
    let row = sorted[at];
    match previous_where(sorted, same_bidder(row.auction_id, row.username@), at) {
        Some(j) => {
            let distance = row.price - sorted[j].price;
            if i64::MIN <= distance <= i64::MAX {
                distance
            } else {
                -1
            }
        },
        None => -1,
    }
}

/// The rows ordered by counter, each with the distance to its user's
/// previous bid.
pub open spec fn with_distances(rows: Seq<BidRow>) -> Seq<BidRow> {
    let sorted = rows_by_price(rows);
    Seq::new(sorted.len(), |at: int| BidRow { prior_bid_dist: distance_at(sorted, at) as i64, ..sorted[at] })
}

/// Whether the row carries the highest counter of its auction.
pub open spec fn is_final(rows: Seq<BidRow>, row: BidRow) -> bool {
    row.price == highest(rows, rows_of(row.auction_id), row_counter(), rows.len())
}

/// The rows, each with its final-bid flag.
pub open spec fn with_final(rows: Seq<BidRow>) -> Seq<BidRow> {
    Seq::new(rows.len(), |at: int| BidRow { final_bid: is_final(rows, rows[at]), ..rows[at] })
}

/// The rows ordered by timestamp, each with its position.
pub open spec fn with_index(rows: Seq<BidRow>) -> Seq<BidRow> {
    let sorted = rows_by_time(rows);
    Seq::new(sorted.len(), |at: int| BidRow { idx: at as usize, ..sorted[at] })
}

/// Whether time does not run backwards in the table: within an auction a bid
/// with a counter no higher than another's is no later than it, and no bid
/// is earlier than the start of its auction.
pub open spec fn chronological(adf: Seq<AuctionRow>, bids: Seq<Bid>) -> bool {
    &&& forall|i: int, j: int|
        0 <= i < bids.len() && 0 <= j < bids.len() && (#[trigger] bids[i]).auction_id == (#[trigger] bids[j]).auction_id
            && bids[i].price <= bids[j].price ==> bids[i].timestamp <= bids[j].timestamp
    &&& forall|i: int|
        0 <= i < bids.len() ==> match start_of(adf, (#[trigger] bids[i]).auction_id) {
            Some(start) => start <= bids[i].timestamp,
            None => true,
        }
}

/// Where time does not run backwards, no delta is negative: every bid is
/// measured from an event that precedes it, the previous bid of its auction
/// or, for the first, the start of the auction.
pub proof fn lemma_deltas_nonnegative(adf: Seq<AuctionRow>, bids: Seq<Bid>)
    requires
        chronological(adf, bids),
        bids.len() <= usize::MAX,
    ensures
        forall|at: int| 0 <= at < with_deltas(adf, bids).len() ==> (#[trigger] with_deltas(adf, bids)[at]).delta >= 0,
{
    let matched = keep_where(bids, with_auction(adf), bids.len());
    lemma_keep_where(bids, with_auction(adf), bids.len());
    lemma_count_bound(bids, with_auction(adf), bids.len());
    let keys = bid_prices(matched);
    let order = stable_order(keys, matched.len());
    lemma_stable_order_entries(keys, matched.len());
    lemma_integers_strict_weak();
    lemma_stable_order_sorted(keys, matched.len());
    let sorted = bids_by_price(matched);
    let out = with_deltas(adf, bids);
    assert forall|at: int| 0 <= at < out.len() implies (#[trigger] out[at]).delta >= 0 by {
        let bid = sorted[at];
        assert(bid == matched[order[at] as int]);
        let i = choose|i: int| 0 <= i < bids.len() && bids[i] == matched[order[at] as int];
        assert(bids[i] == bid);
        assert(with_auction(adf)(matched[order[at] as int]));
        lemma_previous_where(sorted, bids_of(bid.auction_id), at);
        match previous_where(sorted, bids_of(bid.auction_id), at) {
            Some(j) => {
                assert(sorted[j] == matched[order[j] as int]);
                let k = choose|k: int| 0 <= k < bids.len() && bids[k] == matched[order[j] as int];
                assert(bids[k] == sorted[j]);
                assert(!keys[order[at] as int].key_before(&keys[order[j] as int]));
                assert(sorted[j].price <= bid.price);
                assert(bids[k].timestamp <= bids[i].timestamp);
            },
            None => {
                assert(start_of(adf, bids[i].auction_id) is Some);
            },
        }
        assert(out[at] == timed(adf, sorted, at));
    }
}

/// Whether some row of the auction is flagged.
pub open spec fn has_final(rows: Seq<BidRow>, auction_id: i32) -> bool {
    exists|top: int|
        0 <= top < rows.len() && (#[trigger] with_final(rows)[top]).final_bid && rows[top].auction_id == auction_id
}

/// The flagged rows are exactly those at the maximum of their auction: a
/// flagged row has a counter no lower than any row of its auction, and every
/// row with that property is flagged.  Every auction with a row has a flagged
/// row.
pub proof fn lemma_final_bid(rows: Seq<BidRow>)
    ensures
        with_final(rows).len() == rows.len(),
        forall|at: int|
            0 <= at < rows.len() ==> ((#[trigger] with_final(rows)[at]).final_bid <==> forall|other: int|
                0 <= other < rows.len() && (#[trigger] rows[other]).auction_id == rows[at].auction_id
                    ==> rows[other].price <= rows[at].price),
        forall|at: int| 0 <= at < rows.len() ==> has_final(rows, (#[trigger] rows[at]).auction_id),
{
    let out = with_final(rows);
    assert forall|at: int| 0 <= at < rows.len() implies ((#[trigger] out[at]).final_bid <==> forall|other: int|
        0 <= other < rows.len() && (#[trigger] rows[other]).auction_id == rows[at].auction_id ==> rows[other].price
            <= rows[at].price) by {
        let member = rows_of(rows[at].auction_id);
        lemma_highest(rows, member, row_counter(), rows.len());
        lemma_count_positive(rows, member, rows.len(), at);
        assert(member(rows[at]));
        let top = choose|top: int|
            0 <= top < rows.len() && member(#[trigger] rows[top]) && row_counter()(rows[top]) == highest(
                rows,
                member,
                row_counter(),
                rows.len(),
            );
        if out[at].final_bid {
            assert forall|other: int|
                0 <= other < rows.len() && (#[trigger] rows[other]).auction_id == rows[at].auction_id implies rows[other].price
                <= rows[at].price by {
                assert(member(rows[other]));
                assert(row_counter()(rows[other]) <= highest(rows, member, row_counter(), rows.len()));
            }
        }
        if forall|other: int|
            0 <= other < rows.len() && (#[trigger] rows[other]).auction_id == rows[at].auction_id ==> rows[other].price
                <= rows[at].price {
            assert(rows[top].auction_id == rows[at].auction_id);
            assert(rows[top].price <= rows[at].price);
            assert(row_counter()(rows[at]) <= highest(rows, member, row_counter(), rows.len()));
        }
    }
    assert forall|at: int| 0 <= at < rows.len() implies has_final(rows, (#[trigger] rows[at]).auction_id) by {
        let member = rows_of(rows[at].auction_id);
        lemma_highest(rows, member, row_counter(), rows.len());
        lemma_count_positive(rows, member, rows.len(), at);
        let top = choose|top: int|
            0 <= top < rows.len() && member(#[trigger] rows[top]) && row_counter()(rows[top]) == highest(
                rows,
                member,
                row_counter(),
                rows.len(),
            );
        assert(rows_of(rows[top].auction_id) == member);
        assert(out[top].final_bid && rows[top].auction_id == rows[at].auction_id);
    }
}

/// The whole seconds from `earlier` to `later`.
pub fn seconds_between(later: i64, earlier: i64) -> (seconds: i64)
    ensures
        seconds == whole_seconds(later - earlier),
{
    let micros: i128 = later as i128 - earlier as i128;
    if micros >= 0 {
        (micros / 1_000_000) as i64
    } else {
        let back: i128 = (-micros) / 1_000_000;
        (-back) as i64
    }
}

/// Looks up an auction by id.
pub fn find_auction(adf: &Vec<AuctionRow>, auction_id: i32) -> (found: Option<AuctionRow>)
    ensures
        found == auction_of(adf@, auction_id, adf@.len()),
{
    let mut found: Option<AuctionRow> = None;
    let mut k: usize = 0;
    while k < adf.len()
        invariant
            k <= adf@.len(),
            found == auction_of(adf@, auction_id, k as nat),
        decreases adf@.len() - k,
    {
        if found.is_none() && adf[k].auction.auction_id == auction_id {
            found = Some(adf[k]);
        }
        k += 1;
    }
    found
}

/// Looks up the start time of an auction.
fn find_start(adf: &Vec<AuctionRow>, auction_id: i32) -> (found: Option<i64>)
    ensures
        found == start_of(adf@, auction_id),
{
    match find_auction(adf, auction_id) {
        Some(row) => Some(row.auction.start_time),
        None => None,
    }
}

/// Finds the last bid of the auction before `below`.
fn previous_bid(sorted: &Vec<Bid>, auction_id: i32, below: usize) -> (found: Option<usize>)
    requires
        below <= sorted@.len(),
    ensures
        match found {
            Some(j) => previous_where(sorted@, bids_of(auction_id), below as int) == Some(j as int) && j < below,
            None => previous_where(sorted@, bids_of(auction_id), below as int) is None,
        },
{
    let mut m: usize = below;
    while m > 0
        invariant
            m <= below <= sorted@.len(),
            previous_where(sorted@, bids_of(auction_id), below as int) == previous_where(
                sorted@,
                bids_of(auction_id),
                m as int,
            ),
        decreases m,
    {
        if sorted[m - 1].auction_id == auction_id {
            return Some(m - 1);
        }
        m -= 1;
    }
    None
}

/// Orders the bids by counter and measures, for each, the whole seconds
/// since the previous bid of its auction, or since the start of the auction
/// for the first.  Bids whose auction is not in the table are left out.
pub fn adf_bdf_calculate_bid_deltas(adf: &Vec<AuctionRow>, bdf: &Vec<Bid>) -> (out: Vec<BidRow>)
    ensures
        out@ == with_deltas(adf@, bdf@),
{
    let mut matched: Vec<Bid> = Vec::new();
    let mut i: usize = 0;
    while i < bdf.len()
        invariant
            i <= bdf@.len(),
            matched@ == keep_where(bdf@, with_auction(adf@), i as nat),
        decreases bdf@.len() - i,
    {
        if find_start(adf, bdf[i].auction_id).is_some() {
            matched.push(bdf[i].duplicate());
        }
        i += 1;
    }
    let mut keys: Vec<u64> = Vec::new();
    let mut k: usize = 0;
    while k < matched.len()
        invariant
            k <= matched@.len(),
            keys@.len() == k,
            forall|j: int| 0 <= j < k ==> keys@[j] == matched@[j].price,
        decreases matched@.len() - k,
    {
        keys.push(matched[k].price);
        k += 1;
    }
    proof {
        assert(keys@ =~= bid_prices(matched@));
    }
    let order = sort_order(&keys);
    let sorted = gather_copies(&matched, &order);
    let mut out: Vec<BidRow> = Vec::new();
    let mut at: usize = 0;
    while at < sorted.len()
        invariant
            at <= sorted@.len(),
            out@.len() == at,
            forall|j: int| 0 <= j < at ==> out@[j] == timed(adf@, sorted@, j),
        decreases sorted@.len() - at,
    {
        let delta: i64 = match previous_bid(&sorted, sorted[at].auction_id, at) {
            Some(j) => seconds_between(sorted[at].timestamp, sorted[j].timestamp),
            None => match find_start(adf, sorted[at].auction_id) {
                Some(start) => seconds_between(sorted[at].timestamp, start),
                None => 0,
            },
        };
        out.push(
            BidRow {
                auction_id: sorted[at].auction_id,
                price: sorted[at].price,
                timestamp: sorted[at].timestamp,
                username: sorted[at].username.clone(),
                delta,
                prior_bid_dist: 0,
                final_bid: false,
                idx: 0,
            },
        );
        at += 1;
    }
    proof {
        assert(out@ =~= with_deltas(adf@, bdf@));
    }
    out
}

/// Collects the counters of the rows.
fn prices_of(rows: &Vec<BidRow>) -> (keys: Vec<u64>)
    ensures
        keys@ == row_prices(rows@),
{
    let mut keys: Vec<u64> = Vec::new();
    let mut k: usize = 0;
    while k < rows.len()
        invariant
            k <= rows@.len(),
            keys@.len() == k,
            forall|j: int| 0 <= j < k ==> keys@[j] == rows@[j].price,
        decreases rows@.len() - k,
    {
        keys.push(rows[k].price);
        k += 1;
    }
    proof {
        assert(keys@ =~= row_prices(rows@));
    }
    keys
}

/// Collects the timestamps of the rows.
fn times_of(rows: &Vec<BidRow>) -> (keys: Vec<i64>)
    ensures
        keys@ == row_times(rows@),
{
    let mut keys: Vec<i64> = Vec::new();
    let mut k: usize = 0;
    while k < rows.len()
        invariant
            k <= rows@.len(),
            keys@.len() == k,
            forall|j: int| 0 <= j < k ==> keys@[j] == rows@[j].timestamp,
        decreases rows@.len() - k,
    {
        keys.push(rows[k].timestamp);
        k += 1;
    }
    proof {
        assert(keys@ =~= row_times(rows@));
    }
    keys
}

/// Finds the last row of the same user in the same auction before `below`.
fn previous_of_bidder(sorted: &Vec<BidRow>, at: usize, below: usize) -> (found: Option<usize>)
    requires
        at < sorted@.len(),
        below <= sorted@.len(),
    ensures
        match found {
            Some(j) => previous_where(
                sorted@,
                same_bidder(sorted@[at as int].auction_id, sorted@[at as int].username@),
                below as int,
            ) == Some(j as int) && j < below,
            None => previous_where(
                sorted@,
                same_bidder(sorted@[at as int].auction_id, sorted@[at as int].username@),
                below as int,
            ) is None,
        },
{
    let ghost member = same_bidder(sorted@[at as int].auction_id, sorted@[at as int].username@);
    let mut m: usize = below;
    while m > 0
        invariant
            at < sorted@.len(),
            m <= below <= sorted@.len(),
            member == same_bidder(sorted@[at as int].auction_id, sorted@[at as int].username@),
            previous_where(sorted@, member, below as int) == previous_where(sorted@, member, m as int),
        decreases m,
    {
        if sorted[m - 1].auction_id == sorted[at].auction_id && sorted[m - 1].username == sorted[at].username {
            return Some(m - 1);
        }
        m -= 1;
    }
    None
}

/// Orders the rows by counter and measures, for each, the distance in
/// counters to the previous bid of the same user in the same auction.  The
/// first bid of a user in an auction gets -1.
pub fn bdf_distance_to_prior_bid(bdf: &Vec<BidRow>) -> (out: Vec<BidRow>)
    ensures
        out@ == with_distances(bdf@),
{
    let keys = prices_of(bdf);
    let order = sort_order(&keys);
    let sorted = gather_copies(bdf, &order);
    let mut out: Vec<BidRow> = Vec::new();
    let mut at: usize = 0;
    while at < sorted.len()
        invariant
            at <= sorted@.len(),
            out@.len() == at,
            forall|j: int|
                0 <= j < at ==> out@[j] == (BidRow {
                    prior_bid_dist: distance_at(sorted@, j) as i64,
                    ..sorted@[j]
                }),
        decreases sorted@.len() - at,
    {
        let distance: i64 = match previous_of_bidder(&sorted, at, at) {
            Some(j) => {
                let wide: i128 = sorted[at].price as i128 - sorted[j].price as i128;
                if wide <= i64::MAX as i128 && wide >= i64::MIN as i128 {
                    wide as i64
                } else {
                    -1
                }
            },
            None => -1,
        };
        let mut row = sorted[at].duplicate();
        row.prior_bid_dist = distance;
        out.push(row);
        at += 1;
    }
    proof {
        assert(out@ =~= with_distances(bdf@));
    }
    out
}

/// Finds the highest counter of an auction.
fn highest_counter(bdf: &Vec<BidRow>, auction_id: i32) -> (max_price: u64)
    ensures
        max_price == highest(bdf@, rows_of(auction_id), row_counter(), bdf@.len()),
{
    let mut max_price: u64 = 0;
    let mut i: usize = 0;
    while i < bdf.len()
        invariant
            i <= bdf@.len(),
            max_price == highest(bdf@, rows_of(auction_id), row_counter(), i as nat),
        decreases bdf@.len() - i,
    {
        if bdf[i].auction_id == auction_id && bdf[i].price > max_price {
            max_price = bdf[i].price;
        }
        i += 1;
    }
    max_price
}

/// Flags, in each auction, the rows that carry its highest counter.
pub fn bdf_mark_final_bid(bdf: &Vec<BidRow>) -> (out: Vec<BidRow>)
    ensures
        out@ == with_final(bdf@),
{
    let mut out: Vec<BidRow> = Vec::new();
    let mut at: usize = 0;
    while at < bdf.len()
        invariant
            at <= bdf@.len(),
            out@.len() == at,
            forall|j: int|
                0 <= j < at ==> out@[j] == (BidRow { final_bid: is_final(bdf@, bdf@[j]), ..bdf@[j] }),
        decreases bdf@.len() - at,
    {
        let max_price = highest_counter(bdf, bdf[at].auction_id);
        let mut row = bdf[at].duplicate();
        row.final_bid = row.price == max_price;
        out.push(row);
        at += 1;
    }
    proof {
        assert(out@ =~= with_final(bdf@));
    }
    out
}

/// Orders the rows by timestamp and numbers them from 0.
pub fn bdf_mark_timestamp_index(bdf: &Vec<BidRow>) -> (out: Vec<BidRow>)
    ensures
        out@ == with_index(bdf@),
{
    let keys = times_of(bdf);
    let order = sort_order(&keys);
    let sorted = gather_copies(bdf, &order);
    let mut out: Vec<BidRow> = Vec::new();
    let mut at: usize = 0;
    while at < sorted.len()
        invariant
            at <= sorted@.len(),
            out@.len() == at,
            forall|j: int| 0 <= j < at ==> out@[j] == (BidRow { idx: j as usize, ..sorted@[j] }),
        decreases sorted@.len() - at,
    {
        let mut row = sorted[at].duplicate();
        row.idx = at;
        out.push(row);
        at += 1;
    }
    proof {
        assert(out@ =~= with_index(bdf@));
    }
    out
}

} // verus!
