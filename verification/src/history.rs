//! The history of each user: aggregates over rolling windows, and the join
//! of every bid with the most recent window known at that point.
//!
//! Windows are 4 days long and open every 30 minutes, on the half-hour
//! grid.  For a user the first window opens at the grid point after the
//! user's earliest bid, and the last no later than the latest bid.  A window
//! without a bid of the user yields nothing.

use vstd::arithmetic::div_mod::{lemma_fundamental_div_mod, lemma_fundamental_div_mod_converse};
use vstd::prelude::*;
use crate::groups::{
    count_where, lemma_count_positive, lemma_extremes, lemma_previous_where, lowest, previous_where, sum_where,
    topmost,
};
use crate::order::{
    ascending, gather, lemma_stable_order_entries, lemma_stable_order_sorted, lemma_text_strict_weak, sort_order,
    stable_order, SortKey,
};
use crate::rows::{gather_copies, BidRow, Duplicate, JoinedBid, Stats, UserStat, Wide};

verus! {

/// Microseconds between the openings of two consecutive windows.
pub const EVERY: i64 = 1_800_000_000;

/// Microseconds that a window stays open.
pub const PERIOD: i64 = 345_600_000_000;

/// Microseconds from the grid point at or before the earliest bid to the
/// opening of the first window.
pub const OFFSET: i64 = 1_800_000_000;

/// Two to the power 128.
pub open spec fn two_128() -> int {
    u128::MAX + 1
}

impl Wide {
    /// The number that the two limbs stand for.
    pub open spec fn value(self) -> int {
        self.hi * (u128::MAX + 1) + self.lo
    }
}

/// The two limbs of a number below `2^192`.
pub open spec fn wide_of(value: int) -> Wide {
    Wide { hi: (value / two_128()) as u64, lo: (value % two_128()) as u128 }
}

/// The limbs of a number are those that `wide_of` gives for it.
pub proof fn lemma_wide_of(wide: Wide)
    ensures
        wide_of(wide.value()) == wide,
{
    lemma_fundamental_div_mod_converse(wide.value(), two_128(), wide.hi as int, wide.lo as int);
}

/// Adds a square to a sum of squares.
fn add_to(sum: Wide, square: u128) -> (out: Wide)
    requires
        sum.hi < u64::MAX,
    ensures
        out.value() == sum.value() + square,
{
    let room: u128 = u128::MAX - sum.lo;
    proof {
        assert((sum.hi + 1) * (u128::MAX + 1) == sum.hi * (u128::MAX + 1) + (u128::MAX + 1)) by (nonlinear_arith);
    }
    if square <= room {
        Wide { hi: sum.hi, lo: sum.lo + square }
    } else {
        Wide { hi: sum.hi + 1, lo: square - room - 1 }
    }
}

/// The bids of a user in the window that opens at `open`.
pub open spec fn in_window(username: Seq<char>, open: int) -> spec_fn(BidRow) -> bool {
    |row: BidRow| row.username@ == username && open <= row.timestamp < open + PERIOD
}

/// The winning bids among the bids of a group.
pub open spec fn won(member: spec_fn(BidRow) -> bool) -> spec_fn(BidRow) -> bool {
    |row: BidRow| member(row) && row.final_bid
}

/// The delta of a row.
pub open spec fn delta_of() -> spec_fn(BidRow) -> int {
    |row: BidRow| row.delta as int
}

/// The square of the delta of a row.
pub open spec fn delta_squared() -> spec_fn(BidRow) -> int {
    |row: BidRow| row.delta * row.delta
}

/// The counter of a row.
pub open spec fn price_of() -> spec_fn(BidRow) -> int {
    |row: BidRow| row.price as int
}

/// The square of the counter of a row.
pub open spec fn price_squared() -> spec_fn(BidRow) -> int {
    |row: BidRow| row.price * row.price
}

/// The index of a row.
pub open spec fn index_of() -> spec_fn(BidRow) -> int {
    |row: BidRow| row.idx as int
}

/// The aggregates over the rows of a group.
pub open spec fn stats_over(rows: Seq<BidRow>, member: spec_fn(BidRow) -> bool) -> Stats {
    Stats {
        total_spend: count_where(rows, member, rows.len()) as usize,
        wins: count_where(rows, won(member), rows.len()) as usize,
        sum_delta: sum_where(rows, member, delta_of(), rows.len()) as i128,
        sum_delta_sq: wide_of(sum_where(rows, member, delta_squared(), rows.len())),
        sum_price: sum_where(rows, member, price_of(), rows.len()) as u128,
        sum_price_sq: wide_of(sum_where(rows, member, price_squared(), rows.len())),
    }
}

/// Aggregates the bids of a user in the window that opens at `open`, and
/// finds the lowest index among them.
fn aggregate(bdf: &Vec<BidRow>, username: &String, open: i128) -> (found: (usize, Stats))
    requires
        -0x1_0000_0000_0000_0000 <= open <= 0x1_0000_0000_0000_0000,
    ensures
        found.0 == lowest(bdf@, in_window(username@, open as int), index_of(), bdf@.len()),
        found.1 == stats_over(bdf@, in_window(username@, open as int)),
        found.1.total_spend == count_where(bdf@, in_window(username@, open as int), bdf@.len()),
{
    let ghost member = in_window(username@, open as int);
    let mut first: usize = 0;
    let mut total: usize = 0;
    let mut wins: usize = 0;
    let mut sum_delta: i128 = 0;
    let mut sum_price: u128 = 0;
    let mut delta_sq = Wide { hi: 0, lo: 0 };
    let mut price_sq = Wide { hi: 0, lo: 0 };
    let mut k: usize = 0;
    while k < bdf.len()
        invariant
            k <= bdf@.len(),
            -0x1_0000_0000_0000_0000 <= open <= 0x1_0000_0000_0000_0000,
            member == in_window(username@, open as int),
            first == lowest(bdf@, member, index_of(), k as nat),
            total == count_where(bdf@, member, k as nat),
            total <= k,
            wins == count_where(bdf@, won(member), k as nat),
            wins <= k,
            sum_delta == sum_where(bdf@, member, delta_of(), k as nat),
            -k * 0x8000_0000_0000_0000 <= sum_delta <= k * 0x8000_0000_0000_0000,
            sum_price == sum_where(bdf@, member, price_of(), k as nat),
            sum_price <= k * 0xffff_ffff_ffff_ffff,
            delta_sq.value() == sum_where(bdf@, member, delta_squared(), k as nat),
            0 <= delta_sq.value() <= k * 0x4000_0000_0000_0000_0000_0000_0000_0000,
            price_sq.value() == sum_where(bdf@, member, price_squared(), k as nat),
            0 <= price_sq.value() <= k * 0xffff_ffff_ffff_ffff_ffff_ffff_ffff_ffff,
        decreases bdf@.len() - k,
    {
        let at: i128 = bdf[k].timestamp as i128;
        if bdf[k].username == *username && open <= at && at - open < PERIOD as i128 {
            if total == 0 || bdf[k].idx < first {
                first = bdf[k].idx;
            }
            total += 1;
            if bdf[k].final_bid {
                wins += 1;
            }
            let delta: i128 = bdf[k].delta as i128;
            let price: u128 = bdf[k].price as u128;
            assert(0 <= delta * delta <= 0x4000_0000_0000_0000_0000_0000_0000_0000) by (nonlinear_arith)
                requires
                    -0x8000_0000_0000_0000 <= delta <= 0x7fff_ffff_ffff_ffff,
            ;
            assert(price * price <= 0xffff_ffff_ffff_ffff_ffff_ffff_ffff_ffff) by (nonlinear_arith)
                requires
                    0 <= price <= 0xffff_ffff_ffff_ffff,
            ;
            sum_delta += delta;
            sum_price += price;
            assert(delta_sq.hi < u64::MAX) by {
                assert(delta_sq.hi * (u128::MAX + 1) <= k * 0x4000_0000_0000_0000_0000_0000_0000_0000);
            }
            assert(price_sq.hi < u64::MAX) by {
                assert(price_sq.hi * (u128::MAX + 1) <= k * 0xffff_ffff_ffff_ffff_ffff_ffff_ffff_ffff);
            }
            delta_sq = add_to(delta_sq, (delta * delta) as u128);
            price_sq = add_to(price_sq, price * price);
        }
        k += 1;
    }
    proof {
        lemma_wide_of(delta_sq);
        lemma_wide_of(price_sq);
    }
    (
        first,
        Stats {
            total_spend: total,
            wins,
            sum_delta,
            sum_delta_sq: delta_sq,
            sum_price,
            sum_price_sq: price_sq,
        },
    )
}

/// The bids of a user.
pub open spec fn of_user(username: Seq<char>) -> spec_fn(BidRow) -> bool {
    |row: BidRow| row.username@ == username
}

/// The timestamp of a row.
pub open spec fn time_of() -> spec_fn(BidRow) -> int {
    |row: BidRow| row.timestamp as int
}

/// The grid point at or before a timestamp.
pub open spec fn grid_point(timestamp: int) -> int {
    timestamp - timestamp % (EVERY as int)
}

/// The opening of a user's first window.
pub open spec fn first_open(rows: Seq<BidRow>, username: Seq<char>) -> int {
    grid_point(lowest(rows, of_user(username), time_of(), rows.len())) + OFFSET
}

/// The time of a user's latest bid.
pub open spec fn last_time(rows: Seq<BidRow>, username: Seq<char>) -> int {
    topmost(rows, of_user(username), time_of(), rows.len())
}

/// The aggregates of a user over the window that opens at `open`, with the
/// lowest index in the window.
pub open spec fn bucket(rows: Seq<BidRow>, username: String, open: int) -> UserStat {
    UserStat {
        username,
        idx: lowest(rows, in_window(username@, open), index_of(), rows.len()) as usize,
        stats: stats_over(rows, in_window(username@, open)),
    }
}

/// The buckets of a user for the windows that open at `open` and every 30
/// minutes after it up to `last`, leaving out windows without a bid.
pub open spec fn buckets_from(rows: Seq<BidRow>, username: String, open: int, last: int) -> Seq<UserStat>
    decreases last - open + EVERY,
{
    if open > last {
        Seq::empty()
    } else {
        let rest = buckets_from(rows, username, open + EVERY, last);
        if count_where(rows, in_window(username@, open), rows.len()) > 0 {
            seq![bucket(rows, username, open)] + rest
        } else {
            rest
        }
    }
}

/// The buckets of a user, in the order in which their windows open.
pub open spec fn user_buckets(rows: Seq<BidRow>, username: String) -> Seq<UserStat> {
    buckets_from(rows, username, first_open(rows, username@), last_time(rows, username@))
}

/// The buckets of the users that occur among the first `n` rows, user after
/// user in the order of their first occurrence.
pub open spec fn all_buckets(rows: Seq<BidRow>, n: nat) -> Seq<UserStat>
    decreases n,
{
    if n == 0 {
        Seq::empty()
    } else {
        let before = all_buckets(rows, (n - 1) as nat);
        if previous_where(rows, of_user(rows[n - 1].username@), n - 1) is None {
            before + user_buckets(rows, rows[n - 1].username)
        } else {
            before
        }
    }
}

/// Whether two buckets agree in every column.
pub open spec fn same_stat(a: UserStat, b: UserStat) -> bool {
    a.username@ == b.username@ && a.idx == b.idx && a.stats == b.stats
}

/// Whether a list of buckets holds one that agrees with `stat`.
pub open spec fn seen(stats: Seq<UserStat>, stat: UserStat) -> bool {
    exists|k: int| 0 <= k < stats.len() && same_stat(#[trigger] stats[k], stat)
}

/// The first `n` buckets without repetitions: of buckets that agree in every
/// column only the first stays.
pub open spec fn deduped(stats: Seq<UserStat>, n: nat) -> Seq<UserStat>
    decreases n,
{
    if n == 0 {
        Seq::empty()
    } else {
        let before = deduped(stats, (n - 1) as nat);
        if seen(before, stats[n - 1]) {
            before
        } else {
            before.push(stats[n - 1])
        }
    }
}

/// The usernames of a list of buckets.
pub open spec fn stat_names(stats: Seq<UserStat>) -> Seq<String> {
    Seq::new(stats.len(), |i: int| stats[i].username)
}

/// The buckets ordered by username, those of one user in their given order.
pub open spec fn by_username(stats: Seq<UserStat>) -> Seq<UserStat> {
    gather(stats, stable_order(stat_names(stats), stats.len()))
}

/// The table of user statistics: the buckets of every user, without
/// repetitions, ordered by username.
pub open spec fn user_stats(rows: Seq<BidRow>) -> Seq<UserStat> {
    let buckets = all_buckets(rows, rows.len());
    by_username(deduped(buckets, buckets.len()))
}

/// The grid point at or before a timestamp.
fn grid_floor(timestamp: i64) -> (point: i128)
    ensures
        point == grid_point(timestamp as int),
        timestamp - EVERY < point <= timestamp,
{
    if timestamp >= 0 {
        (timestamp - timestamp % EVERY) as i128
    } else {
        let back: i64 = -(timestamp + 1);
        let rest: i64 = back % EVERY;
        proof {
            let t = timestamp as int;
            let e = EVERY as int;
            let k = (back as int) / e;
            lemma_fundamental_div_mod(back as int, e);
            assert(t == (-k - 1) * e + (e - 1 - rest)) by (nonlinear_arith)
                requires
                    -(t + 1) == e * k + rest,
            ;
            lemma_fundamental_div_mod_converse(t, e, -k - 1, e - 1 - rest);
        }
        timestamp as i128 - (EVERY as i128 - 1 - rest as i128)
    }
}

/// Finds the earliest and the latest timestamp of a user.
fn time_range(bdf: &Vec<BidRow>, username: &String) -> (range: (i64, i64))
    ensures
        range.0 == lowest(bdf@, of_user(username@), time_of(), bdf@.len()),
        range.1 == topmost(bdf@, of_user(username@), time_of(), bdf@.len()),
{
    let mut earliest: i64 = 0;
    let mut latest: i64 = 0;
    let mut any = false;
    let mut k: usize = 0;
    while k < bdf.len()
        invariant
            k <= bdf@.len(),
            any == (count_where(bdf@, of_user(username@), k as nat) > 0),
            earliest == lowest(bdf@, of_user(username@), time_of(), k as nat),
            latest == topmost(bdf@, of_user(username@), time_of(), k as nat),
        decreases bdf@.len() - k,
    {
        if bdf[k].username == *username {
            if !any || bdf[k].timestamp < earliest {
                earliest = bdf[k].timestamp;
            }
            if !any || bdf[k].timestamp > latest {
                latest = bdf[k].timestamp;
            }
            any = true;
        }
        k += 1;
    }
    (earliest, latest)
}

/// Computes the buckets of a user and puts them behind `out`.
fn push_user_buckets(bdf: &Vec<BidRow>, username: &String, out: &mut Vec<UserStat>)
    ensures
        final(out)@ == old(out)@ + user_buckets(bdf@, *username),
{
    let range = time_range(bdf, username);
    let last: i128 = range.1 as i128;
    let mut open: i128 = grid_floor(range.0) + OFFSET as i128;
    let ghost start = out@;
    let ghost done: Seq<UserStat> = Seq::empty();
    proof {
        assert(start + done =~= start);
    }
    while open <= last
        invariant
            -0x1_0000_0000_0000_0000 <= open <= 0x1_0000_0000_0000_0000,
            last <= i64::MAX,
            out@ == start + done,
            done + buckets_from(bdf@, *username, open as int, last as int) == user_buckets(bdf@, *username),
        decreases last - open + EVERY,
    {
        let found = aggregate(bdf, username, open);
        if found.1.total_spend > 0 {
            out.push(UserStat { username: username.clone(), idx: found.0, stats: found.1 });
            proof {
                let made = bucket(bdf@, *username, open as int);
                let rest = buckets_from(bdf@, *username, open + EVERY, last as int);
                assert(done.push(made) + rest =~= done + (seq![made] + rest));
                assert(start + done.push(made) =~= (start + done).push(made));
                done = done.push(made);
            }
        }
        open += EVERY as i128;
    }
    proof {
        assert(done + Seq::<UserStat>::empty() =~= done);
    }
}

/// Whether the row at `at` is the first of its user.
fn first_of_user(bdf: &Vec<BidRow>, at: usize) -> (first: bool)
    requires
        at < bdf@.len(),
    ensures
        first == (previous_where(bdf@, of_user(bdf@[at as int].username@), at as int) is None),
{
    let ghost member = of_user(bdf@[at as int].username@);
    let mut m: usize = at;
    while m > 0
        invariant
            m <= at < bdf@.len(),
            member == of_user(bdf@[at as int].username@),
            previous_where(bdf@, member, at as int) == previous_where(bdf@, member, m as int),
        decreases m,
    {
        if bdf[m - 1].username == bdf[at].username {
            return false;
        }
        m -= 1;
    }
    true
}

/// Decides whether two buckets agree in every column.
fn agree(a: &UserStat, b: &UserStat) -> (r: bool)
    ensures
        r == same_stat(*a, *b),
{
    a.username == b.username && a.idx == b.idx && a.stats.total_spend == b.stats.total_spend && a.stats.wins
        == b.stats.wins && a.stats.sum_delta == b.stats.sum_delta && a.stats.sum_delta_sq.hi
        == b.stats.sum_delta_sq.hi && a.stats.sum_delta_sq.lo == b.stats.sum_delta_sq.lo && a.stats.sum_price
        == b.stats.sum_price && a.stats.sum_price_sq.hi == b.stats.sum_price_sq.hi && a.stats.sum_price_sq.lo
        == b.stats.sum_price_sq.lo
}

/// Decides whether a list of buckets holds one that agrees with `stat`.
fn is_seen(stats: &Vec<UserStat>, stat: &UserStat) -> (r: bool)
    ensures
        r == seen(stats@, *stat),
{
    let mut k: usize = 0;
    while k < stats.len()
        invariant
            k <= stats@.len(),
            forall|j: int| 0 <= j < k ==> !same_stat(#[trigger] stats@[j], *stat),
        decreases stats@.len() - k,
    {
        if agree(&stats[k], stat) {
            return true;
        }
        k += 1;
    }
    false
}

/// Computes the table of user statistics from the indexed bids: for every
/// user and every window with a bid of the user, the lowest index in the
/// window and the aggregates over it; without repetitions, ordered by
/// username.
pub fn bdf_user_historical_stats(bdf: &Vec<BidRow>) -> (out: Vec<UserStat>)
    ensures
        out@ == user_stats(bdf@),
{
    let mut buckets: Vec<UserStat> = Vec::new();
    let mut i: usize = 0;
    while i < bdf.len()
        invariant
            i <= bdf@.len(),
            buckets@ == all_buckets(bdf@, i as nat),
        decreases bdf@.len() - i,
    {
        if first_of_user(bdf, i) {
            push_user_buckets(bdf, &bdf[i].username, &mut buckets);
        }
        i += 1;
    }
    let mut distinct: Vec<UserStat> = Vec::new();
    let mut k: usize = 0;
    while k < buckets.len()
        invariant
            k <= buckets@.len(),
            distinct@ == deduped(buckets@, k as nat),
        decreases buckets@.len() - k,
    {
        if !is_seen(&distinct, &buckets[k]) {
            distinct.push(buckets[k].duplicate());
        }
        k += 1;
    }
    let mut names: Vec<String> = Vec::new();
    let mut n: usize = 0;
    while n < distinct.len()
        invariant
            n <= distinct@.len(),
            names@.len() == n,
            forall|j: int| 0 <= j < n ==> names@[j] == distinct@[j].username,
        decreases distinct@.len() - n,
    {
        names.push(distinct[n].username.clone());
        n += 1;
    }
    proof {
        assert(names@ =~= stat_names(distinct@));
    }
    let order = sort_order(&names);
    gather_copies(&distinct, &order)
}

/// Whether a bucket may be joined to a bid of `username` with index `idx`:
/// it belongs to the user and its earliest bid is no later than that bid.
pub open spec fn eligible(stat: UserStat, username: Seq<char>, idx: usize) -> bool {
    stat.username@ == username && stat.idx <= idx
}

/// The position of the bucket that is joined to a bid of `username` with
/// index `idx`, looking at the first `n` buckets: among the eligible ones the
/// one with the highest index, and of several with that index the last.
pub open spec fn asof_pick(stats: Seq<UserStat>, username: Seq<char>, idx: usize, n: nat) -> Option<int>
    decreases n,
{
    if n == 0 {
        None
    } else {
        let before = asof_pick(stats, username, idx, (n - 1) as nat);
        if eligible(stats[n - 1], username, idx) && (match before {
            Some(j) => stats[j].idx <= stats[n - 1].idx,
            None => true,
        }) {
            Some(n - 1)
        } else {
            before
        }
    }
}

/// A bid with the aggregates of the bucket that is joined to it, if any.
pub open spec fn joined(stats: Seq<UserStat>, row: BidRow) -> JoinedBid {
    JoinedBid {
        auction_id: row.auction_id,
        price: row.price,
        timestamp: row.timestamp,
        username: row.username,
        delta: row.delta,
        prior_bid_dist: row.prior_bid_dist,
        final_bid: row.final_bid,
        stats: match asof_pick(stats, row.username@, row.idx, stats.len()) {
            Some(j) => Some(stats[j].stats),
            None => None,
        },
    }
}

/// The join looks back only: the bucket joined to a bid belongs to the
/// bid's user and its earliest bid has an index no higher than the bid's.
/// It is the most recent such bucket: no eligible bucket has a higher index,
/// and none with the same index stands later in the table.  A bid gets no
/// bucket exactly when none is eligible.
pub proof fn lemma_asof(stats: Seq<UserStat>, username: Seq<char>, idx: usize, n: nat)
    requires
        n <= stats.len(),
    ensures
        match asof_pick(stats, username, idx, n) {
            Some(j) => {
                &&& 0 <= j < n
                &&& eligible(stats[j], username, idx)
                &&& forall|k: int|
                    0 <= k < n && eligible(#[trigger] stats[k], username, idx) ==> stats[k].idx < stats[j].idx || (
                    stats[k].idx == stats[j].idx && k <= j)
            },
            None => forall|k: int| 0 <= k < n ==> !eligible(#[trigger] stats[k], username, idx),
        },
    decreases n,
{
    if n > 0 {
        lemma_asof(stats, username, idx, (n - 1) as nat);
    }
}

/// Whether the rows stand in timestamp order and each carries its position
/// as index.
pub open spec fn indexed_by_time(rows: Seq<BidRow>) -> bool {
    &&& forall|i: int| 0 <= i < rows.len() ==> (#[trigger] rows[i]).idx == i
    &&& forall|i: int, j: int|
        0 <= i < j < rows.len() ==> (#[trigger] rows[i]).timestamp <= (#[trigger] rows[j]).timestamp
}

/// Whether a bucket, if it belongs to the user, starts after position `at`.
pub open spec fn starts_after(stat: UserStat, username: Seq<char>, at: int) -> bool {
    stat.username@ == username ==> stat.idx > at
}

/// Every window of a user opens after the user's first bid, so the first
/// bid is in none, and every bucket of the user starts after it.
proof fn lemma_buckets_start_late(rows: Seq<BidRow>, name: String, open: int, last: int, at: int)
    requires
        indexed_by_time(rows),
        rows.len() <= usize::MAX,
        0 <= at < rows.len(),
        previous_where(rows, of_user(rows[at].username@), at) is None,
        name@ == rows[at].username@ ==> open >= first_open(rows, name@),
    ensures
        forall|p: int|
            0 <= p < buckets_from(rows, name, open, last).len() ==> {
                &&& (#[trigger] buckets_from(rows, name, open, last)[p]).username == name
                &&& starts_after(buckets_from(rows, name, open, last)[p], rows[at].username@, at)
            },
    decreases last - open + EVERY,
{
    if open <= last {
        let user = rows[at].username@;
        let rest = buckets_from(rows, name, open + EVERY, last);
        lemma_buckets_start_late(rows, name, open + EVERY, last, at);
        let window = in_window(name@, open);
        if count_where(rows, window, rows.len()) > 0 {
            let made = bucket(rows, name, open);
            if name@ == user {
                lemma_extremes(rows, window, index_of(), rows.len());
                let m = choose|m: int|
                    0 <= m < rows.len() && window(#[trigger] rows[m]) && index_of()(rows[m]) == lowest(
                        rows,
                        window,
                        index_of(),
                        rows.len(),
                    );
                lemma_extremes(rows, of_user(user), time_of(), rows.len());
                lemma_count_positive(rows, of_user(user), rows.len(), at);
                assert(of_user(user)(rows[at]));
                let j = choose|j: int|
                    0 <= j < rows.len() && of_user(user)(#[trigger] rows[j]) && time_of()(rows[j]) == lowest(
                        rows,
                        of_user(user),
                        time_of(),
                        rows.len(),
                    );
                lemma_previous_where(rows, of_user(user), at);
                assert(j >= at) by {
                    if j < at {
                        assert(!of_user(user)(rows[j]));
                    }
                }
                assert(time_of()(rows[at]) >= lowest(rows, of_user(user), time_of(), rows.len()));
                assert(rows[j].timestamp >= rows[at].timestamp);
                assert(lowest(rows, of_user(user), time_of(), rows.len()) == rows[at].timestamp);
                assert(first_open(rows, user) > rows[at].timestamp);
                assert(rows[m].timestamp > rows[at].timestamp);
                assert(m > at) by {
                    if m < at {
                        assert(!of_user(user)(rows[m]));
                    }
                }
                assert(rows[m].idx == m);
                assert(made.idx > at);
            }
            let out = buckets_from(rows, name, open, last);
            assert(out == seq![made] + rest);
            assert forall|p: int| 0 <= p < out.len() implies {
                &&& (#[trigger] out[p]).username == name
                &&& starts_after(out[p], user, at)
            } by {
                if p > 0 {
                    assert(out[p] == rest[p - 1]);
                }
            }
        }
    }
}

/// Every bucket of the table that belongs to the user of the bid at `at`
/// starts after that bid, if the bid is the user's first.
proof fn lemma_all_buckets_start_late(rows: Seq<BidRow>, n: nat, at: int)
    requires
        indexed_by_time(rows),
        rows.len() <= usize::MAX,
        n <= rows.len(),
        0 <= at < rows.len(),
        previous_where(rows, of_user(rows[at].username@), at) is None,
    ensures
        forall|p: int|
            0 <= p < all_buckets(rows, n).len() ==> starts_after(
                #[trigger] all_buckets(rows, n)[p],
                rows[at].username@,
                at,
            ),
    decreases n,
{
    if n > 0 {
        lemma_all_buckets_start_late(rows, (n - 1) as nat, at);
        let before = all_buckets(rows, (n - 1) as nat);
        let name = rows[n - 1].username;
        if previous_where(rows, of_user(name@), n - 1) is None {
            let added = user_buckets(rows, name);
            lemma_buckets_start_late(rows, name, first_open(rows, name@), last_time(rows, name@), at);
            let out = all_buckets(rows, n);
            assert(out == before + added);
            assert forall|p: int| 0 <= p < out.len() implies starts_after(
                #[trigger] out[p],
                rows[at].username@,
                at,
            ) by {
                if p < before.len() {
                    assert(out[p] == before[p]);
                } else {
                    assert(out[p] == added[p - before.len()]);
                }
            }
        }
    }
}

/// Every bucket that stays is one of the given buckets.
proof fn lemma_deduped_entries(stats: Seq<UserStat>, n: nat)
    requires
        n <= stats.len(),
    ensures
        deduped(stats, n).len() <= n,
        forall|p: int|
            0 <= p < deduped(stats, n).len() ==> exists|k: int| 0 <= k < n && stats[k] == #[trigger] deduped(stats, n)[p],
    decreases n,
{
    if n > 0 {
        lemma_deduped_entries(stats, (n - 1) as nat);
        let before = deduped(stats, (n - 1) as nat);
        let out = deduped(stats, n);
        assert forall|p: int| 0 <= p < out.len() implies exists|k: int|
            0 <= k < n && stats[k] == #[trigger] out[p] by {
            if p < before.len() {
                assert(out[p] == before[p]);
                let k = choose|k: int| 0 <= k < n - 1 && stats[k] == before[p];
                assert(stats[k] == out[p]);
            } else {
                assert(stats[n - 1] == out[p]);
            }
        }
    }
}

/// No bucket stays twice: of the buckets that stay no two agree in every
/// column.
pub proof fn lemma_deduped_distinct(stats: Seq<UserStat>, n: nat)
    requires
        n <= stats.len(),
    ensures
        forall|p: int, q: int|
            0 <= p < q < deduped(stats, n).len() ==> !same_stat(
                #[trigger] deduped(stats, n)[p],
                #[trigger] deduped(stats, n)[q],
            ),
        forall|k: int| 0 <= k < n ==> seen(deduped(stats, n), #[trigger] stats[k]),
    decreases n,
{
    if n > 0 {
        lemma_deduped_distinct(stats, (n - 1) as nat);
        let before = deduped(stats, (n - 1) as nat);
        let out = deduped(stats, n);
        let last = stats[n - 1];
        assert forall|k: int| 0 <= k < n implies seen(out, #[trigger] stats[k]) by {
            if k < n - 1 || seen(before, last) {
                let w = choose|w: int| 0 <= w < before.len() && same_stat(#[trigger] before[w], stats[k]);
                assert(same_stat(out[w], stats[k]));
            } else {
                assert(same_stat(out[before.len() as int], stats[k]));
            }
        }
        assert forall|p: int, q: int| 0 <= p < q < out.len() implies !same_stat(
            #[trigger] out[p],
            #[trigger] out[q],
        ) by {
            if q < before.len() {
                assert(out[p] == before[p] && out[q] == before[q]);
            } else {
                assert(out[p] == before[p]);
                assert(same_stat(before[p], last) ==> seen(before, last));
            }
        }
    }
}

/// The table of user statistics is ordered by username, and the buckets of
/// one user keep the order in which their windows open.
pub proof fn lemma_by_username_sorted(stats: Seq<UserStat>)
    requires
        stats.len() <= usize::MAX,
    ensures
        by_username(stats).len() == stats.len(),
        forall|p: int, q: int|
            0 <= p < q < stats.len() ==> !(#[trigger] by_username(stats)[q]).username.key_before(
                &(#[trigger] by_username(stats)[p]).username,
            ),
        ascending(stat_names(stats), stable_order(stat_names(stats), stats.len())),
{
    lemma_text_strict_weak();
    lemma_stable_order_entries(stat_names(stats), stats.len());
    lemma_stable_order_sorted(stat_names(stats), stats.len());
    let order = stable_order(stat_names(stats), stats.len());
    let table = by_username(stats);
    assert forall|p: int, q: int| 0 <= p < q < stats.len() implies !(#[trigger] table[q]).username.key_before(
        &(#[trigger] table[p]).username,
    ) by {
        assert(table[p] == stats[order[p] as int]);
        assert(table[q] == stats[order[q] as int]);
        assert(stat_names(stats)[order[p] as int] == table[p].username);
        assert(stat_names(stats)[order[q] as int] == table[q].username);
    }
}

/// A cold start has no history: the first bid of a user is joined with no
/// bucket, where the rows stand in timestamp order and carry their position
/// as index, and the buckets are few enough to be held in a table.
pub proof fn lemma_cold_start(rows: Seq<BidRow>, at: int)
    requires
        indexed_by_time(rows),
        rows.len() <= usize::MAX,
        all_buckets(rows, rows.len()).len() <= usize::MAX,
        0 <= at < rows.len(),
        previous_where(rows, of_user(rows[at].username@), at) is None,
    ensures
        joined(user_stats(rows), rows[at]).stats is None,
{
    let user = rows[at].username@;
    let buckets = all_buckets(rows, rows.len());
    let distinct = deduped(buckets, buckets.len());
    let table = user_stats(rows);
    lemma_all_buckets_start_late(rows, rows.len(), at);
    lemma_deduped_entries(buckets, buckets.len());
    let order = stable_order(stat_names(distinct), distinct.len());
    lemma_stable_order_entries(stat_names(distinct), distinct.len());
    assert forall|k: int| 0 <= k < table.len() implies !eligible(#[trigger] table[k], user, rows[at].idx) by {
        assert(table[k] == distinct[order[k] as int]);
        let b = choose|b: int| 0 <= b < buckets.len() && buckets[b] == distinct[order[k] as int];
        assert(starts_after(buckets[b], user, at));
    }
    lemma_asof(table, user, rows[at].idx, table.len());
}

/// Joins every bid with the most recent bucket of its user whose earliest
/// bid has an index no higher than the bid's own.  A bid without such a
/// bucket gets no aggregates.  The index column is dropped.
pub fn bdf_user_stats_join(bdf: &Vec<BidRow>, user_stats: &Vec<UserStat>) -> (out: Vec<JoinedBid>)
    ensures
        out@ == Seq::new(bdf@.len(), |i: int| joined(user_stats@, bdf@[i])),
{
    let mut out: Vec<JoinedBid> = Vec::new();
    let mut i: usize = 0;
    while i < bdf.len()
        invariant
            i <= bdf@.len(),
            out@.len() == i,
            forall|j: int| 0 <= j < i ==> out@[j] == joined(user_stats@, bdf@[j]),
        decreases bdf@.len() - i,
    {
        let mut best: Option<usize> = None;
        let mut k: usize = 0;
        while k < user_stats.len()
            invariant
                k <= user_stats@.len(),
                i < bdf@.len(),
                match best {
                    Some(j) => j < k && asof_pick(user_stats@, bdf@[i as int].username@, bdf@[i as int].idx, k as nat)
                        == Some(j as int),
                    None => asof_pick(user_stats@, bdf@[i as int].username@, bdf@[i as int].idx, k as nat) is None,
                },
            decreases user_stats@.len() - k,
        {
            if user_stats[k].username == bdf[i].username && user_stats[k].idx <= bdf[i].idx {
                let later = match best {
                    Some(j) => user_stats[j].idx <= user_stats[k].idx,
                    None => true,
                };
                if later {
                    best = Some(k);
                }
            }
            k += 1;
        }
        let stats = match best {
            Some(j) => Some(user_stats[j].stats),
            None => None,
        };
        out.push(
            JoinedBid {
                auction_id: bdf[i].auction_id,
                price: bdf[i].price,
                timestamp: bdf[i].timestamp,
                username: bdf[i].username.clone(),
                delta: bdf[i].delta,
                prior_bid_dist: bdf[i].prior_bid_dist,
                final_bid: bdf[i].final_bid,
                stats,
            },
        );
        i += 1;
    }
    proof {
        assert(out@ =~= Seq::new(bdf@.len(), |i: int| joined(user_stats@, bdf@[i])));
    }
    out
}

} // verus!
