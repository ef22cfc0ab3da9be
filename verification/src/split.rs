//! Chronological split of the feature table into training, validation and
//! test rows.
//!
//! Auctions are ranked by start time.  The first 60% of the ranks train, the
//! next 20% validate and the rest test; every row follows its auction, so no
//! auction is spread over two parts.  Auctions that start within the warm-up
//! span after the earliest start are left out: the rolling history of their
//! bidders is not yet complete.

use vstd::prelude::*;
use crate::order::{gather, lemma_stable_order_entries, sort_order, stable_order};
use crate::rows::{Duplicate, FeatureRow};

verus! {

/// Days of the warm-up span.
pub const WARM_UP_DAYS: i64 = 4;

/// Hours of the warm-up span, on top of the days.
pub const WARM_UP_HOURS: i64 = 1;

/// Microseconds in a span of whole days and hours.
pub open spec fn span_of(days: int, hours: int) -> int {
    days * 86_400_000_000 + hours * 3_600_000_000
}

/// An auction id with the start time it was seen with.
#[derive(Clone, Copy, Debug, PartialEq, Eq)]
pub struct Started {
    pub auction_id: i32,
    pub start_time: i64,
}

/// One of the three parts of the split.
#[derive(Clone, Copy, Debug, PartialEq, Eq)]
pub enum Part {
    Train,
    Validation,
    Test,
}

/// The auction of a row and its start.
pub open spec fn started_of(row: FeatureRow) -> Started {
    Started { auction_id: row.auction.auction.auction_id, start_time: row.auction.auction.start_time }
}

/// The earliest start time among the first `n` rows; 0 when there is none.
pub open spec fn earliest_start(rows: Seq<FeatureRow>, n: nat) -> int
    decreases n,
{
    if n == 0 {
        0
    } else if n == 1 {
        rows[0].auction.auction.start_time as int
    } else {
        let before = earliest_start(rows, (n - 1) as nat);
        let here = rows[n - 1].auction.auction.start_time as int;
        if here < before {
            here
        } else {
            before
        }
    }
}

/// Whether a start lies strictly more than the warm-up span after the
/// earliest one.
pub open spec fn warmed_up(start: int, earliest: int) -> bool {
    start - earliest > span_of(WARM_UP_DAYS as int, WARM_UP_HOURS as int)
}

/// The distinct warmed-up auctions among the first `n` rows, in order of
/// first appearance.
pub open spec fn distinct_started(rows: Seq<FeatureRow>, earliest: int, n: nat) -> Seq<Started>
    decreases n,
{
    if n == 0 {
        Seq::empty()
    } else {
        let before = distinct_started(rows, earliest, (n - 1) as nat);
        let here = started_of(rows[n - 1]);
        if warmed_up(here.start_time as int, earliest) && !before.contains(here) {
            before.push(here)
        } else {
            before
        }
    }
}

/// The start times of a list of auctions.
pub open spec fn start_keys(auctions: Seq<Started>) -> Seq<i64> {
    Seq::new(auctions.len(), |i: int| auctions[i].start_time)
}

/// The auctions ordered by start time, equal starts in their given order.
pub open spec fn by_start(auctions: Seq<Started>) -> Seq<Started> {
    gather(auctions, stable_order(start_keys(auctions), auctions.len()))
}

/// The warmed-up auctions of a table, ranked by start time.
pub open spec fn ranked(rows: Seq<FeatureRow>) -> Seq<Started> {
    by_start(distinct_started(rows, earliest_start(rows, rows.len()), rows.len()))
}

/// The part that the auction of 0-based rank `rank` among `count` falls in.
pub open spec fn part_of_rank(rank: int, count: int) -> Part {
    if rank <= count * 6 / 10 {
        Part::Train
    } else if rank <= count * 8 / 10 {
        Part::Validation
    } else {
        Part::Test
    }
}

/// Whether one of the first `upto` ranks holds `auction_id` and falls in `part`.
pub open spec fn assigned_within(ranking: Seq<Started>, auction_id: i32, part: Part, upto: int) -> bool {
    exists|r: int|
        0 <= r < upto && r < ranking.len() && (#[trigger] ranking[r]).auction_id == auction_id
            && part_of_rank(r, ranking.len() as int) == part
}

/// Whether the ranking places `auction_id` in `part`.
pub open spec fn assigned(ranking: Seq<Started>, auction_id: i32, part: Part) -> bool {
    assigned_within(ranking, auction_id, part, ranking.len() as int)
}

/// Those of the first `n` rows whose auction the ranking places in `part`.
pub open spec fn select(rows: Seq<FeatureRow>, ranking: Seq<Started>, part: Part, n: nat) -> Seq<FeatureRow>
    decreases n,
{
    if n == 0 {
        Seq::empty()
    } else {
        let before = select(rows, ranking, part, (n - 1) as nat);
        if assigned(ranking, rows[n - 1].auction.auction.auction_id, part) {
            before.push(rows[n - 1])
        } else {
            before
        }
    }
}

/// No auction occurs twice among the distinct started auctions, and each of
/// them is the auction of one of the rows.
pub proof fn lemma_distinct_started(rows: Seq<FeatureRow>, earliest: int, n: nat)
    requires
        n <= rows.len(),
    ensures
        forall|p: int, q: int|
            0 <= p < q < distinct_started(rows, earliest, n).len() ==> distinct_started(rows, earliest, n)[p]
                != distinct_started(rows, earliest, n)[q],
        forall|p: int|
            0 <= p < distinct_started(rows, earliest, n).len() ==> exists|i: int|
                0 <= i < n && started_of(rows[i]) == #[trigger] distinct_started(rows, earliest, n)[p],
        forall|i: int|
            0 <= i < n && warmed_up(rows[i].auction.auction.start_time as int, earliest)
                ==> distinct_started(rows, earliest, n).contains(started_of(#[trigger] rows[i])),
    decreases n,
{
    if n > 0 {
        let before = distinct_started(rows, earliest, (n - 1) as nat);
        let out = distinct_started(rows, earliest, n);
        let here = started_of(rows[n - 1]);
        lemma_distinct_started(rows, earliest, (n - 1) as nat);
        assert forall|p: int| 0 <= p < out.len() implies exists|i: int|
            0 <= i < n && started_of(rows[i]) == #[trigger] out[p] by {
            if p < before.len() {
                let i = choose|i: int| 0 <= i < n - 1 && started_of(rows[i]) == before[p];
                assert(started_of(rows[i]) == out[p]);
            } else {
                assert(started_of(rows[n - 1]) == out[p]);
            }
        }
        assert forall|i: int|
            0 <= i < n && warmed_up(rows[i].auction.auction.start_time as int, earliest) implies out.contains(
            started_of(#[trigger] rows[i]),
        ) by {
            if i < n - 1 {
                let p = choose|p: int| 0 <= p < before.len() && before[p] == started_of(rows[i]);
                assert(out[p] == started_of(rows[i]));
            } else if before.contains(here) {
                let p = choose|p: int| 0 <= p < before.len() && before[p] == here;
                assert(out[p] == here);
            } else {
                assert(out[before.len() as int] == here);
            }
        }
    }
}

/// Whether every auction id of the table comes with one start time only.
pub open spec fn one_start_each(rows: Seq<FeatureRow>) -> bool {
    forall|i: int, j: int|
        0 <= i < rows.len() && 0 <= j < rows.len() && (#[trigger] rows[i]).auction.auction.auction_id == (
        #[trigger] rows[j]).auction.auction.auction_id ==> rows[i].auction.auction.start_time
            == rows[j].auction.auction.start_time
}

/// Whether no auction id occurs twice in a ranking.
pub open spec fn ids_distinct(ranking: Seq<Started>) -> bool {
    forall|p: int, q: int|
        0 <= p < q < ranking.len() ==> (#[trigger] ranking[p]).auction_id != (#[trigger] ranking[q]).auction_id
}

/// Where every auction has one start time, the ranking of a table holds each
/// warmed-up auction id of the table once, and no other id.
pub proof fn lemma_ranked_ids(rows: Seq<FeatureRow>)
    requires
        one_start_each(rows),
        rows.len() <= usize::MAX,
    ensures
        ids_distinct(ranked(rows)),
        forall|i: int|
            0 <= i < rows.len() && warmed_up(
                rows[i].auction.auction.start_time as int,
                earliest_start(rows, rows.len()),
            ) ==> exists|r: int|
                0 <= r < ranked(rows).len() && ranked(rows)[r] == started_of(#[trigger] rows[i]),
        forall|r: int|
            0 <= r < ranked(rows).len() ==> exists|i: int|
                0 <= i < rows.len() && started_of(rows[i]) == #[trigger] ranked(rows)[r],
{
    let earliest = earliest_start(rows, rows.len());
    let auctions = distinct_started(rows, earliest, rows.len());
    lemma_distinct_started(rows, earliest, rows.len());
    lemma_distinct_len(rows, earliest, rows.len());
    let order = stable_order(start_keys(auctions), auctions.len());
    lemma_stable_order_entries(start_keys(auctions), auctions.len());
    crate::order::lemma_stable_order_distinct(start_keys(auctions), auctions.len());
    let ranking = ranked(rows);
    assert forall|r: int| 0 <= r < ranking.len() implies exists|i: int|
        0 <= i < rows.len() && started_of(rows[i]) == #[trigger] ranking[r] by {
        let p = order[r] as int;
        assert(ranking[r] == auctions[p]);
        let i = choose|i: int| 0 <= i < rows.len() && started_of(rows[i]) == auctions[p];
        assert(started_of(rows[i]) == ranking[r]);
    }
    assert forall|p: int, q: int| 0 <= p < q < ranking.len() implies (#[trigger] ranking[p]).auction_id != (
    #[trigger] ranking[q]).auction_id by {
        assert(order[p] != order[q]);
        assert(ranking[p] == auctions[order[p] as int]);
        assert(ranking[q] == auctions[order[q] as int]);
        let a = order[p] as int;
        let b = order[q] as int;
        if a < b {
            assert(auctions[a] != auctions[b]);
        } else {
            assert(auctions[b] != auctions[a]);
        }
        let i = choose|i: int| 0 <= i < rows.len() && started_of(rows[i]) == auctions[a];
        let j = choose|j: int| 0 <= j < rows.len() && started_of(rows[j]) == auctions[b];
        if ranking[p].auction_id == ranking[q].auction_id {
            assert(rows[i].auction.auction.auction_id == rows[j].auction.auction.auction_id);
            assert(rows[i].auction.auction.start_time == rows[j].auction.auction.start_time);
            assert(auctions[a] == auctions[b]);
        }
    }
    assert forall|i: int|
        0 <= i < rows.len() && warmed_up(rows[i].auction.auction.start_time as int, earliest) implies exists|
        r: int,
    |
        0 <= r < ranking.len() && ranking[r] == started_of(#[trigger] rows[i]) by {
        let p = choose|p: int| 0 <= p < auctions.len() && auctions[p] == started_of(rows[i]);
        assert(order.contains(p as usize));
        let r = choose|r: int| 0 <= r < order.len() && order[r] == p as usize;
        assert(ranking[r] == auctions[p]);
    }
}

/// There are no more distinct started auctions than rows.
pub proof fn lemma_distinct_len(rows: Seq<FeatureRow>, earliest: int, n: nat)
    ensures
        distinct_started(rows, earliest, n).len() <= n,
    decreases n,
{
    if n > 0 {
        lemma_distinct_len(rows, earliest, (n - 1) as nat);
    }
}

/// The split is a partition of the ranked auctions: an auction id that the
/// ranking holds once is placed in exactly one part.
pub proof fn lemma_one_part(ranking: Seq<Started>, rank: int)
    requires
        ids_distinct(ranking),
        0 <= rank < ranking.len(),
    ensures
        forall|part: Part|
            assigned(ranking, ranking[rank].auction_id, part) <==> part == part_of_rank(
                rank,
                ranking.len() as int,
            ),
{
    let auction_id = ranking[rank].auction_id;
    assert forall|part: Part| assigned(ranking, auction_id, part) <==> part == part_of_rank(
        rank,
        ranking.len() as int,
    ) by {
        if assigned(ranking, auction_id, part) {
            let w = choose|w: int|
                0 <= w < ranking.len() && w < ranking.len() && (#[trigger] ranking[w]).auction_id == auction_id
                    && part_of_rank(w, ranking.len() as int) == part;
            if w < rank {
                assert(ranking[w].auction_id != ranking[rank].auction_id);
            } else if rank < w {
                assert(ranking[rank].auction_id != ranking[w].auction_id);
            }
        }
        if part == part_of_rank(rank, ranking.len() as int) {
            assert(ranking[rank].auction_id == auction_id);
        }
    }
}

/// An auction id that the ranking does not hold is placed in no part.
pub proof fn lemma_no_part(ranking: Seq<Started>, auction_id: i32, part: Part)
    requires
        forall|r: int| 0 <= r < ranking.len() ==> (#[trigger] ranking[r]).auction_id != auction_id,
    ensures
        !assigned(ranking, auction_id, part),
{
}

/// The number of ranks below `upto` that fall in `part`.
pub open spec fn ranks_in(part: Part, count: int, upto: nat) -> nat
    decreases upto,
{
    if upto == 0 {
        0
    } else {
        let here: nat = if part_of_rank(upto - 1, count) == part {
            1
        } else {
            0
        };
        ranks_in(part, count, (upto - 1) as nat) + here
    }
}

/// How many of the ranks below `upto` fall in each part.
proof fn lemma_ranks_in(count: int, upto: nat)
    requires
        0 <= upto <= count,
    ensures
        ranks_in(Part::Train, count, upto) == if upto <= count * 6 / 10 + 1 {
            upto as int
        } else {
            count * 6 / 10 + 1
        },
        ranks_in(Part::Validation, count, upto) == if upto <= count * 6 / 10 + 1 {
            0
        } else if upto <= count * 8 / 10 + 1 {
            upto - (count * 6 / 10 + 1)
        } else {
            count * 8 / 10 - count * 6 / 10
        },
        ranks_in(Part::Test, count, upto) == if upto <= count * 8 / 10 + 1 {
            0
        } else {
            upto - (count * 8 / 10 + 1)
        },
    decreases upto,
{
    if upto > 0 {
        lemma_ranks_in(count, (upto - 1) as nat);
    }
}

/// The sizes of the three parts of `count` ranked auctions stand as 6 : 2 : 2
/// up to rounding: each differs from its share by less than one auction.
pub proof fn lemma_part_sizes(count: nat)
    requires
        count > 0,
    ensures
        ranks_in(Part::Train, count as int, count) == count * 6 / 10 + 1,
        ranks_in(Part::Validation, count as int, count) == count * 8 / 10 - count * 6 / 10,
        ranks_in(Part::Test, count as int, count) == count - 1 - count * 8 / 10,
        ranks_in(Part::Train, count as int, count) + ranks_in(Part::Validation, count as int, count) + ranks_in(
            Part::Test,
            count as int,
            count,
        ) == count,
        6 * count < 10 * ranks_in(Part::Train, count as int, count) <= 6 * count + 10,
        2 * count - 10 < 10 * ranks_in(Part::Validation, count as int, count) < 2 * count + 10,
        2 * count - 10 <= 10 * ranks_in(Part::Test, count as int, count) < 2 * count,
{
    lemma_ranks_in(count as int, count);
}

/// Adds a number of whole days and a number of whole hours with
/// `chrono::TimeDelta` (`try_days`, `try_hours`, `checked_add`) and reads the
/// sum back with `num_microseconds`.  For spans of up to a million days and a
/// million hours none of these steps leaves the range of the type, and the
/// result is the exact number of microseconds.
#[verifier::external_body]
fn span_micros(days: i64, hours: i64) -> (r: Option<i64>)
    ensures
        0 <= days <= 1_000_000 && 0 <= hours <= 1_000_000 ==> r == Some(span_of(days as int, hours as int) as i64),
{
    let d = chrono::TimeDelta::try_days(days)?;
    let h = chrono::TimeDelta::try_hours(hours)?;
    d.checked_add(&h)?.num_microseconds()
}

/// The warm-up span in microseconds.
pub fn warm_up_span() -> (span: i64)
    ensures
        span == span_of(WARM_UP_DAYS as int, WARM_UP_HOURS as int),
{
    let span = span_micros(WARM_UP_DAYS, WARM_UP_HOURS);
    span.unwrap()
}

/// Finds the earliest start time of a non-empty table.
fn find_earliest(df: &Vec<FeatureRow>) -> (earliest: i64)
    requires
        df@.len() > 0,
    ensures
        earliest == earliest_start(df@, df@.len()),
{
    let mut earliest: i64 = df[0].auction.auction.start_time;
    let mut i: usize = 1;
    while i < df.len()
        invariant
            1 <= i <= df@.len(),
            earliest == earliest_start(df@, i as nat),
        decreases df@.len() - i,
    {
        if df[i].auction.auction.start_time < earliest {
            earliest = df[i].auction.auction.start_time;
        }
        i += 1;
    }
    earliest
}

/// Whether `auctions` holds `wanted`.
fn holds(auctions: &Vec<Started>, wanted: Started) -> (found: bool)
    ensures
        found == auctions@.contains(wanted),
{
    let mut i: usize = 0;
    while i < auctions.len()
        invariant
            i <= auctions@.len(),
            forall|k: int| 0 <= k < i ==> auctions@[k] != wanted,
        decreases auctions@.len() - i,
    {
        if auctions[i].auction_id == wanted.auction_id && auctions[i].start_time == wanted.start_time {
            return true;
        }
        i += 1;
    }
    false
}

/// Collects the distinct warmed-up auctions of a table.
fn collect_started(df: &Vec<FeatureRow>, earliest: i64, span: i64) -> (auctions: Vec<Started>)
    requires
        span == span_of(WARM_UP_DAYS as int, WARM_UP_HOURS as int),
    ensures
        auctions@ == distinct_started(df@, earliest as int, df@.len()),
{
    let mut auctions: Vec<Started> = Vec::new();
    let mut i: usize = 0;
    while i < df.len()
        invariant
            i <= df@.len(),
            span == span_of(WARM_UP_DAYS as int, WARM_UP_HOURS as int),
            auctions@ == distinct_started(df@, earliest as int, i as nat),
        decreases df@.len() - i,
    {
        let here = Started {
            auction_id: df[i].auction.auction.auction_id,
            start_time: df[i].auction.auction.start_time,
        };
        let since: i128 = here.start_time as i128 - earliest as i128;
        if since > span as i128 && !holds(&auctions, here) {
            auctions.push(here);
        }
        i += 1;
    }
    auctions
}

/// Orders auctions by start time, equal starts in their given order.
pub fn rank_by_start(auctions: &Vec<Started>) -> (ranking: Vec<Started>)
    ensures
        ranking@ == by_start(auctions@),
        ranking@.len() == auctions@.len(),
{
    let mut keys: Vec<i64> = Vec::new();
    let mut i: usize = 0;
    while i < auctions.len()
        invariant
            i <= auctions@.len(),
            keys@.len() == i,
            forall|k: int| 0 <= k < i ==> keys@[k] == auctions@[k].start_time,
        decreases auctions@.len() - i,
    {
        keys.push(auctions[i].start_time);
        i += 1;
    }
    proof {
        assert(keys@ =~= start_keys(auctions@));
    }
    let order = sort_order(&keys);
    let mut ranking: Vec<Started> = Vec::new();
    let mut p: usize = 0;
    while p < order.len()
        invariant
            p <= order@.len(),
            order@.len() == auctions@.len(),
            forall|q: int| 0 <= q < order@.len() ==> (#[trigger] order@[q]) < auctions@.len(),
            ranking@.len() == p,
            forall|q: int| 0 <= q < p ==> ranking@[q] == auctions@[order@[q] as int],
        decreases order@.len() - p,
    {
        ranking.push(auctions[order[p]]);
        p += 1;
    }
    proof {
        assert(ranking@ =~= gather(auctions@, order@));
    }
    ranking
}

/// The part of a rank among `count` auctions.
pub fn part_of(rank: usize, count: usize) -> (part: Part)
    ensures
        part == part_of_rank(rank as int, count as int),
{
    let train_end: u128 = count as u128 * 6 / 10;
    let validation_end: u128 = count as u128 * 8 / 10;
    if rank as u128 <= train_end {
        Part::Train
    } else if rank as u128 <= validation_end {
        Part::Validation
    } else {
        Part::Test
    }
}

/// For each part, whether the ranking places `auction_id` in it.
fn parts_of(ranking: &Vec<Started>, auction_id: i32) -> (parts: (bool, bool, bool))
    ensures
        parts.0 == assigned(ranking@, auction_id, Part::Train),
        parts.1 == assigned(ranking@, auction_id, Part::Validation),
        parts.2 == assigned(ranking@, auction_id, Part::Test),
{
    let mut train = false;
    let mut validation = false;
    let mut test = false;
    let mut r: usize = 0;
    while r < ranking.len()
        invariant
            r <= ranking@.len(),
            train == assigned_within(ranking@, auction_id, Part::Train, r as int),
            validation == assigned_within(ranking@, auction_id, Part::Validation, r as int),
            test == assigned_within(ranking@, auction_id, Part::Test, r as int),
        decreases ranking@.len() - r,
    {
        if ranking[r].auction_id == auction_id {
            match part_of(r, ranking.len()) {
                Part::Train => {
                    train = true;
                },
                Part::Validation => {
                    validation = true;
                },
                Part::Test => {
                    test = true;
                },
            }
        }
        proof {
            let rank = r as int;
            let hit = ranking@[rank].auction_id == auction_id;
            let here = part_of_rank(rank, ranking@.len() as int);
            assert forall|part: Part|
                assigned_within(ranking@, auction_id, part, rank + 1) == (assigned_within(
                    ranking@,
                    auction_id,
                    part,
                    rank,
                ) || (hit && here == part)) by {
                if assigned_within(ranking@, auction_id, part, rank + 1) {
                    let w = choose|w: int|
                        0 <= w < rank + 1 && w < ranking@.len() && (#[trigger] ranking@[w]).auction_id
                            == auction_id && part_of_rank(w, ranking@.len() as int) == part;
                    if w < rank {
                        assert(assigned_within(ranking@, auction_id, part, rank));
                    }
                }
                if assigned_within(ranking@, auction_id, part, rank) {
                    let w = choose|w: int|
                        0 <= w < rank && w < ranking@.len() && (#[trigger] ranking@[w]).auction_id
                            == auction_id && part_of_rank(w, ranking@.len() as int) == part;
                    assert(0 <= w < rank + 1);
                }
                if hit && here == part {
                    assert(ranking@[rank].auction_id == auction_id);
                }
            }
        }
        r += 1;
    }
    (train, validation, test)
}

/// Splits the feature table chronologically by auction.
///
/// Returns the training, validation and test rows, each in table order.  An
/// empty part is a regular outcome.
pub fn train_test_split(df: &Vec<FeatureRow>) -> (parts: (Vec<FeatureRow>, Vec<FeatureRow>, Vec<FeatureRow>))
    ensures
        parts.0@ == select(df@, ranked(df@), Part::Train, df@.len()),
        parts.1@ == select(df@, ranked(df@), Part::Validation, df@.len()),
        parts.2@ == select(df@, ranked(df@), Part::Test, df@.len()),
{
    let mut train: Vec<FeatureRow> = Vec::new();
    let mut validation: Vec<FeatureRow> = Vec::new();
    let mut test: Vec<FeatureRow> = Vec::new();
    if df.len() == 0 {
        return (train, validation, test);
    }
    let earliest = find_earliest(df);
    let span = warm_up_span();
    let auctions = collect_started(df, earliest, span);
    let ranking = rank_by_start(&auctions);
    let mut i: usize = 0;
    while i < df.len()
        invariant
            i <= df@.len(),
            ranking@ == ranked(df@),
            train@ == select(df@, ranking@, Part::Train, i as nat),
            validation@ == select(df@, ranking@, Part::Validation, i as nat),
            test@ == select(df@, ranking@, Part::Test, i as nat),
        decreases df@.len() - i,
    {
        let parts = parts_of(&ranking, df[i].auction.auction.auction_id);
        if parts.0 {
            train.push(df[i].duplicate());
        }
        if parts.1 {
            validation.push(df[i].duplicate());
        }
        if parts.2 {
            test.push(df[i].duplicate());
        }
        i += 1;
    }
    (train, validation, test)
}

} // verus!
