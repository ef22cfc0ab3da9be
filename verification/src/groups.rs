//! Counting, maxima and look-back within a group of rows.
//!
//! A group is given by a predicate on rows; the rows of a group need not be
//! adjacent.  Every function looks at a prefix of the table, so that it can
//! be followed row by row.

use vstd::prelude::*;

verus! {

/// The number of rows among the first `n` that belong to the group.
pub open spec fn count_where<T>(rows: Seq<T>, member: spec_fn(T) -> bool, n: nat) -> nat
    decreases n,
{
    if n == 0 {
        0
    } else {
        let here: nat = if member(rows[n - 1]) {
            1
        } else {
            0
        };
        count_where(rows, member, (n - 1) as nat) + here
    }
}

/// The largest value among the rows of the group within the first `n`; 0
/// where the group has no row there.
pub open spec fn highest<T>(rows: Seq<T>, member: spec_fn(T) -> bool, value: spec_fn(T) -> nat, n: nat) -> nat
    decreases n,
{
    if n == 0 {
        0
    } else {
        let before = highest(rows, member, value, (n - 1) as nat);
        if member(rows[n - 1]) && value(rows[n - 1]) > before {
            value(rows[n - 1])
        } else {
            before
        }
    }
}

/// The position of the last row of the group before `below`.
pub open spec fn previous_where<T>(rows: Seq<T>, member: spec_fn(T) -> bool, below: int) -> Option<int>
    decreases below,
{
    if below <= 0 {
        None
    } else if member(rows[below - 1]) {
        Some(below - 1)
    } else {
        previous_where(rows, member, below - 1)
    }
}

/// The rows among the first `n` that belong to the group, in table order.
pub open spec fn keep_where<T>(rows: Seq<T>, member: spec_fn(T) -> bool, n: nat) -> Seq<T>
    decreases n,
{
    if n == 0 {
        Seq::empty()
    } else {
        let before = keep_where(rows, member, (n - 1) as nat);
        if member(rows[n - 1]) {
            before.push(rows[n - 1])
        } else {
            before
        }
    }
}

/// The sum of a value over the rows of the group within the first `n`.
pub open spec fn sum_where<T>(rows: Seq<T>, member: spec_fn(T) -> bool, value: spec_fn(T) -> int, n: nat) -> int
    decreases n,
{
    if n == 0 {
        0
    } else {
        let here: int = if member(rows[n - 1]) {
            value(rows[n - 1])
        } else {
            0
        };
        sum_where(rows, member, value, (n - 1) as nat) + here
    }
}

/// The smallest value among the rows of the group within the first `n`; 0
/// where the group has no row there.
pub open spec fn lowest<T>(rows: Seq<T>, member: spec_fn(T) -> bool, value: spec_fn(T) -> int, n: nat) -> int
    decreases n,
{
    if n == 0 {
        0
    } else {
        let before = lowest(rows, member, value, (n - 1) as nat);
        if member(rows[n - 1]) && (count_where(rows, member, (n - 1) as nat) == 0 || value(rows[n - 1]) < before) {
            value(rows[n - 1])
        } else {
            before
        }
    }
}

/// The largest value among the rows of the group within the first `n`, for
/// values of either sign; 0 where the group has no row there.
pub open spec fn topmost<T>(rows: Seq<T>, member: spec_fn(T) -> bool, value: spec_fn(T) -> int, n: nat) -> int
    decreases n,
{
    if n == 0 {
        0
    } else {
        let before = topmost(rows, member, value, (n - 1) as nat);
        if member(rows[n - 1]) && (count_where(rows, member, (n - 1) as nat) == 0 || value(rows[n - 1]) > before) {
            value(rows[n - 1])
        } else {
            before
        }
    }
}

/// `lowest` is the minimum of the group and `topmost` its maximum.
pub proof fn lemma_extremes<T>(rows: Seq<T>, member: spec_fn(T) -> bool, value: spec_fn(T) -> int, n: nat)
    requires
        n <= rows.len(),
    ensures
        forall|i: int|
            0 <= i < n && member(#[trigger] rows[i]) ==> lowest(rows, member, value, n) <= value(rows[i]) <= topmost(
                rows,
                member,
                value,
                n,
            ),
        count_where(rows, member, n) > 0 ==> exists|i: int|
            0 <= i < n && member(#[trigger] rows[i]) && value(rows[i]) == lowest(rows, member, value, n),
        count_where(rows, member, n) > 0 ==> exists|i: int|
            0 <= i < n && member(#[trigger] rows[i]) && value(rows[i]) == topmost(rows, member, value, n),
    decreases n,
{
    if n > 0 {
        let m = (n - 1) as nat;
        lemma_extremes(rows, member, value, m);
        assert forall|i: int| 0 <= i < n && member(#[trigger] rows[i]) implies lowest(rows, member, value, n)
            <= value(rows[i]) <= topmost(rows, member, value, n) by {
            if i < m {
                lemma_count_positive(rows, member, m, i);
            }
        }
        if count_where(rows, member, n) > 0 {
            if count_where(rows, member, m) > 0 {
                let lo = choose|i: int|
                    0 <= i < m && member(#[trigger] rows[i]) && value(rows[i]) == lowest(rows, member, value, m);
                let hi = choose|i: int|
                    0 <= i < m && member(#[trigger] rows[i]) && value(rows[i]) == topmost(rows, member, value, m);
                if member(rows[n - 1]) && value(rows[n - 1]) < lowest(rows, member, value, m) {
                    assert(member(rows[n - 1]) && value(rows[n - 1]) == lowest(rows, member, value, n));
                } else {
                    assert(member(rows[lo]) && value(rows[lo]) == lowest(rows, member, value, n));
                }
                if member(rows[n - 1]) && value(rows[n - 1]) > topmost(rows, member, value, m) {
                    assert(member(rows[n - 1]) && value(rows[n - 1]) == topmost(rows, member, value, n));
                } else {
                    assert(member(rows[hi]) && value(rows[hi]) == topmost(rows, member, value, n));
                }
            } else {
                assert(member(rows[n - 1]) && value(rows[n - 1]) == lowest(rows, member, value, n));
                assert(member(rows[n - 1]) && value(rows[n - 1]) == topmost(rows, member, value, n));
            }
        }
    }
}

/// A group has no more rows than the table.
pub proof fn lemma_count_bound<T>(rows: Seq<T>, member: spec_fn(T) -> bool, n: nat)
    ensures
        count_where(rows, member, n) <= n,
    decreases n,
{
    if n > 0 {
        lemma_count_bound(rows, member, (n - 1) as nat);
    }
}

/// A group that has a row among the first `n` counts at least one.
pub proof fn lemma_count_positive<T>(rows: Seq<T>, member: spec_fn(T) -> bool, n: nat, at: int)
    requires
        0 <= at < n,
        member(rows[at]),
    ensures
        count_where(rows, member, n) > 0,
    decreases n,
{
    if at < n - 1 {
        lemma_count_positive(rows, member, (n - 1) as nat, at);
    }
}

/// `highest` is the maximum of the group: no row of the group exceeds it,
/// and where the group has a row, one of its rows attains it.
pub proof fn lemma_highest<T>(rows: Seq<T>, member: spec_fn(T) -> bool, value: spec_fn(T) -> nat, n: nat)
    requires
        n <= rows.len(),
    ensures
        forall|i: int| 0 <= i < n && member(#[trigger] rows[i]) ==> value(rows[i]) <= highest(rows, member, value, n),
        count_where(rows, member, n) > 0 ==> exists|i: int|
            0 <= i < n && member(#[trigger] rows[i]) && value(rows[i]) == highest(rows, member, value, n),
        count_where(rows, member, n) == 0 ==> highest(rows, member, value, n) == 0,
    decreases n,
{
    if n > 0 {
        let m = (n - 1) as nat;
        lemma_highest(rows, member, value, m);
        if count_where(rows, member, n) > 0 {
            if member(rows[n - 1]) && value(rows[n - 1]) > highest(rows, member, value, m) {
                assert(member(rows[n - 1]) && value(rows[n - 1]) == highest(rows, member, value, n));
            } else if count_where(rows, member, m) > 0 {
                let i = choose|i: int|
                    0 <= i < m && member(#[trigger] rows[i]) && value(rows[i]) == highest(rows, member, value, m);
                assert(member(rows[i]) && value(rows[i]) == highest(rows, member, value, n));
            } else {
                assert(member(rows[n - 1]) && value(rows[n - 1]) == highest(rows, member, value, n));
            }
        }
    }
}

/// `previous_where` finds a row of the group below the bound, and no row of
/// the group lies between the two.
pub proof fn lemma_previous_where<T>(rows: Seq<T>, member: spec_fn(T) -> bool, below: int)
    requires
        below <= rows.len(),
    ensures
        match previous_where(rows, member, below) {
            Some(j) => 0 <= j < below && member(rows[j]) && forall|m: int|
                j < m < below ==> !member(#[trigger] rows[m]),
            None => forall|m: int| 0 <= m < below ==> !member(#[trigger] rows[m]),
        },
    decreases below,
{
    if below > 0 && !member(rows[below - 1]) {
        lemma_previous_where(rows, member, below - 1);
    }
}

/// Every kept row is a row of the group, in the order of the table.
pub proof fn lemma_keep_where<T>(rows: Seq<T>, member: spec_fn(T) -> bool, n: nat)
    requires
        n <= rows.len(),
    ensures
        keep_where(rows, member, n).len() == count_where(rows, member, n),
        forall|p: int|
            0 <= p < keep_where(rows, member, n).len() ==> member(#[trigger] keep_where(rows, member, n)[p])
                && exists|i: int| 0 <= i < n && rows[i] == keep_where(rows, member, n)[p],
        forall|i: int| 0 <= i < n && member(#[trigger] rows[i]) ==> keep_where(rows, member, n).contains(rows[i]),
    decreases n,
{
    if n > 0 {
        let m = (n - 1) as nat;
        lemma_keep_where(rows, member, m);
        let before = keep_where(rows, member, m);
        let out = keep_where(rows, member, n);
        assert forall|p: int| 0 <= p < out.len() implies member(#[trigger] out[p]) && exists|i: int|
            0 <= i < n && rows[i] == out[p] by {
            if p < before.len() {
                assert(out[p] == before[p]);
                let i = choose|i: int| 0 <= i < m && rows[i] == before[p];
                assert(rows[i] == out[p]);
            } else {
                assert(rows[n - 1] == out[p]);
            }
        }
        assert forall|i: int| 0 <= i < n && member(#[trigger] rows[i]) implies out.contains(rows[i]) by {
            if i < m {
                let p = choose|p: int| 0 <= p < before.len() && before[p] == rows[i];
                assert(out[p] == rows[i]);
            } else {
                assert(out[before.len() as int] == rows[i]);
            }
        }
    }
}

} // verus!
