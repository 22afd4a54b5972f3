//! Winsorizing of symmetric outliers.
//!
//! Extreme values at both ends of a sample are pulled in to the nearest value
//! that is kept. The sample never shrinks: only its tails are flattened, at
//! most one twentieth of the values on either side, and only while the tail
//! lies three interquartile ranges or more away from the median.

use vstd::prelude::*;
use vstd::relations::{sorted_by, total_ordering};
use vstd::seq_lib::lemma_sorted_unique;
use vstd::slice::slice_to_vec;
use crate::counting::{
    above, below, lemma_count_where_permutation, lemma_count_where_window, lemma_lowered_count,
    lemma_raised_count, lowered_count, raised_count,
};

verus! {

/// The order in which values are ranked: smallest first.
pub open spec fn ascending() -> spec_fn(i64, i64) -> bool {
    |a: i64, b: i64| a <= b
}

/// The values of `values`, smallest first.
pub open spec fn sorted_view(values: Seq<i64>) -> Seq<i64> {
    values.sort_by(ascending())
}

/// The index `floor(len * percent / 100)` into a sorted sample.
pub open spec fn rank_at(len: nat, percent: nat) -> nat {
    (len * percent) / 100
}

/// Whether a cut that removes `bottom_removed` values at the low end and
/// `top_removed` at the high end is even enough to be kept: the two counts
/// differ by less than 3, or by less than three tenths of their sum.
pub open spec fn balanced(bottom_removed: int, top_removed: int) -> bool {
    let gap = if top_removed >= bottom_removed {
        top_removed - bottom_removed
    } else {
        bottom_removed - top_removed
    };
    gap < 3 || 10 * gap < 3 * (bottom_removed + top_removed)
}

/// The median of a sorted sample: the value at index `floor(len / 2)`.
pub open spec fn median_of(sorted: Seq<i64>) -> int {
    sorted[sorted.len() as int / 2] as int
}

/// The interquartile range of a sorted sample: the value at rank 75 minus the
/// value at rank 25.
pub open spec fn iqr_of(sorted: Seq<i64>) -> int {
    sorted[rank_at(sorted.len(), 75) as int] - sorted[rank_at(sorted.len(), 25) as int]
}

/// The cut that the trimming search ends with, as a pair of indices into
/// `sorted` (lowest kept, highest kept), when it stands at the tentative cut
/// `(bottom, top)` and `committed` is the last cut it has kept.
///
/// While `bottom` is below rank 5 and `top` above rank 95, and the farther of
/// the two values at the cut lies three interquartile ranges or more from the
/// median, the cut moves one step inward on the side of the farther value
/// (on the low side when they are equally far). Each cut reached that is
/// `balanced` replaces the committed one.
pub open spec fn committed_cut(sorted: Seq<i64>, bottom: int, top: int, committed: (int, int)) -> (
    int,
    int,
)
    decreases top - bottom,
{
    let n = sorted.len();
    if bottom < rank_at(n, 5) && top > rank_at(n, 95) {
        let bottom_diff = median_of(sorted) - sorted[bottom];
        let top_diff = sorted[top] - median_of(sorted);
        let reach = if bottom_diff >= top_diff {
            bottom_diff
        } else {
            top_diff
        };
        if reach < 3 * iqr_of(sorted) {
            committed
        } else {
            let next = if top_diff > bottom_diff {
                (bottom, top - 1)
            } else {
                (bottom + 1, top)
            };
            let kept = if balanced(next.0, n - next.1 - 1) {
                next
            } else {
                committed
            };
            committed_cut(sorted, next.0, next.1, kept)
        }
    } else {
        committed
    }
}

/// The cut that the search commits to when it starts from the whole sample.
pub open spec fn final_cut(sorted: Seq<i64>) -> (int, int) {
    committed_cut(sorted, 0, sorted.len() - 1, (0, sorted.len() - 1))
}

/// `x` pulled into the range from `lo` to `hi`.
pub open spec fn clamped(x: i64, lo: i64, hi: i64) -> i64 {
    if x < lo {
        lo
    } else if x > hi {
        hi
    } else {
        x
    }
}

/// The sample with every value below the lowest kept value raised to it and
/// every value above the highest kept value lowered to it.
pub open spec fn winsorized(values: Seq<i64>) -> Seq<i64> {
    let sorted = sorted_view(values);
    let cut = final_cut(sorted);
    Seq::new(values.len(), |i: int| clamped(values[i], sorted[cut.0], sorted[cut.1]))
}

/// Whether every value of the sample is the same.
pub open spec fn constant(values: Seq<i64>) -> bool {
    forall|i: int, j: int| 0 <= i < values.len() && 0 <= j < values.len() ==> values[i] == values[j]
}

/// `<[i64]>::sort` of std, not verified here: afterwards the vector holds the
/// values it held before, each as often as before, in ascending order.
#[verifier::external_body]
fn sort_ascending(values: &mut Vec<i64>)
    ensures
        final(values)@.to_multiset() == old(values)@.to_multiset(),
        sorted_by(final(values)@, ascending()),
{
    values.sort();
}

/// The index `floor(len * percent / 100)`, computed without overflow.
fn rank(len: usize, percent: usize) -> (r: usize)
    requires
        percent <= 100,
    ensures
        r == rank_at(len as nat, percent as nat),
        r <= len,
{
    assert(len * percent <= 100 * len) by (nonlinear_arith)
        requires
            percent <= 100,
    ;
    let scaled: u128 = (len as u128) * (percent as u128);
    (scaled / 100) as usize
}

/// Smallest first is a total order.
pub proof fn lemma_ascending_is_total()
    ensures
        total_ordering(ascending()),
{
}

/// The sorted view is sorted and holds the values of the sample; any sorted
/// sequence that holds them is the sorted view.
pub proof fn lemma_sorted_view(values: Seq<i64>)
    ensures
        sorted_by(sorted_view(values), ascending()),
        sorted_view(values).to_multiset() == values.to_multiset(),
        sorted_view(values).len() == values.len(),
        forall|t: Seq<i64>|
            sorted_by(t, ascending()) && t.to_multiset() == values.to_multiset() ==> t
                == sorted_view(values),
{
    lemma_ascending_is_total();
    values.lemma_sort_by_ensures(ascending());
    let s = sorted_view(values);
    vstd::seq_lib::to_multiset_len(values);
    vstd::seq_lib::to_multiset_len(s);
    assert forall|t: Seq<i64>|
        sorted_by(t, ascending()) && t.to_multiset() == values.to_multiset() implies t == s by {
        lemma_sorted_unique(t, s, ascending());
    }
}

/// The committed cut stays within the outer twentieths of the sample, and
/// its two indices are in order.
pub proof fn lemma_committed_cut_bounds(sorted: Seq<i64>, bottom: int, top: int, committed: (int, int))
    requires
        sorted.len() > 0,
        0 <= committed.0 <= bottom <= rank_at(sorted.len(), 5),
        rank_at(sorted.len(), 95) <= top <= committed.1 < sorted.len(),
    ensures
        ({
            let cut = committed_cut(sorted, bottom, top, committed);
            &&& 0 <= cut.0 <= rank_at(sorted.len(), 5)
            &&& rank_at(sorted.len(), 95) <= cut.1 < sorted.len()
            &&& cut.0 <= cut.1
        }),
    decreases top - bottom,
{
    let n = sorted.len();
    if bottom < rank_at(n, 5) && top > rank_at(n, 95) {
        let bottom_diff = median_of(sorted) - sorted[bottom];
        let top_diff = sorted[top] - median_of(sorted);
        let reach = if bottom_diff >= top_diff {
            bottom_diff
        } else {
            top_diff
        };
        if reach >= 3 * iqr_of(sorted) {
            let next = if top_diff > bottom_diff {
                (bottom, top - 1)
            } else {
                (bottom + 1, top)
            };
            let kept = if balanced(next.0, n - next.1 - 1) {
                next
            } else {
                committed
            };
            lemma_committed_cut_bounds(sorted, next.0, next.1, kept);
        }
    }
}

/// A sample of one repeated value is its own winsorized form.
pub proof fn lemma_winsorized_constant(values: Seq<i64>)
    requires
        values.len() > 0,
        constant(values),
    ensures
        winsorized(values) == values,
{
    broadcast use vstd::seq_lib::to_multiset_contains;

    let sorted = sorted_view(values);
    let cut = final_cut(sorted);
    lemma_sorted_view(values);
    lemma_committed_cut_bounds(sorted, 0, sorted.len() - 1, (0, sorted.len() - 1));
    assert(sorted.contains(sorted[cut.0]));
    assert(sorted.contains(sorted[cut.1]));
    assert(values.contains(sorted[cut.0]));
    assert(values.contains(sorted[cut.1]));
    assert(winsorized(values) =~= values);
}

/// Winsorizing raises at most one value in twenty, and lowers at most one
/// value in twenty.
pub proof fn lemma_winsorized_tails(values: Seq<i64>)
    requires
        values.len() > 0,
    ensures
        20 * raised_count(values, winsorized(values)) <= values.len(),
        20 * lowered_count(values, winsorized(values)) <= values.len(),
{
    let n = values.len();
    let sorted = sorted_view(values);
    let cut = final_cut(sorted);
    lemma_sorted_view(values);
    lemma_committed_cut_bounds(sorted, 0, sorted.len() - 1, (0, sorted.len() - 1));
    let lo = sorted[cut.0];
    let hi = sorted[cut.1];
    let masked = winsorized(values);
    assert(lo <= hi) by {
        if cut.0 < cut.1 {
            assert(ascending()(sorted[cut.0], sorted[cut.1]));
        }
    }

    assert forall|i: int| 0 <= i < n implies (masked[i] > values[i]) == below(lo)(
        #[trigger] values[i],
    ) by {}
    lemma_raised_count(values, masked, below(lo));
    lemma_count_where_permutation(values, sorted, below(lo));
    assert forall|j: int| 0 <= j < sorted.len() && !(0 <= j < cut.0) implies !below(lo)(
        #[trigger] sorted[j],
    ) by {
        if cut.0 < j {
            assert(ascending()(sorted[cut.0], sorted[j]));
        }
    }
    lemma_count_where_window(sorted, below(lo), 0, cut.0);

    assert forall|i: int| 0 <= i < n implies (masked[i] < values[i]) == above(hi)(
        #[trigger] values[i],
    ) by {}
    lemma_lowered_count(values, masked, above(hi));
    lemma_count_where_permutation(values, sorted, above(hi));
    assert forall|j: int| 0 <= j < sorted.len() && !(cut.1 + 1 <= j < n) implies !above(hi)(
        #[trigger] sorted[j],
    ) by {
        if j < cut.1 {
            assert(ascending()(sorted[j], sorted[cut.1]));
        }
    }
    lemma_count_where_window(sorted, above(hi), cut.1 + 1, n as int);
}

/// Winsorizes the symmetric outliers of `input` in place.
///
/// The values are ranked, the trimming search settles on the lowest and the
/// highest value to keep, and every value beyond one of the two is replaced
/// by it. Values between them stay as they are, and so does the length. A
/// sample of one repeated value is left alone, and at most one value in
/// twenty is raised and at most one in twenty is lowered.
///
/// The sample must not be empty: there is no median of nothing.
pub fn mask_symmetric_outliers(input: &mut [i64])
    requires
        old(input)@.len() > 0,
    ensures
        final(input)@ == winsorized(old(input)@),
        final(input)@.len() == old(input)@.len(),
        constant(old(input)@) ==> final(input)@ == old(input)@,
        20 * raised_count(old(input)@, final(input)@) <= old(input)@.len(),
        20 * lowered_count(old(input)@, final(input)@) <= old(input)@.len(),
{
    let n: usize = input.len();
    let mut sorted: Vec<i64> = slice_to_vec(input);
    sort_ascending(&mut sorted);
    proof {
        lemma_sorted_view(input@);
    }
    assert(sorted@ == sorted_view(input@));

    let lower_rank: usize = rank(n, 5);
    let upper_rank: usize = rank(n, 95);
    let iqr: i128 = (sorted[rank(n, 75)] as i128) - (sorted[rank(n, 25)] as i128);
    let median: i128 = sorted[n / 2] as i128;

    let mut top: usize = n - 1;
    let mut bottom: usize = 0;
    let mut committed_top: usize = top;
    let mut committed_bottom: usize = bottom;
    let ghost goal = final_cut(sorted@);

    while bottom < lower_rank && top > upper_rank
        invariant
            n == sorted@.len(),
            n > 0,
            lower_rank == rank_at(n as nat, 5),
            upper_rank == rank_at(n as nat, 95),
            iqr == iqr_of(sorted@),
            median == median_of(sorted@),
            committed_bottom <= bottom <= lower_rank,
            upper_rank <= top <= committed_top < n,
            committed_cut(sorted@, bottom as int, top as int, (committed_bottom as int, committed_top as int))
                == goal,
        ensures
            (committed_bottom as int, committed_top as int) == goal,
            committed_bottom <= lower_rank,
            upper_rank <= committed_top < n,
            committed_bottom <= committed_top,
        decreases top - bottom,
    {
        let bottom_diff: i128 = median - (sorted[bottom] as i128);
        let top_diff: i128 = (sorted[top] as i128) - median;
        let reach: i128 = if bottom_diff >= top_diff {
            bottom_diff
        } else {
            top_diff
        };
        if reach < 3 * iqr {
            break ;
        }
        if top_diff > bottom_diff {
            top -= 1;
        } else {
            bottom += 1;
        }
        let top_removed: usize = n - top - 1;
        let bottom_removed: usize = bottom;
        let gap: usize = if top_removed >= bottom_removed {
            top_removed - bottom_removed
        } else {
            bottom_removed - top_removed
        };
        if gap < 3 || 10 * (gap as u128) < 3 * ((bottom_removed + top_removed) as u128) {
            committed_top = top;
            committed_bottom = bottom;
        }
    }

    let lo: i64 = sorted[committed_bottom];
    let hi: i64 = sorted[committed_top];
    let mut k: usize = 0;
    while k < n
        invariant
            k <= n,
            n == input@.len(),
            n == old(input)@.len(),
            forall|i: int| 0 <= i < k ==> input@[i] == clamped(old(input)@[i], lo, hi),
            forall|i: int| k <= i < n ==> input@[i] == old(input)@[i],
        decreases n - k,
    {
        let x: i64 = input[k];
        if x < lo {
            input[k] = lo;
        } else if x > hi {
            input[k] = hi;
        }
        k += 1;
    }
    assert(input@ =~= winsorized(old(input)@));
    proof {
        lemma_winsorized_tails(old(input)@);
        if constant(old(input)@) {
            lemma_winsorized_constant(old(input)@);
        }
    }
}

} // verus!
