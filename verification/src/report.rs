//! The statistical report on the trials of one comparison.
//!
//! Minima and totals are taken from the durations as they were measured. Only
//! the series of differences that the significance test reads is winsorized
//! first: the means that a report shows and the test that it decides by do
//! not come from the same data, and that is meant.
//!
//! A summary holds whole numbers only. The means are the totals over the
//! number of trials; the variance, the standard error and the z-score follow
//! from the total and the total of squares of the winsorized differences.

use vstd::prelude::*;
use crate::outliers::{lemma_winsorized_constant, mask_symmetric_outliers, winsorized};
use crate::stats::{
    decide, lemma_prefix_sum_constant, prefix_sum, significant, squares_of, sum, test_fits,
    total_and_squares, values_of,
};

verus! {

/// Why no report was made.
#[derive(Debug, Clone, Copy, PartialEq, Eq)]
pub enum ReportError {
    /// Fewer than two trials: the variance is undefined.
    TooFewTrials,
    /// A duration is above `i64::MAX`, or the significance test cannot be
    /// decided in 128 bits.
    OutOfRange,
}

/// What a report says of one comparison.
#[derive(Debug, Clone)]
pub struct Summary {
    /// The name of the comparison.
    pub name: String,
    /// The number of trials.
    pub trials: usize,
    /// The shortest duration of the base routine.
    pub base_min: u64,
    /// The shortest duration of the candidate routine.
    pub candidate_min: u64,
    /// The sum of the durations of the base routine.
    pub base_total: u128,
    /// The sum of the durations of the candidate routine.
    pub candidate_total: u128,
    /// The sum of the winsorized differences.
    pub diff_total: i128,
    /// The sum of the squares of the winsorized differences.
    pub diff_square_total: u128,
    /// Whether the mean of the winsorized differences is significant.
    pub change_detected: bool,
}

/// The durations of the base routine, in trial order.
pub open spec fn base_durations(samples: Seq<(u64, u64)>) -> Seq<int> {
    Seq::new(samples.len(), |i: int| samples[i].0 as int)
}

/// The durations of the candidate routine, in trial order.
pub open spec fn candidate_durations(samples: Seq<(u64, u64)>) -> Seq<int> {
    Seq::new(samples.len(), |i: int| samples[i].1 as int)
}

/// Whether every duration is at most `i64::MAX`, so that every difference of
/// two of them is an `i64`.
pub open spec fn in_range(samples: Seq<(u64, u64)>) -> bool {
    forall|i: int|
        0 <= i < samples.len() ==> (#[trigger] samples[i]).0 <= i64::MAX && samples[i].1 <= i64::MAX
}

/// The differences, candidate minus base, in trial order.
pub open spec fn differences(samples: Seq<(u64, u64)>) -> Seq<i64> {
    Seq::new(samples.len(), |i: int| (samples[i].1 - samples[i].0) as i64)
}

/// The differences that the significance test reads.
pub open spec fn masked_differences(samples: Seq<(u64, u64)>) -> Seq<i64> {
    winsorized(differences(samples))
}

/// Whether a report can be made of `samples`.
pub open spec fn reportable(samples: Seq<(u64, u64)>) -> bool {
    &&& samples.len() >= 2
    &&& in_range(samples)
    &&& test_fits(samples.len() as int, sum(squares_of(masked_differences(samples))))
}

/// Whether `m` is the least of the first `k` values of `s`.
pub open spec fn is_prefix_minimum(m: int, s: Seq<int>, k: int) -> bool {
    &&& exists|i: int| 0 <= i < k && s[i] == m
    &&& forall|i: int| 0 <= i < k ==> m <= s[i]
}

/// Whether `m` is the least value of `s`.
pub open spec fn is_minimum(m: int, s: Seq<int>) -> bool {
    is_prefix_minimum(m, s, s.len() as int)
}

/// Whether both routines took the same time in every trial.
pub open spec fn identical(samples: Seq<(u64, u64)>) -> bool {
    forall|i: int| 0 <= i < samples.len() ==> (#[trigger] samples[i]).0 == samples[i].1
}

/// Whether the candidate took `offset` longer than the base in every trial.
pub open spec fn offset_by(samples: Seq<(u64, u64)>, offset: int) -> bool {
    forall|i: int| 0 <= i < samples.len() ==> (#[trigger] samples[i]).1 - samples[i].0 == offset
}

impl Summary {
    /// Whether the numbers of this summary are those of `samples`.
    pub open spec fn describes(&self, samples: Seq<(u64, u64)>) -> bool {
        let masked = masked_differences(samples);
        &&& self.trials == samples.len()
        &&& is_minimum(self.base_min as int, base_durations(samples))
        &&& is_minimum(self.candidate_min as int, candidate_durations(samples))
        &&& self.base_total == sum(base_durations(samples))
        &&& self.candidate_total == sum(candidate_durations(samples))
        &&& self.diff_total == sum(values_of(masked))
        &&& self.diff_square_total == sum(squares_of(masked))
        &&& self.change_detected == significant(
            samples.len() as int,
            sum(values_of(masked)),
            sum(squares_of(masked)),
        )
    }
}

/// Where the two routines took the same time in every trial, the winsorized
/// differences sum to zero and the test finds no change.
pub proof fn lemma_identical_not_significant(samples: Seq<(u64, u64)>)
    requires
        samples.len() >= 1,
        identical(samples),
    ensures
        sum(values_of(masked_differences(samples))) == 0,
        sum(squares_of(masked_differences(samples))) == 0,
        test_fits(samples.len() as int, sum(squares_of(masked_differences(samples)))),
        !significant(
            samples.len() as int,
            sum(values_of(masked_differences(samples))),
            sum(squares_of(masked_differences(samples))),
        ),
{
    let diffs = differences(samples);
    assert forall|i: int| 0 <= i < diffs.len() implies diffs[i] == 0 by {
        assert(samples[i].0 == samples[i].1);
    }
    lemma_winsorized_constant(diffs);
    lemma_prefix_sum_constant(values_of(diffs), diffs.len() as int, 0);
    lemma_prefix_sum_constant(squares_of(diffs), diffs.len() as int, 0);
    assert(samples.len() * 0 == 0);
}

/// Where the candidate took longer than the base by one and the same amount
/// other than zero in every trial, the test finds a change.
pub proof fn lemma_offset_significant(samples: Seq<(u64, u64)>, offset: int)
    requires
        samples.len() >= 1,
        in_range(samples),
        offset_by(samples, offset),
        offset != 0,
    ensures
        significant(
            samples.len() as int,
            sum(values_of(masked_differences(samples))),
            sum(squares_of(masked_differences(samples))),
        ),
{
    let n = samples.len() as int;
    let diffs = differences(samples);
    assert forall|i: int| 0 <= i < diffs.len() implies diffs[i] == offset by {
        assert(samples[i].1 - samples[i].0 == offset);
    }
    lemma_winsorized_constant(diffs);
    lemma_prefix_sum_constant(values_of(diffs), n, offset);
    lemma_prefix_sum_constant(squares_of(diffs), n, offset * offset);
    let total = n * offset;
    let square_total = n * (offset * offset);
    assert(total != 0 && (25 * n + 144) * (total * total) >= 169 * (n * square_total))
        by (nonlinear_arith)
        requires
            n >= 1,
            offset != 0,
            total == n * offset,
            square_total == n * (offset * offset),
    ;
}

/// What one pass over the durations as measured gives.
struct Tally {
    base_min: u64,
    candidate_min: u64,
    base_total: u128,
    candidate_total: u128,
    differences: Vec<i64>,
}

impl Tally {
    spec fn describes(&self, samples: Seq<(u64, u64)>) -> bool {
        &&& is_minimum(self.base_min as int, base_durations(samples))
        &&& is_minimum(self.candidate_min as int, candidate_durations(samples))
        &&& self.base_total == sum(base_durations(samples))
        &&& self.candidate_total == sum(candidate_durations(samples))
        &&& self.differences@ == differences(samples)
    }
}

/// The minima and totals of the two routines and the differences, where
/// every duration is in range.
fn tally(input: &Vec<(u64, u64)>) -> (r: Option<Tally>)
    requires
        input@.len() >= 1,
    ensures
        r is Some <==> in_range(input@),
        r matches Some(t) ==> t.describes(input@),
{
    let n: usize = input.len();
    let ghost bases = base_durations(input@);
    let ghost candidates = candidate_durations(input@);
    let mut base_min: u64 = input[0].0;
    let mut candidate_min: u64 = input[0].1;
    let mut base_total: u128 = 0;
    let mut candidate_total: u128 = 0;
    let mut diffs: Vec<i64> = Vec::with_capacity(n);
    let mut k: usize = 0;
    while k < n
        invariant
            k <= n,
            n == input@.len(),
            n >= 1,
            bases == base_durations(input@),
            candidates == candidate_durations(input@),
            forall|i: int| 0 <= i < k ==> (#[trigger] input@[i]).0 <= i64::MAX && input@[i].1 <= i64::MAX,
            k == 0 ==> base_min == input@[0].0 && candidate_min == input@[0].1,
            k > 0 ==> is_prefix_minimum(base_min as int, bases, k as int),
            k > 0 ==> is_prefix_minimum(candidate_min as int, candidates, k as int),
            base_total == prefix_sum(bases, k as int),
            candidate_total == prefix_sum(candidates, k as int),
            base_total <= k * 0x7fff_ffff_ffff_ffff,
            candidate_total <= k * 0x7fff_ffff_ffff_ffff,
            diffs@.len() == k,
            forall|i: int| 0 <= i < k ==> diffs@[i] == #[trigger] differences(input@)[i],
        decreases n - k,
    {
        let base: u64 = input[k].0;
        let candidate: u64 = input[k].1;
        if base > 0x7fff_ffff_ffff_ffff || candidate > 0x7fff_ffff_ffff_ffff {
            return None;
        }
        assert(bases[k as int] == base && candidates[k as int] == candidate);
        if base < base_min {
            base_min = base;
        }
        if candidate < candidate_min {
            candidate_min = candidate;
        }
        base_total = base_total + (base as u128);
        candidate_total = candidate_total + (candidate as u128);
        diffs.push((candidate as i64) - (base as i64));
        k += 1;
    }
    assert(diffs@ =~= differences(input@));
    Some(Tally { base_min, candidate_min, base_total, candidate_total, differences: diffs })
}

/// Makes the report on the trials of the comparison `name`.
///
/// Fewer than two trials are rejected: their variance is undefined. So are
/// trials that are out of range: a duration above `i64::MAX`, or differences
/// so wide that the significance test cannot be decided in 128 bits. Of all
/// other trials the summary is made, and it is exact.
///
/// Where both routines took the same time in every trial, the differences
/// sum to zero and no change is found. Where the candidate took longer or
/// shorter than the base by the same amount in every trial, a change is found.
pub fn report(name: &str, input: &Vec<(u64, u64)>) -> (result: Result<Summary, ReportError>)
    ensures
        result matches Err(ReportError::TooFewTrials) <==> input@.len() < 2,
        result matches Err(ReportError::OutOfRange) <==> input@.len() >= 2 && !reportable(input@),
        result matches Ok(summary) ==> summary.name@ == name@ && summary.describes(input@),
        result matches Ok(summary) ==> (identical(input@) ==> summary.diff_total == 0
            && !summary.change_detected),
        result matches Ok(summary) ==> forall|offset: int|
            offset != 0 && offset_by(input@, offset) ==> summary.change_detected,
        input@.len() >= 2 && in_range(input@) && identical(input@) ==> result is Ok,
{
    let n: usize = input.len();
    if n < 2 {
        return Err(ReportError::TooFewTrials);
    }
    let measured = match tally(input) {
        Some(t) => t,
        None => {
            return Err(ReportError::OutOfRange);
        },
    };
    let mut diffs = measured.differences;
    mask_symmetric_outliers(diffs.as_mut_slice());
    assert(diffs@ == masked_differences(input@));
    proof {
        if identical(input@) {
            lemma_identical_not_significant(input@);
        }
        assert forall|offset: int| offset != 0 && offset_by(input@, offset) implies significant(
            n as int,
            sum(values_of(diffs@)),
            sum(squares_of(diffs@)),
        ) by {
            lemma_offset_significant(input@, offset);
        }
    }
    let (diff_total, squares) = total_and_squares(diffs.as_slice());
    let diff_square_total: u128 = match squares {
        Some(q) => q,
        None => {
            assert(!test_fits(n as int, sum(squares_of(diffs@)))) by (nonlinear_arith)
                requires
                    n >= 2,
                    sum(squares_of(diffs@)) > u128::MAX,
            ;
            return Err(ReportError::OutOfRange);
        },
    };
    let change_detected: bool = match decide(n, diff_total, diff_square_total) {
        Some(d) => d,
        None => {
            return Err(ReportError::OutOfRange);
        },
    };
    Ok(
        Summary {
            name: name.to_owned(),
            trials: n,
            base_min: measured.base_min,
            candidate_min: measured.candidate_min,
            base_total: measured.base_total,
            candidate_total: measured.candidate_total,
            diff_total,
            diff_square_total,
            change_detected,
        },
    )
}

} // verus!
