//! Sums over a sample, and the z-test on the mean of the differences.
//!
//! The test is decided in whole numbers. With `n` differences of sum `S` and
//! sum of squares `Q`, the mean is `S / n`, the sample variance is
//! `(n * Q - S * S) / (n * (n - 1))`, the standard error is the square root of
//! the variance over `n`, and the z-score is the mean over the standard error.
//! So the square of the z-score is `S * S * (n - 1) / (n * Q - S * S)`, and
//! it is 2.6 squared (169 / 25) or more exactly when
//! `(25 * n + 144) * S * S >= 169 * n * Q`.

use vstd::prelude::*;

verus! {

/// The sum of the first `k` values of `s`.
pub open spec fn prefix_sum(s: Seq<int>, k: int) -> int
    decreases k,
{
    if k <= 0 {
        0
    } else {
        prefix_sum(s, k - 1) + s[k - 1]
    }
}

/// The sum of the values of `s`.
pub open spec fn sum(s: Seq<int>) -> int {
    prefix_sum(s, s.len() as int)
}

/// The values of `s` as mathematical integers.
pub open spec fn values_of(s: Seq<i64>) -> Seq<int> {
    Seq::new(s.len(), |i: int| s[i] as int)
}

/// The squares of the values of `s`.
pub open spec fn squares_of(s: Seq<i64>) -> Seq<int> {
    Seq::new(s.len(), |i: int| s[i] * s[i])
}

/// Whether differences of sum `total` and sum of squares `square_total`,
/// `trials` of them, have a mean that differs from zero with a z-score of 2.6
/// or more in absolute value (about 99% two-tailed confidence).
///
/// A mean of zero is never significant, whatever the variance. A mean other
/// than zero with no variance at all always is.
pub open spec fn significant(trials: int, total: int, square_total: int) -> bool {
    total != 0 && (25 * trials + 144) * (total * total) >= 169 * (trials * square_total)
}

/// Whether the test on `trials` differences with sum of squares
/// `square_total` can be decided in 128 bits.
pub open spec fn test_fits(trials: int, square_total: int) -> bool {
    169 * (trials * square_total) <= u128::MAX
}

/// A prefix sum of values that are not negative does not shrink as the prefix
/// grows.
pub proof fn lemma_prefix_sum_monotonic(s: Seq<int>, i: int, j: int)
    requires
        0 <= i <= j <= s.len(),
        forall|k: int| 0 <= k < s.len() ==> s[k] >= 0,
    ensures
        0 <= prefix_sum(s, i) <= prefix_sum(s, j),
    decreases j,
{
    if i < j {
        lemma_prefix_sum_monotonic(s, i, j - 1);
    } else if i > 0 {
        lemma_prefix_sum_monotonic(s, i - 1, i - 1);
    }
}

/// The sum of a sequence that repeats one value is that value times the
/// length.
pub proof fn lemma_prefix_sum_constant(s: Seq<int>, k: int, c: int)
    requires
        0 <= k <= s.len(),
        forall|i: int| 0 <= i < s.len() ==> s[i] == c,
    ensures
        prefix_sum(s, k) == k * c,
    decreases k,
{
    if k > 0 {
        lemma_prefix_sum_constant(s, k - 1, c);
        assert((k - 1) * c + c == k * c) by (nonlinear_arith);
    } else {
        assert(0 * c == 0);
    }
}

/// A square is never negative.
pub proof fn lemma_squares_nonnegative(s: Seq<i64>)
    ensures
        forall|k: int| 0 <= k < s.len() ==> (#[trigger] squares_of(s)[k]) >= 0,
{
    assert forall|k: int| 0 <= k < s.len() implies (#[trigger] squares_of(s)[k]) >= 0 by {
        let x = s[k] as int;
        assert(x * x >= 0) by (nonlinear_arith);
    }
}

/// The sum of `values`, and the sum of their squares where it fits in 128
/// bits.
pub fn total_and_squares(values: &[i64]) -> (r: (i128, Option<u128>))
    ensures
        r.0 == sum(values_of(values@)),
        r.1 matches Some(q) ==> q == sum(squares_of(values@)),
        r.1 is None <==> sum(squares_of(values@)) > u128::MAX,
{
    let n: usize = values.len();
    let mut total: i128 = 0;
    let mut squares: Option<u128> = Some(0);
    let mut k: usize = 0;
    proof {
        lemma_squares_nonnegative(values@);
    }
    while k < n
        invariant
            k <= n,
            n == values@.len(),
            total == prefix_sum(values_of(values@), k as int),
            -(k * 0x8000_0000_0000_0000) <= total <= k * 0x8000_0000_0000_0000,
            squares matches Some(q) ==> q == prefix_sum(squares_of(values@), k as int),
            squares is None ==> prefix_sum(squares_of(values@), k as int) > u128::MAX,
            forall|j: int| 0 <= j < n ==> (#[trigger] squares_of(values@)[j]) >= 0,
        decreases n - k,
    {
        let x: i64 = values[k];
        total = total + (x as i128);
        let magnitude: u128 = if x < 0 {
            (-(x as i128)) as u128
        } else {
            x as u128
        };
        assert(magnitude * magnitude == x * x && magnitude * magnitude <= 0x4000_0000_0000_0000_0000_0000_0000_0000)
            by (nonlinear_arith)
            requires
                magnitude == x || magnitude == -x,
                magnitude <= 0x8000_0000_0000_0000,
        ;
        let square: u128 = magnitude * magnitude;
        assert(squares_of(values@)[k as int] == square);
        proof {
            lemma_prefix_sum_monotonic(squares_of(values@), k as int, k as int);
        }
        squares = match squares {
            Some(q) => q.checked_add(square),
            None => None,
        };
        k += 1;
    }
    (total, squares)
}

/// Decides the test, where it can be decided in 128 bits.
pub fn decide(trials: usize, total: i128, square_total: u128) -> (r: Option<bool>)
    ensures
        r is Some <==> test_fits(trials as int, square_total as int),
        r matches Some(d) ==> d == significant(trials as int, total as int, square_total as int),
{
    let n: u128 = trials as u128;
    let scaled: u128 = match square_total.checked_mul(n) {
        Some(v) => v,
        None => {
            assert(square_total * n == trials * square_total) by (nonlinear_arith)
                requires
                    n == trials,
            ;
            return None;
        },
    };
    assert(scaled == trials * square_total) by (nonlinear_arith)
        requires
            scaled == square_total * n,
            n == trials,
    ;
    let bound: u128 = match scaled.checked_mul(169) {
        Some(v) => v,
        None => {
            return None;
        },
    };
    if total == 0 {
        return Some(false);
    }
    let magnitude: u128 = if total < 0 {
        ((-(total + 1)) as u128) + 1
    } else {
        total as u128
    };
    let weight: u128 = 25 * n + 144;
    assert(magnitude * magnitude == total * total && magnitude * magnitude >= 1) by (nonlinear_arith)
        requires
            magnitude == total || magnitude == -total,
            total != 0,
    ;
    let square: u128 = match magnitude.checked_mul(magnitude) {
        Some(v) => v,
        None => {
            assert((25 * trials + 144) * (total * total) >= total * total) by (nonlinear_arith)
                requires
                    trials >= 0,
                    total * total >= 0,
            ;
            return Some(true);
        },
    };
    match square.checked_mul(weight) {
        Some(v) => {
            assert(v == (25 * trials + 144) * (total * total)) by (nonlinear_arith)
                requires
                    v == square * weight,
                    square == total * total,
                    weight == 25 * trials + 144,
            ;
            Some(v >= bound)
        },
        None => {
            assert(square * weight == (25 * trials + 144) * (total * total)) by (nonlinear_arith)
                requires
                    square == total * total,
                    weight == 25 * trials + 144,
            ;
            Some(true)
        },
    }
}

} // verus!
