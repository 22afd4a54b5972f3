//! Counting the values of a sample that meet a condition, and the positions
//! at which two samples differ.

use vstd::prelude::*;
use vstd::seq_lib::{commutative_foldl, lemma_fold_left_permutation};

verus! {

/// How many values of `s` meet `p`, each counted as often as it occurs.
pub open spec fn count_where(s: Seq<i64>, p: spec_fn(i64) -> bool) -> nat
    decreases s.len(),
{
    if s.len() == 0 {
        0
    } else {
        count_where(s.drop_last(), p) + if p(s.last()) {
            1nat
        } else {
            0nat
        }
    }
}

/// The condition of being less than `bound`.
pub open spec fn below(bound: i64) -> spec_fn(i64) -> bool {
    |x: i64| x < bound
}

/// The condition of being greater than `bound`.
pub open spec fn above(bound: i64) -> spec_fn(i64) -> bool {
    |x: i64| x > bound
}

/// At how many positions `after` holds a greater value than `before`.
pub open spec fn raised_count(before: Seq<i64>, after: Seq<i64>) -> nat
    decreases before.len(),
{
    if before.len() == 0 || after.len() != before.len() {
        0
    } else {
        raised_count(before.drop_last(), after.drop_last()) + if after.last() > before.last() {
            1nat
        } else {
            0nat
        }
    }
}

/// At how many positions `after` holds a smaller value than `before`.
pub open spec fn lowered_count(before: Seq<i64>, after: Seq<i64>) -> nat
    decreases before.len(),
{
    if before.len() == 0 || after.len() != before.len() {
        0
    } else {
        lowered_count(before.drop_last(), after.drop_last()) + if after.last() < before.last() {
            1nat
        } else {
            0nat
        }
    }
}

/// One step of counting: the count so far, plus one if `x` meets `p`.
spec fn tally(p: spec_fn(i64) -> bool) -> spec_fn(nat, i64) -> nat {
    |acc: nat, x: i64|
        if p(x) {
            acc + 1
        } else {
            acc
        }
}

/// Counting is a left fold of `tally` over the sample.
proof fn lemma_count_where_is_fold(s: Seq<i64>, p: spec_fn(i64) -> bool)
    ensures
        count_where(s, p) == s.fold_left(0nat, tally(p)),
    decreases s.len(),
{
    if s.len() > 0 {
        lemma_count_where_is_fold(s.drop_last(), p);
    }
}

/// The count depends on the values alone, not on their order.
pub proof fn lemma_count_where_permutation(a: Seq<i64>, b: Seq<i64>, p: spec_fn(i64) -> bool)
    requires
        a.to_multiset() == b.to_multiset(),
    ensures
        count_where(a, p) == count_where(b, p),
{
    lemma_count_where_is_fold(a, p);
    lemma_count_where_is_fold(b, p);
    assert(commutative_foldl(tally(p)));
    lemma_fold_left_permutation(a, b, tally(p), 0nat);
}

/// Where every value that meets `p` stands at an index from `from` up to,
/// but not including, `to`, at most `to - from` values meet it.
pub proof fn lemma_count_where_window(s: Seq<i64>, p: spec_fn(i64) -> bool, from: int, to: int)
    requires
        0 <= from <= to,
        forall|j: int| 0 <= j < s.len() && !(from <= j < to) ==> !p(#[trigger] s[j]),
    ensures
        count_where(s, p) <= to - from,
    decreases s.len(),
{
    if s.len() > 0 {
        let last = s.len() - 1;
        let rest = s.drop_last();
        assert forall|j: int| 0 <= j < rest.len() implies rest[j] == s[j] by {}
        if from <= last < to {
            lemma_count_where_window(rest, p, from, last);
        } else {
            lemma_count_where_window(rest, p, from, to);
        }
    }
}

/// Where `after` is greater than `before` exactly at the values that meet
/// `p`, the positions raised are as many as the values that meet `p`.
pub proof fn lemma_raised_count(before: Seq<i64>, after: Seq<i64>, p: spec_fn(i64) -> bool)
    requires
        before.len() == after.len(),
        forall|i: int| 0 <= i < before.len() ==> (after[i] > before[i]) == p(#[trigger] before[i]),
    ensures
        raised_count(before, after) == count_where(before, p),
    decreases before.len(),
{
    if before.len() > 0 {
        let b = before.drop_last();
        let a = after.drop_last();
        assert forall|i: int| 0 <= i < b.len() implies (a[i] > b[i]) == p(#[trigger] b[i]) by {
            assert(b[i] == before[i] && a[i] == after[i]);
        }
        lemma_raised_count(b, a, p);
    }
}

/// Where `after` is smaller than `before` exactly at the values that meet
/// `p`, the positions lowered are as many as the values that meet `p`.
pub proof fn lemma_lowered_count(before: Seq<i64>, after: Seq<i64>, p: spec_fn(i64) -> bool)
    requires
        before.len() == after.len(),
        forall|i: int| 0 <= i < before.len() ==> (after[i] < before[i]) == p(#[trigger] before[i]),
    ensures
        lowered_count(before, after) == count_where(before, p),
    decreases before.len(),
{
    if before.len() > 0 {
        let b = before.drop_last();
        let a = after.drop_last();
        assert forall|i: int| 0 <= i < b.len() implies (a[i] < b[i]) == p(#[trigger] b[i]) by {
            assert(b[i] == before[i] && a[i] == after[i]);
        }
        lemma_lowered_count(b, a, p);
    }
}

} // verus!
