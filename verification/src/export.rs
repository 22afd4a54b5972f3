//! The sample of the raw pairs that is written out for plotting.
//!
//! Plotting tools choke on too many points, so only every `stride`-th pair
//! is kept: about a thousand rows, and never two thousand.

use vstd::prelude::*;

verus! {

/// The distance between the indices of two rows that follow one another:
/// one thousandth of the number of pairs, rounded down, and at least 1.
pub open spec fn export_stride(len: nat) -> nat {
    if len / 1000 >= 1 {
        len / 1000
    } else {
        1
    }
}

/// The number of rows: how many multiples of the stride lie below `len`.
pub open spec fn export_count(len: nat) -> nat {
    ((len + export_stride(len) - 1) / (export_stride(len) as int)) as nat
}

/// The number of multiples of `stride` below `len` is the least `count` with
/// `len <= count * stride`.
pub proof fn lemma_count_of_multiples(len: int, stride: int, count: int)
    requires
        stride >= 1,
        0 <= len <= count * stride,
        count == 0 || (count - 1) * stride < len,
    ensures
        (len + stride - 1) / stride == count,
{
    if count == 0 {
        assert(len == 0) by (nonlinear_arith)
            requires
                0 <= len <= count * stride,
                count == 0,
        ;
        vstd::arithmetic::div_mod::lemma_basic_div(stride - 1, stride);
    } else {
        let x = len + stride - 1;
        assert(count * stride <= x < (count + 1) * stride) by (nonlinear_arith)
            requires
                x == len + stride - 1,
                len <= count * stride,
                (count - 1) * stride < len,
        ;
        vstd::arithmetic::div_mod::lemma_fundamental_div_mod_converse_div(
            x,
            stride,
            count,
            x - count * stride,
        );
        assert(count * stride == stride * count) by (nonlinear_arith);
    }
}

/// The export holds at most a thousand rows when the number of pairs is at
/// most a thousand or a multiple of a thousand, and fewer than two thousand
/// rows whatever the number of pairs.
pub proof fn lemma_export_count_bounds(len: nat)
    ensures
        export_count(len) < 2000,
        len <= 1000 || len % 1000 == 0 ==> export_count(len) <= 1000,
        len > 1000 && len % 1000 != 0 ==> export_count(len) > 1000,
{
    let stride = export_stride(len) as int;
    let count = export_count(len) as int;
    let x = len + stride - 1;
    vstd::arithmetic::div_mod::lemma_fundamental_div_mod(x, stride);
    vstd::arithmetic::div_mod::lemma_mod_bound(x, stride);
    assert(x / stride >= 0) by (nonlinear_arith)
        requires
            x >= 0,
            stride >= 1,
    ;
    assert(count == x / stride);
    // len <= count * stride < len + stride
    assert(len <= count * stride < len + stride) by (nonlinear_arith)
        requires
            x == stride * count + x % stride,
            0 <= x % stride < stride,
            x == len + stride - 1,
    ;
    if len < 1000 {
        assert(stride == 1);
    } else {
        let rest = len % 1000;
        assert(len == 1000 * stride + rest && 0 <= rest < 1000);
        assert(count < 2000) by (nonlinear_arith)
            requires
                count * stride < len + stride,
                len == 1000 * stride + rest,
                rest < 1000,
                stride >= 1,
        ;
        if rest == 0 {
            assert(count <= 1000) by (nonlinear_arith)
                requires
                    count * stride < len + stride,
                    len == 1000 * stride,
                    stride >= 1,
            ;
        } else {
            assert(count > 1000) by (nonlinear_arith)
                requires
                    len <= count * stride,
                    len == 1000 * stride + rest,
                    rest > 0,
                    stride >= 1,
            ;
        }
    }
}

/// The index of the pair that row `k` of the export holds.
pub open spec fn export_index(len: nat, k: int) -> int {
    k * export_stride(len)
}

/// The rows to write out: the pairs of `input` at the indices 0, stride,
/// 2 * stride and so on, in their order, as they were measured.
pub fn export_rows(input: &Vec<(u64, u64)>) -> (rows: Vec<(u64, u64)>)
    ensures
        rows@.len() == export_count(input@.len()),
        forall|k: int| 0 <= k < rows@.len() ==> 0 <= #[trigger] export_index(input@.len(), k) < input@.len(),
        forall|k: int| 0 <= k < rows@.len() ==> #[trigger] rows@[k] == input@[export_index(input@.len(), k)],
        rows@.len() < 2000,
        input@.len() <= 1000 || input@.len() % 1000 == 0 ==> rows@.len() <= 1000,
{
    let n: usize = input.len();
    let factor: usize = if n / 1000 >= 1 {
        n / 1000
    } else {
        1
    };
    let mut rows: Vec<(u64, u64)> = Vec::new();
    let mut i: usize = 0;
    while i < n
        invariant
            i <= n,
            n == input@.len(),
            factor == export_stride(n as nat),
            factor >= 1,
            i <= rows@.len() * factor,
            rows@.len() == 0 || (rows@.len() - 1) * factor < i,
            rows@.len() <= i,
            forall|k: int| 0 <= k < rows@.len() ==> #[trigger] rows@[k] == input@[export_index(n as nat, k)],
        decreases n - i,
    {
        let ghost count = rows@.len() as int;
        if i % factor == 0 {
            proof {
                vstd::arithmetic::div_mod::lemma_fundamental_div_mod(i as int, factor as int);
                let q = (i as int) / (factor as int);
                assert(q == count) by (nonlinear_arith)
                    requires
                        i == factor * q,
                        factor >= 1,
                        i <= count * factor,
                        count == 0 || (count - 1) * factor < i,
                        count >= 0,
                ;
                assert(count * factor == i) by (nonlinear_arith)
                    requires
                        i == factor * q,
                        q == count,
                ;
                assert((count + 1) * factor == i + factor) by (nonlinear_arith)
                    requires
                        count * factor == i,
                ;
            }
            rows.push(input[i]);
        } else {
            proof {
                vstd::arithmetic::div_mod::lemma_mod_multiples_basic(count, factor as int);
            }
        }
        i += 1;
    }
    proof {
        let count = rows@.len() as int;
        lemma_count_of_multiples(n as int, factor as int, count);
        lemma_export_count_bounds(n as nat);
        assert forall|k: int| 0 <= k < count implies 0 <= #[trigger] export_index(n as nat, k) < n by {
            assert(0 <= k * factor <= (count - 1) * factor) by (nonlinear_arith)
                requires
                    0 <= k <= count - 1,
                    factor >= 1,
            ;
        }
    }
    rows
}

} // verus!
