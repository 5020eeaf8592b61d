//! Data-parallel kernels of the parallel-iteration demonstration.
//!
//! Each kernel exists twice: a sequential form, verified down to its loop,
//! and a parallel form that hands the same per-element work to rayon behind a
//! trusted wrapper.  Both forms carry the same contract, so the
//! demonstration's check that the two agree is a theorem here, not just an
//! observation.

use vstd::prelude::*;
use rayon::iter::IntoParallelRefIterator;
use rayon::iter::ParallelIterator;
use rayon::slice::ParallelSliceMut;

verus! {

/// Addition on `u64` that wraps around on overflow.
pub open spec fn wrap_add64(a: u64, b: u64) -> u64 {
    if a + b > u64::MAX {
        (a + b - 0x1_0000_0000_0000_0000) as u64
    } else {
        (a + b) as u64
    }
}

/// The CPU-burning kernel: the wrapping sum of the squares `0*0 .. (n-1)*(n-1)`.
pub open spec fn busy_work(n: int) -> u64
    decreases n,
{
    if n <= 0 {
        0u64
    } else {
        wrap_add64(busy_work(n - 1), (((n - 1) * (n - 1)) % 0x1_0000_0000_0000_0000) as u64)
    }
}

/// An element a kernel may square without overflowing `u64`.
pub open spec fn squarable(x: u64) -> bool {
    x <= 0x1_0000_0000
}

/// A simple CPU-intensive function used by the map kernels.
pub fn compute_intensive(n: u64) -> (r: u64)
    requires
        squarable(n),
    ensures
        r == busy_work(n as int),
{
    let mut acc: u64 = 0;
    let mut x: u64 = 0;
    while x < n
        invariant
            x <= n,
            n <= 0x1_0000_0000,
            acc == busy_work(x as int),
        decreases n - x,
    {
        proof {
            assert(x * x <= 0xffff_ffff * 0xffff_ffff) by (nonlinear_arith)
                requires
                    x <= 0xffff_ffff,
            ;
        }
        acc = acc.wrapping_add(x * x);
        x = x + 1;
    }
    acc
}

/// Apply [`compute_intensive`] to every element, sequentially.
pub fn sequential_map(data: &[u64]) -> (r: Vec<u64>)
    requires
        forall|i: int| 0 <= i < data@.len() ==> squarable(data@[i]),
    ensures
        r@.len() == data@.len(),
        forall|i: int| 0 <= i < data@.len() ==> r@[i] == busy_work(data@[i] as int),
{
    let mut r: Vec<u64> = Vec::new();
    let mut i: usize = 0;
    while i < data.len()
        invariant
            i <= data@.len(),
            r@.len() == i,
            forall|k: int| 0 <= k < data@.len() ==> squarable(data@[k]),
            forall|k: int| 0 <= k < i ==> r@[k] == busy_work(data@[k] as int),
        decreases data@.len() - i,
    {
        let y = compute_intensive(data[i]);
        r.push(y);
        i = i + 1;
    }
    r
}

/// Relies on rayon's `par_iter().map(..).collect::<Vec<_>>()`: the mapped
/// function is applied to every element and the results are collected in the
/// input's order, as collecting an indexed parallel iterator into a `Vec`
/// preserves order.  The closure only calls the verified
/// [`compute_intensive`].
#[verifier::external_body]
fn rayon_map(data: &[u64]) -> (r: Vec<u64>)
    requires
        forall|i: int| 0 <= i < data@.len() ==> squarable(data@[i]),
    ensures
        r@.len() == data@.len(),
        forall|i: int| 0 <= i < data@.len() ==> r@[i] == busy_work(data@[i] as int),
{
    data.par_iter().map(|x: &u64| compute_intensive(*x)).collect()
}

/// Apply [`compute_intensive`] to every element, in parallel.
///
/// Returns exactly what [`sequential_map`] returns on the same input.
pub fn parallel_map(data: &[u64]) -> (r: Vec<u64>)
    requires
        forall|i: int| 0 <= i < data@.len() ==> squarable(data@[i]),
    ensures
        r@.len() == data@.len(),
        forall|i: int| 0 <= i < data@.len() ==> r@[i] == busy_work(data@[i] as int),
{
    rayon_map(data)
}

/// The summand the filter-and-sum kernels give element `x`: its square if it
/// is even, nothing otherwise.
pub open spec fn even_square(x: u64) -> int {
    if x % 2 == 0 {
        x * x
    } else {
        0
    }
}

/// The sum of the squares of the even elements.
pub open spec fn even_square_sum(s: Seq<u64>) -> int
    decreases s.len(),
{
    if s.len() == 0 {
        0
    } else {
        even_square_sum(s.drop_last()) + even_square(s.last())
    }
}

/// Every summand is non-negative.
proof fn lemma_even_square_nonneg(x: u64)
    ensures
        even_square(x) >= 0,
{
    assert(x * x >= 0) by (nonlinear_arith);
}

/// A prefix of the sum never exceeds the whole sum, and no partial sum is
/// negative.
proof fn lemma_even_square_sum_prefix(s: Seq<u64>, i: int)
    requires
        0 <= i <= s.len(),
    ensures
        0 <= even_square_sum(s.take(i)) <= even_square_sum(s),
    decreases s.len() - i,
{
    if i == s.len() {
        assert(s.take(i) =~= s);
        lemma_even_square_sum_nonneg(s);
    } else {
        assert(s.take(i + 1).drop_last() =~= s.take(i));
        assert(s.take(i + 1).last() == s[i]);
        lemma_even_square_nonneg(s[i]);
        lemma_even_square_sum_nonneg(s.take(i));
        lemma_even_square_sum_prefix(s, i + 1);
    }
}

/// The whole sum is non-negative.
proof fn lemma_even_square_sum_nonneg(s: Seq<u64>)
    ensures
        even_square_sum(s) >= 0,
    decreases s.len(),
{
    if s.len() > 0 {
        lemma_even_square_sum_nonneg(s.drop_last());
        lemma_even_square_nonneg(s.last());
    }
}

/// Sum the squares of the even elements, sequentially.
pub fn sequential_filter_sum(data: &[u64]) -> (r: u64)
    requires
        even_square_sum(data@) <= u64::MAX,
    ensures
        r == even_square_sum(data@),
{
    let mut acc: u64 = 0;
    let mut i: usize = 0;
    while i < data.len()
        invariant
            i <= data@.len(),
            even_square_sum(data@) <= u64::MAX,
            acc == even_square_sum(data@.take(i as int)),
        decreases data@.len() - i,
    {
        proof {
            assert(data@.take(i + 1).drop_last() =~= data@.take(i as int));
            assert(data@.take(i + 1).last() == data@[i as int]);
            lemma_even_square_sum_prefix(data@, i as int);
            lemma_even_square_sum_prefix(data@, i + 1);
        }
        let x = data[i];
        if x % 2 == 0 {
            acc = acc + x * x;
        }
        i = i + 1;
    }
    proof {
        assert(data@.take(data@.len() as int) =~= data@);
    }
    acc
}

/// The summand for one element, as executable code for the parallel sum.
fn even_square_term(x: u64) -> (r: u64)
    requires
        even_square(x) <= u64::MAX,
    ensures
        r == even_square(x),
{
    if x % 2 == 0 {
        x * x
    } else {
        0
    }
}

/// Relies on rayon's `par_iter().map(..).sum::<u64>()`: the sum of the mapped
/// values, reduced in an unspecified grouping; since every summand is
/// non-negative and the total fits in `u64` (required here), every partial
/// sum fits too, so no grouping overflows and the result is the full sum.
/// The closure only calls the verified [`even_square_term`].
#[verifier::external_body]
fn rayon_filter_sum(data: &[u64]) -> (r: u64)
    requires
        even_square_sum(data@) <= u64::MAX,
    ensures
        r == even_square_sum(data@),
{
    data.par_iter().map(|x: &u64| even_square_term(*x)).sum()
}

/// Sum the squares of the even elements, in parallel.
///
/// Returns exactly what [`sequential_filter_sum`] returns on the same input.
pub fn parallel_filter_sum(data: &[u64]) -> (r: u64)
    requires
        even_square_sum(data@) <= u64::MAX,
    ensures
        r == even_square_sum(data@),
{
    rayon_filter_sum(data)
}

/// Whether a sequence is sorted in non-decreasing order.
pub open spec fn sorted(s: Seq<u64>) -> bool {
    forall|i: int, j: int| 0 <= i < j < s.len() ==> s[i] <= s[j]
}

/// Relies on rayon's `par_sort_unstable`: sorts the slice into ascending
/// order; the result is a rearrangement of the input (same elements with the
/// same multiplicities), and instability does not show on plain integers.
#[verifier::external_body]
fn rayon_sort(data: &mut Vec<u64>)
    ensures
        sorted(final(data)@),
        final(data)@.to_multiset() == old(data)@.to_multiset(),
        final(data)@.len() == old(data)@.len(),
{
    data.as_mut_slice().par_sort_unstable();
}

/// Sort the elements into ascending order, in parallel.
pub fn parallel_sort(data: &mut Vec<u64>)
    ensures
        sorted(final(data)@),
        final(data)@.to_multiset() == old(data)@.to_multiset(),
        final(data)@.len() == old(data)@.len(),
{
    rayon_sort(data);
}

} // verus!
