//! Selection of samples before histogramming.
//!
//! Simulation times enter as order keys: the front end maps each IEEE time
//! stamp to a `u64` through an order-preserving encoding, so that comparing
//! keys compares times. On those keys this module keeps the samples of a
//! time interval, and for the convergence sweep ("convdt") it proves that a
//! longer interval never selects fewer samples. It also provides the
//! every-`stride`-th subsampling used to decorrelate a time series.

use vstd::prelude::*;

use crate::histogram::spec_count_assigned;

verus! {

/// True when the given time lies inside the closed interval
/// `[start, end]`.
pub fn is_in_time_boundaries(time: u64, start: u64, end: u64) -> (r: bool)
    ensures
        r == (start <= time && time <= end),
{
    start <= time && time <= end
}

/// One flag per sample: is its time inside `[start, end]`?
pub fn time_mask(times: &Vec<u64>, start: u64, end: u64) -> (mask: Vec<bool>)
    ensures
        mask@.len() == times@.len(),
        forall|i: int|
            0 <= i < times@.len() ==> mask@[i] == (start <= times@[i] && times@[i] <= end),
{
    let n = times.len();
    let mut mask: Vec<bool> = Vec::new();
    let mut i: usize = 0;
    while i < n
        invariant
            n == times@.len(),
            mask@.len() == i <= n,
            forall|j: int|
                0 <= j < i ==> mask@[j] == (start <= times@[j] && times@[j] <= end),
        decreases n - i,
    {
        mask.push(is_in_time_boundaries(times[i], start, end));
        i = i + 1;
    }
    mask
}

/// The bin assignments restricted to the samples whose time lies inside
/// `[start, end]`: everything else is dropped from the histogram.
pub open spec fn spec_window_select(
    assignments: Seq<Option<usize>>,
    times: Seq<u64>,
    start: u64,
    end: u64,
) -> Seq<Option<usize>> {
    Seq::new(
        assignments.len(),
        |i: int|
            if start <= times[i] && times[i] <= end {
                assignments[i]
            } else {
                None
            },
    )
}

/// Restricts per-sample bin assignments to one time interval.
pub fn select_in_window(
    assignments: &Vec<Option<usize>>,
    times: &Vec<u64>,
    start: u64,
    end: u64,
) -> (selected: Vec<Option<usize>>)
    requires
        assignments@.len() == times@.len(),
    ensures
        selected@ =~= spec_window_select(assignments@, times@, start, end),
{
    let n = assignments.len();
    let mut selected: Vec<Option<usize>> = Vec::new();
    let mut i: usize = 0;
    while i < n
        invariant
            n == assignments@.len() == times@.len(),
            selected@.len() == i <= n,
            forall|j: int|
                0 <= j < i ==> selected@[j] == spec_window_select(
                    assignments@,
                    times@,
                    start,
                    end,
                )[j],
        decreases n - i,
    {
        if is_in_time_boundaries(times[i], start, end) {
            selected.push(assignments[i]);
        } else {
            selected.push(None);
        }
        i = i + 1;
    }
    selected
}

/// Convergence-sweep monotonicity: with a common start, a later (larger)
/// interval end never selects fewer samples of a window's time series than
/// an earlier one. The intervals of the convdt sweep share their start and
/// have nondecreasing ends, so the number of datapoints entering dataset `k`
/// is nondecreasing in `k`.
pub proof fn lemma_windowed_points_monotone(
    assignments: Seq<Option<usize>>,
    times: Seq<u64>,
    start: u64,
    end1: u64,
    end2: u64,
)
    requires
        assignments.len() == times.len(),
        end1 <= end2,
    ensures
        spec_count_assigned(spec_window_select(assignments, times, start, end1))
            <= spec_count_assigned(spec_window_select(assignments, times, start, end2)),
    decreases assignments.len(),
{
    let n = assignments.len() as int;
    if n > 0 {
        let s1 = spec_window_select(assignments, times, start, end1);
        let s2 = spec_window_select(assignments, times, start, end2);
        assert(s1.drop_last() =~= spec_window_select(
            assignments.drop_last(),
            times.drop_last(),
            start,
            end1,
        ));
        assert(s2.drop_last() =~= spec_window_select(
            assignments.drop_last(),
            times.drop_last(),
            start,
            end2,
        ));
        lemma_windowed_points_monotone(
            assignments.drop_last(),
            times.drop_last(),
            start,
            end1,
            end2,
        );
    }
}

/// Keeps every `stride`-th sample index of a series of length `n`: the
/// decorrelation subsampling. Entry `j` of the result is `j * stride`, and
/// the indices cover `[0, n)` exhaustively for that stride.
pub fn stride_indices(n: usize, stride: usize) -> (r: Vec<usize>)
    requires
        stride >= 1,
        n + stride <= usize::MAX,
    ensures
        forall|j: int| 0 <= j < r@.len() ==> r@[j] == j * stride && r@[j] < n,
        (r@.len() as int) * stride >= n,
        n == 0 ==> r@.len() == 0,
{
    let mut r: Vec<usize> = Vec::new();
    let mut i: usize = 0;
    proof {
        assert(0int * stride == 0) by (nonlinear_arith);
    }
    while i < n
        invariant
            stride >= 1,
            n + stride <= usize::MAX,
            i == (r@.len() as int) * stride,
            i <= n + stride,
            n == 0 ==> i == 0,
            forall|j: int| 0 <= j < r@.len() ==> r@[j] == j * stride && r@[j] < n,
        decreases n + stride - i,
    {
        proof {
            assert(((r@.len() + 1) as int) * stride == (r@.len() as int) * stride + stride)
                by (nonlinear_arith);
        }
        r.push(i);
        i = i + stride;
    }
    proof {
        if n == 0 {
            assert(r@.len() == 0) by (nonlinear_arith)
                requires
                    (r@.len() as int) * stride == i as int,
                    i == 0,
                    stride >= 1,
            ;
        }
    }
    r
}

} // verus!
