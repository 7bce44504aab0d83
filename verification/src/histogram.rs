//! One sampling window's histogram: per-bin observation counts.
//!
//! The front end turns each recorded sample into the flat index of the grid
//! bin it falls in (or nothing, when the sample lies outside the grid); this
//! module counts those assignments. The counts are plain integers, and every
//! histogram built here satisfies the data-model invariant that the bin
//! counts sum to `num_points`.

use vstd::prelude::*;

verus! {

/// Per-bin counts of one window, with the total number of counted samples.
#[derive(Debug, Clone)]
pub struct Histogram {
    /// Total number of data points stored in the histogram.
    pub num_points: u32,
    /// One count per grid bin.
    pub bins: Vec<u32>,
}

/// Sum of all bin counts.
pub open spec fn spec_bin_total(bins: Seq<u32>) -> nat
    decreases bins.len(),
{
    if bins.len() == 0 {
        0
    } else {
        spec_bin_total(bins.drop_last()) + (bins.last() as nat)
    }
}

/// The data-model invariant: the bin counts sum to `num_points`.
pub open spec fn is_consistent(h: &Histogram) -> bool {
    spec_bin_total(h.bins@) == h.num_points
}

/// How many samples of `s` were assigned to bin `b`.
pub open spec fn spec_count_in_bin(s: Seq<Option<usize>>, b: usize) -> nat
    decreases s.len(),
{
    if s.len() == 0 {
        0
    } else {
        spec_count_in_bin(s.drop_last(), b) + if s.last() == Some(b) {
            1nat
        } else {
            0nat
        }
    }
}

/// How many samples of `s` fell inside the grid at all.
pub open spec fn spec_count_assigned(s: Seq<Option<usize>>) -> nat
    decreases s.len(),
{
    if s.len() == 0 {
        0
    } else {
        spec_count_assigned(s.drop_last()) + if s.last() is Some {
            1nat
        } else {
            0nat
        }
    }
}

proof fn lemma_count_in_bin_le(s: Seq<Option<usize>>, b: usize)
    ensures
        spec_count_in_bin(s, b) <= spec_count_assigned(s) <= s.len(),
    decreases s.len(),
{
    if s.len() > 0 {
        lemma_count_in_bin_le(s.drop_last(), b);
    }
}

/// Bumping one bin bumps the total by the same amount.
proof fn lemma_bin_total_update(bins: Seq<u32>, b: int, v: u32)
    requires
        0 <= b < bins.len(),
    ensures
        spec_bin_total(bins.update(b, v)) == spec_bin_total(bins) - bins[b] + v,
    decreases bins.len(),
{
    let upd = bins.update(b, v);
    if b == bins.len() - 1 {
        assert(upd.drop_last() =~= bins.drop_last());
    } else {
        assert(upd.drop_last() =~= bins.drop_last().update(b, v));
        lemma_bin_total_update(bins.drop_last(), b, v);
    }
}

/// Total number of data points over a set of windows.
pub open spec fn spec_total_points(hs: Seq<Histogram>) -> nat
    decreases hs.len(),
{
    if hs.len() == 0 {
        0
    } else {
        spec_total_points(hs.drop_last()) + (hs.last().num_points as nat)
    }
}

/// Sums the data points of all windows' histograms.
pub fn total_points(histograms: &Vec<Histogram>) -> (r: u64)
    requires
        histograms@.len() <= u32::MAX,
    ensures
        r == spec_total_points(histograms@),
{
    let n = histograms.len();
    let mut r: u64 = 0;
    let mut i: usize = 0;
    while i < n
        invariant
            n == histograms@.len() <= u32::MAX,
            0 <= i <= n,
            r == spec_total_points(histograms@.take(i as int)),
            r <= (i as nat) * 0xffff_ffff,
        decreases n - i,
    {
        proof {
            assert(histograms@.take(i as int + 1).drop_last() =~= histograms@.take(i as int));
            assert(histograms@.take(i as int + 1).last() == histograms@[i as int]);
        }
        r = r + histograms[i].num_points as u64;
        i = i + 1;
    }
    proof {
        assert(histograms@.take(n as int) =~= histograms@);
    }
    r
}

impl Histogram {
    /// Plain constructor, as stored: callers are expected to pass counts
    /// that actually sum to `num_points` (see `is_consistent`).
    pub fn new(num_points: u32, bins: Vec<u32>) -> (h: Histogram)
        ensures
            h.num_points == num_points,
            h.bins == bins,
    {
        Histogram { num_points, bins }
    }

    /// Builds a window's histogram by counting the per-sample bin
    /// assignments: bin `b` receives one count for each sample assigned to
    /// it, samples outside the grid are dropped, and `num_points` is the
    /// number of counted samples, so the result is consistent.
    pub fn from_assignments(num_bins: usize, assignments: &Vec<Option<usize>>) -> (h: Histogram)
        requires
            assignments@.len() <= u32::MAX,
            forall|i: int|
                0 <= i < assignments@.len() && assignments@[i] is Some
                    ==> (assignments@[i]->0) < num_bins,
        ensures
            h.bins@.len() == num_bins,
            forall|b: usize| b < num_bins ==> h.bins@[b as int] == spec_count_in_bin(assignments@, b),
            h.num_points == spec_count_assigned(assignments@),
            is_consistent(&h),
    {
        let n = assignments.len();
        let mut bins: Vec<u32> = Vec::new();
        let mut k: usize = 0;
        while k < num_bins
            invariant
                bins@.len() == k <= num_bins,
                forall|j: int| 0 <= j < k ==> bins@[j] == 0,
                spec_bin_total(bins@) == 0,
            decreases num_bins - k,
        {
            let ghost pre = bins@;
            bins.push(0);
            proof {
                assert(bins@.drop_last() =~= pre);
            }
            k = k + 1;
        }
        let mut num_points: u32 = 0;
        let mut i: usize = 0;
        while i < n
            invariant
                n == assignments@.len() <= u32::MAX,
                forall|j: int|
                    0 <= j < n && assignments@[j] is Some ==> (assignments@[j]->0) < num_bins,
                0 <= i <= n,
                bins@.len() == num_bins,
                forall|b: usize|
                    b < num_bins ==> bins@[b as int] == spec_count_in_bin(
                        assignments@.take(i as int),
                        b,
                    ),
                num_points == spec_count_assigned(assignments@.take(i as int)),
                spec_bin_total(bins@) == num_points,
            decreases n - i,
        {
            proof {
                assert(assignments@.take(i as int + 1).drop_last() =~= assignments@.take(i as int));
                assert(assignments@.take(i as int + 1).last() == assignments@[i as int]);
                lemma_count_in_bin_le(assignments@.take(i as int), assignments@[i as int]->0);
                assert(spec_count_assigned(assignments@.take(i as int)) <= i) by {
                    lemma_count_in_bin_le(assignments@.take(i as int), 0);
                }
            }
            match assignments[i] {
                Some(b) => {
                    let ghost pre = bins@;
                    let c = bins[b];
                    bins.set(b, c + 1);
                    num_points = num_points + 1;
                    proof {
                        lemma_bin_total_update(pre, b as int, (c + 1) as u32);
                        assert(forall|bb: usize|
                            bb < num_bins && bb != b ==> bins@[bb as int] == pre[bb as int]);
                    }
                },
                None => {},
            }
            i = i + 1;
        }
        proof {
            assert(assignments@.take(n as int) =~= assignments@);
        }
        Histogram { num_points, bins }
    }
}

} // verus!
