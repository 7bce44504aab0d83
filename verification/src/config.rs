//! Validation of the run configuration.
//!
//! Two conditions are fatal before any input is read: per-dimension grid
//! extents whose lengths disagree with the bin counts, and a convergence
//! sweep (`convdt`) requested without the time range it subdivides. A third
//! policy decision lives here too: what an empty histogram means for a
//! dataset of the sweep.

use vstd::prelude::*;

use crate::errors::WhamError;

verus! {

/// What to do about a window whose histogram holds no data points.
#[derive(Debug, PartialEq, Eq, Structural)]
pub enum EmptyHistogramAction {
    /// Report and go on: the dataset is not the final one, or empty input
    /// was explicitly allowed.
    Warn,
    /// Fatal: the final dataset lost a window entirely.
    Fail,
}

/// Decides the fate of an empty histogram: fatal exactly for the final
/// dataset when empty input was not explicitly allowed.
pub fn empty_histogram_action(is_final: bool, ignore_empty: bool) -> (a: EmptyHistogramAction)
    ensures
        a == EmptyHistogramAction::Fail <==> (is_final && !ignore_empty),
{
    if is_final && !ignore_empty {
        EmptyHistogramAction::Fail
    } else {
        EmptyHistogramAction::Warn
    }
}

/// Checks the configuration: the per-dimension minima, maxima and bin
/// counts must have equal lengths, and a convergence sweep needs both its
/// start and end times.
pub fn validate_config(
    n_hist_min: usize,
    n_hist_max: usize,
    n_num_bins: usize,
    convdt_set: bool,
    start_set: bool,
    end_set: bool,
) -> (r: Result<(), WhamError>)
    ensures
        !(n_hist_min == n_hist_max && n_hist_min == n_num_bins) ==> r == Err::<(), WhamError>(
            WhamError::DimensionMismatch,
        ),
        (n_hist_min == n_hist_max && n_hist_min == n_num_bins && convdt_set && !(start_set
            && end_set)) ==> r == Err::<(), WhamError>(WhamError::ConvdtRange),
        (n_hist_min == n_hist_max && n_hist_min == n_num_bins && (convdt_set ==> start_set
            && end_set)) ==> r == Ok::<(), WhamError>(()),
{
    if !(n_hist_min == n_hist_max && n_hist_min == n_num_bins) {
        return Err(WhamError::DimensionMismatch);
    }
    if convdt_set && !(start_set && end_set) {
        return Err(WhamError::ConvdtRange);
    }
    Ok(())
}

} // verus!
