//! Epoch-over-epoch comparison of snapshots, and the window of epochs a history covers.
use vstd::prelude::*;

pub mod diff;

verus! {

/// First epoch of a lookback window of `lookback_epochs` epochs ending at `latest`
/// (saturating at epoch 0; a window of 0 epochs is treated as 1).
pub open spec fn window_start_spec(latest: u64, lookback_epochs: u32) -> u64 {
    let span: int = if lookback_epochs == 0 { 0 } else { lookback_epochs - 1 };
    if latest >= span {
        (latest - span) as u64
    } else {
        0
    }
}

/// First epoch of the history window loaded for a validator.
pub fn history_window_start(latest: u64, lookback_epochs: u32) -> (start: u64)
    ensures
        start == window_start_spec(latest, lookback_epochs),
        start <= latest,
{
    let span: u64 = lookback_epochs.saturating_sub(1) as u64;
    latest.saturating_sub(span)
}

} // verus!
