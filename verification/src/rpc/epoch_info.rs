//! The cluster's position in its epoch, as `getEpochInfo` reports it.
use vstd::prelude::*;

verus! {

/// Current epoch, the slot within it, the epoch's length in slots, and the absolute slot.
pub struct EpochInfo {
    pub epoch: u64,
    pub slot_index: u64,
    pub slots_in_epoch: u64,
    pub absolute_slot: u64,
    pub block_height: Option<u64>,
    pub transaction_count: Option<u64>,
}

} // verus!
