//! When the shuffled peer selection takes effect.

use vstd::prelude::*;

verus! {

/// Whether the shuffled selection applies to a shred: the feature has been
/// activated, and in an epoch strictly before that of the shred.
pub open spec fn shuffle_patch_enabled(shred_epoch: u64, feature_epoch: Option<u64>) -> bool {
    match feature_epoch {
        None => false,
        Some(feature_epoch) => feature_epoch < shred_epoch,
    }
}

/// Whether the shuffled selection applies to a shred of `shred_epoch`,
/// given the epoch in which the feature was activated, if it was.
pub fn enable_turbine_peers_shuffle_patch(shred_epoch: u64, feature_epoch: Option<u64>) -> (enabled:
    bool)
    ensures
        enabled == shuffle_patch_enabled(shred_epoch, feature_epoch),
{
    match feature_epoch {
        None => false,
        Some(feature_epoch) => feature_epoch < shred_epoch,
    }
}

/// With the feature activated in epoch `activated`, a shred of that epoch
/// is not yet selected for by shuffling, and one of the next epoch is.
pub proof fn lemma_gate_boundary(activated: u64)
    requires
        activated < u64::MAX,
    ensures
        !shuffle_patch_enabled(activated, Some(activated)),
        shuffle_patch_enabled((activated + 1) as u64, Some(activated)),
        forall|shred_epoch: u64| !shuffle_patch_enabled(shred_epoch, None),
{
}

} // verus!
