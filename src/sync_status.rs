//! The synchronization status this node reports: its latest and confirmed milestones.
use vstd::prelude::*;

verus! {

/// Latest milestone index (`lmi`) and confirmed milestone index (`cmi`).
#[derive(Clone, Copy, Debug, PartialEq, Eq, Structural)]
pub struct SyncStatusResponse {
    pub lmi: u32,
    pub cmi: u32,
}

/// The status after the latest milestone changed to `latest_index`, with the confirmed
/// milestone the tangle holds.
pub fn forward_latest_milestone_changed(latest_index: u32, confirmed_index: u32) -> (r: SyncStatusResponse)
    ensures
        r == (SyncStatusResponse { lmi: latest_index, cmi: confirmed_index }),
{
    SyncStatusResponse { lmi: latest_index, cmi: confirmed_index }
}

/// The status after the milestone `confirmed_index` was confirmed, with the latest
/// milestone the tangle holds.
pub fn forward_confirmed_milestone_changed(confirmed_index: u32, latest_index: u32) -> (r: SyncStatusResponse)
    ensures
        r == (SyncStatusResponse { lmi: latest_index, cmi: confirmed_index }),
{
    SyncStatusResponse { lmi: latest_index, cmi: confirmed_index }
}

} // verus!
