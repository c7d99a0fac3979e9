//! The worker that periodically checks for a newer node version.
use vstd::prelude::*;

verus! {

/// Seconds between two checks.
pub const CHECK_INTERVAL_SEC: u64 = 3600;

/// The version-checking worker. It holds no state: each tick of its timer is one check.
#[derive(Debug)]
pub struct VersionChecker {}

impl VersionChecker {
    /// Seconds between two checks.
    pub fn interval_secs(&self) -> (r: u64)
        ensures
            r == CHECK_INTERVAL_SEC,
    {
        CHECK_INTERVAL_SEC
    }
}

impl Default for VersionChecker {
    fn default() -> (r: Self)
        ensures
            r == (VersionChecker {}),
    {
        VersionChecker {}
    }
}

} // verus!
