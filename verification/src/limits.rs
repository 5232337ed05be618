//! Limits as they are asked for: in mebibytes and hours.

use vstd::prelude::*;

use crate::control::ControlLimits;
use crate::retention::SpoolLimits;

verus! {

/// The limits of a spool.
#[derive(Debug, Clone, Copy, PartialEq, Eq, Structural)]
pub struct LimitArgs {
    pub max_spool_mib: u64,
    pub max_spool_hours: u64,
}

/// The limits of the control plane.
#[derive(Debug, Clone, Copy, PartialEq, Eq, Structural)]
pub struct ControlLimitArgs {
    pub max_control_mib: u64,
    pub max_control_hours: u64,
}

/// Whether so many mebibytes and hours can be counted in bytes and seconds.
pub open spec fn countable(mib: u64, hours: u64) -> bool {
    mib * 1024 * 1024 <= u64::MAX && hours * 60 * 60 <= u64::MAX
}

/// Whether so many mebibytes and hours can be counted in bytes and seconds.
pub fn can_count(mib: u64, hours: u64) -> (r: bool)
    ensures
        r == countable(mib, hours),
{
    mib <= u64::MAX / 1_048_576 && hours <= u64::MAX / 3_600
}

impl LimitArgs {
    /// The limits in bytes and seconds.
    pub fn limits(&self) -> (r: SpoolLimits)
        requires
            countable(self.max_spool_mib, self.max_spool_hours),
        ensures
            r.max_payload_bytes == self.max_spool_mib * 1024 * 1024,
            r.max_age_seconds == self.max_spool_hours * 60 * 60,
    {
        SpoolLimits {
            max_payload_bytes: self.max_spool_mib * 1024 * 1024,
            max_age_seconds: self.max_spool_hours * 60 * 60,
        }
    }
}

impl ControlLimitArgs {
    /// The limits in bytes and seconds.
    pub fn limits(&self) -> (r: ControlLimits)
        requires
            countable(self.max_control_mib, self.max_control_hours),
        ensures
            r.max_database_bytes == self.max_control_mib * 1024 * 1024,
            r.max_age_seconds == self.max_control_hours * 60 * 60,
    {
        ControlLimits {
            max_database_bytes: self.max_control_mib * 1024 * 1024,
            max_age_seconds: self.max_control_hours * 60 * 60,
        }
    }
}

} // verus!
