//! Defaults of the process settings.

use vstd::prelude::*;

verus! {

/// The speaker used where the settings name none.
pub fn default_speaker_id() -> (r: u8)
    ensures
        r == 1,
{
    1
}

/// Seconds an engine request may take, where the settings name no limit.
pub fn default_timeout() -> (r: u64)
    ensures
        r == 10,
{
    10
}

} // verus!
