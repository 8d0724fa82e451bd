pub mod util;

use vstd::prelude::*;

verus! {

/// The window of history that the charts show.
#[derive(Debug, Clone, Copy, PartialEq, Eq, Structural)]
pub enum TimeSpan {
    Hour,
    Day,
}

impl TimeSpan {
    /// The length of the window in seconds.
    pub open spec fn spec_seconds(self) -> int {
        match self {
            TimeSpan::Hour => 3600,
            TimeSpan::Day => 86400,
        }
    }

    /// The other window: an hour becomes a day and a day an hour.
    pub open spec fn spec_next(self) -> TimeSpan {
        match self {
            TimeSpan::Hour => TimeSpan::Day,
            TimeSpan::Day => TimeSpan::Hour,
        }
    }

    /// The length of the window in seconds.
    pub fn seconds(&self) -> (secs: i64)
        ensures
            secs == self.spec_seconds(),
            secs > 0,
    {
        match self {
            TimeSpan::Hour => 3600,
            TimeSpan::Day => 86400,
        }
    }
}

} // verus!
