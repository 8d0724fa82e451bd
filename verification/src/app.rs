pub mod graph;
pub mod ui;

use vstd::prelude::*;
use crate::server::TimeSpan;

verus! {

/// What the dashboard shows: the window of history of its charts.
#[derive(Debug, Clone)]
pub struct AppState {
    pub time_span: TimeSpan,
}

impl AppState {
    /// Switches between the hour and the day window.
    pub fn next_time_span(&mut self)
        ensures
            final(self).time_span == old(self).time_span.spec_next(),
            final(self).time_span != old(self).time_span,
    {
        self.time_span = match self.time_span {
            TimeSpan::Hour => TimeSpan::Day,
            TimeSpan::Day => TimeSpan::Hour,
        };
    }
}

/// Switching the window twice restores it, and switching always changes it.
pub proof fn lemma_next_time_span_involution(time_span: TimeSpan)
    ensures
        time_span.spec_next().spec_next() == time_span,
        time_span.spec_next() != time_span,
{
}

} // verus!
