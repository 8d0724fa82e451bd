//! Core logic of a small environment dashboard: which sensor is asked for
//! what, how a stream of timed readings is kept, how a time window of it is
//! resampled for charting, and the view state that selects that window.

pub mod app;
pub mod sensor;
pub mod server;
