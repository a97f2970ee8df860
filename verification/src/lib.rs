//! Commit-history analytics: one pass over a stream of commits accumulates
//! contributor, churn, calendar and weekday statistics, from which streaks,
//! a heat grid and a contributor ranking are derived.

pub mod args;
pub mod board;
pub mod calendar;
pub mod commit;
pub mod contributors;
pub mod laws;
pub mod model;
pub mod ranking;
pub mod stats;
