//! Verified core of a backtest-result dashboard: calendar-month time
//! windows, the row-selection query text, and the grid-summary aggregation
//! that groups backtest rows into strategy cohorts and reduces each cohort
//! to one record of performance statistics.
//!
//! Fractional quantities are fixed-point `i64` values at [`arith::SCALE`];
//! the surrounding application converts at its boundary.

pub mod arith;
pub mod config;
pub mod dates;
pub mod laws;
pub mod monthly;
pub mod query;
pub mod row;
pub mod stats;
pub mod summary;
pub mod text;
pub mod windows;
