//! Core of a market-data ingestion subsystem: calendar ranges, gap
//! detection over a tick archive, a fenced job-state store, a
//! multi-window rate limiter, and the backfill coordinator that drives
//! them.

pub mod archive;
pub mod backfill_service;
pub mod data_gap;
pub mod date_range;
pub mod historical_data;
pub mod job_state;
pub mod ports;
pub mod rate_limiter;
pub mod text;
pub mod tick;

pub use backfill_service::BackfillError;
pub use backfill_service::BackfillReport;
pub use backfill_service::BackfillServiceImpl;
pub use data_gap::detect_gaps;
pub use data_gap::DataGap;

pub use tick::Price;
pub use tick::Tick;
pub use tick::TickValidationError;
pub use date_range::Day;
pub use date_range::DateRange;
pub use date_range::DateRangeError;
