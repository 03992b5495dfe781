//! Verified core of a monthly block-report generator.
//!
//! The library computes the UTC time box of the previous calendar month,
//! corrects a resolved block height at the start boundary, detects the
//! bulk-query-disabled marker in a response body, and renders the CSV
//! report, all with proved contracts. Network and file I/O live outside.

pub mod api;
pub mod bulk;
pub mod calendar;
pub mod heights;
pub mod export;
pub mod render;
pub mod timebox;
