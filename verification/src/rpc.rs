//! Remote backends: checks on endpoints and on what a backend reports.

pub mod error;
pub mod backend;
