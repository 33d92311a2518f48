//! The record of workspaces, checks, synchronisations and submissions.
pub mod build_logs;
pub mod display;
pub mod display_laws;
pub mod laws;
pub mod log_laws;
pub mod profile;
pub mod records;
pub mod retention;
pub mod store;
pub mod validity;
