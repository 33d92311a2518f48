//! What is kept on disk, and what of it can be removed.
pub mod laws;
pub mod plan;
pub mod report;
pub mod size;
