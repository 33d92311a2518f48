//! Bounded coordination of Lean work in a shared repository: the decisions,
//! parsers, rankings and renderings behind the `mathmux` command.
pub mod activity;
pub mod agents;
pub mod failure;
pub mod order;
pub mod path;
pub mod reference;
pub mod search;
pub mod state;
pub mod status;
pub mod status_laws;
pub mod storage;
pub mod text;
