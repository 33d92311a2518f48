//! Finding declarations and source: requests, ranking, source parsing, probes and
//! their renderings.
pub mod api;
pub mod bridge;
pub mod constructors;
pub mod contract;
pub mod contract_laws;
pub mod context_laws;
pub mod conversion;
pub mod declarations;
pub mod diagnostics;
pub mod display;
pub mod dossier;
pub mod dossier_laws;
pub mod entry_laws;
pub mod evidence;
pub mod exact;
pub mod excerpt;
pub mod fallback;
pub mod fields;
pub mod focus;
pub mod fragment;
pub mod goal;
pub mod goal_laws;
pub mod groups;
pub mod keeping;
pub mod limits;
pub mod lines;
pub mod locations;
pub mod lookup_laws;
pub mod modules;
pub mod name_laws;
pub mod names;
pub mod occurrences;
pub mod parse_laws;
pub mod patterns;
pub mod plan;
pub mod probe;
pub mod probe_laws;
pub mod promote;
pub mod rank;
pub mod ranking_laws;
pub mod records;
pub mod refine;
pub mod regex_request;
pub mod request;
pub mod score;
pub mod source;
pub mod source_laws;
pub mod spans;
pub mod step_laws;
pub mod summary_laws;
pub mod tokens;
pub mod tree;
pub mod triage;
pub mod type_worker;
pub mod warning;
