//! Verified core of a multi-repository Rust workspace manager.
#![verifier::loop_isolation(false)]

pub mod audit;
pub mod bump;
pub mod check;
pub mod ci;
pub mod ci_clone;
pub mod ci_gen;
pub mod ci_lint;
pub mod config;
pub mod dashboard;
pub mod discover;
pub mod fix_dual_spec;
pub mod gh_dashboard;
pub mod glob;
pub mod graph;
pub mod group;
pub mod json;
pub mod manifest;
pub mod patch;
pub mod path;
pub mod publish;
pub mod readme_links;
pub mod release;
pub mod run;
pub mod setup;
pub mod status;
pub mod text;
pub mod text_map;
pub mod value;
pub mod version;
