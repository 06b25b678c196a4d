//! Verified core of a UI-automation workflow engine: selector paths, their
//! matching and the walk of a live element tree, the expression language's
//! front end, the decisions conditions and actions take on what was read,
//! durations, the output buffer, the step and phase state machines that
//! drive a workflow run, the anchor registry and element cache behind the
//! shadow DOM, element-tree snapshots and their diff, and the workflow
//! linter with its compiler-style diagnostics.
pub mod action;
pub mod condition;
pub mod duration;
pub mod error;
pub mod executor;
pub mod keyed;
pub mod lint;
pub mod luma;
pub mod node_cache;
pub mod expression;
pub mod output;
pub mod platform;
pub mod recovery;
pub mod registry;
pub mod runner;
pub mod search;
pub mod selector;
pub mod shadow_dom;
pub mod snapshot;
pub mod step;
pub mod tab_handle;
pub mod text;
pub mod yaml;
pub mod yaml_tree;
