//! Module-boundary analysis: a registry of declared modules, import facts
//! resolved against it, per-line suppression directives, and queued edits of
//! the policy document.

pub mod config;
pub mod dependency;
pub mod directives;
pub mod files;
pub mod imports;
pub mod lines;
pub mod located;
pub mod paths;
pub mod scan;
pub mod seqs;
pub mod tree;
