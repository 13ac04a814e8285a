//! The project's policy: declared modules, domains and queued edits.

pub mod apply;
pub mod compare;
pub mod document;
pub mod domain;
pub mod edit;
pub mod editor;
pub mod modules;
pub mod project;
pub mod requests;
pub mod save;
pub mod sync;
