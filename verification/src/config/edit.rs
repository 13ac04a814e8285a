//! Edits of the policy document, as values that are queued and later applied.

use vstd::prelude::*;

verus! {

/// One change to the policy document.
#[derive(Debug)]
pub enum ConfigEdit {
    CreateModule { path: String },
    DeleteModule { path: String },
    MarkModuleAsUtility { path: String },
    UnmarkModuleAsUtility { path: String },
    AddDependency { path: String, dependency: String },
    RemoveDependency { path: String, dependency: String },
    AddSourceRoot { filepath: String },
    RemoveSourceRoot { filepath: String },
}

/// Why an edit was not queued, or why queued edits were not saved.
#[derive(Debug, Clone, Copy, PartialEq, Eq, Structural)]
pub enum EditError {
    /// The edit does not concern this configuration.
    NotApplicable,
    /// The module that the edit creates is already declared.
    ModuleAlreadyExists,
    /// The module that the edit refers to is not declared.
    ModuleNotFound,
    /// There is no document to edit.
    ConfigDoesNotExist,
    /// The document on disk is not well formed.
    ParsingFailed,
    /// The edited document could not be written back.
    DiskWriteFailed,
}

impl ConfigEdit {
    /// The module that the edit is about; `None` for an edit of the source roots.
    pub open spec fn target(&self) -> Option<Seq<char>> {
        match self {
            ConfigEdit::CreateModule { path } => Some(path@),
            ConfigEdit::DeleteModule { path } => Some(path@),
            ConfigEdit::MarkModuleAsUtility { path } => Some(path@),
            ConfigEdit::UnmarkModuleAsUtility { path } => Some(path@),
            ConfigEdit::AddDependency { path, .. } => Some(path@),
            ConfigEdit::RemoveDependency { path, .. } => Some(path@),
            ConfigEdit::AddSourceRoot { .. } => None,
            ConfigEdit::RemoveSourceRoot { .. } => None,
        }
    }
}

impl Clone for ConfigEdit {
    fn clone(&self) -> (r: Self)
        ensures
            r == *self,
    {
        match self {
            ConfigEdit::CreateModule { path } => ConfigEdit::CreateModule { path: path.clone() },
            ConfigEdit::DeleteModule { path } => ConfigEdit::DeleteModule { path: path.clone() },
            ConfigEdit::MarkModuleAsUtility { path } => ConfigEdit::MarkModuleAsUtility {
                path: path.clone(),
            },
            ConfigEdit::UnmarkModuleAsUtility { path } => ConfigEdit::UnmarkModuleAsUtility {
                path: path.clone(),
            },
            ConfigEdit::AddDependency { path, dependency } => ConfigEdit::AddDependency {
                path: path.clone(),
                dependency: dependency.clone(),
            },
            ConfigEdit::RemoveDependency { path, dependency } => ConfigEdit::RemoveDependency {
                path: path.clone(),
                dependency: dependency.clone(),
            },
            ConfigEdit::AddSourceRoot { filepath } => ConfigEdit::AddSourceRoot {
                filepath: filepath.clone(),
            },
            ConfigEdit::RemoveSourceRoot { filepath } => ConfigEdit::RemoveSourceRoot {
                filepath: filepath.clone(),
            },
        }
    }
}

} // verus!
