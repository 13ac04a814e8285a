//! The edits by name, and the source roots as places on disk.

use super::edit::{ConfigEdit, EditError};
use super::modules::lemma_deep_view_push;
use super::project::ProjectConfig;
use crate::paths::same_text;
use vstd::prelude::*;

verus! {

/// Adjoins `path` to `base` with `Path::join`. Trusted; nothing is claimed
/// of the result, which follows the platform's rules for paths.
#[verifier::external_body]
fn join_path(base: &str, path: &str) -> (r: String) {
    std::path::Path::new(base).join(path).to_string_lossy().into_owned()
}

impl ProjectConfig {
    /// The source roots as places under `project_root`, one for each source
    /// root and in the same order. The root `.` stands for `project_root`
    /// itself; any other is adjoined to it as the platform adjoins paths.
    pub fn prepend_roots(&self, project_root: &str) -> (r: Vec<String>)
        ensures
            r.len() == self.source_roots.len(),
            forall|i: int|
                0 <= i < r.len() && self.deep_view().source_roots[i] == "."@
                    ==> #[trigger] r.deep_view()[i] == project_root@,
    {
        let mut out: Vec<String> = Vec::new();
        let mut i: usize = 0;
        while i < self.source_roots.len()
            invariant
                i <= self.source_roots.len(),
                out.len() == i,
                forall|j: int|
                    0 <= j < i && self.deep_view().source_roots[j] == "."@
                        ==> #[trigger] out.deep_view()[j] == project_root@,
            decreases self.source_roots.len() - i,
        {
            let root = self.source_roots[i].as_str();
            let place = if same_text(root, ".") {
                project_root.to_owned()
            } else {
                join_path(project_root, root)
            };
            let ghost shorter = out;
            out.push(place);
            proof {
                assert(out@.drop_last() =~= shorter@);
                lemma_deep_view_push(shorter, out);
            }
            i += 1;
        }
        out
    }

    /// Asks for a module to be declared at `path`.
    pub fn create_module(&mut self, path: String) -> (r: Result<(), EditError>)
        ensures
            r == old(self).deep_view().answer((ConfigEdit::CreateModule { path })),
            final(self).deep_view() == old(self).deep_view().offered(
                (ConfigEdit::CreateModule { path }),
            ),
    {
        self.enqueue_edit(&ConfigEdit::CreateModule { path })
    }

    /// Asks for the module at `path` to be declared no more.
    pub fn delete_module(&mut self, path: String) -> (r: Result<(), EditError>)
        ensures
            r == old(self).deep_view().answer((ConfigEdit::DeleteModule { path })),
            final(self).deep_view() == old(self).deep_view().offered(
                (ConfigEdit::DeleteModule { path }),
            ),
    {
        self.enqueue_edit(&ConfigEdit::DeleteModule { path })
    }

    /// Asks for the module at `path` to become a utility.
    pub fn mark_module_as_utility(&mut self, path: String) -> (r: Result<(), EditError>)
        ensures
            r == old(self).deep_view().answer((ConfigEdit::MarkModuleAsUtility { path })),
            final(self).deep_view() == old(self).deep_view().offered(
                (ConfigEdit::MarkModuleAsUtility { path }),
            ),
    {
        self.enqueue_edit(&ConfigEdit::MarkModuleAsUtility { path })
    }

    /// Asks for the module at `path` to be a utility no more.
    pub fn unmark_module_as_utility(&mut self, path: String) -> (r: Result<(), EditError>)
        ensures
            r == old(self).deep_view().answer((ConfigEdit::UnmarkModuleAsUtility { path })),
            final(self).deep_view() == old(self).deep_view().offered(
                (ConfigEdit::UnmarkModuleAsUtility { path }),
            ),
    {
        self.enqueue_edit(&ConfigEdit::UnmarkModuleAsUtility { path })
    }

    /// Asks for the module at `path` to be allowed to depend on `dependency`.
    pub fn add_dependency(&mut self, path: String, dependency: String) -> (r: Result<
        (),
        EditError,
    >)
        ensures
            r == old(self).deep_view().answer((ConfigEdit::AddDependency { path, dependency })),
            final(self).deep_view() == old(self).deep_view().offered(
                (ConfigEdit::AddDependency { path, dependency }),
            ),
    {
        self.enqueue_edit(&ConfigEdit::AddDependency { path, dependency })
    }

    /// Asks for the module at `path` to depend on `dependency` no more.
    pub fn remove_dependency(&mut self, path: String, dependency: String) -> (r: Result<
        (),
        EditError,
    >)
        ensures
            r == old(self).deep_view().answer(
                (ConfigEdit::RemoveDependency { path, dependency }),
            ),
            final(self).deep_view() == old(self).deep_view().offered(
                (ConfigEdit::RemoveDependency { path, dependency }),
            ),
    {
        self.enqueue_edit(&ConfigEdit::RemoveDependency { path, dependency })
    }

    /// Asks for `filepath` to become a source root.
    pub fn add_source_root(&mut self, filepath: String) -> (r: Result<(), EditError>)
        ensures
            r == Ok::<(), EditError>(()),
            final(self).deep_view() == old(self).deep_view().offered(
                (ConfigEdit::AddSourceRoot { filepath }),
            ),
    {
        self.enqueue_edit(&ConfigEdit::AddSourceRoot { filepath })
    }

    /// Asks for `filepath` to be a source root no more.
    pub fn remove_source_root(&mut self, filepath: String) -> (r: Result<(), EditError>)
        ensures
            r == Ok::<(), EditError>(()),
            final(self).deep_view() == old(self).deep_view().offered(
                (ConfigEdit::RemoveSourceRoot { filepath }),
            ),
    {
        self.enqueue_edit(&ConfigEdit::RemoveSourceRoot { filepath })
    }
}

} // verus!
