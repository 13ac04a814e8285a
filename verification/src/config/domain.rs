//! Domains: groups of modules under one package, each kept in a document of
//! its own.

use super::edit::{ConfigEdit, EditError};
use super::modules::{
    clone_interfaces, clone_modules, declares, find_module, InterfaceConfig, InterfaceView,
    ModuleConfig, ModuleView,
};
use crate::paths::{is_ancestor, is_ancestor_path};
use vstd::prelude::*;

verus! {

/// A copy of `edits`.
pub fn clone_edits(edits: &Vec<ConfigEdit>) -> (r: Vec<ConfigEdit>)
    ensures
        r@ == edits@,
{
    let mut out: Vec<ConfigEdit> = Vec::new();
    let mut i: usize = 0;
    while i < edits.len()
        invariant
            i <= edits.len(),
            out@ == edits@.subrange(0, i as int),
        decreases edits.len() - i,
    {
        out.push(edits[i].clone());
        assert(out@ =~= edits@.subrange(0, i + 1));
        i += 1;
    }
    assert(out@ =~= edits@);
    out
}

/// A domain with the place of its document.
#[derive(Debug)]
pub struct LocatedDomainConfig {
    /// The package that the domain covers.
    pub mod_path: String,
    /// Where the domain's document lies.
    pub location: String,
    pub modules: Vec<ModuleConfig>,
    pub interfaces: Vec<InterfaceConfig>,
    /// Edits that were accepted and not yet saved.
    pub pending_edits: Vec<ConfigEdit>,
}

pub struct DomainView {
    pub mod_path: Seq<char>,
    pub location: Seq<char>,
    pub modules: Seq<ModuleView>,
    pub interfaces: Seq<InterfaceView>,
    pub pending_edits: Seq<ConfigEdit>,
}

impl DeepView for LocatedDomainConfig {
    type V = DomainView;

    open spec fn deep_view(&self) -> DomainView {
        DomainView {
            mod_path: self.mod_path@,
            location: self.location@,
            modules: self.modules.deep_view(),
            interfaces: self.interfaces.deep_view(),
            pending_edits: self.pending_edits@,
        }
    }
}

impl Clone for LocatedDomainConfig {
    fn clone(&self) -> (r: Self)
        ensures
            r.deep_view() == self.deep_view(),
    {
        LocatedDomainConfig {
            mod_path: self.mod_path.clone(),
            location: self.location.clone(),
            modules: clone_modules(&self.modules),
            interfaces: clone_interfaces(&self.interfaces),
            pending_edits: clone_edits(&self.pending_edits),
        }
    }
}

impl DomainView {
    /// What the domain answers to `edit`.
    ///
    /// A module is created where its path lies in the domain's package and is
    /// not declared there yet. The other edits of a module are taken where
    /// the domain declares it. An edit of the source roots is never a
    /// domain's business.
    pub open spec fn answer(self, edit: ConfigEdit) -> Result<(), EditError> {
        match edit {
            ConfigEdit::CreateModule { path } => if !is_ancestor_path(self.mod_path, path@) {
                Err(EditError::NotApplicable)
            } else if declares(self.modules, path@) {
                Err(EditError::ModuleAlreadyExists)
            } else {
                Ok(())
            },
            ConfigEdit::AddSourceRoot { .. } => Err(EditError::NotApplicable),
            ConfigEdit::RemoveSourceRoot { .. } => Err(EditError::NotApplicable),
            _ => if declares(self.modules, edit.target()->0) {
                Ok(())
            } else {
                Err(EditError::ModuleNotFound)
            },
        }
    }

    /// The domain after `edit` was offered to it: the edit is queued where
    /// the domain took it, and nothing else changes.
    pub open spec fn offered(self, edit: ConfigEdit) -> DomainView {
        if self.answer(edit) is Ok {
            DomainView { pending_edits: self.pending_edits.push(edit), ..self }
        } else {
            self
        }
    }

    /// The domain with nothing left to save.
    pub open spec fn saved(self) -> DomainView {
        DomainView { pending_edits: Seq::empty(), ..self }
    }
}

impl LocatedDomainConfig {
    /// A domain for the package `mod_path`, kept at `location`, with nothing
    /// declared.
    pub fn new(mod_path: &str, location: &str) -> (r: Self)
        ensures
            r.deep_view() == (DomainView {
                mod_path: mod_path@,
                location: location@,
                modules: Seq::empty(),
                interfaces: Seq::empty(),
                pending_edits: Seq::empty(),
            }),
    {
        let r = LocatedDomainConfig {
            mod_path: mod_path.to_owned(),
            location: location.to_owned(),
            modules: Vec::new(),
            interfaces: Vec::new(),
            pending_edits: Vec::new(),
        };
        assert(r.modules.deep_view() =~= Seq::empty());
        assert(r.interfaces.deep_view() =~= Seq::empty());
        r
    }

    /// The modules that the domain declares.
    pub fn modules(&self) -> (r: &Vec<ModuleConfig>)
        ensures
            r.deep_view() == self.deep_view().modules,
    {
        &self.modules
    }

    /// The interfaces that the domain declares.
    pub fn interfaces(&self) -> (r: &Vec<InterfaceConfig>)
        ensures
            r.deep_view() == self.deep_view().interfaces,
    {
        &self.interfaces
    }

    /// Whether edits wait to be saved.
    pub fn has_edits(&self) -> (r: bool)
        ensures
            r == (self.deep_view().pending_edits.len() > 0),
    {
        self.pending_edits.len() > 0
    }

    /// Offers `edit` to the domain, which queues it where it takes it.
    pub fn enqueue_edit(&mut self, edit: &ConfigEdit) -> (r: Result<(), EditError>)
        ensures
            r == old(self).deep_view().answer(*edit),
            final(self).deep_view() == old(self).deep_view().offered(*edit),
    {
        let answer = match edit {
            ConfigEdit::CreateModule { path } => {
                if !is_ancestor(self.mod_path.as_str(), path.as_str()) {
                    Err(EditError::NotApplicable)
                } else if find_module(&self.modules, path.as_str()).is_some() {
                    Err(EditError::ModuleAlreadyExists)
                } else {
                    Ok(())
                }
            },
            ConfigEdit::DeleteModule { path } => self.known(path.as_str()),
            ConfigEdit::MarkModuleAsUtility { path } => self.known(path.as_str()),
            ConfigEdit::UnmarkModuleAsUtility { path } => self.known(path.as_str()),
            ConfigEdit::AddDependency { path, .. } => self.known(path.as_str()),
            ConfigEdit::RemoveDependency { path, .. } => self.known(path.as_str()),
            ConfigEdit::AddSourceRoot { .. } => Err(EditError::NotApplicable),
            ConfigEdit::RemoveSourceRoot { .. } => Err(EditError::NotApplicable),
        };
        if answer.is_ok() {
            self.pending_edits.push(edit.clone());
        }
        answer
    }

    /// `Ok` where the domain declares `path`.
    fn known(&self, path: &str) -> (r: Result<(), EditError>)
        ensures
            r == if declares(self.deep_view().modules, path@) {
                Ok::<(), EditError>(())
            } else {
                Err::<(), EditError>(EditError::ModuleNotFound)
            },
    {
        if find_module(&self.modules, path).is_some() {
            Ok(())
        } else {
            Err(EditError::ModuleNotFound)
        }
    }
}

} // verus!
