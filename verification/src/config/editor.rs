//! Queueing edits of the policy: each is checked against what is declared
//! in memory, and offered to the domains before the project takes it.

use super::domain::{DomainView, LocatedDomainConfig};
use super::edit::{ConfigEdit, EditError};
use super::modules::{declares, find_module, ModuleView};
use super::project::{domain_modules, ProjectConfig, ProjectView};
use vstd::prelude::*;

verus! {

/// `domains` after `edit` was offered to each of them.
pub open spec fn domains_offered(domains: Seq<DomainView>, edit: ConfigEdit) -> Seq<DomainView> {
    domains.map_values(|domain: DomainView| domain.offered(edit))
}

/// Whether one of `domains` takes `edit`.
pub open spec fn some_domain_takes(domains: Seq<DomainView>, edit: ConfigEdit) -> bool {
    exists|i: int| 0 <= i < domains.len() && (#[trigger] domains[i]).answer(edit) is Ok
}

impl ProjectView {
    /// What the configuration answers to `edit`.
    ///
    /// An edit of the source roots is always taken. A module is created
    /// where a domain takes the edit, or where the module is declared
    /// nowhere yet. The other edits of a module are taken where the module is
    /// declared, by the project or by a domain.
    pub open spec fn answer(self, edit: ConfigEdit) -> Result<(), EditError> {
        match edit {
            ConfigEdit::AddSourceRoot { .. } => Ok(()),
            ConfigEdit::RemoveSourceRoot { .. } => Ok(()),
            ConfigEdit::CreateModule { path } => if some_domain_takes(self.domains, edit) {
                Ok(())
            } else if declares(self.all_modules(), path@) {
                Err(EditError::ModuleAlreadyExists)
            } else {
                Ok(())
            },
            _ => if declares(self.all_modules(), edit.target()->0) {
                Ok(())
            } else {
                Err(EditError::ModuleNotFound)
            },
        }
    }

    /// Whether the project queues `edit` for its own document: always for an
    /// edit of the source roots; for an edit of a module, where it is taken
    /// and no domain took it.
    pub open spec fn queues(self, edit: ConfigEdit) -> bool {
        match edit {
            ConfigEdit::AddSourceRoot { .. } => true,
            ConfigEdit::RemoveSourceRoot { .. } => true,
            _ => self.answer(edit) is Ok && !some_domain_takes(self.domains, edit),
        }
    }

    /// The configuration after `edit` was offered to it. What is declared
    /// stays as it is: only the queues grow.
    pub open spec fn offered(self, edit: ConfigEdit) -> ProjectView {
        ProjectView {
            domains: domains_offered(self.domains, edit),
            pending_edits: if self.queues(edit) {
                self.pending_edits.push(edit)
            } else {
                self.pending_edits
            },
            ..self
        }
    }
}

/// A module is declared among the project's modules and the domains' where
/// the project declares it or one of the domains does.
pub proof fn lemma_declared_anywhere(
    modules: Seq<ModuleView>,
    domains: Seq<DomainView>,
    path: Seq<char>,
)
    ensures
        declares(modules + domain_modules(domains), path) <==> (declares(modules, path) || exists|
            i: int,
        |
            0 <= i < domains.len() && declares((#[trigger] domains[i]).modules, path)),
    decreases domains.len(),
{
    let all = modules + domain_modules(domains);
    if domains.len() == 0 {
        assert(all =~= modules);
    } else {
        let front = domains.drop_last();
        let last = domains.last();
        lemma_declared_anywhere(modules, front, path);
        let before = modules + domain_modules(front);
        assert(all =~= before + last.modules);
        if declares(all, path) {
            let k = choose|k: int| 0 <= k < all.len() && #[trigger] all[k].path == path;
            if k < before.len() {
                assert(before[k].path == path);
                if !declares(modules, path) {
                    let i = choose|i: int|
                        0 <= i < front.len() && declares((#[trigger] front[i]).modules, path);
                    assert(domains[i] == front[i]);
                }
            } else {
                assert(last.modules[k - before.len()].path == path);
                assert(declares(domains[domains.len() - 1].modules, path));
            }
        }
        if declares(modules, path) {
            let k = choose|k: int| 0 <= k < modules.len() && #[trigger] modules[k].path == path;
            assert(all[k].path == path);
        }
        if exists|i: int| 0 <= i < domains.len() && declares((#[trigger] domains[i]).modules, path) {
            let i = choose|i: int|
                0 <= i < domains.len() && declares((#[trigger] domains[i]).modules, path);
            if i < front.len() {
                assert(front[i] == domains[i]);
                assert(declares(before, path));
                let k = choose|k: int| 0 <= k < before.len() && #[trigger] before[k].path == path;
                assert(all[k].path == path);
            } else {
                let k = choose|k: int|
                    0 <= k < last.modules.len() && #[trigger] last.modules[k].path == path;
                assert(all[before.len() + k].path == path);
            }
        }
    }
}

impl ProjectConfig {
    /// Whether a module is declared at `path`, by the project or by a domain.
    pub fn declares_module(&self, path: &str) -> (r: bool)
        ensures
            r == declares(self.deep_view().all_modules(), path@),
    {
        let all = self.all_modules();
        let mut i: usize = 0;
        while i < all.len()
            invariant
                i <= all.len(),
                all.deep_view() == self.deep_view().all_modules(),
                forall|j: int| 0 <= j < i ==> #[trigger] all.deep_view()[j].path != path@,
            decreases all.len() - i,
        {
            if crate::paths::same_text(all[i].path.as_str(), path) {
                assert(all.deep_view()[i as int].path == path@);
                return true;
            }
            i += 1;
        }
        false
    }

    /// Offers `edit` to every domain; tells whether one of them took it.
    fn offer_to_domains(&mut self, edit: &ConfigEdit) -> (taken: bool)
        ensures
            taken == some_domain_takes(old(self).deep_view().domains, *edit),
            final(self).deep_view() == (ProjectView {
                domains: domains_offered(old(self).deep_view().domains, *edit),
                ..old(self).deep_view()
            }),
    {
        let ghost before = self.deep_view();
        let mut taken = false;
        let mut offered: Vec<LocatedDomainConfig> = Vec::new();
        let mut rest: Vec<LocatedDomainConfig> = Vec::new();
        core::mem::swap(&mut self.domains, &mut rest);
        let mut i: usize = 0;
        while i < rest.len()
            invariant
                i <= rest.len(),
                rest.deep_view() == before.domains,
                offered.deep_view() == domains_offered(before.domains, *edit).subrange(
                    0,
                    i as int,
                ),
                taken == some_domain_takes(before.domains.subrange(0, i as int), *edit),
            decreases rest.len() - i,
        {
            let mut domain = rest[i].clone();
            let answer = domain.enqueue_edit(edit);
            let ghost grown = offered;
            offered.push(domain);
            proof {
                assert(offered@.drop_last() =~= grown@);
                super::modules::lemma_deep_view_push(grown, offered);
                assert(offered.deep_view() =~= domains_offered(before.domains, *edit).subrange(
                    0,
                    i + 1,
                ));
                let done = before.domains.subrange(0, i as int);
                let next = before.domains.subrange(0, i + 1);
                if some_domain_takes(done, *edit) {
                    let k = choose|k: int|
                        0 <= k < done.len() && (#[trigger] done[k]).answer(*edit) is Ok;
                    assert(next[k] == done[k]);
                }
                if answer is Ok {
                    assert(next[i as int].answer(*edit) is Ok);
                }
                if some_domain_takes(next, *edit) && !(answer is Ok) {
                    let k = choose|k: int|
                        0 <= k < next.len() && (#[trigger] next[k]).answer(*edit) is Ok;
                    assert(done[k] == next[k]);
                }
            }
            taken = taken || answer.is_ok();
            i += 1;
        }
        proof {
            assert(before.domains.subrange(0, rest.len() as int) =~= before.domains);
            assert(offered.deep_view() =~= domains_offered(before.domains, *edit));
        }
        self.domains = offered;
        taken
    }

    /// Offers `edit` to the configuration. The domains are asked first; the
    /// project queues the edit for its own document where none of them took
    /// it and what is declared allows it.
    ///
    /// Fails with `ModuleAlreadyExists` where a module is to be created that
    /// is declared already, and with `ModuleNotFound` where any other edit
    /// names a module that is declared nowhere.
    pub fn enqueue_edit(&mut self, edit: &ConfigEdit) -> (r: Result<(), EditError>)
        ensures
            r == old(self).deep_view().answer(*edit),
            final(self).deep_view() == old(self).deep_view().offered(*edit),
    {
        let ghost before = self.deep_view();
        let taken = self.offer_to_domains(edit);
        proof {
            assert(self.deep_view().all_modules() =~= before.all_modules()) by {
                lemma_offered_declares_same(before.domains, *edit);
            }
            if edit.target() is Some && !(*edit is CreateModule) {
                let path = edit.target()->0;
                lemma_declared_anywhere(before.modules, before.domains, path);
                if taken {
                    let k = choose|k: int|
                        0 <= k < before.domains.len() && (#[trigger] before.domains[k]).answer(
                            *edit,
                        ) is Ok;
                    assert(declares(before.domains[k].modules, path));
                }
                if exists|i: int|
                    0 <= i < before.domains.len() && declares(
                        (#[trigger] before.domains[i]).modules,
                        path,
                    ) {
                    let i = choose|i: int|
                        0 <= i < before.domains.len() && declares(
                            (#[trigger] before.domains[i]).modules,
                            path,
                        );
                    assert(before.domains[i].answer(*edit) is Ok);
                }
            }
        }
        let r = match edit {
            ConfigEdit::AddSourceRoot { .. } => {
                self.pending_edits.push(edit.clone());
                Ok(())
            },
            ConfigEdit::RemoveSourceRoot { .. } => {
                self.pending_edits.push(edit.clone());
                Ok(())
            },
            ConfigEdit::CreateModule { path } => {
                if taken {
                    Ok(())
                } else if self.declares_module(path.as_str()) {
                    Err(EditError::ModuleAlreadyExists)
                } else {
                    self.pending_edits.push(edit.clone());
                    Ok(())
                }
            },
            ConfigEdit::DeleteModule { path } => self.enqueue_known(path.as_str(), edit, taken),
            ConfigEdit::MarkModuleAsUtility { path } => self.enqueue_known(
                path.as_str(),
                edit,
                taken,
            ),
            ConfigEdit::UnmarkModuleAsUtility { path } => self.enqueue_known(
                path.as_str(),
                edit,
                taken,
            ),
            ConfigEdit::AddDependency { path, .. } => self.enqueue_known(
                path.as_str(),
                edit,
                taken,
            ),
            ConfigEdit::RemoveDependency { path, .. } => self.enqueue_known(
                path.as_str(),
                edit,
                taken,
            ),
        };
        r
    }

    /// Queues an edit of the module `path` where no domain took it and the
    /// project declares the module.
    fn enqueue_known(&mut self, path: &str, edit: &ConfigEdit, taken: bool) -> (r: Result<
        (),
        EditError,
    >)
        requires
            edit.target() == Some(path@),
            !(*edit is CreateModule),
            taken ==> declares(old(self).deep_view().all_modules(), path@),
            !taken ==> (declares(old(self).deep_view().all_modules(), path@) <==> declares(
                old(self).deep_view().modules,
                path@,
            )),
        ensures
            r == if declares(old(self).deep_view().all_modules(), path@) {
                Ok::<(), EditError>(())
            } else {
                Err::<(), EditError>(EditError::ModuleNotFound)
            },
            final(self).deep_view() == (ProjectView {
                pending_edits: if r is Ok && !taken {
                    old(self).deep_view().pending_edits.push(*edit)
                } else {
                    old(self).deep_view().pending_edits
                },
                ..old(self).deep_view()
            }),
    {
        if taken {
            Ok(())
        } else if find_module(&self.modules, path).is_some() {
            self.pending_edits.push(edit.clone());
            Ok(())
        } else {
            Err(EditError::ModuleNotFound)
        }
    }
}

/// An edit is answered by what is declared in memory, never by what is
/// queued or on disk: once an edit was offered, every edit still gets the
/// answer that it would have got before. So a module can be asked for twice
/// with success, and is refused as existing only once it is declared.
pub proof fn lemma_answer_ignores_queues(config: ProjectView, first: ConfigEdit, second: ConfigEdit)
    ensures
        config.offered(first).all_modules() == config.all_modules(),
        config.offered(first).answer(second) == config.answer(second),
{
    let after = config.offered(first);
    lemma_offered_declares_same(config.domains, first);
    assert(after.all_modules() =~= config.all_modules());
    assert forall|i: int| 0 <= i < config.domains.len() implies (#[trigger] after.domains[i]).answer(
        second,
    ) == config.domains[i].answer(second) by {
        assert(after.domains[i] == config.domains[i].offered(first));
    }
    if some_domain_takes(config.domains, second) {
        let i = choose|i: int|
            0 <= i < config.domains.len() && (#[trigger] config.domains[i]).answer(second) is Ok;
        assert(after.domains[i].answer(second) is Ok);
    }
    if some_domain_takes(after.domains, second) {
        let i = choose|i: int|
            0 <= i < after.domains.len() && (#[trigger] after.domains[i]).answer(second) is Ok;
        assert(config.domains[i].answer(second) is Ok);
    }
}

/// Offering an edit to the domains changes nothing that they declare.
pub proof fn lemma_offered_declares_same(domains: Seq<DomainView>, edit: ConfigEdit)
    ensures
        domain_modules(domains_offered(domains, edit)) == domain_modules(domains),
    decreases domains.len(),
{
    if domains.len() > 0 {
        lemma_offered_declares_same(domains.drop_last(), edit);
        assert(domains_offered(domains, edit).drop_last() =~= domains_offered(
            domains.drop_last(),
            edit,
        ));
    }
}

} // verus!
