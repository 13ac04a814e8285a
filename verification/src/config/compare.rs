//! Setting the project's modules to a list of paths, and telling what one
//! configuration declares beyond another.

use super::modules::{
    clone_dependencies, declares, lemma_deep_view_push, DependencyConfig, DependencyView,
    ModuleConfig,
};
use super::project::{dependencies_of, ProjectConfig, ProjectView, UnusedDependencies};
use super::sync::{
    compared, dependencies_among, dependencies_beyond, distinct, extra_dependencies,
    find_last_module, lists, module_kept, modules_set,
};
use crate::paths::same_text;
use vstd::prelude::*;

verus! {

/// Whether the path at place `index` of `paths` stands at an earlier place
/// too.
pub fn occurs_before(paths: &Vec<String>, index: usize) -> (r: bool)
    requires
        index < paths.len(),
    ensures
        r == paths.deep_view().subrange(0, index as int).contains(paths.deep_view()[index as int]),
{
    let ghost earlier = paths.deep_view().subrange(0, index as int);
    let mut i: usize = 0;
    while i < index
        invariant
            i <= index,
            index < paths.len(),
            earlier == paths.deep_view().subrange(0, index as int),
            forall|j: int| 0 <= j < i ==> earlier[j] != paths.deep_view()[index as int],
        decreases index - i,
    {
        if same_text(paths[i].as_str(), paths[index].as_str()) {
            assert(earlier[i as int] == paths.deep_view()[index as int]);
            return true;
        }
        i += 1;
    }
    false
}

/// The place of the first module of `modules` at `path`.
pub fn first_at(modules: &Vec<&ModuleConfig>, path: &str) -> (r: Option<usize>)
    ensures
        r is Some <==> declares(modules.deep_view(), path@),
        r matches Some(i) ==> i < modules.len() && dependencies_of(modules.deep_view(), path@)
            == modules.deep_view()[i as int].depends_on,
        r is None ==> dependencies_of(modules.deep_view(), path@) is None,
{
    let ghost views = modules.deep_view();
    let mut i: usize = 0;
    assert(views.subrange(0, views.len() as int) =~= views);
    while i < modules.len()
        invariant
            i <= modules.len(),
            views == modules.deep_view(),
            forall|j: int| 0 <= j < i ==> #[trigger] views[j].path != path@,
            dependencies_of(views, path@) == dependencies_of(
                views.subrange(i as int, views.len() as int),
                path@,
            ),
        decreases modules.len() - i,
    {
        let ghost rest = views.subrange(i as int, views.len() as int);
        assert(rest[0] == views[i as int]);
        if same_text(modules[i].path.as_str(), path) {
            assert(views[i as int].path == path@);
            assert(dependencies_of(rest, path@) == rest[0].depends_on);
            return Some(i);
        }
        assert(rest.drop_first() =~= views.subrange(i + 1, views.len() as int));
        i += 1;
    }
    None
}

impl ProjectConfig {
    /// Sets the project's modules to `module_paths`: one module for each
    /// distinct path. A module that was declared keeps what it declared, but
    /// for its dependencies on modules that are gone; a new one declares
    /// nothing.
    pub fn set_modules(&mut self, module_paths: Vec<String>)
        ensures
            final(self).deep_view() == (ProjectView {
                modules: modules_set(old(self).deep_view().modules, module_paths.deep_view()),
                ..old(self).deep_view()
            }),
    {
        let ghost before = self.deep_view();
        let ghost paths = module_paths.deep_view();
        let ghost kept = |path: Seq<char>| module_kept(before.modules, paths, path);
        let mut out: Vec<ModuleConfig> = Vec::new();
        let mut i: usize = 0;
        proof {
            assert(paths.subrange(0, 0) =~= Seq::empty());
            assert(out.deep_view() =~= distinct(paths.subrange(0, 0)).map_values(kept));
        }
        while i < module_paths.len()
            invariant
                i <= module_paths.len(),
                paths == module_paths.deep_view(),
                before == self.deep_view(),
                kept == |path: Seq<char>| module_kept(before.modules, paths, path),
                out.deep_view() == distinct(paths.subrange(0, i as int)).map_values(kept),
            decreases module_paths.len() - i,
        {
            let ghost prefix = paths.subrange(0, i as int);
            let ghost next = paths.subrange(0, i + 1);
            proof {
                assert(next.drop_last() =~= prefix);
                assert(next.last() == paths[i as int]);
            }
            if !occurs_before(&module_paths, i) {
                let path = module_paths[i].as_str();
                let module = match find_last_module(&self.modules, path) {
                    Some(found) => ModuleConfig {
                        path: found.path.clone(),
                        depends_on: match &found.depends_on {
                            Some(listed) => Some(dependencies_among(listed, &module_paths)),
                            None => None,
                        },
                        utility: found.utility,
                        unchecked: found.unchecked,
                    },
                    None => ModuleConfig::new(path),
                };
                assert(module.deep_view() == kept(paths[i as int]));
                let ghost shorter = out;
                out.push(module);
                proof {
                    assert(out@.drop_last() =~= shorter@);
                    lemma_deep_view_push(shorter, out);
                    assert(out.deep_view() =~= distinct(next).map_values(kept));
                }
            }
            i += 1;
        }
        assert(paths.subrange(0, module_paths.len() as int) =~= paths);
        self.modules = out;
    }

    /// What `other_config` declares beyond this configuration: for each of
    /// its modules that this one lacks, the module's path with all its
    /// dependencies; for each that this one declares too, the path with the
    /// dependencies on modules that this one does not list for it, where
    /// there are any. Only the paths of the dependencies are compared.
    pub fn compare_dependencies(&self, other_config: &ProjectConfig) -> (r: Vec<
        UnusedDependencies,
    >)
        ensures
            r.deep_view() == compared(
                self.deep_view().all_modules(),
                other_config.deep_view().all_modules(),
            ),
    {
        let own = self.all_modules();
        let other = other_config.all_modules();
        let ghost own_views = own.deep_view();
        let ghost views = other.deep_view();
        let mut out: Vec<UnusedDependencies> = Vec::new();
        let mut i: usize = 0;
        proof {
            assert(views.subrange(0, 0) =~= Seq::empty());
            assert(out.deep_view() =~= compared(own_views, views.subrange(0, 0)));
        }
        while i < other.len()
            invariant
                i <= other.len(),
                own_views == own.deep_view(),
                views == other.deep_view(),
                out.deep_view() == compared(own_views, views.subrange(0, i as int)),
            decreases other.len() - i,
        {
            let module = other[i];
            proof {
                let next = views.subrange(0, i + 1);
                assert(next.drop_last() =~= views.subrange(0, i as int));
                assert(next.last() == views[i as int]);
                assert(module.deep_view() == views[i as int]);
            }
            let extra = match first_at(&own, module.path.as_str()) {
                None => match &module.depends_on {
                    Some(dependencies) => clone_dependencies(dependencies),
                    None => Vec::new(),
                },
                Some(k) => match &module.depends_on {
                    Some(dependencies) => match &own[k].depends_on {
                        Some(known) => dependencies_beyond(dependencies, known),
                        None => {
                            let known: Vec<DependencyConfig> = Vec::new();
                            assert(known.deep_view() =~= Seq::empty());
                            dependencies_beyond(dependencies, &known)
                        },
                    },
                    None => Vec::new(),
                },
            };
            proof {
                let unlisted = |dependency: DependencyView|
                    !lists(Seq::<DependencyView>::empty(), dependency.path);
                crate::seqs::lemma_filter_empty(unlisted);
                let known = match dependencies_of(own_views, views[i as int].path) {
                    Some(dependencies) => dependencies,
                    None => Seq::empty(),
                };
                crate::seqs::lemma_filter_empty(
                    |dependency: DependencyView| !lists(known, dependency.path),
                );
                if module.depends_on is None {
                    assert(extra.deep_view() =~= Seq::empty());
                }
                assert(extra.deep_view() == extra_dependencies(own_views, views[i as int]));
            }
            if !declares_path(&own, module.path.as_str()) || extra.len() > 0 {
                let entry = UnusedDependencies { path: module.path.clone(), dependencies: extra };
                let ghost shorter = out;
                out.push(entry);
                proof {
                    assert(out@.drop_last() =~= shorter@);
                    lemma_deep_view_push(shorter, out);
                }
            }
            i += 1;
        }
        assert(views.subrange(0, other.len() as int) =~= views);
        out
    }
}

/// Whether one of `modules` is declared at `path`.
pub fn declares_path(modules: &Vec<&ModuleConfig>, path: &str) -> (r: bool)
    ensures
        r == declares(modules.deep_view(), path@),
{
    first_at(modules, path).is_some()
}

} // verus!
