//! Rewriting what the project declares, and comparing two configurations.

use super::modules::{
    declares, find_module, lemma_deep_view_push, DependencyConfig, DependencyView, ModuleConfig,
    ModuleView,
};
use super::project::{dependencies_of, ProjectConfig, ProjectView, UnusedView};
use crate::paths::same_text;
use crate::seqs::{lemma_filter_empty, lemma_filter_push};
use vstd::prelude::*;

verus! {

/// Whether `dependencies` holds an edge to `path`.
pub open spec fn lists(dependencies: Seq<DependencyView>, path: Seq<char>) -> bool {
    exists|i: int| 0 <= i < dependencies.len() && #[trigger] dependencies[i].path == path
}

/// `module` with an empty list in place of the dependencies that it lists.
/// A module that declares no list still declares none.
pub open spec fn without_dependencies(module: ModuleView) -> ModuleView {
    ModuleView {
        depends_on: match module.depends_on {
            Some(_) => Some(Seq::empty()),
            None => None,
        },
        ..module
    }
}

/// `module` as a utility exactly where its path is among `utilities`.
pub open spec fn marked(module: ModuleView, utilities: Seq<Seq<char>>) -> ModuleView {
    ModuleView { utility: utilities.contains(module.path), ..module }
}

/// `dependencies` with `dependency` at the end, unless an edge to the same
/// module is there already.
pub open spec fn with_dependency(
    dependencies: Option<Seq<DependencyView>>,
    dependency: DependencyView,
) -> Seq<DependencyView> {
    match dependencies {
        Some(listed) => if lists(listed, dependency.path) {
            listed
        } else {
            listed.push(dependency)
        },
        None => seq![dependency],
    }
}

/// `modules` after the module `path` is given `dependency`: the first module
/// at `path` gets it, and where there is none, a module at `path` with that
/// one dependency goes to the end.
pub open spec fn dependency_given(
    modules: Seq<ModuleView>,
    path: Seq<char>,
    dependency: DependencyView,
) -> Seq<ModuleView> {
    if declares(modules, path) {
        let i = choose|i: int|
            0 <= i < modules.len() && modules[i].path == path && forall|j: int|
                0 <= j < i ==> #[trigger] modules[j].path != path;
        modules.update(
            i,
            ModuleView {
                depends_on: Some(with_dependency(modules[i].depends_on, dependency)),
                ..modules[i]
            },
        )
    } else {
        modules.push(
            ModuleView {
                path,
                depends_on: Some(seq![dependency]),
                utility: false,
                unchecked: false,
            },
        )
    }
}

/// `paths` without repetitions, each path where it stands first.
pub open spec fn distinct(paths: Seq<Seq<char>>) -> Seq<Seq<char>>
    decreases paths.len(),
{
    if paths.len() == 0 {
        Seq::empty()
    } else if paths.drop_last().contains(paths.last()) {
        distinct(paths.drop_last())
    } else {
        distinct(paths.drop_last()).push(paths.last())
    }
}

/// The last module of `modules` at `path`.
pub open spec fn last_declared(modules: Seq<ModuleView>, path: Seq<char>) -> Option<ModuleView>
    decreases modules.len(),
{
    if modules.len() == 0 {
        None
    } else if modules.last().path == path {
        Some(modules.last())
    } else {
        last_declared(modules.drop_last(), path)
    }
}

/// `dependencies` without the edges to modules that are not among `paths`.
pub open spec fn dependencies_within(
    dependencies: Seq<DependencyView>,
    paths: Seq<Seq<char>>,
) -> Seq<DependencyView> {
    dependencies.filter(|dependency: DependencyView| paths.contains(dependency.path))
}

/// The module that stands at `path` once the project's modules are set to
/// `paths`: the last module of `modules` at that path, with its dependencies
/// on modules that are gone taken out; a module with nothing declared where
/// there was none.
pub open spec fn module_kept(
    modules: Seq<ModuleView>,
    paths: Seq<Seq<char>>,
    path: Seq<char>,
) -> ModuleView {
    match last_declared(modules, path) {
        Some(module) => ModuleView {
            depends_on: match module.depends_on {
                Some(listed) => Some(dependencies_within(listed, paths)),
                None => None,
            },
            ..module
        },
        None => ModuleConfig::bare(path),
    }
}

/// The modules of a project once they are set to `paths`: one for each
/// distinct path, in the order in which the paths first stand.
pub open spec fn modules_set(modules: Seq<ModuleView>, paths: Seq<Seq<char>>) -> Seq<ModuleView> {
    distinct(paths).map_values(|path: Seq<char>| module_kept(modules, paths, path))
}

/// The dependencies that `module` lists.
pub open spec fn listed(module: ModuleView) -> Seq<DependencyView> {
    match module.depends_on {
        Some(dependencies) => dependencies,
        None => Seq::empty(),
    }
}

/// The dependencies of `module` that `own` does not list for the module at
/// that path; all of them where `own` declares no such module.
pub open spec fn extra_dependencies(own: Seq<ModuleView>, module: ModuleView) -> Seq<
    DependencyView,
> {
    if !declares(own, module.path) {
        listed(module)
    } else {
        let known = match dependencies_of(own, module.path) {
            Some(dependencies) => dependencies,
            None => Seq::empty(),
        };
        listed(module).filter(|dependency: DependencyView| !lists(known, dependency.path))
    }
}

/// Whether `module` differs from what `own` declares: `own` lacks it, or it
/// lists a dependency that `own` does not list for it.
pub open spec fn differs_from(own: Seq<ModuleView>, module: ModuleView) -> bool {
    !declares(own, module.path) || extra_dependencies(own, module).len() > 0
}

/// For each module of `other` that differs from `own`, in order, its path
/// with its extra dependencies.
pub open spec fn compared(own: Seq<ModuleView>, other: Seq<ModuleView>) -> Seq<UnusedView>
    decreases other.len(),
{
    if other.len() == 0 {
        Seq::empty()
    } else {
        let module = other.last();
        let before = compared(own, other.drop_last());
        if differs_from(own, module) {
            before.push(
                UnusedView { path: module.path, dependencies: extra_dependencies(own, module) },
            )
        } else {
            before
        }
    }
}

/// Whether `dependencies` holds an edge to `path`.
pub fn has_dependency(dependencies: &Vec<DependencyConfig>, path: &str) -> (r: bool)
    ensures
        r == lists(dependencies.deep_view(), path@),
{
    let mut i: usize = 0;
    while i < dependencies.len()
        invariant
            i <= dependencies.len(),
            forall|j: int| 0 <= j < i ==> #[trigger] dependencies.deep_view()[j].path != path@,
        decreases dependencies.len() - i,
    {
        if same_text(dependencies[i].path.as_str(), path) {
            assert(dependencies.deep_view()[i as int].path == path@);
            return true;
        }
        i += 1;
    }
    false
}

/// Whether `path` is among `paths`.
pub fn has_path(paths: &Vec<String>, path: &str) -> (r: bool)
    ensures
        r == paths.deep_view().contains(path@),
{
    let mut i: usize = 0;
    while i < paths.len()
        invariant
            i <= paths.len(),
            forall|j: int| 0 <= j < i ==> paths.deep_view()[j] != path@,
        decreases paths.len() - i,
    {
        if same_text(paths[i].as_str(), path) {
            assert(paths.deep_view()[i as int] == path@);
            return true;
        }
        i += 1;
    }
    false
}

/// The last module of `modules` at `path`.
pub fn find_last_module<'a>(modules: &'a Vec<ModuleConfig>, path: &str) -> (r: Option<
    &'a ModuleConfig,
>)
    ensures
        r.deep_view() == last_declared(modules.deep_view(), path@),
{
    let ghost views = modules.deep_view();
    let mut i: usize = modules.len();
    assert(views.subrange(0, i as int) =~= views);
    while i > 0
        invariant
            i <= modules.len(),
            views == modules.deep_view(),
            last_declared(views, path@) == last_declared(views.subrange(0, i as int), path@),
        decreases i,
    {
        let ghost front = views.subrange(0, i as int);
        assert(front.last() == views[i - 1]);
        if same_text(modules[i - 1].path.as_str(), path) {
            return Some(&modules[i - 1]);
        }
        assert(front.drop_last() =~= views.subrange(0, i - 1));
        i -= 1;
    }
    None
}

/// The edges of `dependencies` to modules among `paths`, in order.
pub fn dependencies_among(dependencies: &Vec<DependencyConfig>, paths: &Vec<String>) -> (r: Vec<
    DependencyConfig,
>)
    ensures
        r.deep_view() == dependencies_within(dependencies.deep_view(), paths.deep_view()),
{
    let ghost views = dependencies.deep_view();
    let ghost keep = |dependency: DependencyView| paths.deep_view().contains(dependency.path);
    let mut out: Vec<DependencyConfig> = Vec::new();
    let mut i: usize = 0;
    proof {
        assert(views.subrange(0, 0) =~= Seq::empty());
        lemma_filter_empty(keep);
        assert(out.deep_view() =~= Seq::empty());
    }
    while i < dependencies.len()
        invariant
            i <= dependencies.len(),
            views == dependencies.deep_view(),
            keep == |dependency: DependencyView| paths.deep_view().contains(dependency.path),
            out.deep_view() == views.subrange(0, i as int).filter(keep),
        decreases dependencies.len() - i,
    {
        proof {
            assert(views.subrange(0, i + 1) =~= views.subrange(0, i as int).push(views[i as int]));
            lemma_filter_push(views.subrange(0, i as int), views[i as int], keep);
        }
        if has_path(paths, dependencies[i].path.as_str()) {
            let ghost before = out;
            out.push(dependencies[i].clone());
            proof {
                assert(out@.drop_last() =~= before@);
                lemma_deep_view_push(before, out);
            }
        }
        i += 1;
    }
    assert(views.subrange(0, dependencies.len() as int) =~= views);
    out
}

/// The edges of `dependencies` to modules that `known` has no edge to.
pub fn dependencies_beyond(dependencies: &Vec<DependencyConfig>, known: &Vec<DependencyConfig>) -> (r:
    Vec<DependencyConfig>)
    ensures
        r.deep_view() == dependencies.deep_view().filter(
            |dependency: DependencyView| !lists(known.deep_view(), dependency.path),
        ),
{
    let ghost views = dependencies.deep_view();
    let ghost keep = |dependency: DependencyView| !lists(known.deep_view(), dependency.path);
    let mut out: Vec<DependencyConfig> = Vec::new();
    let mut i: usize = 0;
    proof {
        assert(views.subrange(0, 0) =~= Seq::empty());
        lemma_filter_empty(keep);
        assert(out.deep_view() =~= Seq::empty());
    }
    while i < dependencies.len()
        invariant
            i <= dependencies.len(),
            views == dependencies.deep_view(),
            keep == |dependency: DependencyView| !lists(known.deep_view(), dependency.path),
            out.deep_view() == views.subrange(0, i as int).filter(keep),
        decreases dependencies.len() - i,
    {
        proof {
            assert(views.subrange(0, i + 1) =~= views.subrange(0, i as int).push(views[i as int]));
            lemma_filter_push(views.subrange(0, i as int), views[i as int], keep);
        }
        if !has_dependency(known, dependencies[i].path.as_str()) {
            let ghost before = out;
            out.push(dependencies[i].clone());
            proof {
                assert(out@.drop_last() =~= before@);
                lemma_deep_view_push(before, out);
            }
        }
        i += 1;
    }
    assert(views.subrange(0, dependencies.len() as int) =~= views);
    out
}

impl ProjectConfig {
    /// This configuration with every list of dependencies emptied.
    pub fn with_dependencies_removed(&self) -> (r: Self)
        ensures
            r.deep_view() == (ProjectView {
                modules: self.deep_view().modules.map_values(
                    |module: ModuleView| without_dependencies(module),
                ),
                ..self.deep_view()
            }),
    {
        let mut out: Vec<ModuleConfig> = Vec::new();
        let ghost target = self.deep_view().modules.map_values(
            |module: ModuleView| without_dependencies(module),
        );
        let mut i: usize = 0;
        assert(out.deep_view() =~= target.subrange(0, 0));
        while i < self.modules.len()
            invariant
                i <= self.modules.len(),
                target == self.deep_view().modules.map_values(
                    |module: ModuleView| without_dependencies(module),
                ),
                out.deep_view() == target.subrange(0, i as int),
            decreases self.modules.len() - i,
        {
            let module = &self.modules[i];
            let cleared = ModuleConfig {
                path: module.path.clone(),
                depends_on: match &module.depends_on {
                    Some(_) => Some(Vec::new()),
                    None => None,
                },
                utility: module.utility,
                unchecked: module.unchecked,
            };
            proof {
                if cleared.depends_on is Some {
                    assert(cleared.depends_on->0.deep_view() =~= Seq::empty());
                }
                assert(cleared.deep_view() == target[i as int]);
            }
            let ghost before = out;
            out.push(cleared);
            proof {
                assert(out@.drop_last() =~= before@);
                lemma_deep_view_push(before, out);
                assert(out.deep_view() =~= target.subrange(0, i + 1));
            }
            i += 1;
        }
        assert(target.subrange(0, self.modules.len() as int) =~= target);
        self.with_modules(out)
    }

    /// Makes utilities of the project's modules whose paths are among
    /// `utility_paths`, and of no others.
    pub fn mark_utilities(&mut self, utility_paths: Vec<String>)
        ensures
            final(self).deep_view() == (ProjectView {
                modules: old(self).deep_view().modules.map_values(
                    |module: ModuleView| marked(module, utility_paths.deep_view()),
                ),
                ..old(self).deep_view()
            }),
    {
        let ghost before = self.deep_view();
        let ghost target = before.modules.map_values(
            |module: ModuleView| marked(module, utility_paths.deep_view()),
        );
        let mut i: usize = 0;
        while i < self.modules.len()
            invariant
                i <= self.modules.len(),
                self.modules.len() == before.modules.len(),
                target == before.modules.map_values(
                    |module: ModuleView| marked(module, utility_paths.deep_view()),
                ),
                self.deep_view() == (ProjectView {
                    modules: self.deep_view().modules,
                    ..before
                }),
                forall|j: int| 0 <= j < i ==> self.deep_view().modules[j] == target[j],
                forall|j: int|
                    i <= j < self.modules.len() ==> self.deep_view().modules[j]
                        == before.modules[j],
            decreases self.modules.len() - i,
        {
            let mut module = self.modules[i].clone();
            module.utility = has_path(&utility_paths, module.path.as_str());
            assert(module.deep_view() == target[i as int]);
            self.modules.set(i, module);
            i += 1;
        }
        assert(self.deep_view().modules =~= target);
    }

    /// Gives the project's module `module` the dependency `dependency`,
    /// unless it has an edge to the same module already. Where the project
    /// declares no such module, one is declared with that one dependency.
    pub fn add_dependency_to_module(&mut self, module: &str, dependency: DependencyConfig)
        ensures
            final(self).deep_view() == (ProjectView {
                modules: dependency_given(
                    old(self).deep_view().modules,
                    module@,
                    dependency.deep_view(),
                ),
                ..old(self).deep_view()
            }),
    {
        let ghost before = self.deep_view();
        match find_module(&self.modules, module) {
            Some(i) => {
                let mut found = self.modules[i].clone();
                let ghost old_found = found.deep_view();
                let listed = match found.depends_on {
                    Some(listed) => {
                        let mut listed = listed;
                        if !has_dependency(&listed, dependency.path.as_str()) {
                            let ghost shorter = listed;
                            listed.push(dependency);
                            proof {
                                assert(listed@.drop_last() =~= shorter@);
                                lemma_deep_view_push(shorter, listed);
                            }
                        }
                        listed
                    },
                    None => {
                        let mut listed: Vec<DependencyConfig> = Vec::new();
                        listed.push(dependency);
                        assert(listed.deep_view() =~= seq![dependency.deep_view()]);
                        listed
                    },
                };
                assert(listed.deep_view() == with_dependency(
                    old_found.depends_on,
                    dependency.deep_view(),
                ));
                found.depends_on = Some(listed);
                self.modules.set(i, found);
                proof {
                    let k = choose|k: int|
                        0 <= k < before.modules.len() && before.modules[k].path == module@
                            && forall|j: int|
                            0 <= j < k ==> #[trigger] before.modules[j].path != module@;
                    assert(k == i) by {
                        if k < i {
                            assert(before.modules[k].path != module@);
                        }
                        if i < k {
                            assert(before.modules[i as int].path != module@);
                        }
                    }
                    assert(self.deep_view().modules =~= dependency_given(
                        before.modules,
                        module@,
                        dependency.deep_view(),
                    ));
                }
            },
            None => {
                let mut listed: Vec<DependencyConfig> = Vec::new();
                listed.push(dependency);
                assert(listed.deep_view() =~= seq![dependency.deep_view()]);
                let added = ModuleConfig {
                    path: module.to_owned(),
                    depends_on: Some(listed),
                    utility: false,
                    unchecked: false,
                };
                let ghost shorter = self.modules;
                self.modules.push(added);
                proof {
                    assert(self.modules@.drop_last() =~= shorter@);
                    lemma_deep_view_push(shorter, self.modules);
                }
            },
        }
    }
}

} // verus!
