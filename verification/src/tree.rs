//! The registry of declared modules, and the module that owns a path.

use crate::config::modules::{declares, lemma_deep_view_push, root_path, ModuleConfig, ModuleView};
use crate::config::project::ProjectConfig;
use crate::paths::{is_ancestor, is_ancestor_path, lemma_ancestors_nest, same_text};
use vstd::prelude::*;
use vstd::string::StrSliceExecFns;

verus! {

/// Why a registry could not be built or a module not be found.
#[derive(Debug)]
pub enum ModuleTreeError {
    /// Two modules are declared at this path.
    DuplicateModule(String),
    /// No declared module owns this path.
    ModuleNotFound(String),
}

/// A declared module as the registry holds it.
#[derive(Debug)]
pub struct ModuleNode {
    pub config: ModuleConfig,
}

impl DeepView for ModuleNode {
    type V = ModuleView;

    open spec fn deep_view(&self) -> ModuleView {
        self.config.deep_view()
    }
}

impl Clone for ModuleNode {
    fn clone(&self) -> (r: Self)
        ensures
            r.deep_view() == self.deep_view(),
    {
        ModuleNode { config: self.config.clone() }
    }
}

impl ModuleNode {
    /// A node that stands for no declared module: its path is empty.
    pub fn empty() -> (r: Self)
        ensures
            r.deep_view() == ModuleConfig::bare(Seq::empty()),
    {
        let r = ModuleNode { config: ModuleConfig::new("") };
        proof {
            reveal_strlit("");
            assert(""@ =~= Seq::<char>::empty());
        }
        r
    }

    /// The module's path.
    pub fn path(&self) -> (r: &str)
        ensures
            r@ == self.deep_view().path,
    {
        self.config.path.as_str()
    }

    /// Whether this is the module that stands for the project's root.
    pub fn is_root(&self) -> (r: bool)
        ensures
            r == (self.deep_view().path == root_path()),
    {
        same_text(self.config.path.as_str(), "<root>")
    }

    /// Whether the module is left out of checking.
    pub fn is_unchecked(&self) -> (r: bool)
        ensures
            r == self.deep_view().unchecked,
    {
        self.config.unchecked
    }
}

/// Whether no two of `modules` are declared at one path.
pub open spec fn unique_paths(modules: Seq<ModuleView>) -> bool {
    forall|i: int, j: int|
        0 <= i < j < modules.len() ==> (#[trigger] modules[i]).path != (#[trigger] modules[j]).path
}

/// Whether `module` is declared at `path` or at a package that encloses it.
/// The root module is nobody's ancestor in this sense.
pub open spec fn is_declared_ancestor(module: ModuleView, path: Seq<char>) -> bool {
    module.path != root_path() && is_ancestor_path(module.path, path)
}

/// Whether one of `modules` is a declared ancestor of `path`.
pub open spec fn has_declared_ancestor(modules: Seq<ModuleView>, path: Seq<char>) -> bool {
    exists|i: int| 0 <= i < modules.len() && is_declared_ancestor(#[trigger] modules[i], path)
}

/// Whether `found` is the module of `modules` that owns `path`: the declared
/// ancestor with the longest path; the root module where there is no
/// declared ancestor; nothing where there is no root module either.
pub open spec fn owns(modules: Seq<ModuleView>, path: Seq<char>, found: Option<ModuleView>) -> bool {
    match found {
        Some(module) => modules.contains(module) && if has_declared_ancestor(modules, path) {
            is_declared_ancestor(module, path) && forall|i: int|
                0 <= i < modules.len() && is_declared_ancestor(#[trigger] modules[i], path)
                    ==> modules[i].path.len() <= module.path.len()
        } else {
            module.path == root_path()
        },
        None => !has_declared_ancestor(modules, path) && !declares(modules, root_path()),
    }
}

/// Among modules with distinct paths, at most one owns a path.
pub proof fn lemma_owner_unique(
    modules: Seq<ModuleView>,
    path: Seq<char>,
    one: Option<ModuleView>,
    other: Option<ModuleView>,
)
    requires
        unique_paths(modules),
        owns(modules, path, one),
        owns(modules, path, other),
    ensures
        one == other,
{
    if one is Some && other is None {
        let i = choose|i: int| 0 <= i < modules.len() && modules[i] == one->0;
        assert(modules[i].path == one->0.path);
    }
    if other is Some && one is None {
        let i = choose|i: int| 0 <= i < modules.len() && modules[i] == other->0;
        assert(modules[i].path == other->0.path);
    }
    if one is Some && other is Some {
        let a = one->0;
        let b = other->0;
        let i = choose|i: int| 0 <= i < modules.len() && modules[i] == a;
        let j = choose|j: int| 0 <= j < modules.len() && modules[j] == b;
        if has_declared_ancestor(modules, path) {
            assert(modules[i].path.len() <= b.path.len());
            assert(modules[j].path.len() <= a.path.len());
            lemma_ancestors_nest(a.path, b.path, path);
        }
        assert(a.path == b.path);
        if i < j {
            assert(modules[i].path != modules[j].path);
        }
        if j < i {
            assert(modules[j].path != modules[i].path);
        }
    }
}

/// Whether the module at place `at` is the first that repeats the path of
/// an earlier one.
pub open spec fn first_repeat(modules: Seq<ModuleView>, at: int) -> bool {
    &&& 0 <= at < modules.len()
    &&& unique_paths(modules.subrange(0, at))
    &&& declares(modules.subrange(0, at), modules[at].path)
}

/// The registry: every declared module, each path declared once.
#[derive(Debug)]
pub struct ModuleTree {
    nodes: Vec<ModuleNode>,
}

impl ModuleTree {
    /// The declared modules, in the order in which they were declared.
    pub closed spec fn modules(&self) -> Seq<ModuleView> {
        self.nodes.deep_view()
    }

    #[verifier::type_invariant]
    spec fn wf(&self) -> bool {
        unique_paths(self.nodes.deep_view())
    }

    /// A registry with no module.
    pub fn new() -> (r: Self)
        ensures
            r.modules() == Seq::<ModuleView>::empty(),
    {
        let r = ModuleTree { nodes: Vec::new() };
        assert(r.nodes.deep_view() =~= Seq::<ModuleView>::empty());
        r
    }

    /// The registry of what `project` declares, itself and through its
    /// domains. Fails where a path is declared twice, with the first path
    /// that repeats an earlier one.
    pub fn build(project: &ProjectConfig) -> (r: Result<Self, ModuleTreeError>)
        ensures
            r is Ok <==> unique_paths(project.deep_view().all_modules()),
            r matches Ok(tree) ==> tree.modules() == project.deep_view().all_modules(),
            r matches Err(error) ==> error matches ModuleTreeError::DuplicateModule(path)
                && exists|at: int|
                first_repeat(project.deep_view().all_modules(), at) && path@
                    == #[trigger] project.deep_view().all_modules()[at].path,
    {
        let all = project.all_modules();
        let ghost views = all.deep_view();
        let mut nodes: Vec<ModuleNode> = Vec::new();
        let mut i: usize = 0;
        assert(nodes.deep_view() =~= views.subrange(0, 0));
        while i < all.len()
            invariant
                i <= all.len(),
                views == all.deep_view(),
                views == project.deep_view().all_modules(),
                nodes.deep_view() == views.subrange(0, i as int),
                unique_paths(views.subrange(0, i as int)),
            decreases all.len() - i,
        {
            let ghost done = views.subrange(0, i as int);
            let mut k: usize = 0;
            while k < nodes.len()
                invariant
                    k <= nodes.len(),
                    i < all.len(),
                    views == all.deep_view(),
                    views == project.deep_view().all_modules(),
                    done == views.subrange(0, i as int),
                    unique_paths(done),
                    nodes.deep_view() == done,
                    forall|j: int| 0 <= j < k ==> (#[trigger] done[j]).path != views[i as int].path,
                decreases nodes.len() - k,
            {
                if same_text(nodes[k].config.path.as_str(), all[i].path.as_str()) {
                    proof {
                        assert(done[k as int].path == views[i as int].path);
                        assert(first_repeat(views, i as int));
                        assert(!unique_paths(views)) by {
                            assert(views[k as int].path == views[i as int].path);
                        }
                    }
                    return Err(ModuleTreeError::DuplicateModule(all[i].path.clone()));
                }
                k += 1;
            }
            let ghost shorter = nodes;
            nodes.push(ModuleNode { config: all[i].clone() });
            proof {
                assert(nodes@.drop_last() =~= shorter@);
                lemma_deep_view_push(shorter, nodes);
                let next = views.subrange(0, i + 1);
                assert(nodes.deep_view() =~= next);
                assert forall|a: int, b: int| 0 <= a < b < next.len() implies (#[trigger] next[a]).path
                    != (#[trigger] next[b]).path by {
                    if b < i {
                        assert(done[a].path != done[b].path);
                    } else {
                        assert(done[a].path != views[i as int].path);
                    }
                }
            }
            i += 1;
        }
        assert(views.subrange(0, all.len() as int) =~= views);
        Ok(ModuleTree { nodes })
    }

    /// The place of the module that owns `path`.
    fn nearest_index(&self, path: &str) -> (r: Option<usize>)
        ensures
            r matches Some(i) ==> i < self.nodes.len(),
            owns(
                self.nodes.deep_view(),
                path@,
                match r {
                    Some(i) => Some(self.nodes.deep_view()[i as int]),
                    None => None,
                },
            ),
    {
        let ghost modules = self.nodes.deep_view();
        let mut best: Option<usize> = None;
        let mut best_len: usize = 0;
        let mut root: Option<usize> = None;
        let mut i: usize = 0;
        while i < self.nodes.len()
            invariant
                i <= self.nodes.len(),
                modules == self.nodes.deep_view(),
                match best {
                    Some(b) => b < i && is_declared_ancestor(modules[b as int], path@) && best_len
                        == modules[b as int].path.len() && forall|j: int|
                        0 <= j < i && is_declared_ancestor(#[trigger] modules[j], path@)
                            ==> modules[j].path.len() <= best_len,
                    None => forall|j: int|
                        0 <= j < i ==> !is_declared_ancestor(#[trigger] modules[j], path@),
                },
                match root {
                    Some(r) => r < i && modules[r as int].path == root_path(),
                    None => forall|j: int| 0 <= j < i ==> (#[trigger] modules[j]).path != root_path(),
                },
            decreases self.nodes.len() - i,
        {
            let node = &self.nodes[i];
            assert(node.deep_view() == modules[i as int]);
            if node.is_root() {
                root = Some(i);
            } else if is_ancestor(node.path(), path) {
                let len = node.path().unicode_len();
                if best.is_none() || len > best_len {
                    best = Some(i);
                    best_len = len;
                }
            }
            i += 1;
        }
        proof {
            if best is Some {
                assert(is_declared_ancestor(modules[best->0 as int], path@));
            }
            if root is Some {
                assert(modules[root->0 as int].path == root_path());
            }
        }
        match best {
            Some(b) => Some(b),
            None => root,
        }
    }

    /// The module that owns `path`: the declared module at `path` or at the
    /// nearest package that encloses it; the root module where there is
    /// none; `None` where there is no root module either.
    pub fn find_nearest(&self, path: &str) -> (r: Option<&ModuleNode>)
        ensures
            owns(self.modules(), path@, r.deep_view()),
            unique_paths(self.modules()),
    {
        proof {
            use_type_invariant(self);
        }
        match self.nearest_index(path) {
            Some(i) => Some(&self.nodes[i]),
            None => None,
        }
    }

    /// The module declared at `path`.
    pub fn get(&self, path: &str) -> (r: Option<&ModuleNode>)
        ensures
            r is Some <==> declares(self.modules(), path@),
            r matches Some(node) ==> self.modules().contains(node.deep_view())
                && node.deep_view().path == path@,
    {
        let mut i: usize = 0;
        while i < self.nodes.len()
            invariant
                i <= self.nodes.len(),
                forall|j: int| 0 <= j < i ==> (#[trigger] self.nodes.deep_view()[j]).path != path@,
            decreases self.nodes.len() - i,
        {
            if same_text(self.nodes[i].config.path.as_str(), path) {
                assert(self.nodes.deep_view()[i as int].path == path@);
                return Some(&self.nodes[i]);
            }
            i += 1;
        }
        None
    }
}

} // verus!
