//! Declared modules and interfaces, as the policy holds them.

use vstd::prelude::*;

verus! {

/// The path of the module that stands for the project's root.
pub open spec fn root_path() -> Seq<char> {
    "<root>"@
}

/// One edge of a module's policy: a module that it may depend on.
#[derive(Debug)]
pub struct DependencyConfig {
    pub path: String,
    pub deprecated: bool,
}

pub struct DependencyView {
    pub path: Seq<char>,
    pub deprecated: bool,
}

impl DeepView for DependencyConfig {
    type V = DependencyView;

    open spec fn deep_view(&self) -> DependencyView {
        DependencyView { path: self.path@, deprecated: self.deprecated }
    }
}

impl Clone for DependencyConfig {
    fn clone(&self) -> (r: Self)
        ensures
            r == *self,
    {
        DependencyConfig { path: self.path.clone(), deprecated: self.deprecated }
    }
}

impl DependencyConfig {
    /// A dependency on `path` that is not deprecated.
    pub fn new(path: &str) -> (r: Self)
        ensures
            r.deep_view() == (DependencyView { path: path@, deprecated: false }),
    {
        DependencyConfig { path: path.to_owned(), deprecated: false }
    }
}

/// A declared module. `depends_on` is `None` where the module declares no
/// list at all, which is not the same as an empty list.
#[derive(Debug)]
pub struct ModuleConfig {
    pub path: String,
    pub depends_on: Option<Vec<DependencyConfig>>,
    pub utility: bool,
    pub unchecked: bool,
}

pub struct ModuleView {
    pub path: Seq<char>,
    pub depends_on: Option<Seq<DependencyView>>,
    pub utility: bool,
    pub unchecked: bool,
}

impl DeepView for ModuleConfig {
    type V = ModuleView;

    open spec fn deep_view(&self) -> ModuleView {
        ModuleView {
            path: self.path@,
            depends_on: self.depends_on.deep_view(),
            utility: self.utility,
            unchecked: self.unchecked,
        }
    }
}

/// The deep view of a vector that grew by one element.
pub proof fn lemma_deep_view_push<T: DeepView>(before: Vec<T>, after: Vec<T>)
    requires
        after@.len() > 0,
        after@.drop_last() == before@,
    ensures
        after.deep_view() == before.deep_view().push(after@.last().deep_view()),
{
    assert forall|i: int| 0 <= i < before@.len() implies after@[i] == before@[i] by {
        assert(after@.drop_last()[i] == before@[i]);
    }
    assert(after.deep_view() =~= before.deep_view().push(after@.last().deep_view()));
}

/// A copy of `dependencies`.
pub fn clone_dependencies(dependencies: &Vec<DependencyConfig>) -> (r: Vec<DependencyConfig>)
    ensures
        r@ == dependencies@,
        r.deep_view() == dependencies.deep_view(),
{
    let mut out: Vec<DependencyConfig> = Vec::new();
    let mut i: usize = 0;
    while i < dependencies.len()
        invariant
            i <= dependencies.len(),
            out@ == dependencies@.subrange(0, i as int),
        decreases dependencies.len() - i,
    {
        out.push(dependencies[i].clone());
        assert(out@ =~= dependencies@.subrange(0, i + 1));
        i += 1;
    }
    assert(out@ =~= dependencies@);
    assert(out.deep_view() =~= dependencies.deep_view());
    out
}

impl Clone for ModuleConfig {
    fn clone(&self) -> (r: Self)
        ensures
            r.deep_view() == self.deep_view(),
    {
        let depends_on = match &self.depends_on {
            Some(dependencies) => Some(clone_dependencies(dependencies)),
            None => None,
        };
        ModuleConfig {
            path: self.path.clone(),
            depends_on,
            utility: self.utility,
            unchecked: self.unchecked,
        }
    }
}

impl ModuleConfig {
    /// A module at `path` that declares no dependency list, is no utility and
    /// is checked.
    pub open spec fn bare(path: Seq<char>) -> ModuleView {
        ModuleView { path, depends_on: None, utility: false, unchecked: false }
    }

    /// A module at `path` with nothing else declared.
    pub fn new(path: &str) -> (r: Self)
        ensures
            r.deep_view() == Self::bare(path@),
    {
        ModuleConfig { path: path.to_owned(), depends_on: None, utility: false, unchecked: false }
    }
}

/// What a set of modules exposes to the others.
#[derive(Debug)]
pub struct InterfaceConfig {
    pub expose: Vec<String>,
    pub from_modules: Vec<String>,
}

pub struct InterfaceView {
    pub expose: Seq<Seq<char>>,
    pub from_modules: Seq<Seq<char>>,
}

impl DeepView for InterfaceConfig {
    type V = InterfaceView;

    open spec fn deep_view(&self) -> InterfaceView {
        InterfaceView {
            expose: self.expose.deep_view(),
            from_modules: self.from_modules.deep_view(),
        }
    }
}

/// A copy of `texts`.
pub fn clone_texts(texts: &Vec<String>) -> (r: Vec<String>)
    ensures
        r@ == texts@,
        r.deep_view() == texts.deep_view(),
{
    let mut out: Vec<String> = Vec::new();
    let mut i: usize = 0;
    while i < texts.len()
        invariant
            i <= texts.len(),
            out@ == texts@.subrange(0, i as int),
        decreases texts.len() - i,
    {
        out.push(texts[i].clone());
        assert(out@ =~= texts@.subrange(0, i + 1));
        i += 1;
    }
    assert(out@ =~= texts@);
    assert(out.deep_view() =~= texts.deep_view());
    out
}

impl Clone for InterfaceConfig {
    fn clone(&self) -> (r: Self)
        ensures
            r.deep_view() == self.deep_view(),
    {
        InterfaceConfig {
            expose: clone_texts(&self.expose),
            from_modules: clone_texts(&self.from_modules),
        }
    }
}

/// A copy of `modules`.
pub fn clone_modules(modules: &Vec<ModuleConfig>) -> (r: Vec<ModuleConfig>)
    ensures
        r.deep_view() == modules.deep_view(),
{
    let mut out: Vec<ModuleConfig> = Vec::new();
    let mut i: usize = 0;
    while i < modules.len()
        invariant
            i <= modules.len(),
            out.deep_view() == modules.deep_view().subrange(0, i as int),
        decreases modules.len() - i,
    {
        let ghost before = out;
        out.push(modules[i].clone());
        proof {
            assert(out@.drop_last() =~= before@);
            lemma_deep_view_push(before, out);
            assert(out.deep_view() =~= modules.deep_view().subrange(0, i + 1));
        }
        i += 1;
    }
    assert(out.deep_view() =~= modules.deep_view());
    out
}

/// A copy of `interfaces`.
pub fn clone_interfaces(interfaces: &Vec<InterfaceConfig>) -> (r: Vec<InterfaceConfig>)
    ensures
        r.deep_view() == interfaces.deep_view(),
{
    let mut out: Vec<InterfaceConfig> = Vec::new();
    let mut i: usize = 0;
    while i < interfaces.len()
        invariant
            i <= interfaces.len(),
            out.deep_view() == interfaces.deep_view().subrange(0, i as int),
        decreases interfaces.len() - i,
    {
        let ghost before = out;
        out.push(interfaces[i].clone());
        proof {
            assert(out@.drop_last() =~= before@);
            lemma_deep_view_push(before, out);
            assert(out.deep_view() =~= interfaces.deep_view().subrange(0, i + 1));
        }
        i += 1;
    }
    assert(out.deep_view() =~= interfaces.deep_view());
    out
}

/// Whether some module of `modules` is declared at `path`.
pub open spec fn declares(modules: Seq<ModuleView>, path: Seq<char>) -> bool {
    exists|i: int| 0 <= i < modules.len() && #[trigger] modules[i].path == path
}

/// The place of the first module of `modules` declared at `path`.
pub fn find_module(modules: &Vec<ModuleConfig>, path: &str) -> (r: Option<usize>)
    ensures
        r is Some <==> declares(modules.deep_view(), path@),
        r matches Some(i) ==> {
            &&& i < modules.len()
            &&& modules.deep_view()[i as int].path == path@
            &&& forall|j: int| 0 <= j < i ==> #[trigger] modules.deep_view()[j].path != path@
        },
{
    let mut i: usize = 0;
    while i < modules.len()
        invariant
            i <= modules.len(),
            forall|j: int| 0 <= j < i ==> #[trigger] modules.deep_view()[j].path != path@,
        decreases modules.len() - i,
    {
        if crate::paths::same_text(modules[i].path.as_str(), path) {
            assert(modules.deep_view()[i as int].path == path@);
            return Some(i);
        }
        i += 1;
    }
    None
}

} // verus!
