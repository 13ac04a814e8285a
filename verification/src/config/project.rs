//! The project's configuration: what is declared, and how it is read.

use super::domain::{clone_edits, DomainView, LocatedDomainConfig};
use super::edit::ConfigEdit;
use super::modules::{
    clone_dependencies, clone_interfaces, clone_modules, clone_texts, lemma_deep_view_push,
    DependencyConfig, DependencyView, InterfaceConfig, InterfaceView, ModuleConfig, ModuleView,
};
use crate::paths::same_text;
use vstd::prelude::*;

verus! {

/// How the module that stands for the project's root is treated.
#[derive(Debug, Clone, Copy, PartialEq, Eq, Structural)]
pub enum RootModuleTreatment {
    Allow,
    Forbid,
    Ignore,
    DependenciesOnly,
}

/// Settings of the plugin that reads a web framework's model references.
#[derive(Debug)]
pub struct DjangoConfig {
    pub settings_module: String,
}

impl Clone for DjangoConfig {
    fn clone(&self) -> (r: Self)
        ensures
            r == *self,
    {
        DjangoConfig { settings_module: self.settings_module.clone() }
    }
}

/// The modules that differ between two configurations, with the
/// dependencies that only the second one declares.
#[derive(Debug)]
pub struct UnusedDependencies {
    pub path: String,
    pub dependencies: Vec<DependencyConfig>,
}

pub struct UnusedView {
    pub path: Seq<char>,
    pub dependencies: Seq<DependencyView>,
}

impl DeepView for UnusedDependencies {
    type V = UnusedView;

    open spec fn deep_view(&self) -> UnusedView {
        UnusedView { path: self.path@, dependencies: self.dependencies.deep_view() }
    }
}

impl Clone for UnusedDependencies {
    fn clone(&self) -> (r: Self)
        ensures
            r.deep_view() == self.deep_view(),
    {
        UnusedDependencies {
            path: self.path.clone(),
            dependencies: clone_dependencies(&self.dependencies),
        }
    }
}

impl Default for UnusedDependencies {
    fn default() -> (r: Self)
        ensures
            r.deep_view() == (UnusedView { path: Seq::empty(), dependencies: Seq::empty() }),
    {
        let r = UnusedDependencies { path: String::new(), dependencies: Vec::new() };
        assert(r.dependencies.deep_view() =~= Seq::empty());
        r
    }
}

/// The project's configuration.
#[derive(Debug)]
pub struct ProjectConfig {
    pub modules: Vec<ModuleConfig>,
    pub interfaces: Vec<InterfaceConfig>,
    pub layers: Vec<String>,
    pub exclude: Vec<String>,
    pub source_roots: Vec<String>,
    pub exact: bool,
    pub disable_logging: bool,
    pub ignore_type_checking_imports: bool,
    pub include_string_imports: bool,
    pub forbid_circular_dependencies: bool,
    pub use_regex_matching: bool,
    pub root_module: RootModuleTreatment,
    pub django: Option<DjangoConfig>,
    pub domains: Vec<LocatedDomainConfig>,
    /// Edits that were accepted and not yet saved.
    pub pending_edits: Vec<ConfigEdit>,
    /// Where the project's document lies; `None` where it is not on disk.
    pub location: Option<String>,
}

pub struct ProjectView {
    pub modules: Seq<ModuleView>,
    pub interfaces: Seq<InterfaceView>,
    pub layers: Seq<Seq<char>>,
    pub exclude: Seq<Seq<char>>,
    pub source_roots: Seq<Seq<char>>,
    pub exact: bool,
    pub disable_logging: bool,
    pub ignore_type_checking_imports: bool,
    pub include_string_imports: bool,
    pub forbid_circular_dependencies: bool,
    pub use_regex_matching: bool,
    pub root_module: RootModuleTreatment,
    pub django: Option<DjangoConfig>,
    pub domains: Seq<DomainView>,
    pub pending_edits: Seq<ConfigEdit>,
    pub location: Option<Seq<char>>,
}

impl DeepView for ProjectConfig {
    type V = ProjectView;

    open spec fn deep_view(&self) -> ProjectView {
        ProjectView {
            modules: self.modules.deep_view(),
            interfaces: self.interfaces.deep_view(),
            layers: self.layers.deep_view(),
            exclude: self.exclude.deep_view(),
            source_roots: self.source_roots.deep_view(),
            exact: self.exact,
            disable_logging: self.disable_logging,
            ignore_type_checking_imports: self.ignore_type_checking_imports,
            include_string_imports: self.include_string_imports,
            forbid_circular_dependencies: self.forbid_circular_dependencies,
            use_regex_matching: self.use_regex_matching,
            root_module: self.root_module,
            django: self.django,
            domains: self.domains.deep_view(),
            pending_edits: self.pending_edits@,
            location: self.location.deep_view(),
        }
    }
}

/// The modules of `domains`, domain by domain.
pub open spec fn domain_modules(domains: Seq<DomainView>) -> Seq<ModuleView>
    decreases domains.len(),
{
    if domains.len() == 0 {
        Seq::empty()
    } else {
        domain_modules(domains.drop_last()) + domains.last().modules
    }
}

/// The interfaces of `domains`, domain by domain.
pub open spec fn domain_interfaces(domains: Seq<DomainView>) -> Seq<InterfaceView>
    decreases domains.len(),
{
    if domains.len() == 0 {
        Seq::empty()
    } else {
        domain_interfaces(domains.drop_last()) + domains.last().interfaces
    }
}

/// What the first module of `modules` at `path` declares as its
/// dependencies; `None` where there is no such module or it declares no list.
pub open spec fn dependencies_of(modules: Seq<ModuleView>, path: Seq<char>) -> Option<
    Seq<DependencyView>,
>
    decreases modules.len(),
{
    if modules.len() == 0 {
        None
    } else if modules[0].path == path {
        modules[0].depends_on
    } else {
        dependencies_of(modules.drop_first(), path)
    }
}

/// The paths of `modules`, in order.
pub open spec fn paths_of(modules: Seq<ModuleView>) -> Seq<Seq<char>> {
    modules.map_values(|module: ModuleView| module.path)
}

/// The modules of `modules` that are utilities, in order.
pub open spec fn utilities_of(modules: Seq<ModuleView>) -> Seq<ModuleView> {
    modules.filter(|module: ModuleView| module.utility)
}

impl ProjectView {
    /// The configuration before anything is declared: the usual directories
    /// are excluded, the project's own directory is the one source root, and
    /// imports made for type checking alone are left out.
    pub open spec fn initial() -> ProjectView {
        ProjectView {
            modules: Seq::empty(),
            interfaces: Seq::empty(),
            layers: Seq::empty(),
            exclude: seq![
                "**/tests"@,
                "**/docs"@,
                "**/*__pycache__"@,
                "**/*egg-info"@,
                "**/venv"@,
            ],
            source_roots: seq!["."@],
            exact: false,
            disable_logging: false,
            ignore_type_checking_imports: true,
            include_string_imports: false,
            forbid_circular_dependencies: false,
            use_regex_matching: false,
            root_module: RootModuleTreatment::Allow,
            django: None,
            domains: Seq::empty(),
            pending_edits: Seq::empty(),
            location: None,
        }
    }

    /// Every declared module: those of the project first, then each
    /// domain's.
    pub open spec fn all_modules(self) -> Seq<ModuleView> {
        self.modules + domain_modules(self.domains)
    }

    /// Every declared interface: those of the project first, then each
    /// domain's.
    pub open spec fn all_interfaces(self) -> Seq<InterfaceView> {
        self.interfaces + domain_interfaces(self.domains)
    }
}

/// The source roots of a project that names none.
pub fn default_source_roots() -> (r: Vec<String>)
    ensures
        r.deep_view() == seq!["."@],
{
    let mut r: Vec<String> = Vec::new();
    r.push(".".to_owned());
    assert(r.deep_view() =~= seq!["."@]);
    r
}

/// The patterns that a project excludes where it names none.
pub fn default_excludes() -> (r: Vec<String>)
    ensures
        r.deep_view() == ProjectView::initial().exclude,
{
    let mut r: Vec<String> = Vec::new();
    r.push("**/tests".to_owned());
    r.push("**/docs".to_owned());
    r.push("**/*__pycache__".to_owned());
    r.push("**/*egg-info".to_owned());
    r.push("**/venv".to_owned());
    assert(r.deep_view() =~= ProjectView::initial().exclude);
    r
}

impl Default for ProjectConfig {
    fn default() -> (r: Self)
        ensures
            r.deep_view() == ProjectView::initial(),
    {
        let r = ProjectConfig {
            modules: Vec::new(),
            interfaces: Vec::new(),
            layers: Vec::new(),
            exclude: default_excludes(),
            source_roots: default_source_roots(),
            exact: false,
            disable_logging: false,
            ignore_type_checking_imports: true,
            include_string_imports: false,
            forbid_circular_dependencies: false,
            use_regex_matching: false,
            root_module: RootModuleTreatment::Allow,
            django: None,
            domains: Vec::new(),
            pending_edits: Vec::new(),
            location: None,
        };
        assert(r.modules.deep_view() =~= Seq::empty());
        assert(r.interfaces.deep_view() =~= Seq::empty());
        assert(r.layers.deep_view() =~= Seq::empty());
        assert(r.domains.deep_view() =~= Seq::empty());
        assert(r.pending_edits@ =~= Seq::empty());
        r
    }
}

/// A copy of `domains`.
pub fn clone_domains(domains: &Vec<LocatedDomainConfig>) -> (r: Vec<LocatedDomainConfig>)
    ensures
        r.deep_view() == domains.deep_view(),
{
    let mut out: Vec<LocatedDomainConfig> = Vec::new();
    let mut i: usize = 0;
    while i < domains.len()
        invariant
            i <= domains.len(),
            out.deep_view() == domains.deep_view().subrange(0, i as int),
        decreases domains.len() - i,
    {
        let ghost before = out;
        out.push(domains[i].clone());
        proof {
            assert(out@.drop_last() =~= before@);
            lemma_deep_view_push(before, out);
            assert(out.deep_view() =~= domains.deep_view().subrange(0, i + 1));
        }
        i += 1;
    }
    assert(out.deep_view() =~= domains.deep_view());
    out
}

impl Clone for ProjectConfig {
    fn clone(&self) -> (r: Self)
        ensures
            r.deep_view() == self.deep_view(),
    {
        ProjectConfig {
            modules: clone_modules(&self.modules),
            interfaces: clone_interfaces(&self.interfaces),
            layers: clone_texts(&self.layers),
            exclude: clone_texts(&self.exclude),
            source_roots: clone_texts(&self.source_roots),
            exact: self.exact,
            disable_logging: self.disable_logging,
            ignore_type_checking_imports: self.ignore_type_checking_imports,
            include_string_imports: self.include_string_imports,
            forbid_circular_dependencies: self.forbid_circular_dependencies,
            use_regex_matching: self.use_regex_matching,
            root_module: self.root_module,
            django: match &self.django {
                Some(django) => Some(django.clone()),
                None => None,
            },
            domains: clone_domains(&self.domains),
            pending_edits: clone_edits(&self.pending_edits),
            location: match &self.location {
                Some(location) => Some(location.clone()),
                None => None,
            },
        }
    }
}

impl ProjectConfig {
    /// The configuration before anything is declared.
    pub fn new() -> (r: Self)
        ensures
            r.deep_view() == ProjectView::initial(),
    {
        Default::default()
    }

    /// Records where the project's document lies.
    pub fn set_location(&mut self, location: String)
        ensures
            final(self).deep_view() == (ProjectView {
                location: Some(location@),
                ..old(self).deep_view()
            }),
    {
        self.location = Some(location);
    }

    /// Adds `domain` after the domains that are there.
    pub fn add_domain(&mut self, domain: LocatedDomainConfig)
        ensures
            final(self).deep_view() == (ProjectView {
                domains: old(self).deep_view().domains.push(domain.deep_view()),
                ..old(self).deep_view()
            }),
    {
        let ghost before = self.domains;
        self.domains.push(domain);
        proof {
            assert(self.domains@.drop_last() =~= before@);
            lemma_deep_view_push(before, self.domains);
        }
    }

    /// Whether edits of the project's own document wait to be saved.
    pub fn has_edits(&self) -> (r: bool)
        ensures
            r == (self.deep_view().pending_edits.len() > 0),
    {
        self.pending_edits.len() > 0
    }

    /// This configuration with `modules` in place of its own.
    pub fn with_modules(&self, modules: Vec<ModuleConfig>) -> (r: Self)
        ensures
            r.deep_view() == (ProjectView { modules: modules.deep_view(), ..self.deep_view() }),
    {
        let mut r = self.clone();
        r.modules = modules;
        r
    }

    /// Every declared module: those of the project first, then each
    /// domain's, in the order of the domains.
    pub fn all_modules(&self) -> (r: Vec<&ModuleConfig>)
        ensures
            r.deep_view() == self.deep_view().all_modules(),
    {
        let mut out: Vec<&ModuleConfig> = Vec::new();
        let mut i: usize = 0;
        while i < self.modules.len()
            invariant
                i <= self.modules.len(),
                out.deep_view() == self.modules.deep_view().subrange(0, i as int),
            decreases self.modules.len() - i,
        {
            let ghost before = out;
            out.push(&self.modules[i]);
            proof {
                assert(out@.drop_last() =~= before@);
                lemma_deep_view_push(before, out);
                assert(out.deep_view() =~= self.modules.deep_view().subrange(0, i + 1));
            }
            i += 1;
        }
        assert(self.modules.deep_view().subrange(0, self.modules.len() as int)
            =~= self.modules.deep_view());
        let ghost domains = self.domains.deep_view();
        assert(domain_modules(domains.subrange(0, 0)) =~= Seq::empty());
        assert(out.deep_view() =~= self.modules.deep_view() + Seq::empty());
        let mut d: usize = 0;
        while d < self.domains.len()
            invariant
                d <= self.domains.len(),
                domains == self.domains.deep_view(),
                out.deep_view() == self.modules.deep_view() + domain_modules(
                    domains.subrange(0, d as int),
                ),
            decreases self.domains.len() - d,
        {
            let contributed = self.domains[d].modules();
            let ghost at_domain = out.deep_view();
            let mut k: usize = 0;
            while k < contributed.len()
                invariant
                    k <= contributed.len(),
                    out.deep_view() == at_domain + contributed.deep_view().subrange(0, k as int),
                decreases contributed.len() - k,
            {
                let ghost before = out;
                out.push(&contributed[k]);
                proof {
                    assert(out@.drop_last() =~= before@);
                    lemma_deep_view_push(before, out);
                    assert(out.deep_view() =~= at_domain + contributed.deep_view().subrange(
                        0,
                        k + 1,
                    ));
                }
                k += 1;
            }
            proof {
                assert(contributed.deep_view().subrange(0, contributed.len() as int)
                    =~= contributed.deep_view());
                let upto = domains.subrange(0, d + 1);
                assert(upto.drop_last() =~= domains.subrange(0, d as int));
                assert(upto.last().modules == contributed.deep_view());
                assert(out.deep_view() =~= self.modules.deep_view() + domain_modules(upto));
            }
            d += 1;
        }
        assert(domains.subrange(0, self.domains.len() as int) =~= domains);
        out
    }

    /// Every declared interface: those of the project first, then each
    /// domain's, in the order of the domains.
    pub fn all_interfaces(&self) -> (r: Vec<&InterfaceConfig>)
        ensures
            r.deep_view() == self.deep_view().all_interfaces(),
    {
        let mut out: Vec<&InterfaceConfig> = Vec::new();
        let mut i: usize = 0;
        while i < self.interfaces.len()
            invariant
                i <= self.interfaces.len(),
                out.deep_view() == self.interfaces.deep_view().subrange(0, i as int),
            decreases self.interfaces.len() - i,
        {
            let ghost before = out;
            out.push(&self.interfaces[i]);
            proof {
                assert(out@.drop_last() =~= before@);
                lemma_deep_view_push(before, out);
                assert(out.deep_view() =~= self.interfaces.deep_view().subrange(0, i + 1));
            }
            i += 1;
        }
        assert(self.interfaces.deep_view().subrange(0, self.interfaces.len() as int)
            =~= self.interfaces.deep_view());
        let ghost domains = self.domains.deep_view();
        assert(domain_interfaces(domains.subrange(0, 0)) =~= Seq::empty());
        assert(out.deep_view() =~= self.interfaces.deep_view() + Seq::empty());
        let mut d: usize = 0;
        while d < self.domains.len()
            invariant
                d <= self.domains.len(),
                domains == self.domains.deep_view(),
                out.deep_view() == self.interfaces.deep_view() + domain_interfaces(
                    domains.subrange(0, d as int),
                ),
            decreases self.domains.len() - d,
        {
            let contributed = self.domains[d].interfaces();
            let ghost at_domain = out.deep_view();
            let mut k: usize = 0;
            while k < contributed.len()
                invariant
                    k <= contributed.len(),
                    out.deep_view() == at_domain + contributed.deep_view().subrange(0, k as int),
                decreases contributed.len() - k,
            {
                let ghost before = out;
                out.push(&contributed[k]);
                proof {
                    assert(out@.drop_last() =~= before@);
                    lemma_deep_view_push(before, out);
                    assert(out.deep_view() =~= at_domain + contributed.deep_view().subrange(
                        0,
                        k + 1,
                    ));
                }
                k += 1;
            }
            proof {
                assert(contributed.deep_view().subrange(0, contributed.len() as int)
                    =~= contributed.deep_view());
                let upto = domains.subrange(0, d + 1);
                assert(upto.drop_last() =~= domains.subrange(0, d as int));
                assert(upto.last().interfaces == contributed.deep_view());
                assert(out.deep_view() =~= self.interfaces.deep_view() + domain_interfaces(
                    upto,
                ));
            }
            d += 1;
        }
        assert(domains.subrange(0, self.domains.len() as int) =~= domains);
        out
    }

    /// What the first declared module at `module` lists as its dependencies.
    pub fn dependencies_for_module(&self, module: &str) -> (r: Option<&Vec<DependencyConfig>>)
        ensures
            r.deep_view() == dependencies_of(self.deep_view().all_modules(), module@),
    {
        let all = self.all_modules();
        let ghost views = all.deep_view();
        let mut i: usize = 0;
        assert(views.subrange(0, views.len() as int) =~= views);
        while i < all.len()
            invariant
                i <= all.len(),
                views == all.deep_view(),
                views == self.deep_view().all_modules(),
                dependencies_of(views, module@) == dependencies_of(
                    views.subrange(i as int, views.len() as int),
                    module@,
                ),
            decreases all.len() - i,
        {
            let ghost rest = views.subrange(i as int, views.len() as int);
            assert(rest[0] == views[i as int]);
            if same_text(all[i].path.as_str(), module) {
                let found = all[i].depends_on.as_ref();
                assert(found.deep_view() == views[i as int].depends_on);
                assert(rest[0].path == module@);
                assert(dependencies_of(rest, module@) == rest[0].depends_on);
                return found;
            }
            assert(rest.drop_first() =~= views.subrange(i + 1, views.len() as int));
            i += 1;
        }
        None
    }

    /// The paths of every declared module, in the order of `all_modules`.
    pub fn module_paths(&self) -> (r: Vec<String>)
        ensures
            r.deep_view() == paths_of(self.deep_view().all_modules()),
    {
        let all = self.all_modules();
        let mut out: Vec<String> = Vec::new();
        let mut i: usize = 0;
        while i < all.len()
            invariant
                i <= all.len(),
                out.deep_view() == paths_of(all.deep_view()).subrange(0, i as int),
            decreases all.len() - i,
        {
            let ghost before = out;
            out.push(all[i].path.clone());
            proof {
                assert(out@.drop_last() =~= before@);
                lemma_deep_view_push(before, out);
                assert(out.deep_view() =~= paths_of(all.deep_view()).subrange(0, i + 1));
            }
            i += 1;
        }
        assert(out.deep_view() =~= paths_of(all.deep_view()));
        out
    }

    /// The paths of the declared modules that are utilities, in the order of
    /// `all_modules`.
    pub fn utility_paths(&self) -> (r: Vec<String>)
        ensures
            r.deep_view() == paths_of(utilities_of(self.deep_view().all_modules())),
    {
        let all = self.all_modules();
        let ghost views = all.deep_view();
        let mut out: Vec<String> = Vec::new();
        let mut i: usize = 0;
        proof {
            assert(views.subrange(0, 0) =~= Seq::empty());
            crate::seqs::lemma_filter_empty(|module: ModuleView| module.utility);
        }
        while i < all.len()
            invariant
                i <= all.len(),
                views == all.deep_view(),
                out.deep_view() == paths_of(utilities_of(views.subrange(0, i as int))),
            decreases all.len() - i,
        {
            proof {
                let done = views.subrange(0, i as int);
                let next = views.subrange(0, i + 1);
                assert(next =~= done.push(views[i as int]));
                lemma_utilities_push(done, views[i as int]);
            }
            if all[i].utility {
                let ghost before = out;
                out.push(all[i].path.clone());
                proof {
                    assert(out@.drop_last() =~= before@);
                    lemma_deep_view_push(before, out);
                    assert(out.deep_view() =~= paths_of(
                        utilities_of(views.subrange(0, i + 1)),
                    ));
                }
            }
            i += 1;
        }
        assert(views.subrange(0, all.len() as int) =~= views);
        out
    }
}

/// The utilities of a sequence that grew by one module.
pub proof fn lemma_utilities_push(modules: Seq<ModuleView>, module: ModuleView)
    ensures
        utilities_of(modules.push(module)) == if module.utility {
            utilities_of(modules).push(module)
        } else {
            utilities_of(modules)
        },
{
    crate::seqs::lemma_filter_push(modules, module, |module: ModuleView| module.utility);
}

} // verus!
