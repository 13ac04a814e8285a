//! What a file depends on: its imports and the references that a framework
//! plugin finds, sorted into those within the project and those outside.
//!
//! Whether an imported module lies under a source root is a question to the
//! file system, which the caller answers: each import comes with the answer,
//! as a `ResolvedImport`.

use crate::config::modules::{lemma_deep_view_push, root_path, ModuleView};
use crate::config::project::{DjangoConfig, ProjectConfig, RootModuleTreatment};
use crate::directives::{without_line, DirectiveView, IgnoreDirectives};
use crate::imports::{NormalizedImport, NormalizedView};
use crate::lines::{bytes_of, line_number_at, SourceLines};
use crate::scan::{directives_of, get_ignore_directives};
use crate::seqs::{lemma_filter_empty, lemma_filter_push};
use crate::tree::{owns, ModuleNode, ModuleTree, ModuleTreeError};
use vstd::prelude::*;

verus! {

/// A reference to a module that is written as text, such as a model's
/// foreign key.
#[derive(Debug)]
pub struct SourceCodeReference {
    pub mod_path: String,
    pub offset: u32,
}

pub struct ReferenceView {
    pub mod_path: Seq<char>,
    pub offset: u32,
}

impl DeepView for SourceCodeReference {
    type V = ReferenceView;

    open spec fn deep_view(&self) -> ReferenceView {
        ReferenceView { mod_path: self.mod_path@, offset: self.offset }
    }
}

impl Clone for SourceCodeReference {
    fn clone(&self) -> (r: Self)
        ensures
            r == *self,
    {
        SourceCodeReference { mod_path: self.mod_path.clone(), offset: self.offset }
    }
}

/// One thing that a file depends on.
#[derive(Debug)]
pub enum Dependency {
    Import(NormalizedImport),
    Reference(SourceCodeReference),
}

pub enum FactView {
    Import(NormalizedView),
    Reference(ReferenceView),
}

impl DeepView for Dependency {
    type V = FactView;

    open spec fn deep_view(&self) -> FactView {
        match self {
            Dependency::Import(import) => FactView::Import(import.deep_view()),
            Dependency::Reference(reference) => FactView::Reference(reference.deep_view()),
        }
    }
}

impl FactView {
    /// The module that is depended on.
    pub open spec fn mod_path(self) -> Seq<char> {
        match self {
            FactView::Import(import) => import.mod_path,
            FactView::Reference(reference) => reference.mod_path,
        }
    }

    /// Where the dependency stands: an import at the name that it binds.
    pub open spec fn offset(self) -> u32 {
        match self {
            FactView::Import(import) => import.alias_offset,
            FactView::Reference(reference) => reference.offset,
        }
    }
}

impl Dependency {
    /// The module that is depended on.
    pub fn mod_path(&self) -> (r: &str)
        ensures
            r@ == self.deep_view().mod_path(),
    {
        match self {
            Dependency::Import(import) => import.mod_path.as_str(),
            Dependency::Reference(reference) => reference.mod_path.as_str(),
        }
    }

    /// Where the dependency stands: an import at the name that it binds.
    pub fn offset(&self) -> (r: u32)
        ensures
            r == self.deep_view().offset(),
    {
        match self {
            Dependency::Import(import) => import.alias_offset,
            Dependency::Reference(reference) => reference.offset,
        }
    }
}

impl From<NormalizedImport> for Dependency {
    fn from(normalized_import: NormalizedImport) -> (r: Self) {
        Dependency::Import(normalized_import)
    }
}

impl vstd::std_specs::convert::FromSpecImpl<NormalizedImport> for Dependency {
    open spec fn obeys_from_spec() -> bool {
        true
    }

    open spec fn from_spec(normalized_import: NormalizedImport) -> Self {
        Dependency::Import(normalized_import)
    }
}

impl From<SourceCodeReference> for Dependency {
    fn from(source_code_reference: SourceCodeReference) -> (r: Self) {
        Dependency::Reference(source_code_reference)
    }
}

impl vstd::std_specs::convert::FromSpecImpl<SourceCodeReference> for Dependency {
    open spec fn obeys_from_spec() -> bool {
        true
    }

    open spec fn from_spec(source_code_reference: SourceCodeReference) -> Self {
        Dependency::Reference(source_code_reference)
    }
}

/// What is known of the framework's applications.
#[derive(Debug)]
pub struct DjangoMetadata {
    pub config: DjangoConfig,
    pub known_apps: Vec<String>,
}

impl DjangoMetadata {
    /// The metadata for `django_config`. `known_apps` is what reading the
    /// framework's settings gave, `None` where they could not be read: no
    /// application is known then.
    pub fn new(django_config: &DjangoConfig, known_apps: Option<Vec<String>>) -> (r: Self)
        ensures
            r.config == *django_config,
            r.known_apps.deep_view() == match known_apps {
                Some(apps) => apps.deep_view(),
                None => Seq::empty(),
            },
    {
        let known_apps = match known_apps {
            Some(apps) => apps,
            None => {
                let apps: Vec<String> = Vec::new();
                assert(apps.deep_view() =~= Seq::<Seq<char>>::empty());
                apps
            },
        };
        DjangoMetadata { config: django_config.clone(), known_apps }
    }
}

/// An import with the answer to whether the imported module lies under one
/// of the project's source roots.
#[derive(Debug)]
pub struct ResolvedImport {
    pub import: NormalizedImport,
    pub in_project: bool,
}

pub struct ResolvedView {
    pub import: NormalizedView,
    pub in_project: bool,
}

impl DeepView for ResolvedImport {
    type V = ResolvedView;

    open spec fn deep_view(&self) -> ResolvedView {
        ResolvedView { import: self.import.deep_view(), in_project: self.in_project }
    }
}

/// The imports of `resolved` on one side of the project's border, as
/// dependencies and in order: with `internal` those within the project,
/// without it those outside.
pub open spec fn kept_imports(resolved: Seq<ResolvedView>, internal: bool) -> Seq<FactView> {
    resolved.filter(|import: ResolvedView| import.in_project == internal).map_values(
        |import: ResolvedView| FactView::Import(import.import),
    )
}

/// `directives` without those on the lines of the import statements that are
/// on the other side of the border.
pub open spec fn trimmed(
    directives: Seq<DirectiveView>,
    bytes: Seq<u8>,
    resolved: Seq<ResolvedView>,
    internal: bool,
) -> Seq<DirectiveView>
    decreases resolved.len(),
{
    if resolved.len() == 0 {
        directives
    } else {
        let before = trimmed(directives, bytes, resolved.drop_last(), internal);
        let last = resolved.last();
        if last.in_project == internal {
            before
        } else {
            without_line(before, line_number_at(bytes, last.import.import_offset) as usize)
        }
    }
}

/// `references` as dependencies.
pub open spec fn reference_facts(references: Seq<ReferenceView>) -> Seq<FactView> {
    references.map_values(|reference: ReferenceView| FactView::Reference(reference))
}

/// Every import is on exactly one side of the border: the two sides
/// together hold as many imports as there are, an import within the project
/// is among the internal ones and not put there by the external side, and
/// the other way round.
pub proof fn lemma_sides_partition(resolved: Seq<ResolvedView>)
    ensures
        kept_imports(resolved, true).len() + kept_imports(resolved, false).len()
            == resolved.len(),
        forall|i: int|
            0 <= i < resolved.len() ==> (if (#[trigger] resolved[i]).in_project {
                kept_imports(resolved, true).contains(FactView::Import(resolved[i].import))
            } else {
                kept_imports(resolved, false).contains(FactView::Import(resolved[i].import))
            }),
        forall|fact: FactView| #[trigger]
            kept_imports(resolved, true).contains(fact) ==> exists|i: int|
                0 <= i < resolved.len() && (#[trigger] resolved[i]).in_project && fact
                    == FactView::Import(resolved[i].import),
        forall|fact: FactView| #[trigger]
            kept_imports(resolved, false).contains(fact) ==> exists|i: int|
                0 <= i < resolved.len() && !(#[trigger] resolved[i]).in_project && fact
                    == FactView::Import(resolved[i].import),
    decreases resolved.len(),
{
    let inside = |import: ResolvedView| import.in_project == true;
    let outside = |import: ResolvedView| import.in_project == false;
    let as_fact = |import: ResolvedView| FactView::Import(import.import);
    if resolved.len() == 0 {
        lemma_filter_empty(inside);
        lemma_filter_empty(outside);
    } else {
        let front = resolved.drop_last();
        let last = resolved.last();
        lemma_sides_partition(front);
        lemma_filter_push(front, last, inside);
        lemma_filter_push(front, last, outside);
        assert(front.push(last) =~= resolved);
        let internal = kept_imports(resolved, true);
        let external = kept_imports(resolved, false);
        let internal_before = kept_imports(front, true);
        let external_before = kept_imports(front, false);
        if last.in_project {
            assert(internal =~= internal_before.push(as_fact(last)));
            assert(external =~= external_before);
            assert(internal[internal.len() - 1] == as_fact(last));
        } else {
            assert(external =~= external_before.push(as_fact(last)));
            assert(internal =~= internal_before);
            assert(external[external.len() - 1] == as_fact(last));
        }
        assert forall|i: int| 0 <= i < resolved.len() implies (if (#[trigger] resolved[i]).in_project {
            internal.contains(FactView::Import(resolved[i].import))
        } else {
            external.contains(FactView::Import(resolved[i].import))
        }) by {
            if i < front.len() {
                assert(front[i] == resolved[i]);
                if resolved[i].in_project {
                    let k = choose|k: int|
                        0 <= k < internal_before.len() && internal_before[k] == FactView::Import(
                            front[i].import,
                        );
                    assert(internal[k] == internal_before[k]);
                } else {
                    let k = choose|k: int|
                        0 <= k < external_before.len() && external_before[k] == FactView::Import(
                            front[i].import,
                        );
                    assert(external[k] == external_before[k]);
                }
            }
        }
        assert forall|fact: FactView| #[trigger] internal.contains(fact) implies exists|i: int|
            0 <= i < resolved.len() && (#[trigger] resolved[i]).in_project && fact
                == FactView::Import(resolved[i].import) by {
            let k = choose|k: int| 0 <= k < internal.len() && internal[k] == fact;
            if k < internal_before.len() {
                assert(internal_before[k] == fact);
                assert(internal_before.contains(fact));
                let i = choose|i: int|
                    0 <= i < front.len() && (#[trigger] front[i]).in_project && fact
                        == FactView::Import(front[i].import);
                assert(resolved[i] == front[i]);
            } else {
                assert(resolved[resolved.len() - 1].in_project);
            }
        }
        assert forall|fact: FactView| #[trigger] external.contains(fact) implies exists|i: int|
            0 <= i < resolved.len() && !(#[trigger] resolved[i]).in_project && fact
                == FactView::Import(resolved[i].import) by {
            let k = choose|k: int| 0 <= k < external.len() && external[k] == fact;
            if k < external_before.len() {
                assert(external_before[k] == fact);
                assert(external_before.contains(fact));
                let i = choose|i: int|
                    0 <= i < front.len() && !(#[trigger] front[i]).in_project && fact
                        == FactView::Import(front[i].import);
                assert(resolved[i] == front[i]);
            } else {
                assert(!resolved[resolved.len() - 1].in_project);
            }
        }
    }
}

/// Where the answers agree for equal imports, no import is on both sides.
pub proof fn lemma_sides_disjoint(resolved: Seq<ResolvedView>, fact: FactView)
    requires
        forall|i: int, j: int|
            0 <= i < resolved.len() && 0 <= j < resolved.len() && (#[trigger] resolved[i]).import
                == (#[trigger] resolved[j]).import ==> resolved[i].in_project
                == resolved[j].in_project,
    ensures
        !(kept_imports(resolved, true).contains(fact) && kept_imports(resolved, false).contains(
            fact,
        )),
{
    lemma_sides_partition(resolved);
    if kept_imports(resolved, true).contains(fact) && kept_imports(resolved, false).contains(fact) {
        let i = choose|i: int|
            0 <= i < resolved.len() && (#[trigger] resolved[i]).in_project && fact
                == FactView::Import(resolved[i].import);
        let j = choose|j: int|
            0 <= j < resolved.len() && !(#[trigger] resolved[j]).in_project && fact
                == FactView::Import(resolved[j].import);
        assert(resolved[i].import == resolved[j].import);
    }
}

/// Sorts `imports`: those on the side that `internal` names become
/// dependencies; for each of the others, the directives on the line of its
/// statement are taken out.
pub fn sort_imports(
    directives: &mut IgnoreDirectives,
    lines: &SourceLines,
    imports: &Vec<ResolvedImport>,
    internal: bool,
) -> (kept: Vec<Dependency>)
    ensures
        kept.deep_view() == kept_imports(imports.deep_view(), internal),
        final(directives).deep_view() == trimmed(
            old(directives).deep_view(),
            lines.bytes(),
            imports.deep_view(),
            internal,
        ),
{
    let ghost resolved = imports.deep_view();
    let ghost before = directives.deep_view();
    let ghost side = |import: ResolvedView| import.in_project == internal;
    let ghost as_fact = |import: ResolvedView| FactView::Import(import.import);
    let mut kept: Vec<Dependency> = Vec::new();
    let mut i: usize = 0;
    proof {
        assert(resolved.subrange(0, 0) =~= Seq::empty());
        lemma_filter_empty(side);
        assert(kept.deep_view() =~= resolved.subrange(0, 0).filter(side).map_values(as_fact));
    }
    while i < imports.len()
        invariant
            i <= imports.len(),
            resolved == imports.deep_view(),
            side == |import: ResolvedView| import.in_project == internal,
            as_fact == |import: ResolvedView| FactView::Import(import.import),
            kept.deep_view() == resolved.subrange(0, i as int).filter(side).map_values(as_fact),
            directives.deep_view() == trimmed(
                before,
                lines.bytes(),
                resolved.subrange(0, i as int),
                internal,
            ),
        decreases imports.len() - i,
    {
        let import = &imports[i];
        proof {
            let next = resolved.subrange(0, i + 1);
            assert(next.drop_last() =~= resolved.subrange(0, i as int));
            assert(next.last() == resolved[i as int]);
            assert(next =~= resolved.subrange(0, i as int).push(resolved[i as int]));
            lemma_filter_push(resolved.subrange(0, i as int), resolved[i as int], side);
            assert(import.deep_view() == resolved[i as int]);
        }
        if import.in_project == internal {
            let ghost shorter = kept;
            kept.push(Dependency::Import(import.import.clone()));
            proof {
                assert(kept@.drop_last() =~= shorter@);
                lemma_deep_view_push(shorter, kept);
                assert(kept.deep_view() =~= resolved.subrange(0, i + 1).filter(side).map_values(
                    as_fact,
                ));
            }
        } else {
            directives.remove_matching_directives(lines.line_number(import.import.import_offset));
        }
        i += 1;
    }
    assert(resolved.subrange(0, imports.len() as int) =~= resolved);
    kept
}

/// A source file with the module that owns it and what it depends on.
pub struct FileModule {
    pub file_path: String,
    pub module: ModuleNode,
    pub contents: String,
    pub ignore_directives: IgnoreDirectives,
    pub dependencies: Vec<Dependency>,
    pub lines: SourceLines,
}

impl FileModule {
    /// The bytes of the text whose lines the file tells apart.
    pub open spec fn indexed_bytes(&self) -> Seq<u8> {
        self.lines.bytes()
    }

    /// The file at `file_path` with `contents`, owned by `module`, with the
    /// directives that stand in it and no dependencies yet.
    pub fn new(file_path: String, contents: String, module: ModuleNode) -> (r: Self)
        requires
            bytes_of(contents@).len() <= u32::MAX,
        ensures
            r.file_path == file_path,
            r.contents == contents,
            r.module == module,
            r.indexed_bytes() == bytes_of(contents@),
            r.ignore_directives.deep_view() == directives_of(contents@),
            r.dependencies.deep_view() == Seq::<FactView>::empty(),
    {
        let lines = SourceLines::new(contents.as_str());
        let ignore_directives = get_ignore_directives(contents.as_str());
        let r = FileModule {
            file_path,
            module,
            contents,
            ignore_directives,
            dependencies: Vec::new(),
            lines: lines.unwrap(),
        };
        assert(r.dependencies.deep_view() =~= Seq::<FactView>::empty());
        r
    }

    /// The path of the file.
    pub fn file_path(&self) -> (r: &str)
        ensures
            r@ == self.file_path@,
    {
        self.file_path.as_str()
    }

    /// The text of the file.
    pub fn contents(&self) -> (r: &str)
        ensures
            r@ == self.contents@,
    {
        self.contents.as_str()
    }

    /// The number of the line that holds `offset`, counted from 1.
    pub fn line_number(&self, offset: u32) -> (r: usize)
        ensures
            r == line_number_at(self.indexed_bytes(), offset),
    {
        self.lines.line_number(offset)
    }

    /// Adds `dependencies` after those that are there.
    pub fn extend_dependencies(&mut self, dependencies: Vec<Dependency>)
        ensures
            final(self).dependencies.deep_view() == old(self).dependencies.deep_view()
                + dependencies.deep_view(),
            final(self).file_path == old(self).file_path,
            final(self).contents == old(self).contents,
            final(self).module == old(self).module,
            final(self).ignore_directives == old(self).ignore_directives,
            final(self).indexed_bytes() == old(self).indexed_bytes(),
    {
        let ghost before = self.dependencies.deep_view();
        let ghost added = dependencies.deep_view();
        let mut more = dependencies;
        self.dependencies.append(&mut more);
        assert(self.dependencies.deep_view() =~= before + added);
    }
}

/// A file to process: where it lies, the module path that its place gives
/// it, its text, its imports with the answers to whether each lies within
/// the project, and the references that the framework plugin found in it.
#[derive(Debug)]
pub struct ProjectFile {
    pub file_path: String,
    pub mod_path: String,
    pub contents: String,
    pub imports: Vec<ResolvedImport>,
    pub references: Vec<SourceCodeReference>,
}

/// Whether a file of `module` is left unread: the module is unchecked, or it
/// is the root module and the project ignores the root module.
pub open spec fn is_left_out(module: ModuleView, root_module: RootModuleTreatment) -> bool {
    module.unchecked || (module.path == root_path() && root_module == RootModuleTreatment::Ignore)
}

/// Finds what a file depends on within the project.
#[derive(Debug)]
pub struct InternalDependencyExtractor<'a> {
    pub module_tree: &'a ModuleTree,
    pub source_roots: &'a Vec<String>,
    pub project_config: &'a ProjectConfig,
    pub django_metadata: Option<DjangoMetadata>,
}

impl<'a> InternalDependencyExtractor<'a> {
    /// An extractor over `module_tree` and `project_config`. `known_apps` is
    /// what reading the framework's settings gave; it is looked at only
    /// where the project configures the framework plugin.
    pub fn new(
        source_roots: &'a Vec<String>,
        module_tree: &'a ModuleTree,
        project_config: &'a ProjectConfig,
        known_apps: Option<Vec<String>>,
    ) -> (r: Self)
        ensures
            r.module_tree == module_tree,
            r.source_roots == source_roots,
            r.project_config == project_config,
            r.django_metadata is Some <==> project_config.django is Some,
            r.django_metadata matches Some(metadata) ==> metadata.config
                == project_config.django->0 && metadata.known_apps.deep_view() == match known_apps {
                Some(apps) => apps.deep_view(),
                None => Seq::empty(),
            },
    {
        let django_metadata = match &project_config.django {
            Some(django_config) => Some(DjangoMetadata::new(django_config, known_apps)),
            None => None,
        };
        InternalDependencyExtractor { source_roots, module_tree, project_config, django_metadata }
    }

    /// Whether `r` is what processing `file` gives.
    ///
    /// It fails exactly where no module owns the file. Else the file comes
    /// back with its owner. For a file that is left out, nothing more is
    /// done. For any other, the dependencies are the imports within the
    /// project, in order, followed by the references where the framework
    /// plugin is configured; and the directives are those of the text
    /// without the ones on the lines of imports from outside the project.
    pub open spec fn processed(
        &self,
        file: ProjectFile,
        r: Result<FileModule, ModuleTreeError>,
    ) -> bool {
        match r {
            Err(error) => {
                &&& owns(self.module_tree.modules(), file.mod_path@, None)
                &&& error matches ModuleTreeError::ModuleNotFound(path) && path@ == file.mod_path@
            },
            Ok(found) => {
                &&& owns(
                    self.module_tree.modules(),
                    file.mod_path@,
                    Some(found.module.deep_view()),
                )
                &&& found.file_path@ == file.file_path@
                &&& found.contents@ == file.contents@
                &&& found.indexed_bytes() == bytes_of(file.contents@)
                &&& if is_left_out(found.module.deep_view(), self.project_config.root_module) {
                    &&& found.dependencies.deep_view() == Seq::<FactView>::empty()
                    &&& found.ignore_directives.deep_view() == directives_of(file.contents@)
                } else {
                    &&& found.dependencies.deep_view() == kept_imports(
                        file.imports.deep_view(),
                        true,
                    ) + if self.django_metadata is Some {
                        reference_facts(file.references.deep_view())
                    } else {
                        Seq::empty()
                    }
                    &&& found.ignore_directives.deep_view() == trimmed(
                        directives_of(file.contents@),
                        bytes_of(file.contents@),
                        file.imports.deep_view(),
                        true,
                    )
                }
            },
        }
    }

    /// The module that owns the file of the module `mod_path`, and whether
    /// such a file is left unread. Fails exactly where no module owns it.
    pub fn owner_of(&self, mod_path: &str) -> (r: Result<(&'a ModuleNode, bool), ModuleTreeError>)
        ensures
            match r {
                Ok((owner, left_out)) => {
                    &&& owns(self.module_tree.modules(), mod_path@, Some(owner.deep_view()))
                    &&& left_out == is_left_out(
                        owner.deep_view(),
                        self.project_config.root_module,
                    )
                },
                Err(error) => {
                    &&& owns(self.module_tree.modules(), mod_path@, None)
                    &&& error matches ModuleTreeError::ModuleNotFound(path) && path@ == mod_path@
                },
            },
    {
        match self.module_tree.find_nearest(mod_path) {
            Some(owner) => {
                let left_out = owner.is_unchecked() || (owner.is_root()
                    && match self.project_config.root_module {
                    RootModuleTreatment::Ignore => true,
                    _ => false,
                });
                Ok((owner, left_out))
            },
            None => Err(ModuleTreeError::ModuleNotFound(mod_path.to_owned())),
        }
    }

    /// Finds what `file` depends on within the project.
    pub fn process(&self, file: ProjectFile) -> (r: Result<FileModule, ModuleTreeError>)
        requires
            bytes_of(file.contents@).len() <= u32::MAX,
        ensures
            self.processed(file, r),
    {
        let (module, left_out) = match self.owner_of(file.mod_path.as_str()) {
            Ok((module, left_out)) => (module.clone(), left_out),
            Err(error) => {
                return Err(error);
            },
        };
        let ghost wanted = file;
        let mut file_module = FileModule::new(file.file_path, file.contents, module);
        if left_out {
            return Ok(file_module);
        }
        let mut dependencies = sort_imports(
            &mut file_module.ignore_directives,
            &file_module.lines,
            &file.imports,
            true,
        );
        let ghost imported = dependencies.deep_view();
        if self.django_metadata.is_some() {
            let mut references = references_as_dependencies(&file.references);
            dependencies.append(&mut references);
            assert(dependencies.deep_view() =~= imported + reference_facts(
                wanted.references.deep_view(),
            ));
        } else {
            assert(dependencies.deep_view() =~= imported + Seq::empty());
        }
        file_module.extend_dependencies(dependencies);
        assert(file_module.dependencies.deep_view() =~= dependencies.deep_view());
        Ok(file_module)
    }
}

/// `references` as dependencies.
pub fn references_as_dependencies(references: &Vec<SourceCodeReference>) -> (r: Vec<Dependency>)
    ensures
        r.deep_view() == reference_facts(references.deep_view()),
{
    let ghost target = reference_facts(references.deep_view());
    let mut out: Vec<Dependency> = Vec::new();
    let mut i: usize = 0;
    assert(out.deep_view() =~= target.subrange(0, 0));
    while i < references.len()
        invariant
            i <= references.len(),
            target == reference_facts(references.deep_view()),
            out.deep_view() == target.subrange(0, i as int),
        decreases references.len() - i,
    {
        let ghost shorter = out;
        out.push(Dependency::Reference(references[i].clone()));
        proof {
            assert(out@.drop_last() =~= shorter@);
            lemma_deep_view_push(shorter, out);
            assert(out.deep_view() =~= target.subrange(0, i + 1));
        }
        i += 1;
    }
    assert(target.subrange(0, references.len() as int) =~= target);
    out
}

/// Finds what a file depends on outside the project.
#[derive(Debug)]
pub struct ExternalDependencyExtractor<'a> {
    pub source_roots: &'a Vec<String>,
    pub project_config: &'a ProjectConfig,
}

impl<'a> ExternalDependencyExtractor<'a> {
    /// An extractor for the project `project_config`.
    pub fn new(source_roots: &'a Vec<String>, project_config: &'a ProjectConfig) -> (r: Self)
        ensures
            r.source_roots == source_roots,
            r.project_config == project_config,
    {
        ExternalDependencyExtractor { source_roots, project_config }
    }

    /// Finds what `file` depends on outside the project. No module is looked
    /// up: the file comes back under a node that stands for none. Its
    /// dependencies are the imports from outside the project, in order, and
    /// its directives are those of the text without the ones on the lines of
    /// imports within the project.
    pub fn process(&self, file: ProjectFile) -> (r: FileModule)
        requires
            bytes_of(file.contents@).len() <= u32::MAX,
        ensures
            r.module.deep_view() == crate::config::modules::ModuleConfig::bare(Seq::empty()),
            r.file_path@ == file.file_path@,
            r.contents@ == file.contents@,
            r.indexed_bytes() == bytes_of(file.contents@),
            r.dependencies.deep_view() == kept_imports(file.imports.deep_view(), false),
            r.ignore_directives.deep_view() == trimmed(
                directives_of(file.contents@),
                bytes_of(file.contents@),
                file.imports.deep_view(),
                false,
            ),
    {
        let mut file_module = FileModule::new(file.file_path, file.contents, ModuleNode::empty());
        let dependencies = sort_imports(
            &mut file_module.ignore_directives,
            &file_module.lines,
            &file.imports,
            false,
        );
        file_module.extend_dependencies(dependencies);
        assert(file_module.dependencies.deep_view() =~= dependencies.deep_view());
        file_module
    }
}

} // verus!
