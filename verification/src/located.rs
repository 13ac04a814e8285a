//! Imports with the lines on which they stand, as a driver program lists
//! them.

use crate::config::modules::lemma_deep_view_push;
use crate::dependency::{ResolvedImport, ResolvedView};
use crate::directives::{ignores, DirectiveView, IgnoreDirectives};
use crate::imports::{
    get_normalized_imports, normalized, ImportError, NormalizedImport, NormalizedView, SyntaxItem,
};
use crate::lines::{bytes_of, lemma_line_numbers_monotonic, line_number_at, SourceLines};
use crate::scan::{directives_of, get_ignore_directives};
use crate::seqs::{lemma_filter_empty, lemma_filter_push};
use vstd::prelude::*;

verus! {

/// An import with the line of its statement and the line of the name that
/// it binds, both counted from 1.
#[derive(Debug)]
pub struct LocatedImport {
    pub import: NormalizedImport,
    pub import_line_number: usize,
    pub alias_line_number: usize,
}

pub struct LocatedView {
    pub import: NormalizedView,
    pub import_line_number: usize,
    pub alias_line_number: usize,
}

impl DeepView for LocatedImport {
    type V = LocatedView;

    open spec fn deep_view(&self) -> LocatedView {
        LocatedView {
            import: self.import.deep_view(),
            import_line_number: self.import_line_number,
            alias_line_number: self.alias_line_number,
        }
    }
}

impl LocatedImport {
    /// `import` with its two lines.
    pub fn new(import_line_number: usize, alias_line_number: usize, import: NormalizedImport) -> (r:
        Self)
        ensures
            r.import == import,
            r.import_line_number == import_line_number,
            r.alias_line_number == alias_line_number,
    {
        LocatedImport { import, import_line_number, alias_line_number }
    }

    /// The imported module.
    pub fn mod_path(&self) -> (r: &str)
        ensures
            r@ == self.deep_view().import.mod_path,
    {
        self.import.mod_path.as_str()
    }

    /// The line of the import statement.
    pub fn import_line_number(&self) -> (r: usize)
        ensures
            r == self.import_line_number,
    {
        self.import_line_number
    }

    /// The line of the name that the import binds.
    pub fn alias_line_number(&self) -> (r: usize)
        ensures
            r == self.alias_line_number,
    {
        self.alias_line_number
    }
}

impl IgnoreDirectives {
    /// Whether checking is off for `import`: a directive stands on the line
    /// of the name that the import binds, and is about every module or about
    /// the imported one.
    pub fn is_ignored(&self, import: &LocatedImport) -> (r: bool)
        ensures
            r == ignores(
                self.deep_view(),
                import.deep_view().import.mod_path,
                import.alias_line_number,
            ),
    {
        self.ignores_at(import.import.mod_path.as_str(), import.alias_line_number)
    }
}

/// `import` with its lines in the text `bytes`.
pub open spec fn located(bytes: Seq<u8>, import: NormalizedView) -> LocatedView {
    LocatedView {
        import,
        import_line_number: line_number_at(bytes, import.import_offset) as usize,
        alias_line_number: line_number_at(bytes, import.alias_offset) as usize,
    }
}

/// Whether `import` is listed: it is on the side of the project's border
/// that `internal` names, and no directive switches checking off for its
/// module on the line of the name that it binds.
pub open spec fn is_listed(
    directives: Seq<DirectiveView>,
    bytes: Seq<u8>,
    import: ResolvedView,
    internal: bool,
) -> bool {
    import.in_project == internal && !ignores(
        directives,
        import.import.mod_path,
        line_number_at(bytes, import.import.alias_offset) as usize,
    )
}

/// The imports of `resolved` that are listed, in order, each with its lines.
pub open spec fn listed_imports(
    directives: Seq<DirectiveView>,
    bytes: Seq<u8>,
    resolved: Seq<ResolvedView>,
    internal: bool,
) -> Seq<LocatedView> {
    resolved.filter(|import: ResolvedView| is_listed(directives, bytes, import, internal)).map_values(
        |import: ResolvedView| located(bytes, import.import),
    )
}

/// A name that stands at its statement's start or after it is on the
/// statement's line or on a later one.
pub proof fn lemma_lines_in_order(bytes: Seq<u8>, import: NormalizedView)
    requires
        import.import_offset <= import.alias_offset,
    ensures
        line_number_at(bytes, import.import_offset) <= line_number_at(bytes, import.alias_offset),
{
    lemma_line_numbers_monotonic(bytes, import.import_offset, import.alias_offset);
}

/// The imports of `imports` on one side of the project's border that no
/// directive of `contents` switches off, with their lines.
pub fn list_imports(contents: &str, imports: Vec<ResolvedImport>, internal: bool) -> (r: Vec<
    LocatedImport,
>)
    requires
        bytes_of(contents@).len() <= u32::MAX,
    ensures
        r.deep_view() == listed_imports(
            directives_of(contents@),
            bytes_of(contents@),
            imports.deep_view(),
            internal,
        ),
{
    let lines = SourceLines::new(contents).unwrap();
    let directives = get_ignore_directives(contents);
    let ghost bytes = bytes_of(contents@);
    let ghost resolved = imports.deep_view();
    let ghost keep = |import: ResolvedView|
        is_listed(directives.deep_view(), bytes, import, internal);
    let ghost place = |import: ResolvedView| located(bytes, import.import);
    let mut out: Vec<LocatedImport> = Vec::new();
    let mut i: usize = 0;
    proof {
        assert(resolved.subrange(0, 0) =~= Seq::empty());
        lemma_filter_empty(keep);
        assert(out.deep_view() =~= resolved.subrange(0, 0).filter(keep).map_values(place));
    }
    while i < imports.len()
        invariant
            i <= imports.len(),
            resolved == imports.deep_view(),
            bytes == lines.bytes(),
            keep == |import: ResolvedView|
                is_listed(directives.deep_view(), bytes, import, internal),
            place == |import: ResolvedView| located(bytes, import.import),
            out.deep_view() == resolved.subrange(0, i as int).filter(keep).map_values(place),
        decreases imports.len() - i,
    {
        let import = &imports[i];
        proof {
            assert(resolved.subrange(0, i + 1) =~= resolved.subrange(0, i as int).push(
                resolved[i as int],
            ));
            lemma_filter_push(resolved.subrange(0, i as int), resolved[i as int], keep);
            assert(import.deep_view() == resolved[i as int]);
        }
        let found = LocatedImport::new(
            lines.line_number(import.import.import_offset),
            lines.line_number(import.import.alias_offset),
            import.import.clone(),
        );
        if import.in_project == internal && !directives.is_ignored(&found) {
            let ghost shorter = out;
            out.push(found);
            proof {
                assert(out@.drop_last() =~= shorter@);
                lemma_deep_view_push(shorter, out);
                assert(out.deep_view() =~= resolved.subrange(0, i + 1).filter(keep).map_values(
                    place,
                ));
            }
        }
        i += 1;
    }
    assert(resolved.subrange(0, imports.len() as int) =~= resolved);
    out
}

/// The imports from within the project that are checked in the file with
/// the text `contents`, with their lines.
pub fn get_located_project_imports(contents: &str, imports: Vec<ResolvedImport>) -> (r: Vec<
    LocatedImport,
>)
    requires
        bytes_of(contents@).len() <= u32::MAX,
    ensures
        r.deep_view() == listed_imports(
            directives_of(contents@),
            bytes_of(contents@),
            imports.deep_view(),
            true,
        ),
{
    list_imports(contents, imports, true)
}

/// The imports from outside the project that are checked in the file with
/// the text `contents`, with their lines.
pub fn get_located_external_imports(contents: &str, imports: Vec<ResolvedImport>) -> (r: Vec<
    LocatedImport,
>)
    requires
        bytes_of(contents@).len() <= u32::MAX,
    ensures
        r.deep_view() == listed_imports(
            directives_of(contents@),
            bytes_of(contents@),
            imports.deep_view(),
            false,
        ),
{
    list_imports(contents, imports, false)
}

/// The imports of a file as the check of outside dependencies reads them:
/// string literals never count.
pub fn get_external_normalized_imports(
    file_path: &str,
    is_package: bool,
    items: &Vec<SyntaxItem>,
    ignore_type_checking_imports: bool,
) -> (r: Result<Vec<NormalizedImport>, ImportError>)
    ensures
        match normalized(
            file_path@,
            is_package,
            items.deep_view(),
            ignore_type_checking_imports,
            false,
        ) {
            Some(imports) => r matches Ok(found) && found.deep_view() == imports,
            None => r == Err::<Vec<NormalizedImport>, ImportError>(
                ImportError::RelativeImportEscapesRoot,
            ),
        },
{
    get_normalized_imports(file_path, is_package, items, ignore_type_checking_imports, false)
}

} // verus!
