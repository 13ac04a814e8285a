//! Import facts: what a file's import statements name, as absolute module
//! paths with the offsets at which they stand.
//!
//! The syntax tree comes from a parser that is not part of this crate. What
//! this crate reads in it is held in `SyntaxItem`: the import statements and
//! the string literals of a file, in the order of the source.

use crate::config::modules::lemma_deep_view_push;
use crate::paths::chars_of;
use vstd::prelude::*;
use vstd::string::{StrSliceExecFns, StringExecFns};

verus! {

/// One module that a file imports.
#[derive(Debug)]
pub struct NormalizedImport {
    /// The absolute path of the imported module.
    pub mod_path: String,
    /// Where the import statement starts.
    pub import_offset: u32,
    /// Where the imported name stands within the statement.
    pub alias_offset: u32,
}

pub struct NormalizedView {
    pub mod_path: Seq<char>,
    pub import_offset: u32,
    pub alias_offset: u32,
}

impl DeepView for NormalizedImport {
    type V = NormalizedView;

    open spec fn deep_view(&self) -> NormalizedView {
        NormalizedView {
            mod_path: self.mod_path@,
            import_offset: self.import_offset,
            alias_offset: self.alias_offset,
        }
    }
}

impl Clone for NormalizedImport {
    fn clone(&self) -> (r: Self)
        ensures
            r == *self,
    {
        NormalizedImport {
            mod_path: self.mod_path.clone(),
            import_offset: self.import_offset,
            alias_offset: self.alias_offset,
        }
    }
}

/// A name that an import statement binds.
#[derive(Debug)]
pub struct ImportedName {
    pub name: String,
    pub offset: u32,
}

pub struct NameView {
    pub name: Seq<char>,
    pub offset: u32,
}

impl DeepView for ImportedName {
    type V = NameView;

    open spec fn deep_view(&self) -> NameView {
        NameView { name: self.name@, offset: self.offset }
    }
}

/// An import statement.
#[derive(Debug)]
pub struct ImportStatement {
    /// Where the statement starts.
    pub offset: u32,
    /// The number of leading dots; 0 for an absolute import.
    pub level: u32,
    /// The module after `from`, if the statement names one.
    pub module: Option<String>,
    /// The names that the statement binds, in order.
    pub names: Vec<ImportedName>,
    /// Whether the statement stands under a condition that holds during type
    /// checking only.
    pub type_checking: bool,
}

pub struct StatementView {
    pub offset: u32,
    pub level: u32,
    pub module: Option<Seq<char>>,
    pub names: Seq<NameView>,
    pub type_checking: bool,
}

impl DeepView for ImportStatement {
    type V = StatementView;

    open spec fn deep_view(&self) -> StatementView {
        StatementView {
            offset: self.offset,
            level: self.level,
            module: self.module.deep_view(),
            names: self.names.deep_view(),
            type_checking: self.type_checking,
        }
    }
}

/// A string literal at a place where a module may be named.
#[derive(Debug)]
pub struct StringLiteral {
    pub text: String,
    pub offset: u32,
}

pub struct LiteralView {
    pub text: Seq<char>,
    pub offset: u32,
}

impl DeepView for StringLiteral {
    type V = LiteralView;

    open spec fn deep_view(&self) -> LiteralView {
        LiteralView { text: self.text@, offset: self.offset }
    }
}

/// What the normalizer reads in a syntax tree.
#[derive(Debug)]
pub enum SyntaxItem {
    Import(ImportStatement),
    Literal(StringLiteral),
}

pub enum SyntaxView {
    Import(StatementView),
    Literal(LiteralView),
}

impl DeepView for SyntaxItem {
    type V = SyntaxView;

    open spec fn deep_view(&self) -> SyntaxView {
        match self {
            SyntaxItem::Import(statement) => SyntaxView::Import(statement.deep_view()),
            SyntaxItem::Literal(literal) => SyntaxView::Literal(literal.deep_view()),
        }
    }
}

/// Why a file's imports could not be normalized.
#[derive(Debug, Clone, Copy, PartialEq, Eq, Structural)]
pub enum ImportError {
    /// A relative import has more leading dots than the file has packages
    /// around it.
    RelativeImportEscapesRoot,
}

/// The place of the last dot of `path`.
pub open spec fn last_dot(path: Seq<char>) -> Option<int>
    decreases path.len(),
{
    if path.len() == 0 {
        None
    } else if path.last() == '.' {
        Some(path.len() - 1)
    } else {
        last_dot(path.drop_last())
    }
}

/// The package that holds `path`: `path` without its last segment, and the
/// empty path for a path of one segment.
pub open spec fn parent_path(path: Seq<char>) -> Seq<char> {
    match last_dot(path) {
        Some(at) => path.take(at),
        None => Seq::empty(),
    }
}

/// The package `up` levels above `path`; `None` where `path` has fewer
/// segments than that.
pub open spec fn ancestor_at(path: Seq<char>, up: nat) -> Option<Seq<char>>
    decreases up,
{
    if up == 0 {
        Some(path)
    } else if path.len() == 0 {
        None
    } else {
        ancestor_at(parent_path(path), (up - 1) as nat)
    }
}

/// `base` and `tail` as one path; an empty one of the two adds nothing.
pub open spec fn joined(base: Seq<char>, tail: Seq<char>) -> Seq<char> {
    if base.len() == 0 {
        tail
    } else if tail.len() == 0 {
        base
    } else {
        base + seq!['.'] + tail
    }
}

/// The package against which an import with `level` leading dots is read, in
/// the file of the module `file_path`: the empty path for an absolute
/// import; for a relative one the file's own path where the file is a
/// package and the level is 1, and one package further up for each dot
/// more. `None` where the dots lead above the outermost package.
pub open spec fn import_base(file_path: Seq<char>, is_package: bool, level: u32) -> Option<
    Seq<char>,
> {
    if level == 0 {
        Some(Seq::empty())
    } else if is_package {
        ancestor_at(file_path, (level - 1) as nat)
    } else {
        ancestor_at(file_path, level as nat)
    }
}

/// The path that a statement imports under `name`: the base, the module
/// after `from` and the name, as one path.
pub open spec fn imported_path(base: Seq<char>, module: Option<Seq<char>>, name: Seq<char>) -> Seq<
    char,
> {
    joined(
        joined(
            base,
            match module {
                Some(module) => module,
                None => Seq::empty(),
            },
        ),
        name,
    )
}

/// The imports of one statement: one for each name that it binds, all at the
/// statement's offset, each at its own name's.
pub open spec fn statement_imports(base: Seq<char>, statement: StatementView) -> Seq<
    NormalizedView,
> {
    statement.names.map_values(
        |name: NameView|
            NormalizedView {
                mod_path: imported_path(base, statement.module, name.name),
                import_offset: statement.offset,
                alias_offset: name.offset,
            },
    )
}

/// Whether `c` may stand in a segment of a module path.
pub open spec fn is_name_char(c: char) -> bool {
    ||| 'a' <= c <= 'z'
    ||| 'A' <= c <= 'Z'
    ||| '0' <= c <= '9'
    ||| c == '_'
}

/// Whether `text` has the shape of a dotted module path: two segments or
/// more, none of them empty, all made of letters, digits and underscores.
pub open spec fn resembles_path(text: Seq<char>) -> bool {
    &&& text.len() > 0
    &&& text.contains('.')
    &&& text[0] != '.'
    &&& text.last() != '.'
    &&& forall|i: int| 0 <= i < text.len() ==> is_name_char(#[trigger] text[i]) || text[i] == '.'
    &&& forall|i: int| 0 <= i < text.len() - 1 ==> !(#[trigger] text[i] == '.' && text[i + 1] == '.')
}

/// The imports that one item gives; `None` where it is a relative import
/// that leads above the outermost package.
pub open spec fn item_imports(
    file_path: Seq<char>,
    is_package: bool,
    item: SyntaxView,
    ignore_type_checking_imports: bool,
    include_string_imports: bool,
) -> Option<Seq<NormalizedView>> {
    match item {
        SyntaxView::Import(statement) => if ignore_type_checking_imports
            && statement.type_checking {
            Some(Seq::empty())
        } else {
            match import_base(file_path, is_package, statement.level) {
                Some(base) => Some(statement_imports(base, statement)),
                None => None,
            }
        },
        SyntaxView::Literal(literal) => if include_string_imports && resembles_path(
            literal.text,
        ) {
            Some(
                seq![
                    NormalizedView {
                        mod_path: literal.text,
                        import_offset: literal.offset,
                        alias_offset: literal.offset,
                    },
                ],
            )
        } else {
            Some(Seq::empty())
        },
    }
}

/// The imports that `items` give, in order; `None` where one of them is a
/// relative import that leads above the outermost package.
pub open spec fn normalized(
    file_path: Seq<char>,
    is_package: bool,
    items: Seq<SyntaxView>,
    ignore_type_checking_imports: bool,
    include_string_imports: bool,
) -> Option<Seq<NormalizedView>>
    decreases items.len(),
{
    if items.len() == 0 {
        Some(Seq::empty())
    } else {
        match (
            normalized(
                file_path,
                is_package,
                items.drop_last(),
                ignore_type_checking_imports,
                include_string_imports,
            ),
            item_imports(
                file_path,
                is_package,
                items.last(),
                ignore_type_checking_imports,
                include_string_imports,
            ),
        ) {
            (Some(before), Some(last)) => Some(before + last),
            _ => None,
        }
    }
}

/// A statement that binds several names gives one import for each: they
/// share the statement's offset, and each has the offset of its own name.
pub proof fn lemma_names_split(base: Seq<char>, statement: StatementView)
    ensures
        statement_imports(base, statement).len() == statement.names.len(),
        forall|i: int|
            0 <= i < statement.names.len() ==> {
                &&& (#[trigger] statement_imports(base, statement)[i]).import_offset
                    == statement.offset
                &&& statement_imports(base, statement)[i].alias_offset == statement.names[i].offset
            },
{
}

/// The package that holds `path`.
pub fn parent(path: &str) -> (r: String)
    ensures
        r@ == parent_path(path@),
{
    let chars = chars_of(path);
    let mut i: usize = chars.len();
    assert(chars@.subrange(0, i as int) =~= chars@);
    while i > 0
        invariant
            i <= chars.len(),
            chars@ == path@,
            last_dot(chars@) == last_dot(chars@.subrange(0, i as int)),
        decreases i,
    {
        let ghost front = chars@.subrange(0, i as int);
        assert(front.last() == chars@[i - 1]);
        if chars[i - 1] == '.' {
            let r = path.substring_char(0, i - 1).to_owned();
            assert(path@.subrange(0, i - 1) =~= path@.take(i - 1));
            return r;
        }
        assert(front.drop_last() =~= chars@.subrange(0, i - 1));
        i -= 1;
    }
    String::new()
}

/// The package `up` levels above `path`.
pub fn ancestor(path: &str, up: u32) -> (r: Option<String>)
    ensures
        r.deep_view() == ancestor_at(path@, up as nat),
{
    let mut current = path.to_owned();
    let mut left: u32 = up;
    while left > 0
        invariant
            ancestor_at(path@, up as nat) == ancestor_at(current@, left as nat),
        decreases left,
    {
        if current.as_str().unicode_len() == 0 {
            return None;
        }
        current = parent(current.as_str());
        left -= 1;
    }
    Some(current)
}

/// `base` and `tail` as one path.
pub fn join(base: &str, tail: &str) -> (r: String)
    ensures
        r@ == joined(base@, tail@),
{
    if base.unicode_len() == 0 {
        tail.to_owned()
    } else if tail.unicode_len() == 0 {
        base.to_owned()
    } else {
        let mut r = base.to_owned();
        r.append(".");
        r.append(tail);
        proof {
            reveal_strlit(".");
            assert("."@ =~= seq!['.']);
        }
        r
    }
}

/// Whether `text` has the shape of a dotted module path.
pub fn looks_like_path(text: &str) -> (r: bool)
    ensures
        r == resembles_path(text@),
{
    let chars = chars_of(text);
    if chars.len() == 0 {
        return false;
    }
    if chars[0] == '.' || chars[chars.len() - 1] == '.' {
        return false;
    }
    let mut dots: usize = 0;
    let mut i: usize = 0;
    while i < chars.len()
        invariant
            i <= chars.len(),
            chars@ == text@,
            dots <= i,
            dots > 0 <==> chars@.subrange(0, i as int).contains('.'),
            forall|j: int| 0 <= j < i ==> is_name_char(#[trigger] chars@[j]) || chars@[j] == '.',
            forall|j: int|
                0 <= j < i && j < chars.len() - 1 ==> !(#[trigger] chars@[j] == '.' && chars@[j + 1]
                    == '.'),
        decreases chars.len() - i,
    {
        let c = chars[i];
        let ghost before = chars@.subrange(0, i as int);
        let ghost after = chars@.subrange(0, i + 1);
        proof {
            assert(after =~= before.push(c));
            if before.contains('.') {
                let k = choose|k: int| 0 <= k < before.len() && before[k] == '.';
                assert(after[k] == '.');
            }
            if after.contains('.') && c != '.' {
                let k = choose|k: int| 0 <= k < after.len() && after[k] == '.';
                assert(before[k] == '.');
            }
        }
        if c == '.' {
            if i + 1 < chars.len() && chars[i + 1] == '.' {
                return false;
            }
            assert(after[i as int] == '.');
            dots += 1;
        } else if !(('a' <= c && c <= 'z') || ('A' <= c && c <= 'Z') || ('0' <= c && c <= '9') || c
            == '_') {
            assert(!is_name_char(text@[i as int]) && text@[i as int] != '.');
            return false;
        }
        i += 1;
    }
    assert(chars@.subrange(0, chars.len() as int) =~= chars@);
    dots > 0
}

/// The imports of `statement`, read against the package `base`.
fn normalize_statement(base: &str, statement: &ImportStatement) -> (r: Vec<NormalizedImport>)
    ensures
        r.deep_view() == statement_imports(base@, statement.deep_view()),
{
    let ghost target = statement_imports(base@, statement.deep_view());
    let prefix = match &statement.module {
        Some(module) => join(base, module.as_str()),
        None => join(base, ""),
    };
    proof {
        reveal_strlit("");
        assert(""@ =~= Seq::<char>::empty());
    }
    let mut out: Vec<NormalizedImport> = Vec::new();
    let mut i: usize = 0;
    assert(out.deep_view() =~= target.subrange(0, 0));
    while i < statement.names.len()
        invariant
            i <= statement.names.len(),
            target == statement_imports(base@, statement.deep_view()),
            prefix@ == joined(
                base@,
                match statement.deep_view().module {
                    Some(module) => module,
                    None => Seq::empty(),
                },
            ),
            out.deep_view() == target.subrange(0, i as int),
        decreases statement.names.len() - i,
    {
        let name = &statement.names[i];
        assert(name.deep_view() == statement.deep_view().names[i as int]);
        let import = NormalizedImport {
            mod_path: join(prefix.as_str(), name.name.as_str()),
            import_offset: statement.offset,
            alias_offset: name.offset,
        };
        assert(import.deep_view() == target[i as int]);
        let ghost shorter = out;
        out.push(import);
        proof {
            assert(out@.drop_last() =~= shorter@);
            lemma_deep_view_push(shorter, out);
            assert(out.deep_view() =~= target.subrange(0, i + 1));
        }
        i += 1;
    }
    assert(target.subrange(0, statement.names.len() as int) =~= target);
    out
}

/// The imports of a file, in the order of the source.
///
/// `file_path` is the path of the file's own module and `is_package` tells
/// whether the file is the body of a package. With
/// `ignore_type_checking_imports`, statements under a condition that holds
/// during type checking only give nothing. With `include_string_imports`,
/// string literals in the shape of a module path count as imports.
///
/// Fails where a relative import that is not left out leads above the
/// outermost package.
pub fn get_normalized_imports(
    file_path: &str,
    is_package: bool,
    items: &Vec<SyntaxItem>,
    ignore_type_checking_imports: bool,
    include_string_imports: bool,
) -> (r: Result<Vec<NormalizedImport>, ImportError>)
    ensures
        match normalized(
            file_path@,
            is_package,
            items.deep_view(),
            ignore_type_checking_imports,
            include_string_imports,
        ) {
            Some(imports) => r matches Ok(found) && found.deep_view() == imports,
            None => r == Err::<Vec<NormalizedImport>, ImportError>(
                ImportError::RelativeImportEscapesRoot,
            ),
        },
{
    let ghost views = items.deep_view();
    let mut out: Vec<NormalizedImport> = Vec::new();
    let mut i: usize = 0;
    proof {
        assert(views.subrange(0, 0) =~= Seq::empty());
        assert(out.deep_view() =~= Seq::empty());
    }
    while i < items.len()
        invariant
            i <= items.len(),
            views == items.deep_view(),
            normalized(
                file_path@,
                is_package,
                views.subrange(0, i as int),
                ignore_type_checking_imports,
                include_string_imports,
            ) == Some(out.deep_view()),
        decreases items.len() - i,
    {
        proof {
            let next = views.subrange(0, i + 1);
            assert(next.drop_last() =~= views.subrange(0, i as int));
            assert(next.last() == views[i as int]);
            assert(items@[i as int].deep_view() == views[i as int]);
        }
        let ghost before = out.deep_view();
        match &items[i] {
            SyntaxItem::Import(statement) => {
                if !(ignore_type_checking_imports && statement.type_checking) {
                    let base = if statement.level == 0 {
                        Some(String::new())
                    } else if is_package {
                        ancestor(file_path, statement.level - 1)
                    } else {
                        ancestor(file_path, statement.level)
                    };
                    match base {
                        None => {
                            proof {
                                lemma_escape_stays(
                                    file_path@,
                                    is_package,
                                    views,
                                    i + 1,
                                    ignore_type_checking_imports,
                                    include_string_imports,
                                );
                            }
                            return Err(ImportError::RelativeImportEscapesRoot);
                        },
                        Some(base) => {
                            let mut found = normalize_statement(base.as_str(), statement);
                            let ghost added = found.deep_view();
                            append_imports(&mut out, &mut found);
                            assert(out.deep_view() == before + added);
                        },
                    }
                } else {
                    assert(out.deep_view() =~= before + Seq::empty());
                }
            },
            SyntaxItem::Literal(literal) => {
                if include_string_imports && looks_like_path(literal.text.as_str()) {
                    let import = NormalizedImport {
                        mod_path: literal.text.clone(),
                        import_offset: literal.offset,
                        alias_offset: literal.offset,
                    };
                    let ghost shorter = out;
                    out.push(import);
                    proof {
                        assert(out@.drop_last() =~= shorter@);
                        lemma_deep_view_push(shorter, out);
                        assert(out.deep_view() =~= before + seq![import.deep_view()]);
                    }
                } else {
                    assert(out.deep_view() =~= before + Seq::empty());
                }
            },
        }
        i += 1;
    }
    assert(views.subrange(0, items.len() as int) =~= views);
    Ok(out)
}

/// Moves the imports of `more` to the end of `imports`.
fn append_imports(imports: &mut Vec<NormalizedImport>, more: &mut Vec<NormalizedImport>)
    ensures
        final(imports).deep_view() == old(imports).deep_view() + old(more).deep_view(),
{
    let ghost before = imports.deep_view();
    let ghost added = more.deep_view();
    imports.append(more);
    assert(imports.deep_view() =~= before + added);
}

/// Once a prefix of the items has failed, the whole has.
pub proof fn lemma_escape_stays(
    file_path: Seq<char>,
    is_package: bool,
    items: Seq<SyntaxView>,
    upto: int,
    ignore_type_checking_imports: bool,
    include_string_imports: bool,
)
    requires
        0 <= upto <= items.len(),
        normalized(
            file_path,
            is_package,
            items.subrange(0, upto),
            ignore_type_checking_imports,
            include_string_imports,
        ) is None,
    ensures
        normalized(
            file_path,
            is_package,
            items,
            ignore_type_checking_imports,
            include_string_imports,
        ) is None,
    decreases items.len() - upto,
{
    if upto < items.len() {
        assert(items.subrange(0, upto + 1).drop_last() =~= items.subrange(0, upto));
        lemma_escape_stays(
            file_path,
            is_package,
            items,
            upto + 1,
            ignore_type_checking_imports,
            include_string_imports,
        );
    } else {
        assert(items.subrange(0, upto) =~= items);
    }
}

} // verus!
