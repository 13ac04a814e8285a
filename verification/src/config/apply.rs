//! What each edit does to the policy document.
//!
//! The document keeps its modules as an array of tables under `modules`,
//! each with a `path`, a `depends_on` array and an optional `utility` flag,
//! and its source roots as an array of strings under `source_roots`.

use super::document::{
    document_items, document_text, entries_without, field_list_replaced, has_table,
    insert_table_array, insert_table_list, list_at, list_field, list_replaced, list_texts,
    parse_document, parsed_document, push_list, push_table, push_table_list, remove_table_field,
    render_document, retain_list, retain_table_list, retain_tables, set_table_flag,
    set_table_text, table_at, table_replaced, table_texts, tables_at, tables_replaced,
    tables_without, text_field, texts, FieldView, ItemView,
};
use super::edit::{ConfigEdit, EditError};
use crate::paths::same_text;
use vstd::prelude::*;

verus! {

pub open spec fn modules_key() -> Seq<char> {
    "modules"@
}

pub open spec fn path_key() -> Seq<char> {
    "path"@
}

pub open spec fn depends_on_key() -> Seq<char> {
    "depends_on"@
}

pub open spec fn utility_key() -> Seq<char> {
    "utility"@
}

pub open spec fn source_roots_key() -> Seq<char> {
    "source_roots"@
}

/// The table of a module that was just created: its path and no dependencies.
pub open spec fn new_module_table(path: Seq<char>) -> Map<Seq<char>, FieldView> {
    Map::empty().insert(path_key(), FieldView::Text(path)).insert(
        depends_on_key(),
        FieldView::List(Seq::empty()),
    )
}

/// The document after a module `path` is created: a `modules` array of tables
/// is made where the key held nothing, and the new table goes to its end.
/// Where `modules` holds something else, nothing changes.
pub open spec fn module_created(items: Map<Seq<char>, ItemView>, path: Seq<char>) -> Map<
    Seq<char>,
    ItemView,
> {
    let ready = if items.contains_key(modules_key()) {
        items
    } else {
        items.insert(modules_key(), ItemView::Tables(Seq::empty()))
    };
    tables_replaced(
        ready,
        modules_key(),
        tables_at(ready, modules_key())->0.push(new_module_table(path)),
    )
}

/// Whether `table` declares the module `path`.
pub open spec fn names_module(table: Map<Seq<char>, FieldView>, path: Seq<char>) -> bool {
    text_field(table, path_key()) == Some(path)
}

/// A module's table after `dependency` is added: a `depends_on` array is made
/// where the key held nothing, and the dependency goes to its end. Where
/// `depends_on` holds something else, nothing changes.
pub open spec fn dependency_added(table: Map<Seq<char>, FieldView>, dependency: Seq<char>) -> Map<
    Seq<char>,
    FieldView,
> {
    let ready = if table.contains_key(depends_on_key()) {
        table
    } else {
        table.insert(depends_on_key(), FieldView::List(Seq::empty()))
    };
    field_list_replaced(
        ready,
        depends_on_key(),
        list_field(ready, depends_on_key())->0.push(Some(dependency)),
    )
}

/// A module's table after `edit`, for the edits that change one module.
pub open spec fn table_edited(table: Map<Seq<char>, FieldView>, edit: ConfigEdit) -> Map<
    Seq<char>,
    FieldView,
> {
    match edit {
        ConfigEdit::MarkModuleAsUtility { .. } => table.insert(
            utility_key(),
            FieldView::Flag(true),
        ),
        ConfigEdit::UnmarkModuleAsUtility { .. } => table.remove(utility_key()),
        ConfigEdit::AddDependency { dependency, .. } => dependency_added(table, dependency@),
        ConfigEdit::RemoveDependency { dependency, .. } => field_list_replaced(
            table,
            depends_on_key(),
            entries_without(list_field(table, depends_on_key())->0, dependency@),
        ),
        _ => table,
    }
}

/// `tables` with `edit` made in each of the first `upto` that declares `path`.
pub open spec fn module_tables_edited(
    tables: Seq<Map<Seq<char>, FieldView>>,
    path: Seq<char>,
    edit: ConfigEdit,
    upto: int,
) -> Seq<Map<Seq<char>, FieldView>> {
    Seq::new(
        tables.len(),
        |i: int|
            if i < upto && names_module(tables[i], path) {
                table_edited(tables[i], edit)
            } else {
                tables[i]
            },
    )
}

/// The document after `edit` is made in every module table that declares
/// `path`.
pub open spec fn modules_edited(
    items: Map<Seq<char>, ItemView>,
    path: Seq<char>,
    edit: ConfigEdit,
) -> Map<Seq<char>, ItemView> {
    let tables = tables_at(items, modules_key())->0;
    tables_replaced(
        items,
        modules_key(),
        module_tables_edited(tables, path, edit, tables.len() as int),
    )
}

/// The document after the source root `root` is added: it goes to the end of
/// the `source_roots` array unless it is there already.
pub open spec fn source_root_added(items: Map<Seq<char>, ItemView>, root: Seq<char>) -> Map<
    Seq<char>,
    ItemView,
> {
    let entries = list_at(items, source_roots_key())->0;
    if entries.contains(Some(root)) {
        items
    } else {
        list_replaced(items, source_roots_key(), entries.push(Some(root)))
    }
}

/// The document after `edit`.
pub open spec fn edit_applied(items: Map<Seq<char>, ItemView>, edit: ConfigEdit) -> Map<
    Seq<char>,
    ItemView,
> {
    match edit {
        ConfigEdit::CreateModule { path } => module_created(items, path@),
        ConfigEdit::DeleteModule { path } => tables_replaced(
            items,
            modules_key(),
            tables_without(tables_at(items, modules_key())->0, path_key(), path@),
        ),
        ConfigEdit::MarkModuleAsUtility { path } => modules_edited(items, path@, edit),
        ConfigEdit::UnmarkModuleAsUtility { path } => modules_edited(items, path@, edit),
        ConfigEdit::AddDependency { path, .. } => modules_edited(items, path@, edit),
        ConfigEdit::RemoveDependency { path, .. } => modules_edited(items, path@, edit),
        ConfigEdit::AddSourceRoot { filepath } => source_root_added(items, filepath@),
        ConfigEdit::RemoveSourceRoot { filepath } => list_replaced(
            items,
            source_roots_key(),
            entries_without(list_at(items, source_roots_key())->0, filepath@),
        ),
    }
}

/// The document after `edits`, made in order.
pub open spec fn edits_applied(items: Map<Seq<char>, ItemView>, edits: Seq<ConfigEdit>) -> Map<
    Seq<char>,
    ItemView,
>
    decreases edits.len(),
{
    if edits.len() == 0 {
        items
    } else {
        edit_applied(edits_applied(items, edits.drop_last()), edits.last())
    }
}

/// Whether `text` is among `values`.
pub fn contains_text(values: &Vec<Option<String>>, text: &str) -> (r: bool)
    ensures
        r == texts(values@).contains(Some(text@)),
{
    let mut i: usize = 0;
    while i < values.len()
        invariant
            i <= values.len(),
            forall|j: int| 0 <= j < i ==> texts(values@)[j] != Some(text@),
        decreases values.len() - i,
    {
        let hit = match &values[i] {
            Some(value) => same_text(value.as_str(), text),
            None => false,
        };
        if hit {
            assert(texts(values@)[i as int] == Some(text@));
            return true;
        }
        i += 1;
    }
    false
}

/// Appends the table of a new module `path`.
fn create_module(doc: &mut toml_edit::DocumentMut, path: &str)
    ensures
        document_items(*final(doc)) == module_created(document_items(*old(doc)), path@),
{
    insert_table_array(doc, "modules");
    let ghost ready = document_items(*doc);
    if let Some(paths) = table_texts(doc, "modules", "path") {
        let last = paths.len();
        let ghost tables = tables_at(ready, modules_key())->0;
        push_table(doc, "modules");
        let ghost pushed = tables.push(Map::empty());
        assert(tables_at(document_items(*doc), modules_key()) == Some(pushed));
        set_table_text(doc, "modules", last, "path", path);
        let ghost named = Map::<Seq<char>, FieldView>::empty().insert(
            path_key(),
            FieldView::Text(path@),
        );
        assert(tables_at(document_items(*doc), modules_key()) == Some(
            pushed.update(last as int, named),
        ));
        proof {
            reveal_strlit("path");
            reveal_strlit("depends_on");
            assert(path_key().len() == 4);
            assert(depends_on_key().len() == 10);
            assert(!named.contains_key(depends_on_key()));
        }
        insert_table_list(doc, "modules", last, "depends_on");
        proof {
            assert(pushed.update(last as int, named).update(last as int, new_module_table(path@))
                =~= tables.push(new_module_table(path@)));
            assert(document_items(*doc) =~= module_created(document_items(*old(doc)), path@));
        }
    }
}

/// Makes `edit` in table `index` of the modules.
fn edit_module_table(doc: &mut toml_edit::DocumentMut, index: usize, edit: &ConfigEdit)
    requires
        has_table(document_items(*old(doc)), modules_key(), index as int),
    ensures
        document_items(*final(doc)) == table_replaced(
            document_items(*old(doc)),
            modules_key(),
            index as int,
            table_edited(table_at(document_items(*old(doc)), modules_key(), index as int), *edit),
        ),
{
    let ghost items = document_items(*doc);
    let ghost table = table_at(items, modules_key(), index as int);
    match edit {
        ConfigEdit::MarkModuleAsUtility { .. } => {
            set_table_flag(doc, "modules", index, "utility", true);
        },
        ConfigEdit::UnmarkModuleAsUtility { .. } => {
            remove_table_field(doc, "modules", index, "utility");
        },
        ConfigEdit::AddDependency { dependency, .. } => {
            insert_table_list(doc, "modules", index, "depends_on");
            let ghost ready = if table.contains_key(depends_on_key()) {
                table
            } else {
                table.insert(depends_on_key(), FieldView::List(Seq::empty()))
            };
            assert(table_at(document_items(*doc), modules_key(), index as int) == ready);
            push_table_list(doc, "modules", index, "depends_on", dependency.as_str());
            assert(document_items(*doc) =~= table_replaced(
                items,
                modules_key(),
                index as int,
                dependency_added(table, dependency@),
            )) by {
                let tables = tables_at(items, modules_key())->0;
                assert(tables.update(index as int, ready).update(
                    index as int,
                    dependency_added(table, dependency@),
                ) =~= tables.update(index as int, dependency_added(table, dependency@)));
            }
        },
        ConfigEdit::RemoveDependency { dependency, .. } => {
            retain_table_list(doc, "modules", index, "depends_on", dependency.as_str());
        },
        _ => {
            assert(items =~= table_replaced(items, modules_key(), index as int, table)) by {
                let tables = tables_at(items, modules_key())->0;
                assert(tables.update(index as int, table) =~= tables);
            }
        },
    }
}

/// Makes `edit` in every module table that declares `path`.
fn edit_modules(doc: &mut toml_edit::DocumentMut, path: &str, edit: &ConfigEdit)
    ensures
        document_items(*final(doc)) == modules_edited(document_items(*old(doc)), path@, *edit),
{
    let ghost items = document_items(*doc);
    if let Some(paths) = table_texts(doc, "modules", "path") {
        let ghost tables = tables_at(items, modules_key())->0;
        assert(module_tables_edited(tables, path@, *edit, 0) =~= tables);
        assert(items =~= items.insert(modules_key(), ItemView::Tables(tables)));
        let mut i: usize = 0;
        while i < paths.len()
            invariant
                i <= paths.len(),
                paths.len() == tables.len(),
                tables_at(items, modules_key()) == Some(tables),
                forall|j: int|
                    0 <= j < paths.len() ==> #[trigger] texts(paths@)[j] == text_field(
                        tables[j],
                        path_key(),
                    ),
                document_items(*doc) == items.insert(
                    modules_key(),
                    ItemView::Tables(module_tables_edited(tables, path@, *edit, i as int)),
                ),
            decreases paths.len() - i,
        {
            let hit = match &paths[i] {
                Some(found) => same_text(found.as_str(), path),
                None => false,
            };
            assert(hit == names_module(tables[i as int], path@)) by {
                assert(texts(paths@)[i as int] == text_field(tables[i as int], path_key()));
            }
            let ghost before = module_tables_edited(tables, path@, *edit, i as int);
            if hit {
                assert(before[i as int] == tables[i as int]);
                edit_module_table(doc, i, edit);
                assert(before.update(i as int, table_edited(tables[i as int], *edit))
                    =~= module_tables_edited(tables, path@, *edit, i + 1));
                assert(document_items(*doc) =~= items.insert(
                    modules_key(),
                    ItemView::Tables(module_tables_edited(tables, path@, *edit, i + 1)),
                ));
            } else {
                assert(before =~= module_tables_edited(tables, path@, *edit, i + 1));
            }
            i += 1;
        }
    }
}

/// Makes `edit` in `doc`.
pub fn apply_edit(doc: &mut toml_edit::DocumentMut, edit: &ConfigEdit)
    ensures
        document_items(*final(doc)) == edit_applied(document_items(*old(doc)), *edit),
{
    match edit {
        ConfigEdit::CreateModule { path } => create_module(doc, path.as_str()),
        ConfigEdit::DeleteModule { path } => retain_tables(doc, "modules", "path", path.as_str()),
        ConfigEdit::MarkModuleAsUtility { path } => edit_modules(doc, path.as_str(), edit),
        ConfigEdit::UnmarkModuleAsUtility { path } => edit_modules(doc, path.as_str(), edit),
        ConfigEdit::AddDependency { path, .. } => edit_modules(doc, path.as_str(), edit),
        ConfigEdit::RemoveDependency { path, .. } => edit_modules(doc, path.as_str(), edit),
        ConfigEdit::AddSourceRoot { filepath } => {
            if let Some(roots) = list_texts(doc, "source_roots") {
                if !contains_text(&roots, filepath.as_str()) {
                    push_list(doc, "source_roots", filepath.as_str());
                }
            }
        },
        ConfigEdit::RemoveSourceRoot { filepath } => retain_list(
            doc,
            "source_roots",
            filepath.as_str(),
        ),
    }
}

/// Makes `edits` in `doc`, in order.
pub fn apply_edits(doc: &mut toml_edit::DocumentMut, edits: &Vec<ConfigEdit>)
    ensures
        document_items(*final(doc)) == edits_applied(document_items(*old(doc)), edits@),
{
    let mut i: usize = 0;
    while i < edits.len()
        invariant
            i <= edits.len(),
            document_items(*doc) == edits_applied(
                document_items(*old(doc)),
                edits@.subrange(0, i as int),
            ),
        decreases edits.len() - i,
    {
        apply_edit(doc, &edits[i]);
        proof {
            let done = edits@.subrange(0, i + 1);
            assert(done.drop_last() =~= edits@.subrange(0, i as int));
            assert(done.last() == edits@[i as int]);
        }
        i += 1;
    }
    assert(edits@.subrange(0, edits.len() as int) =~= edits@);
}

/// Whether `out` is the text of a document that holds what the document
/// `text` holds after `edits`.
pub open spec fn is_edited_text(text: Seq<char>, edits: Seq<ConfigEdit>, out: Seq<char>) -> bool {
    parsed_document(text) matches Some(parsed) && exists|after: toml_edit::DocumentMut|
        document_items(after) == edits_applied(document_items(parsed), edits) && out
            == #[trigger] document_text(after)
}

/// The text of the document `text` after `edits`.
///
/// Fails with `ParsingFailed` exactly where `text` is not a well-formed
/// document. Otherwise the result is the text of a document that holds what
/// the parsed one holds after the edits.
pub fn edited_document(text: &str, edits: &Vec<ConfigEdit>) -> (r: Result<String, EditError>)
    ensures
        match parsed_document(text@) {
            None => r == Err::<String, EditError>(EditError::ParsingFailed),
            Some(_) => r matches Ok(out) && is_edited_text(text@, edits@, out@),
        },
{
    match parse_document(text) {
        None => Err(EditError::ParsingFailed),
        Some(parsed) => {
            let mut doc = parsed;
            apply_edits(&mut doc, edits);
            let out = render_document(&doc);
            assert(out@ == document_text(doc));
            Ok(out)
        },
    }
}

/// How often the string `text` stands among `entries`.
pub open spec fn occurrences(entries: Seq<Option<Seq<char>>>, text: Seq<char>) -> nat {
    entries.filter(|entry: Option<Seq<char>>| entry == Some(text)).len()
}

/// A string that is not among the entries stands there no times.
pub proof fn lemma_absent_occurs_never(entries: Seq<Option<Seq<char>>>, text: Seq<char>)
    requires
        !entries.contains(Some(text)),
    ensures
        occurrences(entries, text) == 0,
    decreases entries.len(),
{
    let same = |entry: Option<Seq<char>>| entry == Some(text);
    if entries.len() == 0 {
        crate::seqs::lemma_filter_empty(same);
        assert(entries =~= Seq::empty());
    } else {
        let front = entries.drop_last();
        assert(front.push(entries.last()) =~= entries);
        assert(!front.contains(Some(text))) by {
            if front.contains(Some(text)) {
                let i = choose|i: int| 0 <= i < front.len() && front[i] == Some(text);
                assert(entries[i] == Some(text));
            }
        }
        assert(entries[entries.len() - 1] != Some(text));
        lemma_absent_occurs_never(front, text);
        crate::seqs::lemma_filter_push(front, entries.last(), same);
    }
}

/// Adding a source root puts it among the source roots, once where it was
/// not there, and adding it again changes nothing.
pub proof fn lemma_source_root_added_once(items: Map<Seq<char>, ItemView>, root: Seq<char>)
    ensures
        source_root_added(source_root_added(items, root), root) == source_root_added(items, root),
        list_at(items, source_roots_key()) matches Some(entries) ==> {
            let after = list_at(source_root_added(items, root), source_roots_key());
            &&& after is Some
            &&& after->0.contains(Some(root))
            &&& occurrences(after->0, root) == if entries.contains(Some(root)) {
                occurrences(entries, root)
            } else {
                1
            }
        },
{
    if list_at(items, source_roots_key()) is Some {
        let entries = list_at(items, source_roots_key())->0;
        if !entries.contains(Some(root)) {
            let grown = entries.push(Some(root));
            assert(grown[grown.len() - 1] == Some(root));
            lemma_absent_occurs_never(entries, root);
            crate::seqs::lemma_filter_push(
                entries,
                Some(root),
                |entry: Option<Seq<char>>| entry == Some(root),
            );
        }
    }
}

} // verus!
