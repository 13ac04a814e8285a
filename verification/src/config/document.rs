//! The policy document as `toml_edit` holds it, and what this crate reads
//! and changes in it.
//!
//! Verified code sees a document only through [`document_items`]: the items
//! at its top level, by key. Every function in this file that is marked
//! `external_body` makes one kind of call into `toml_edit`; its contract says
//! what that call does to the items and is taken on trust.

use vstd::prelude::*;

verus! {

#[verifier::external_type_specification]
#[verifier::external_body]
pub struct ExDocumentMut(toml_edit::DocumentMut);

/// What a key of a table holds.
pub enum FieldView {
    /// A string.
    Text(Seq<char>),
    /// A boolean.
    Flag(bool),
    /// An array; an entry is `Some` where it is a string.
    List(Seq<Option<Seq<char>>>),
    /// Anything else.
    Other,
}

/// What a key at the top level of a document holds.
pub enum ItemView {
    /// An array of tables, each a map from its keys to what they hold.
    Tables(Seq<Map<Seq<char>, FieldView>>),
    /// An array; an entry is `Some` where it is a string.
    List(Seq<Option<Seq<char>>>),
    /// Anything else.
    Other,
}

/// The items at the top level of `doc`, by key. A key that holds nothing is
/// not in the map.
pub uninterp spec fn document_items(doc: toml_edit::DocumentMut) -> Map<Seq<char>, ItemView>;

/// The document that `text` parses to, `None` where it is not well formed.
pub uninterp spec fn parsed_document(text: Seq<char>) -> Option<toml_edit::DocumentMut>;

/// The text that `doc` is written out as.
pub uninterp spec fn document_text(doc: toml_edit::DocumentMut) -> Seq<char>;

/// The array of tables under `key`, if that is what `key` holds.
pub open spec fn tables_at(items: Map<Seq<char>, ItemView>, key: Seq<char>) -> Option<
    Seq<Map<Seq<char>, FieldView>>,
> {
    if items.contains_key(key) {
        match items[key] {
            ItemView::Tables(tables) => Some(tables),
            _ => None,
        }
    } else {
        None
    }
}

/// The array under `key`, if that is what `key` holds.
pub open spec fn list_at(items: Map<Seq<char>, ItemView>, key: Seq<char>) -> Option<
    Seq<Option<Seq<char>>>,
> {
    if items.contains_key(key) {
        match items[key] {
            ItemView::List(entries) => Some(entries),
            _ => None,
        }
    } else {
        None
    }
}

/// The string under `field`, if that is what `field` holds.
pub open spec fn text_field(table: Map<Seq<char>, FieldView>, field: Seq<char>) -> Option<
    Seq<char>,
> {
    if table.contains_key(field) {
        match table[field] {
            FieldView::Text(text) => Some(text),
            _ => None,
        }
    } else {
        None
    }
}

/// The array under `field`, if that is what `field` holds.
pub open spec fn list_field(table: Map<Seq<char>, FieldView>, field: Seq<char>) -> Option<
    Seq<Option<Seq<char>>>,
> {
    if table.contains_key(field) {
        match table[field] {
            FieldView::List(entries) => Some(entries),
            _ => None,
        }
    } else {
        None
    }
}

/// The views of optional strings.
pub open spec fn texts(values: Seq<Option<String>>) -> Seq<Option<Seq<char>>> {
    values.map_values(
        |value: Option<String>|
            match value {
                Some(text) => Some(text@),
                None => None,
            },
    )
}

/// Whether `entry` is something other than the string `text`.
pub open spec fn entry_differs(entry: Option<Seq<char>>, text: Seq<char>) -> bool {
    entry != Some(text)
}

/// `entries` without the strings equal to `text`.
pub open spec fn entries_without(entries: Seq<Option<Seq<char>>>, text: Seq<char>) -> Seq<
    Option<Seq<char>>,
> {
    entries.filter(|entry: Option<Seq<char>>| entry_differs(entry, text))
}

/// `tables` without those whose `field` is the string `text`.
pub open spec fn tables_without(
    tables: Seq<Map<Seq<char>, FieldView>>,
    field: Seq<char>,
    text: Seq<char>,
) -> Seq<Map<Seq<char>, FieldView>> {
    tables.filter(
        |table: Map<Seq<char>, FieldView>| entry_differs(text_field(table, field), text),
    )
}

/// Table `index` of the array of tables under `key`.
pub open spec fn table_at(items: Map<Seq<char>, ItemView>, key: Seq<char>, index: int) -> Map<
    Seq<char>,
    FieldView,
> {
    tables_at(items, key)->0[index]
}

/// Whether `key` holds an array of tables with a table `index`.
pub open spec fn has_table(items: Map<Seq<char>, ItemView>, key: Seq<char>, index: int) -> bool {
    tables_at(items, key) matches Some(tables) && 0 <= index < tables.len()
}

/// `items` with table `index` under `key` replaced by `table`; `items` itself
/// where there is no such table.
pub open spec fn table_replaced(
    items: Map<Seq<char>, ItemView>,
    key: Seq<char>,
    index: int,
    table: Map<Seq<char>, FieldView>,
) -> Map<Seq<char>, ItemView> {
    if has_table(items, key, index) {
        items.insert(key, ItemView::Tables(tables_at(items, key)->0.update(index, table)))
    } else {
        items
    }
}

/// `items` with the array under `key` replaced by `entries`; `items` itself
/// where `key` holds no array.
pub open spec fn list_replaced(
    items: Map<Seq<char>, ItemView>,
    key: Seq<char>,
    entries: Seq<Option<Seq<char>>>,
) -> Map<Seq<char>, ItemView> {
    if list_at(items, key) is Some {
        items.insert(key, ItemView::List(entries))
    } else {
        items
    }
}

/// `items` with the array of tables under `key` replaced by `tables`; `items`
/// itself where `key` holds no array of tables.
pub open spec fn tables_replaced(
    items: Map<Seq<char>, ItemView>,
    key: Seq<char>,
    tables: Seq<Map<Seq<char>, FieldView>>,
) -> Map<Seq<char>, ItemView> {
    if tables_at(items, key) is Some {
        items.insert(key, ItemView::Tables(tables))
    } else {
        items
    }
}

/// `table` with the array under `field` replaced by `entries`; `table` itself
/// where `field` holds no array.
pub open spec fn field_list_replaced(
    table: Map<Seq<char>, FieldView>,
    field: Seq<char>,
    entries: Seq<Option<Seq<char>>>,
) -> Map<Seq<char>, FieldView> {
    if list_field(table, field) is Some {
        table.insert(field, FieldView::List(entries))
    } else {
        table
    }
}

/// Whether an entry of an array is kept when the string `text` is taken out.
pub fn differs(entry: Option<&str>, text: &str) -> (r: bool)
    ensures
        r == entry_differs(
            match entry {
                Some(s) => Some(s@),
                None => None,
            },
            text@,
        ),
{
    match entry {
        Some(s) => !crate::paths::same_text(s, text),
        None => true,
    }
}

/// Parses `text` with `DocumentMut::from_str`. Trusted: the outcome is a
/// function of `text` alone, named [`parsed_document`].
#[verifier::external_body]
pub(crate) fn parse_document(text: &str) -> (r: Option<toml_edit::DocumentMut>)
    ensures
        r == parsed_document(text@),
{
    text.parse::<toml_edit::DocumentMut>().ok()
}

/// Writes `doc` out with its `Display` impl. Trusted: the text is a function
/// of the document, named [`document_text`].
#[verifier::external_body]
pub(crate) fn render_document(doc: &toml_edit::DocumentMut) -> (r: String)
    ensures
        r@ == document_text(*doc),
{
    doc.to_string()
}

/// Reads the array under `key` with `Table::get`, `Item::as_array` and
/// `Array::iter`, each entry through `Value::as_str`. Trusted: `Some` exactly
/// where `key` holds an array, and then its entries in order.
#[verifier::external_body]
pub(crate) fn list_texts(doc: &toml_edit::DocumentMut, key: &str) -> (r: Option<
    Vec<Option<String>>,
>)
    ensures
        r is Some <==> list_at(document_items(*doc), key@) is Some,
        r matches Some(values) ==> list_at(document_items(*doc), key@) == Some(texts(values@)),
{
    doc.get(key).and_then(|item| item.as_array()).map(
        |array| array.iter().map(|value| value.as_str().map(String::from)).collect(),
    )
}

/// Reads, for each table of the array of tables under `key`, the string under
/// `field`, with `Item::as_array_of_tables`, `ArrayOfTables::iter`,
/// `Table::get` and `Item::as_str`. Trusted: `Some` exactly where `key` holds
/// an array of tables, and then one entry for each table, in order.
#[verifier::external_body]
pub(crate) fn table_texts(doc: &toml_edit::DocumentMut, key: &str, field: &str) -> (r: Option<
    Vec<Option<String>>,
>)
    ensures
        r is Some <==> tables_at(document_items(*doc), key@) is Some,
        r matches Some(values) ==> {
            &&& values.len() == tables_at(document_items(*doc), key@)->0.len()
            &&& forall|i: int|
                0 <= i < values.len() ==> #[trigger] texts(values@)[i] == text_field(
                    table_at(document_items(*doc), key@, i),
                    field@,
                )
        },
{
    doc.get(key).and_then(|item| item.as_array_of_tables()).map(
        |tables|
            tables.iter().map(
                |table| table.get(field).and_then(|item| item.as_str()).map(String::from),
            ).collect(),
    )
}

/// Puts an empty array of tables under `key` with `Item::or_insert`. Trusted:
/// a key that already holds something keeps it.
#[verifier::external_body]
pub(crate) fn insert_table_array(doc: &mut toml_edit::DocumentMut, key: &str)
    ensures
        document_items(*final(doc)) == if document_items(*old(doc)).contains_key(key@) {
            document_items(*old(doc))
        } else {
            document_items(*old(doc)).insert(key@, ItemView::Tables(Seq::empty()))
        },
{
    doc[key].or_insert(toml_edit::Item::ArrayOfTables(toml_edit::ArrayOfTables::new()));
}

/// Appends an empty table to the array of tables under `key` with
/// `ArrayOfTables::push`. Trusted: nothing changes where `key` holds no array
/// of tables.
#[verifier::external_body]
pub(crate) fn push_table(doc: &mut toml_edit::DocumentMut, key: &str)
    ensures
        document_items(*final(doc)) == tables_replaced(
            document_items(*old(doc)),
            key@,
            tables_at(document_items(*old(doc)), key@)->0.push(Map::empty()),
        ),
{
    if let Some(tables) = doc.get_mut(key).and_then(|item| item.as_array_of_tables_mut()) {
        tables.push(toml_edit::Table::new());
    }
}

/// Keeps, with `ArrayOfTables::retain`, the tables under `key` whose `field`
/// is not the string `text`. Trusted: the others stay in order; nothing
/// changes where `key` holds no array of tables.
#[verifier::external_body]
pub(crate) fn retain_tables(doc: &mut toml_edit::DocumentMut, key: &str, field: &str, text: &str)
    ensures
        document_items(*final(doc)) == tables_replaced(
            document_items(*old(doc)),
            key@,
            tables_without(tables_at(document_items(*old(doc)), key@)->0, field@, text@),
        ),
{
    if let Some(tables) = doc.get_mut(key).and_then(|item| item.as_array_of_tables_mut()) {
        tables.retain(|table| differs(table.get(field).and_then(|item| item.as_str()), text));
    }
}

/// Sets `field` of table `index` under `key` to the string `text` with
/// `Table::insert`. Trusted: nothing changes where there is no such table.
#[verifier::external_body]
pub(crate) fn set_table_text(
    doc: &mut toml_edit::DocumentMut,
    key: &str,
    index: usize,
    field: &str,
    text: &str,
)
    ensures
        document_items(*final(doc)) == table_replaced(
            document_items(*old(doc)),
            key@,
            index as int,
            table_at(document_items(*old(doc)), key@, index as int).insert(
                field@,
                FieldView::Text(text@),
            ),
        ),
{
    let tables = doc.get_mut(key).and_then(|item| item.as_array_of_tables_mut());
    if let Some(table) = tables.and_then(|tables| tables.get_mut(index)) {
        table.insert(field, toml_edit::value(text));
    }
}

/// Sets `field` of table `index` under `key` to the boolean `flag` with
/// `Table::insert`. Trusted: nothing changes where there is no such table.
#[verifier::external_body]
pub(crate) fn set_table_flag(
    doc: &mut toml_edit::DocumentMut,
    key: &str,
    index: usize,
    field: &str,
    flag: bool,
)
    ensures
        document_items(*final(doc)) == table_replaced(
            document_items(*old(doc)),
            key@,
            index as int,
            table_at(document_items(*old(doc)), key@, index as int).insert(
                field@,
                FieldView::Flag(flag),
            ),
        ),
{
    let tables = doc.get_mut(key).and_then(|item| item.as_array_of_tables_mut());
    if let Some(table) = tables.and_then(|tables| tables.get_mut(index)) {
        table.insert(field, toml_edit::value(flag));
    }
}

/// Takes `field` out of table `index` under `key` with `Table::remove`.
/// Trusted: nothing changes where there is no such table.
#[verifier::external_body]
pub(crate) fn remove_table_field(
    doc: &mut toml_edit::DocumentMut,
    key: &str,
    index: usize,
    field: &str,
)
    ensures
        document_items(*final(doc)) == table_replaced(
            document_items(*old(doc)),
            key@,
            index as int,
            table_at(document_items(*old(doc)), key@, index as int).remove(field@),
        ),
{
    let tables = doc.get_mut(key).and_then(|item| item.as_array_of_tables_mut());
    if let Some(table) = tables.and_then(|tables| tables.get_mut(index)) {
        table.remove(field);
    }
}

/// Puts an empty array under `field` of table `index` under `key` with
/// `Item::or_insert`. Trusted: a field that already holds something keeps it;
/// nothing changes where there is no such table.
#[verifier::external_body]
pub(crate) fn insert_table_list(
    doc: &mut toml_edit::DocumentMut,
    key: &str,
    index: usize,
    field: &str,
)
    ensures
        document_items(*final(doc)) == table_replaced(
            document_items(*old(doc)),
            key@,
            index as int,
            if table_at(document_items(*old(doc)), key@, index as int).contains_key(field@) {
                table_at(document_items(*old(doc)), key@, index as int)
            } else {
                table_at(document_items(*old(doc)), key@, index as int).insert(
                    field@,
                    FieldView::List(Seq::empty()),
                )
            },
        ),
{
    let tables = doc.get_mut(key).and_then(|item| item.as_array_of_tables_mut());
    if let Some(table) = tables.and_then(|tables| tables.get_mut(index)) {
        table[field].or_insert(toml_edit::value(toml_edit::Array::new()));
    }
}

/// Appends the string `text` to the array under `field` of table `index`
/// under `key` with `Array::push`. Trusted: nothing changes where there is no
/// such table or `field` holds no array.
#[verifier::external_body]
pub(crate) fn push_table_list(
    doc: &mut toml_edit::DocumentMut,
    key: &str,
    index: usize,
    field: &str,
    text: &str,
)
    ensures
        document_items(*final(doc)) == table_replaced(
            document_items(*old(doc)),
            key@,
            index as int,
            field_list_replaced(
                table_at(document_items(*old(doc)), key@, index as int),
                field@,
                list_field(table_at(document_items(*old(doc)), key@, index as int), field@)->0.push(
                    Some(text@),
                ),
            ),
        ),
{
    let tables = doc.get_mut(key).and_then(|item| item.as_array_of_tables_mut());
    let table = tables.and_then(|tables| tables.get_mut(index));
    if let Some(array) = table.and_then(|t| t.get_mut(field)).and_then(|item| item.as_array_mut()) {
        array.push(text);
    }
}

/// Keeps, with `Array::retain`, the entries of the array under `field` of
/// table `index` under `key` that are not the string `text`. Trusted: the
/// others stay in order; nothing changes where there is no such array.
#[verifier::external_body]
pub(crate) fn retain_table_list(
    doc: &mut toml_edit::DocumentMut,
    key: &str,
    index: usize,
    field: &str,
    text: &str,
)
    ensures
        document_items(*final(doc)) == table_replaced(
            document_items(*old(doc)),
            key@,
            index as int,
            field_list_replaced(
                table_at(document_items(*old(doc)), key@, index as int),
                field@,
                entries_without(
                    list_field(table_at(document_items(*old(doc)), key@, index as int), field@)->0,
                    text@,
                ),
            ),
        ),
{
    let tables = doc.get_mut(key).and_then(|item| item.as_array_of_tables_mut());
    let table = tables.and_then(|tables| tables.get_mut(index));
    if let Some(array) = table.and_then(|t| t.get_mut(field)).and_then(|item| item.as_array_mut()) {
        array.retain(|value| differs(value.as_str(), text));
    }
}

/// Appends the string `text` to the array under `key` with `Array::push`.
/// Trusted: nothing changes where `key` holds no array.
#[verifier::external_body]
pub(crate) fn push_list(doc: &mut toml_edit::DocumentMut, key: &str, text: &str)
    ensures
        document_items(*final(doc)) == list_replaced(
            document_items(*old(doc)),
            key@,
            list_at(document_items(*old(doc)), key@)->0.push(Some(text@)),
        ),
{
    if let Some(array) = doc.get_mut(key).and_then(|item| item.as_array_mut()) {
        array.push(text);
    }
}

/// Keeps, with `Array::retain`, the entries of the array under `key` that are
/// not the string `text`. Trusted: the others stay in order; nothing changes
/// where `key` holds no array.
#[verifier::external_body]
pub(crate) fn retain_list(doc: &mut toml_edit::DocumentMut, key: &str, text: &str)
    ensures
        document_items(*final(doc)) == list_replaced(
            document_items(*old(doc)),
            key@,
            entries_without(list_at(document_items(*old(doc)), key@)->0, text@),
        ),
{
    if let Some(array) = doc.get_mut(key).and_then(|item| item.as_array_mut()) {
        array.retain(|value| differs(value.as_str(), text));
    }
}

} // verus!
