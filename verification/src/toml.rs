//! The parts of `toml_edit` that the Codex configuration edit uses, with the
//! contracts that this library relies on. A document (or table) is seen
//! through its entries: for each key whose item is not empty, a string, a
//! boolean, a table or inline table (with its own entries), or something
//! else.
use toml_edit::{DocumentMut, Item, Table, TomlError};
use vstd::prelude::*;

verus! {

#[verifier::external_type_specification]
#[verifier::external_body]
pub struct ExDocumentMut(DocumentMut);

#[verifier::external_type_specification]
#[verifier::external_body]
pub struct ExTable(Table);

#[verifier::external_type_specification]
#[verifier::external_body]
pub struct ExTomlError(TomlError);

/// What an entry of a TOML table holds: a string value
/// (`Item::Value(Value::String)`), a boolean value, a table (`Item::Table`)
/// or inline table (`Value::InlineTable`) with its own entries, or any other
/// item (numbers, dates, arrays, arrays of tables). Keys whose item is
/// `Item::None` are not entries, as `Table::get` skips them.
pub enum TomlEntry {
    Text(Seq<char>),
    Flag(bool),
    Table(Map<Seq<char>, TomlEntry>),
    InlineTable(Map<Seq<char>, TomlEntry>),
    Other,
}

/// The entries of the document that `toml_edit` parses from `text`, or
/// `None` where it rejects the text.
pub uninterp spec fn toml_parse_view(text: Seq<char>) -> Option<Map<Seq<char>, TomlEntry>>;

/// The entries that a document's root table holds.
pub uninterp spec fn toml_document_view(doc: DocumentMut) -> Map<Seq<char>, TomlEntry>;

/// The entries that a table holds.
pub uninterp spec fn toml_table_view(table: Table) -> Map<Seq<char>, TomlEntry>;

/// What `Display` writes of the document is TOML that `toml_edit`'s parser
/// reads back: its decor and value representations are ones that the
/// parser or `toml_edit`'s defaults produced, no implicit table is left
/// without entries (`Display` leaves such a table out), and it stays within
/// the parser's limits (fewer than 80 keys in any table header or dotted
/// key, fewer than 80 levels of arrays and inline tables in a value).
pub uninterp spec fn toml_renders_back(doc: DocumentMut) -> bool;

/// The same of a table: its entries, written under a header, are read back
/// as they are (default or parsed decor and representations, no implicit
/// table without entries, within the parser's limits).
pub uninterp spec fn toml_table_renders_back(table: Table) -> bool;

/// Every entry of `m` is a string or a boolean.
pub open spec fn flat_entries(m: Map<Seq<char>, TomlEntry>) -> bool {
    forall|k: Seq<char>| #[trigger] m.dom().contains(k) ==> (m[k] is Text || m[k] is Flag)
}

/// No table sits inside an inline table, at any depth. Only such a value is
/// written out whole: `toml_edit` renders an inline table from its values
/// and leaves out a table placed in it.
pub open spec fn renders_faithfully(e: TomlEntry) -> bool
    decreases e,
{
    match e {
        TomlEntry::Table(m) => forall|k: Seq<char>| #[trigger]
            m.dom().contains(k) ==> renders_faithfully(m[k]),
        TomlEntry::InlineTable(m) => forall|k: Seq<char>| #[trigger]
            m.dom().contains(k) ==> (m[k] !is Table && renders_faithfully(m[k])),
        _ => true,
    }
}

/// Every entry of `m` renders faithfully.
pub open spec fn entries_render_faithfully(m: Map<Seq<char>, TomlEntry>) -> bool {
    forall|k: Seq<char>| #[trigger] m.dom().contains(k) ==> renders_faithfully(m[k])
}

/// `m` holds a string under `key`.
pub open spec fn text_entry(m: Map<Seq<char>, TomlEntry>, key: Seq<char>) -> Option<Seq<char>> {
    if m.dom().contains(key) {
        match m[key] {
            TomlEntry::Text(s) => Some(s),
            _ => None,
        }
    } else {
        None
    }
}

/// `m` holds, under `key`, a table or inline table with an entry `sub`.
pub open spec fn has_sub_entry(m: Map<Seq<char>, TomlEntry>, key: Seq<char>, sub: Seq<char>) -> bool {
    m.dom().contains(key) && match m[key] {
        TomlEntry::Table(t) => t.dom().contains(sub),
        TomlEntry::InlineTable(t) => t.dom().contains(sub),
        _ => false,
    }
}

/// Under `key`, `m` holds nothing or a table (not an inline table).
pub open spec fn table_or_absent(m: Map<Seq<char>, TomlEntry>, key: Seq<char>) -> bool {
    !m.dom().contains(key) || m[key] is Table
}

/// `m` with the table `t` placed under `sub` in the table under `key`.
pub open spec fn with_sub_table(
    m: Map<Seq<char>, TomlEntry>,
    key: Seq<char>,
    sub: Seq<char>,
    t: Map<Seq<char>, TomlEntry>,
) -> Map<Seq<char>, TomlEntry> {
    match m[key] {
        TomlEntry::Table(e) => m.insert(key, TomlEntry::Table(e.insert(sub, TomlEntry::Table(t)))),
        _ => m,
    }
}

/// `text.parse::<DocumentMut>()`: fails exactly where `toml_parse_view`
/// says so, and otherwise yields a document with the entries it names. The
/// parser builds inline tables from values only, so a parsed document
/// renders faithfully; and what it was read from renders back.
#[verifier::external_body]
pub(crate) fn parse_document(text: &str) -> (r: Result<DocumentMut, TomlError>)
    ensures
        r is Ok <==> toml_parse_view(text@) is Some,
        r matches Ok(d) ==> toml_document_view(d) == toml_parse_view(text@)->0,
        r matches Ok(d) ==> entries_render_faithfully(toml_document_view(d)),
        r matches Ok(d) ==> toml_renders_back(d),
{
    text.parse::<DocumentMut>()
}

/// `TomlError`'s `Display` text. Nothing is stated of it.
#[verifier::external_body]
pub(crate) fn parse_error_text(e: &TomlError) -> String {
    e.to_string()
}

/// `doc.get(key).and_then(|item| item.as_str())`: the string held under `key`.
#[verifier::external_body]
pub(crate) fn document_text(doc: &DocumentMut, key: &str) -> (r: Option<String>)
    ensures
        r matches Some(s) ==> text_entry(toml_document_view(*doc), key@) == Some(s@),
        r is None ==> text_entry(toml_document_view(*doc), key@) is None,
{
    doc.get(key).and_then(|item| item.as_str()).map(|s| s.to_string())
}

/// `doc.as_table().contains_key(key)`.
#[verifier::external_body]
pub(crate) fn document_contains(doc: &DocumentMut, key: &str) -> (r: bool)
    ensures
        r == toml_document_view(*doc).dom().contains(key@),
{
    doc.as_table().contains_key(key)
}

/// `doc.get(key).is_some_and(|item| item.is_table())`: a table (not an
/// inline table) is held under `key`.
#[verifier::external_body]
pub(crate) fn document_entry_is_table(doc: &DocumentMut, key: &str) -> (r: bool)
    ensures
        r == (toml_document_view(*doc).dom().contains(key@) && toml_document_view(*doc)[key@] is Table),
{
    doc.get(key).is_some_and(|item| item.is_table())
}

/// `doc.get(key).and_then(|item| item.get(sub)).is_some()`.
#[verifier::external_body]
pub(crate) fn document_has_sub_entry(doc: &DocumentMut, key: &str, sub: &str) -> (r: bool)
    ensures
        r == has_sub_entry(toml_document_view(*doc), key@, sub@),
{
    doc.get(key).and_then(|item| item.get(sub)).is_some()
}

/// `doc[key] = toml_edit::value(text)`: the entry under `key` becomes that
/// string, written with its default representation.
#[verifier::external_body]
pub(crate) fn document_set_text(doc: &mut DocumentMut, key: &str, text: &str)
    ensures
        toml_document_view(*final(doc)) == toml_document_view(*old(doc)).insert(
            key@,
            TomlEntry::Text(text@),
        ),
        toml_renders_back(*old(doc)) ==> toml_renders_back(*final(doc)),
{
    doc[key] = toml_edit::value(text);
}

/// `doc[key] = Item::Table(Table::new())`: the entry under `key` becomes an
/// empty table (not implicit), whose header holds one key.
#[verifier::external_body]
pub(crate) fn document_set_empty_table(doc: &mut DocumentMut, key: &str)
    ensures
        toml_document_view(*final(doc)) == toml_document_view(*old(doc)).insert(
            key@,
            TomlEntry::Table(no_entries()),
        ),
        toml_renders_back(*old(doc)) ==> toml_renders_back(*final(doc)),
{
    doc[key] = Item::Table(Table::new());
}

/// `doc[key][sub] = Item::Table(table)`: the table under `key` holds
/// `table` under `sub`, in place of whatever it held there. Indexing into
/// anything but a table or inline table under `key` panics, and a table
/// inside an inline table is not rendered, hence the requirement. A table of
/// strings and booleans there has a header of two keys.
#[verifier::external_body]
pub(crate) fn document_set_sub_table(doc: &mut DocumentMut, key: &str, sub: &str, table: Table)
    requires
        toml_document_view(*old(doc)).dom().contains(key@),
        toml_document_view(*old(doc))[key@] is Table,
    ensures
        toml_document_view(*final(doc)) == with_sub_table(
            toml_document_view(*old(doc)),
            key@,
            sub@,
            toml_table_view(table),
        ),
        toml_renders_back(*old(doc)) && toml_table_renders_back(table) && flat_entries(
            toml_table_view(table),
        ) ==> toml_renders_back(*final(doc)),
{
    doc[key][sub] = Item::Table(table);
}

/// The document's text, as `Display` renders it. It keeps the formatting,
/// comments and order of the parsed file, which the entries do not
/// describe; what is stated is that parsing the text gives back the
/// document's entries, where no table sits inside an inline table and the
/// document renders back.
#[verifier::external_body]
pub(crate) fn render_document(doc: &DocumentMut) -> (r: String)
    requires
        entries_render_faithfully(toml_document_view(*doc)),
        toml_renders_back(*doc),
    ensures
        toml_parse_view(r@) == Some(toml_document_view(*doc)),
{
    doc.to_string()
}

/// A table without entries.
pub open spec fn no_entries() -> Map<Seq<char>, TomlEntry> {
    Map::empty()
}

/// `Table::new()`.
#[verifier::external_body]
pub(crate) fn new_table() -> (r: Table)
    ensures
        toml_table_view(r) == no_entries(),
        toml_table_renders_back(r),
{
    Table::new()
}

/// `table[key] = toml_edit::value(text)`.
#[verifier::external_body]
pub(crate) fn table_set_text(table: &mut Table, key: &str, text: &str)
    ensures
        toml_table_view(*final(table)) == toml_table_view(*old(table)).insert(
            key@,
            TomlEntry::Text(text@),
        ),
        toml_table_renders_back(*old(table)) ==> toml_table_renders_back(*final(table)),
{
    table[key] = toml_edit::value(text);
}

/// `table[key] = toml_edit::value(flag)`.
#[verifier::external_body]
pub(crate) fn table_set_flag(table: &mut Table, key: &str, flag: bool)
    ensures
        toml_table_view(*final(table)) == toml_table_view(*old(table)).insert(
            key@,
            TomlEntry::Flag(flag),
        ),
        toml_table_renders_back(*old(table)) ==> toml_table_renders_back(*final(table)),
{
    table[key] = toml_edit::value(flag);
}

} // verus!
