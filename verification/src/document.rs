//! The declarations as a TOML document that is edited in place.
//!
//! Declaring a link must not disturb what a person wrote into the file, so
//! the file is not written anew from the table: it is parsed by `toml_edit`
//! into a document that keeps comments and layout, the link is put into that
//! document, and the document is written back. What `toml_edit` does is not
//! verified here. This file states what is relied on; everything else is
//! proved from that.

use vstd::prelude::*;

verus! {

/// `toml_edit::Document`, a parsed TOML document. Nothing of its inside is
/// visible to the verifier.
#[verifier::external_type_specification]
#[verifier::external_body]
pub struct ExDocument(toml_edit::Document);

/// `toml_edit::TomlError`, why a text is no TOML document.
#[verifier::external_type_specification]
#[verifier::external_body]
pub struct ExTomlError(toml_edit::TomlError);

/// The key paths at which a document holds a table: those paths that,
/// followed key by key from the root with `Item::get`, end at an item for
/// which `Item::is_table` holds. The empty path is the root.
pub uninterp spec fn document_tables(document: toml_edit::Document) -> Set<Seq<Seq<char>>>;

/// The strings that a document holds, by key path: a path is in the map if,
/// followed key by key from the root with `Item::get`, it ends at an item
/// for which `Item::as_str` gives a string, and it maps to that string.
pub uninterp spec fn document_strings(document: toml_edit::Document) -> Map<
    Seq<Seq<char>>,
    Seq<char>,
>;

/// The text of a document: what its `Display` writes.
pub uninterp spec fn document_text(document: toml_edit::Document) -> Seq<char>;

/// What parsing a text gives: nothing where `Document::from_str` refuses
/// the text, else the table paths and the strings of the document that it
/// gives, as `document_tables` and `document_strings` define them.
pub uninterp spec fn toml_contents(text: Seq<char>) -> Option<
    (Set<Seq<Seq<char>>>, Map<Seq<Seq<char>>, Seq<char>>),
>;

/// Whether `path` is `at` or lies below it.
pub open spec fn under(at: Seq<Seq<char>>, path: Seq<Seq<char>>) -> bool {
    at.is_prefix_of(path)
}

/// The table paths once an empty table stands at `at`: `at` itself, nothing
/// below it, and every other path as before.
pub open spec fn tables_with(tables: Set<Seq<Seq<char>>>, at: Seq<Seq<char>>) -> Set<
    Seq<Seq<char>>,
> {
    Set::new(
        |path: Seq<Seq<char>>|
            if under(at, path) {
                path == at
            } else {
                tables.contains(path)
            },
    )
}

/// The table paths once something that is no table stands at `at`: nothing
/// at `at` or below it, and every other path as before.
pub open spec fn tables_without(tables: Set<Seq<Seq<char>>>, at: Seq<Seq<char>>) -> Set<
    Seq<Seq<char>>,
> {
    Set::new(|path: Seq<Seq<char>>| !under(at, path) && tables.contains(path))
}

/// The strings without those at `at` or below it.
pub open spec fn strings_without(
    strings: Map<Seq<Seq<char>>, Seq<char>>,
    at: Seq<Seq<char>>,
) -> Map<Seq<Seq<char>>, Seq<char>> {
    Map::new(
        |path: Seq<Seq<char>>| !under(at, path) && strings.contains_key(path),
        |path: Seq<Seq<char>>| strings[path],
    )
}

/// Calls `Document::from_str` through `str::parse`. The contract claims
/// that what comes back depends on the text alone: whether the text is
/// accepted and, where it is, what the document holds. It also claims that
/// the root of a document that comes back is a table: the parser starts from
/// `Document::new()`, whose root is one, and only ever fills that table.
#[verifier::external_body]
pub(crate) fn parse_document(text: &str) -> (r: Result<toml_edit::Document, toml_edit::TomlError>)
    ensures
        match r {
            Ok(document) => toml_contents(text@) == Some(
                (document_tables(document), document_strings(document)),
            ) && document_tables(document).contains(Seq::empty()),
            Err(_) => toml_contents(text@) is None,
        },
{
    text.parse::<toml_edit::Document>()
}

/// Calls `Item::is_table` on the root item of the document, which
/// `Document::as_item` hands out. The contract claims that the answer is
/// whether the empty path is among the table paths, which is what that
/// means.
#[verifier::external_body]
pub(crate) fn has_root_table(document: &toml_edit::Document) -> (r: bool)
    ensures
        r == document_tables(*document).contains(Seq::empty()),
{
    document.as_item().is_table()
}

/// Calls `Table::contains_table` on the root table of the document. The
/// contract claims that the answer is whether the item under `key` is a
/// table, which is what the method looks at. Reaching the root table panics
/// where the root is none, so a table is asked for there.
#[verifier::external_body]
pub(crate) fn contains_table(document: &toml_edit::Document, key: &str) -> (r: bool)
    requires
        document_tables(*document).contains(Seq::empty()),
    ensures
        r == document_tables(*document).contains(seq![key@]),
{
    document.contains_table(key)
}

/// Assigns `toml_edit::table()` to `document[section][name]`. Indexing a
/// table for assignment takes the entry of the key, making it where it is
/// missing, and the assignment replaces the item there. The contract claims
/// that afterwards an empty table stands at that path and that nothing else
/// has changed. Indexing panics where `document[section]` cannot be indexed
/// by a key, so a table is asked for there.
#[verifier::external_body]
pub(crate) fn put_table(document: &mut toml_edit::Document, section: &str, name: &str)
    requires
        document_tables(*old(document)).contains(seq![section@]),
    ensures
        document_tables(*final(document)) == tables_with(
            document_tables(*old(document)),
            seq![section@, name@],
        ),
        document_strings(*final(document)) == strings_without(
            document_strings(*old(document)),
            seq![section@, name@],
        ),
{
    document[section][name] = toml_edit::table();
}

/// Assigns `toml_edit::value(value)` to `document[section][name][key]`. The
/// contract claims that afterwards the string stands at that path, that
/// whatever stood there or below it is gone, and that nothing else has
/// changed. Indexing panics where an item on the way cannot be indexed by a
/// key, so tables are asked for at `section` and at `name` below it.
#[verifier::external_body]
pub(crate) fn put_string(
    document: &mut toml_edit::Document,
    section: &str,
    name: &str,
    key: &str,
    value: &str,
)
    requires
        document_tables(*old(document)).contains(seq![section@]),
        document_tables(*old(document)).contains(seq![section@, name@]),
    ensures
        document_tables(*final(document)) == tables_without(
            document_tables(*old(document)),
            seq![section@, name@, key@],
        ),
        document_strings(*final(document)) == strings_without(
            document_strings(*old(document)),
            seq![section@, name@, key@],
        ).insert(seq![section@, name@, key@], value@),
{
    document[section][name][key] = toml_edit::value(value);
}

/// Calls `to_string` on the document, which runs its `Display`. The contract
/// gives the text its name. Writing a document goes through its root table
/// and panics where the root is none, so a table is asked for there.
#[verifier::external_body]
pub(crate) fn render(document: &toml_edit::Document) -> (text: String)
    requires
        document_tables(*document).contains(Seq::empty()),
    ensures
        text@ == document_text(*document),
{
    document.to_string()
}

} // verus!
