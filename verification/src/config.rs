use vstd::prelude::*;

use toml_edit::DocumentMut;

use crate::utils::{join_path, push_path};

verus! {

/// The table of the configuration that holds the AniList settings.
pub const TABLE_NAME: &'static str = "anilist";

/// Where the configuration file lies, under the home directory.
pub const CONFIG_PATH: &'static str = ".config/anime-dl/config.toml";

/// What the TOML text `content` holds, as read by `toml_edit`: the strings stored at
/// `doc[table][key]` by table and key, and the names of the top-level tables; `None` where the
/// text is not a TOML document.
pub uninterp spec fn toml_contents(content: Seq<char>) -> Option<(Map<(Seq<char>, Seq<char>), Seq<char>>, Set<Seq<char>>)>;

/// The strings that a document holds at `doc[table][key]` (read with `get` and `as_str`), by
/// table and key.
pub uninterp spec fn doc_strings(doc: DocumentMut) -> Map<(Seq<char>, Seq<char>), Seq<char>>;

/// The top-level keys of a document whose item is a table (`contains_table`).
pub uninterp spec fn doc_tables(doc: DocumentMut) -> Set<Seq<char>>;

#[verifier::external_type_specification]
#[verifier::external_body]
pub struct ExDocumentMut(DocumentMut);

/// The view of an optional string.
pub open spec fn opt_view(r: Option<String>) -> Option<Seq<char>> {
    match r {
        Some(s) => Some(s@),
        None => None,
    }
}

/// The strings of a map, without those stored under `table`.
pub open spec fn without_table(m: Map<(Seq<char>, Seq<char>), Seq<char>>, table: Seq<char>) -> Map<(Seq<char>, Seq<char>), Seq<char>> {
    m.remove_keys(Set::new(|p: (Seq<char>, Seq<char>)| p.0 == table))
}

/// What a document holds: its strings and its tables.
pub open spec fn doc_contents(doc: DocumentMut) -> (Map<(Seq<char>, Seq<char>), Seq<char>>, Set<Seq<char>>) {
    (doc_strings(doc), doc_tables(doc))
}

/// Whether a document holds no string and no table.
pub open spec fn holds_nothing(doc: DocumentMut) -> bool {
    doc_strings(doc) == Map::<(Seq<char>, Seq<char>), Seq<char>>::empty() && doc_tables(doc) == Set::<Seq<char>>::empty()
}

/// Parses `content` as a `toml_edit::DocumentMut` (`FromStr`): what it holds is what the text
/// holds, and the empty text is an empty document.
#[verifier::external_body]
fn parse_document(content: &str) -> (r: Option<DocumentMut>)
    ensures
        r is Some <==> toml_contents(content@) is Some,
        r matches Some(d) ==> toml_contents(content@) == Some(doc_contents(d)),
        r is None ==> content@.len() > 0,
        r matches Some(d) ==> (content@.len() == 0 ==> holds_nothing(d)),
{
    content.parse::<DocumentMut>().ok()
}

/// Reads the string at `doc[table][key]` (`Table::get`, `Item::get`, `as_str`).
#[verifier::external_body]
fn string_at(doc: &DocumentMut, table: &str, key: &str) -> (r: Option<String>)
    ensures
        opt_view(r) == doc_strings(*doc).get((table@, key@)),
{
    doc.get(table)?.get(key)?.as_str().map(|s| s.to_string())
}

/// Whether the item at `doc[table]` is a table (`Table::contains_table`).
#[verifier::external_body]
fn has_table(doc: &DocumentMut, table: &str) -> (r: bool)
    ensures
        r == doc_tables(*doc).contains(table@),
{
    doc.contains_table(table)
}

/// Replaces the item at `doc[table]` with an empty table (`toml_edit::table()`): whatever was
/// stored under that name is gone, and nothing else changes.
#[verifier::external_body]
fn insert_table(doc: &mut DocumentMut, table: &str)
    ensures
        doc_tables(*final(doc)) == doc_tables(*old(doc)).insert(table@),
        doc_strings(*final(doc)) == without_table(doc_strings(*old(doc)), table@),
{
    doc[table] = toml_edit::table();
}

/// Stores the string `value` at `doc[table][key]` (`toml_edit::value`), where `doc[table]` is a
/// table; the index panics on an item that is neither a table nor missing, so that case is
/// left out. Nothing else changes.
#[verifier::external_body]
fn set_string(doc: &mut DocumentMut, table: &str, key: &str, value: &str)
    requires
        doc_tables(*old(doc)).contains(table@),
    ensures
        doc_strings(*final(doc)) == doc_strings(*old(doc)).insert((table@, key@), value@),
        doc_tables(*final(doc)) == doc_tables(*old(doc)),
{
    doc[table][key] = toml_edit::value(value);
}

/// Formats the top-level entries of the document (`fmt`): only their decoration changes.
#[verifier::external_body]
fn format_document(doc: &mut DocumentMut)
    ensures
        doc_strings(*final(doc)) == doc_strings(*old(doc)),
        doc_tables(*final(doc)) == doc_tables(*old(doc)),
{
    doc.fmt();
}

/// Writes the document out (`Display`): the text read back holds what the document holds,
/// which is the round trip that `toml_edit` is made for. Nothing more of the layout of the text
/// is stated.
#[verifier::external_body]
fn write_document(doc: &DocumentMut) -> (r: String)
    ensures
        toml_contents(r@) == Some(doc_contents(*doc)),
{
    doc.to_string()
}

/// The value stored under `key` in the AniList table of a configuration text.
pub open spec fn config_value(content: Seq<char>, key: Seq<char>) -> Option<Seq<char>> {
    match toml_contents(content) {
        Some(c) => c.0.get((TABLE_NAME@, key)),
        None => None,
    }
}

/// Loads a value from the AniList configuration, given the text of the configuration file.
pub fn load(content: &str, key: &str) -> (r: Option<String>)
    ensures
        opt_view(r) == config_value(content@, key@),
{
    match parse_document(content) {
        Some(doc) => string_at(&doc, TABLE_NAME, key),
        None => None,
    }
}

/// What the configuration holds before a save: that of the current text where it is a TOML
/// document (the file may be missing), else nothing.
pub open spec fn base_contents(current: Option<Seq<char>>) -> (Map<(Seq<char>, Seq<char>), Seq<char>>, Set<Seq<char>>) {
    match current {
        Some(c) if toml_contents(c) is Some => toml_contents(c)->0,
        _ => (Map::empty(), Set::empty()),
    }
}

/// What the configuration holds after saving `value` under `key`: the AniList table is made
/// anew where it was not a table, and the value is stored in it.
pub open spec fn saved_contents(current: Option<Seq<char>>, key: Seq<char>, value: Seq<char>) -> (Map<(Seq<char>, Seq<char>), Seq<char>>, Set<Seq<char>>) {
    let (m, t) = base_contents(current);
    let kept = if t.contains(TABLE_NAME@) { m } else { without_table(m, TABLE_NAME@) };
    (kept.insert((TABLE_NAME@, key), value), t.insert(TABLE_NAME@))
}

/// The text of the configuration file after saving `value` under `key`, given its current text
/// where the file exists.
pub fn save(current: Option<&str>, key: &str, value: &str) -> (r: String)
    ensures
        toml_contents(r@) == Some(saved_contents(match current { Some(c) => Some(c@), None => None }, key@, value@)),
{
    let parsed = match current {
        Some(c) => parse_document(c),
        None => None,
    };
    let mut doc = match parsed {
        Some(d) => d,
        None => {
            proof {
                reveal_strlit("");
            }
            match parse_document("") {
                Some(d) => d,
                None => vstd::pervasive::unreached(),
            }
        },
    };
    if !has_table(&doc, TABLE_NAME) {
        insert_table(&mut doc, TABLE_NAME);
    }
    set_string(&mut doc, TABLE_NAME, key, value);
    format_document(&mut doc);
    write_document(&doc)
}

/// The value under `key` before a save: none where there was no file or it was not a TOML
/// document.
pub open spec fn prior_value(current: Option<Seq<char>>, key: Seq<char>) -> Option<Seq<char>> {
    match current {
        Some(c) => config_value(c, key),
        None => None,
    }
}

/// Whether the AniList entry of the current text is a table, or holds no string at all, so
/// that a save has nothing of it to drop.
pub open spec fn table_kept(current: Option<Seq<char>>) -> bool {
    let (m, t) = base_contents(current);
    t.contains(TABLE_NAME@) || forall|k: Seq<char>| !(#[trigger] m.dom().contains((TABLE_NAME@, k)))
}

/// A save is read back: loading `key` from the saved text gives `value`, the AniList table is
/// then a table, and every other key keeps the value it had, unless the AniList entry was not
/// a table and held strings of its own, which the save drops.
pub proof fn law_save_then_load(current: Option<Seq<char>>, key: Seq<char>, value: Seq<char>, out: Seq<char>)
    requires
        toml_contents(out) == Some(saved_contents(current, key, value)),
    ensures
        config_value(out, key) == Some(value),
        (toml_contents(out)->0).1.contains(TABLE_NAME@),
        table_kept(current) ==> forall|k: Seq<char>| k != key ==> #[trigger] config_value(out, k) == prior_value(current, k),
{
    let (m, t) = base_contents(current);
    assert forall|k: Seq<char>| k != key && table_kept(current) implies #[trigger] config_value(out, k) == prior_value(current, k) by {
        let kept = if t.contains(TABLE_NAME@) { m } else { without_table(m, TABLE_NAME@) };
        assert(config_value(out, k) == kept.get((TABLE_NAME@, k)));
        if !t.contains(TABLE_NAME@) {
            assert(!m.dom().contains((TABLE_NAME@, k)));
        }
    }
}

/// The path of the configuration file under the home directory, where it is known.
pub fn config_path(home: Option<&str>) -> (r: String)
    ensures
        r@ == match home {
            Some(h) => join_path(join_path(Seq::<char>::empty(), h@), CONFIG_PATH@),
            None => join_path(Seq::<char>::empty(), CONFIG_PATH@),
        },
{
    let root = match home {
        Some(h) => push_path("", h),
        None => String::new(),
    };
    proof {
        reveal_strlit("");
    }
    push_path(root.as_str(), CONFIG_PATH)
}

} // verus!
