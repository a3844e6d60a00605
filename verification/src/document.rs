//! The manifest document: `toml_edit`'s editable document, seen as a tree of
//! plain values.
//!
//! Parsing, editing and writing out the text of a manifest is `toml_edit`'s
//! work. Nothing in this module is proved: each function here makes one call
//! into `toml_edit`, and its contract says over [`Node`] what that call
//! does. The rewriting itself, in [`crate::rewrite`], is proved from these
//! contracts.

use vstd::prelude::*;

verus! {

#[verifier::external_type_specification]
#[verifier::external_body]
pub struct ExItem(toml_edit::Item);

#[verifier::external_type_specification]
#[verifier::external_body]
pub struct ExDocumentMut(toml_edit::DocumentMut);

#[verifier::external_type_specification]
#[verifier::external_body]
pub struct ExTomlError(toml_edit::TomlError);

/// What an item of a document holds.
#[verifier::ext_equal]
pub enum Node {
    /// Nothing: an item that is not there. An entry of a table may hold
    /// this; it is then not written out and counts as missing.
    Absent,
    /// A string.
    Text(Seq<char>),
    /// Any other value: a number, a boolean, a date, an array.
    Scalar,
    /// A table, written with a header or inline between braces: the keys
    /// of its entries in their order, and what each entry holds.
    Table { inline: bool, keys: Seq<Seq<char>>, fields: Map<Seq<char>, Node> },
    /// An array of tables.
    Tables,
}

impl Node {
    /// What the entry `key` holds: [`Node::Absent`] where this is no table
    /// or has no such entry.
    pub open spec fn child(self, key: Seq<char>) -> Node {
        match self {
            Node::Table { fields, .. } => if fields.contains_key(key) {
                fields[key]
            } else {
                Node::Absent
            },
            _ => Node::Absent,
        }
    }

    /// Whether this is a table with an entry `key`, whatever the entry
    /// holds.
    pub open spec fn has_entry(self, key: Seq<char>) -> bool {
        self matches Node::Table { fields, .. } && fields.contains_key(key)
    }

    /// The keys that walking over a table yields, in their order. A table
    /// with a header passes over the entries that hold nothing; an inline
    /// table yields every entry.
    pub open spec fn listed(self) -> Seq<Seq<char>> {
        match self {
            Node::Table { inline, keys, fields } => if inline {
                keys
            } else {
                keys.filter(|k: Seq<char>| fields.contains_key(k) && !(fields[k] is Absent))
            },
            _ => Seq::empty(),
        }
    }

    /// This table with `value` in the entry `key`. An entry that exists
    /// keeps its place; a new one comes last. Anything but a table stays as
    /// it is.
    pub open spec fn with_entry(self, key: Seq<char>, value: Node) -> Node {
        match self {
            Node::Table { inline, keys, fields } => Node::Table {
                inline,
                keys: if fields.contains_key(key) {
                    keys
                } else {
                    keys.push(key)
                },
                fields: fields.insert(key, value),
            },
            _ => self,
        }
    }

    /// Whether this is a table with a header.
    pub open spec fn is_section(self) -> bool {
        self matches Node::Table { inline, .. } && !inline
    }
}

/// What `item` holds.
pub uninterp spec fn item_model(item: toml_edit::Item) -> Node;

/// What the root item of `doc` holds.
pub uninterp spec fn document_model(doc: toml_edit::DocumentMut) -> Node;

/// What the document holds that `text` parses to, or the message of the
/// parse error where `text` is not well-formed.
pub uninterp spec fn parsed(text: Seq<char>) -> Result<Node, Seq<char>>;

/// The text that `doc` is written out as.
pub uninterp spec fn rendered(doc: toml_edit::DocumentMut) -> Seq<char>;

/// The message of a parse error.
pub uninterp spec fn error_text(error: toml_edit::TomlError) -> Seq<char>;

/// `str::parse` to a `toml_edit::DocumentMut`. The outcome depends on the
/// text alone, and [`parsed`] is its name: a document that holds what
/// [`parsed`] says, or an error with the message that [`parsed`] says. The
/// root of a parsed document is a table with a header.
#[verifier::external_body]
pub(crate) fn parse_document(text: &str) -> (res: Result<
    toml_edit::DocumentMut,
    toml_edit::TomlError,
>)
    ensures
        match res {
            Ok(doc) => parsed(text@) == Ok::<Node, Seq<char>>(document_model(doc))
                && document_model(doc).is_section(),
            Err(error) => parsed(text@) == Err::<Node, Seq<char>>(error_text(error)),
        },
{
    text.parse::<toml_edit::DocumentMut>()
}

/// `DocumentMut::to_string`. It panics where the root is no table with a
/// header, so such a document is not admitted.
#[verifier::external_body]
pub(crate) fn render_document(doc: &toml_edit::DocumentMut) -> (text: String)
    requires
        document_model(*doc).is_section(),
    ensures
        text@ == rendered(*doc),
{
    doc.to_string()
}

/// `TomlError::to_string`: the message with the place in the text.
#[verifier::external_body]
pub(crate) fn error_message(error: &toml_edit::TomlError) -> (text: String)
    ensures
        text@ == error_text(*error),
{
    error.to_string()
}

/// `DocumentMut::as_item_mut`: the root item. What is written to it is
/// what the document holds afterwards.
#[verifier::external_body]
pub(crate) fn root_mut(doc: &mut toml_edit::DocumentMut) -> (root: &mut toml_edit::Item)
    ensures
        item_model(*root) == document_model(*old(doc)),
        document_model(*final(doc)) == item_model(*final(root)),
{
    doc.as_item_mut()
}

/// `Item::is_table_like`: whether the item is a table, with a header or
/// inline.
#[verifier::external_body]
pub(crate) fn is_table_like(item: &toml_edit::Item) -> (yes: bool)
    ensures
        yes == (item_model(*item) is Table),
{
    item.is_table_like()
}

/// `TableLike::iter`, through `Item::as_table_like`, with each pair
/// replaced by its key: the keys of [`Node::listed`], in their order. Every
/// entry that holds something is among them. An item that is no table has
/// none.
#[verifier::external_body]
pub(crate) fn entry_keys(item: &toml_edit::Item) -> (keys: Vec<String>)
    ensures
        keys.deep_view() == item_model(*item).listed(),
        forall|k: Seq<char>| !(#[trigger] item_model(*item).child(k) is Absent)
            ==> keys.deep_view().contains(k),
{
    match item.as_table_like() {
        Some(table) => table.iter().map(|(key, _)| key.to_string()).collect(),
        None => Vec::new(),
    }
}

/// `Item::get` with a string: the entry `key`, unless the item is no
/// table, has no such entry, or the entry holds nothing.
#[verifier::external_body]
pub(crate) fn item_get<'a>(item: &'a toml_edit::Item, key: &str) -> (entry: Option<
    &'a toml_edit::Item,
>)
    ensures
        entry is None <==> item_model(*item).child(key@) is Absent,
        entry matches Some(e) ==> item_model(*e) == item_model(*item).child(key@),
{
    item.get(key)
}

/// `TableLike::get_mut`, through `Item::as_table_like_mut`: the entry
/// `key` for writing. It is handed out wherever the entry holds something;
/// an inline table hands out an entry that holds nothing too. What is
/// written to the entry takes its place in the table, and nothing else
/// changes.
#[verifier::external_body]
pub(crate) fn entry_mut<'a>(item: &'a mut toml_edit::Item, key: &str) -> (entry: Option<
    &'a mut toml_edit::Item,
>)
    ensures
        !(item_model(*old(item)).child(key@) is Absent) ==> entry is Some,
        match entry {
            Some(e) => {
                &&& item_model(*old(item)).has_entry(key@)
                &&& item_model(*e) == item_model(*old(item)).child(key@)
                &&& item_model(*final(item)) == item_model(*old(item)).with_entry(
                    key@,
                    item_model(*final(e)),
                )
            },
            None => item_model(*final(item)) == item_model(*old(item)),
        },
{
    match item.as_table_like_mut() {
        Some(table) => table.get_mut(key),
        None => None,
    }
}

/// `TableLike::insert`, through `Item::as_table_like_mut`, of a string:
/// the entry `key` then holds `value`, in its old place if it existed and
/// last if not. The call is made on tables only, and with a string, which
/// an inline table takes as it is.
#[verifier::external_body]
pub(crate) fn insert_entry(item: &mut toml_edit::Item, key: &str, value: toml_edit::Item)
    requires
        item_model(*old(item)) is Table,
        item_model(value) is Text,
    ensures
        item_model(*final(item)) == item_model(*old(item)).with_entry(key@, item_model(value)),
{
    if let Some(table) = item.as_table_like_mut() {
        table.insert(key, value);
    }
}

/// `Item::as_str`: the text of a string, and `None` for anything else.
#[verifier::external_body]
pub(crate) fn item_as_str<'a>(item: &'a toml_edit::Item) -> (text: Option<&'a str>)
    ensures
        match text {
            Some(s) => item_model(*item) == Node::Text(s@),
            None => !(item_model(*item) is Text),
        },
{
    item.as_str()
}

/// The item that holds the string `s`: `Item::Value` of `Value::String` of
/// `Formatted::new`.
#[verifier::external_body]
pub(crate) fn version_item(s: &str) -> (item: toml_edit::Item)
    ensures
        item_model(item) == Node::Text(s@),
{
    toml_edit::Item::Value(toml_edit::Value::String(toml_edit::Formatted::new(s.to_string())))
}

} // verus!
