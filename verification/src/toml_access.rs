//! The calls into `toml_edit`, each with what it is trusted to do, and the name of the tree
//! that a document or an item holds.

use crate::text::{is_blank, writable};
use crate::toml_doc::{find, has_key, holds_same, item_at, may_vanish, plain, put, regular, table_in};
use crate::toml_doc::without;
use crate::toml_doc::{Entries, Toml};
use toml_edit::{DocumentMut, Item, Table};
use vstd::prelude::*;

verus! {

/// What an item holds.
pub uninterp spec fn item_tree(item: toml_edit::Item) -> Toml;

/// The entries of a document's root table. A document whose own leading or trailing text is
/// more than white space and comments, or whose root is not a table with a header of its
/// own, has one entry, which is irregular.
pub uninterp spec fn document_tree(doc: toml_edit::DocumentMut) -> Seq<(Seq<char>, Toml)>;

/// The text that a document is written as.
pub uninterp spec fn document_text(doc: toml_edit::DocumentMut) -> Seq<char>;

/// What the parser makes of a text: the entries of the document, or the message that tells
/// why it is none.
pub uninterp spec fn toml_document(text: Seq<char>) -> Result<Seq<(Seq<char>, Toml)>, Seq<char>>;

/// A document is regular: made by the parser, or by the edits below.
pub open spec fn regular_document(doc: DocumentMut) -> bool {
    regular(Toml::Table(document_tree(doc)))
}

/// The parser takes `text`, and reads from it what `tree` holds; and `text` is blank only where
/// there is nothing in `tree` that shows in a text.
pub open spec fn reads_back(text: Seq<char>, tree: Entries) -> bool {
    &&& toml_document(text) matches Ok(again) && regular(Toml::Table(again)) && holds_same(
        again,
        tree,
    )
    &&& is_blank(text) ==> forall|path: Seq<Seq<char>>|
        (#[trigger] item_at(tree, path)) matches Some(t) ==> may_vanish(path, t)
}

/// `text` is a document with the entries `tree`, written out.
pub open spec fn renders(text: Seq<char>, tree: Entries) -> bool {
    &&& regular(Toml::Table(tree))
    &&& exists|doc: DocumentMut| #[trigger] document_tree(doc) == tree && document_text(doc) == text
    &&& reads_back(text, tree)
}

/// `DocumentMut::from_str`: the document that a text is, with distinct keys and no empty
/// slots, or the message of the parser's error.
#[verifier::external_body]
pub(crate) fn parse_document(text: &str) -> (r: Result<DocumentMut, String>)
    ensures
        match r {
            Ok(doc) => toml_document(text@) == Ok::<Entries, Seq<char>>(document_tree(doc))
                && regular_document(doc),
            Err(message) => toml_document(text@) == Err::<Entries, Seq<char>>(message@),
        },
{
    text.parse::<DocumentMut>().map_err(|e| e.to_string())
}

/// `DocumentMut::new`: an empty document.
#[verifier::external_body]
pub(crate) fn empty_document() -> (r: DocumentMut)
    ensures
        document_tree(r) == Seq::<(Seq<char>, Toml)>::empty(),
{
    DocumentMut::new()
}

/// `Display` of `DocumentMut`: the text of the document. The parser takes it, and what it reads
/// holds the same as the document: values, tables and lists of tables under the same keys. A
/// table of providers or of models from which all was removed may be gone, since one that had
/// no header of its own is not written. The order of the entries read back is left unsaid:
/// values are written before tables, and tables by their place in the text. So is what the
/// tables in a list of tables hold.
#[verifier::external_body]
pub(crate) fn write_document(doc: &DocumentMut) -> (r: String)
    requires
        regular_document(*doc),
    ensures
        r@ == document_text(*doc),
        reads_back(r@, document_tree(*doc)),
{
    doc.to_string()
}

/// `Table::get` on the root table: the item under `key`.
#[verifier::external_body]
pub(crate) fn document_get<'a>(doc: &'a DocumentMut, key: &str) -> (r: Option<&'a Item>)
    requires
        regular_document(*doc),
    ensures
        match r {
            Some(item) => find(document_tree(*doc), key@) == Some(item_tree(*item)) && regular(
                item_tree(*item),
            ),
            None => !has_key(document_tree(*doc), key@),
        },
{
    doc.get(key)
}

/// Assignment to `doc[key]` (`IndexMut`): the item stands under `key`, in the place of what
/// stood there, or at the end. (A table is not put in the place of something else: a comment
/// before that would come to stand inside the header.)
#[verifier::external_body]
pub(crate) fn document_set(doc: &mut DocumentMut, key: &str, item: Item)
    requires
        regular_document(*old(doc)),
        plain(item_tree(item)),
        item_tree(item) is Str || !has_key(document_tree(*old(doc)), key@),
    ensures
        document_tree(*final(doc)) == put(document_tree(*old(doc)), key@, item_tree(item)),
{
    doc[key] = item;
}

/// `Table::remove` on the root table: `key` and what stands under it are gone, and the other
/// entries stay in their order.
#[verifier::external_body]
pub(crate) fn document_remove(doc: &mut DocumentMut, key: &str)
    requires
        regular_document(*old(doc)),
    ensures
        document_tree(*final(doc)) == without(document_tree(*old(doc)), key@),
{
    doc.as_table_mut().remove(key);
}

/// `TableLike::insert` on the table under `section`: the item stands under `key` of that
/// table, in the place of what stood there, or at the end. (An inline table takes a table
/// as an inline one with the same entries.)
#[verifier::external_body]
pub(crate) fn section_insert(doc: &mut DocumentMut, section: &str, key: &str, item: Item)
    requires
        regular_document(*old(doc)),
        table_in(document_tree(*old(doc)), section@) is Some,
        plain(item_tree(item)),
    ensures
        document_tree(*final(doc)) == put(
            document_tree(*old(doc)),
            section@,
            Toml::Table(
                put(table_in(document_tree(*old(doc)), section@)->0, key@, item_tree(item)),
            ),
        ),
{
    let table = doc.get_mut(section).unwrap().as_table_like_mut().unwrap();
    table.insert(key, item);
}

/// `TableLike::remove` on the table under `section`: `key` and what stands under it are gone
/// from that table, and its other entries stay in their order.
#[verifier::external_body]
pub(crate) fn section_remove(doc: &mut DocumentMut, section: &str, key: &str)
    requires
        regular_document(*old(doc)),
        section@ == "providers"@ || section@ == "models"@,
        table_in(document_tree(*old(doc)), section@) is Some,
    ensures
        document_tree(*final(doc)) == put(
            document_tree(*old(doc)),
            section@,
            Toml::Table(without(table_in(document_tree(*old(doc)), section@)->0, key@)),
        ),
{
    let table = doc.get_mut(section).unwrap().as_table_like_mut().unwrap();
    table.remove(key);
}

/// `TableLike::insert` on the table under `name` of the table under `section`, reached by
/// `TableLike::get_mut`.
#[verifier::external_body]
pub(crate) fn entry_insert(
    doc: &mut DocumentMut,
    section: &str,
    name: &str,
    key: &str,
    item: Item,
)
    requires
        regular_document(*old(doc)),
        table_in(document_tree(*old(doc)), section@) is Some,
        table_in(table_in(document_tree(*old(doc)), section@)->0, name@) is Some,
        plain(item_tree(item)),
    ensures
        document_tree(*final(doc)) == ({
            let rows = table_in(document_tree(*old(doc)), section@)->0;
            let row = table_in(rows, name@)->0;
            put(
                document_tree(*old(doc)),
                section@,
                Toml::Table(put(rows, name@, Toml::Table(put(row, key@, item_tree(item))))),
            )
        }),
{
    let rows = doc.get_mut(section).unwrap().as_table_like_mut().unwrap();
    let row = rows.get_mut(name).unwrap().as_table_like_mut().unwrap();
    row.insert(key, item);
}

/// `TableLike::remove` on the table under `name` of the table under `section`, reached by
/// `TableLike::get_mut`. (Something stays in the table, so that it shows in the text.)
#[verifier::external_body]
pub(crate) fn entry_remove(doc: &mut DocumentMut, section: &str, name: &str, key: &str)
    requires
        regular_document(*old(doc)),
        table_in(document_tree(*old(doc)), section@) is Some,
        table_in(table_in(document_tree(*old(doc)), section@)->0, name@) is Some,
        without(
            table_in(table_in(document_tree(*old(doc)), section@)->0, name@)->0,
            key@,
        ).len() > 0,
    ensures
        document_tree(*final(doc)) == ({
            let rows = table_in(document_tree(*old(doc)), section@)->0;
            let row = table_in(rows, name@)->0;
            put(
                document_tree(*old(doc)),
                section@,
                Toml::Table(put(rows, name@, Toml::Table(without(row, key@)))),
            )
        }),
{
    let rows = doc.get_mut(section).unwrap().as_table_like_mut().unwrap();
    let row = rows.get_mut(name).unwrap().as_table_like_mut().unwrap();
    row.remove(key);
}

/// `Item::is_table_like`: whether the item is a table, inline or not.
pub assume_specification[ toml_edit::Item::is_table_like ](item: &Item) -> (r: bool)
    requires
        regular(item_tree(*item)),
    ensures
        r == (item_tree(*item) is Table),
;

/// `Item::as_str`: the string that the item is.
pub assume_specification[ toml_edit::Item::as_str ](item: &Item) -> (r: Option<&str>)
    requires
        regular(item_tree(*item)),
    ensures
        match r {
            Some(s) => item_tree(*item) == Toml::Str(s@),
            None => !(item_tree(*item) is Str),
        },
;

/// `TableLike::get`: the item under `key` of a table.
#[verifier::external_body]
pub(crate) fn table_get<'a>(table: &'a Item, key: &str) -> (r: Option<&'a Item>)
    requires
        regular(item_tree(*table)),
        item_tree(*table) is Table,
    ensures
        match r {
            Some(item) => find(item_tree(*table)->Table_0, key@) == Some(item_tree(*item))
                && regular(item_tree(*item)),
            None => !has_key(item_tree(*table)->Table_0, key@),
        },
{
    table.as_table_like().unwrap().get(key)
}

/// `TableLike::iter`: the entries of a table, in their order.
#[verifier::external_body]
pub(crate) fn table_entries<'a>(table: &'a Item) -> (r: Vec<(&'a str, &'a Item)>)
    requires
        regular(item_tree(*table)),
        item_tree(*table) is Table,
    ensures
        r@.len() == (item_tree(*table)->Table_0).len(),
        forall|i: int|
            0 <= i < r@.len() ==> {
                &&& (#[trigger] r@[i]).0@ == item_tree(*table)->Table_0[i].0
                &&& item_tree(*r@[i].1) == item_tree(*table)->Table_0[i].1
            },
{
    table.as_table_like().unwrap().iter().collect()
}

/// `toml_edit::value` on a string: an item that is this string. When the document is written,
/// the equal quotes in a row in it are counted in a byte, and a build with overflow checks
/// panics where these are too many.
#[verifier::external_body]
pub(crate) fn string_item(s: &str) -> (r: Item)
    requires
        writable(s@),
    ensures
        item_tree(r) == Toml::Str(s@),
{
    toml_edit::value(s)
}

/// `Table::new`: an item that is a table without entries.
#[verifier::external_body]
pub(crate) fn empty_table() -> (r: Item)
    ensures
        item_tree(r) == Toml::Table(Seq::<(Seq<char>, Toml)>::empty()),
{
    Item::Table(Table::new())
}

/// `TableLike::insert`: the item stands under `key` of the table, in the place of what stood
/// there, or at the end.
#[verifier::external_body]
pub(crate) fn table_insert(table: &mut Item, key: &str, item: Item)
    requires
        regular(item_tree(*old(table))),
        item_tree(*old(table)) is Table,
        plain(item_tree(item)),
    ensures
        item_tree(*final(table)) == Toml::Table(
            put(item_tree(*old(table))->Table_0, key@, item_tree(item)),
        ),
{
    table.as_table_like_mut().unwrap().insert(key, item);
}

} // verus!
