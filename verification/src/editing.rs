//! Changing the settings: adding and removing providers, and choosing the one in use.

use crate::changes::{assigned, can_configure, can_give, can_prepare, can_remove, can_select, cleared};
use crate::changes::{configured, gains_model, lemma_fields, lemma_sections, loses_default, takes_model};
use crate::changes::{not_served_by, opened, prepared, removed, selected, serves, target_model, unwritable};
use crate::changes::{wanted_key, wanted_kind, wanted_models, wanted_url, with_configured_models, with_default};
use crate::changes::{with_first_as_default, with_model, with_models, with_names, with_provider, with_section};
use crate::changes::with_table;
use crate::error::{AppError, Failure};
use crate::filters::{lemma_filter_keeps, lemma_filter_source, lemma_filter_step, lemma_full_filter, lemma_same_filter};
use crate::json::{json_tree, member, text_in, trees, Json};
use crate::listing::{document_string, is_served, model_rows, open_existing, parsed, section, served_by};
use crate::paths::{get_kimi_config_path, is_joined, KIMI_CONFIG_FILE};
use crate::saving::{FileWrite, FILE_MODE};
use crate::text::{fill, holds, is_writable, joined, text_of, views, writable};
use crate::toml_access::{document_get, document_remove, document_set, document_tree, empty_document};
use crate::toml_access::{empty_table, entry_insert, entry_remove, item_tree, regular_document, renders};
use crate::toml_access::{section_insert, section_remove, string_item, table_entries, table_get};
use crate::toml_access::{table_insert, write_document};
use crate::toml_doc::{distinct, find, has_key, lemma_filter_regular, lemma_find_put, lemma_find_regular, lemma_find_without};
use crate::toml_doc::{lemma_plain_put, lemma_plain_regular, lemma_put_put, lemma_put_regular, lemma_put_same};
use crate::toml_doc::{other_than, plain, put, regular, string_in, table_in, without, Entries, Toml};
use serde_json::Value;
use std::path::PathBuf;
use toml_edit::{DocumentMut, Item};
use vstd::prelude::*;

verus! {

// ---------------------------------------------------------------------------
// What a configuration gives
// ---------------------------------------------------------------------------

/// The string that a value is.
fn value_text<'a>(v: Option<&'a Value>) -> (r: Option<&'a str>)
    ensures
        text_of(r) == text_in(
            match v {
                Some(w) => Some(json_tree(*w)),
                None => None,
            },
        ),
{
    match v {
        Some(w) => w.as_str(),
        None => None,
    }
}

/// The kind of provider that a configuration asks for.
fn config_kind<'a>(c: &'a Value) -> (r: &'a str)
    ensures
        r@ == wanted_kind(json_tree(*c)),
{
    match value_text(member(c, "type")) {
        Some(s) => s,
        None => "openai",
    }
}

/// The address that a configuration gives.
fn config_url<'a>(c: &'a Value) -> (r: Option<&'a str>)
    ensures
        text_of(r) == wanted_url(json_tree(*c)),
{
    let url = match member(c, "baseUrl") {
        Some(v) => Some(v),
        None => match member(c, "base_url") {
            Some(v) => Some(v),
            None => member(c, "endpoint"),
        },
    };
    fill(value_text(url))
}

/// The key that a configuration gives.
fn config_key<'a>(c: &'a Value) -> (r: Option<&'a str>)
    ensures
        text_of(r) == wanted_key(json_tree(*c)),
{
    let key = match member(c, "apiKey") {
        Some(v) => Some(v),
        None => member(c, "api_key"),
    };
    fill(value_text(key))
}

/// Whether a string that there may be can be written.
fn is_writable_if_any(s: Option<&str>) -> (r: bool)
    ensures
        r == (text_of(s) matches Some(t) ==> writable(t)),
{
    match s {
        Some(t) => is_writable(t),
        None => true,
    }
}

/// The models that a configuration gives: the main one first, then the others, each once.
fn collect_models(c: &Value) -> (r: Vec<String>)
    ensures
        views(r@) == wanted_models(json_tree(*c)),
{
    let mut names: Vec<String> = Vec::new();
    if let Some(m) = fill(value_text(member(c, "model"))) {
        names.push(m.to_owned());
        assert(views(names@) =~= seq![m@]);
    } else {
        assert(views(names@) =~= Seq::<Seq<char>>::empty());
    }
    if let Some(list) = member(c, "models") {
        if let Some(items) = list.as_array() {
            let ghost main = views(names@);
            let ghost all = trees(items@);
            let mut i: usize = 0;
            assert(all.take(0) =~= Seq::<Json>::empty());
            while i < items.len()
                invariant
                    i <= items.len(),
                    all == trees(items@),
                    views(names@) == with_names(main, all.take(i as int)),
                decreases items.len() - i,
            {
                let item = &items[i];
                assert(all[i as int] == json_tree(*item));
                let id = match value_text(member(item, "id")) {
                    Some(s) => Some(s),
                    None => item.as_str(),
                };
                let ghost before = names@;
                assert(all.take(i + 1).drop_last() =~= all.take(i as int));
                assert(all.take(i + 1).last() == all[i as int]);
                if let Some(m) = fill(id) {
                    if !holds(&names, m) {
                        names.push(m.to_owned());
                        assert(views(names@) =~= views(before).push(m@));
                    }
                }
                i += 1;
            }
            assert(all.take(i as int) =~= all);
        }
    }
    names
}

// ---------------------------------------------------------------------------
// Edits of a document
// ---------------------------------------------------------------------------

/// The document to change: an empty one where there is no file, or nothing in it.
fn open_or_new(content: Option<&str>) -> (r: Result<DocumentMut, AppError>)
    ensures
        match r {
            Ok(doc) => opened(text_of(content)) == Ok::<Entries, Failure>(document_tree(doc))
                && regular_document(doc),
            Err(e) => opened(text_of(content)) == Err::<Entries, Failure>(e@),
        },
{
    match content {
        Some(text) => if text.trim().is_empty() {
            Ok(empty_document())
        } else {
            open_existing(text)
        },
        None => Ok(empty_document()),
    }
}

/// Makes sure that something stands under `key`, an empty table if need be.
fn ensure_section(doc: &mut DocumentMut, key: &str)
    requires
        regular_document(*old(doc)),
    ensures
        document_tree(*final(doc)) == with_table(document_tree(*old(doc)), key@),
        regular_document(*final(doc)),
{
    if document_get(doc, key).is_none() {
        proof {
            lemma_put_regular(document_tree(*doc), key@, Toml::Table(Seq::empty()));
        }
        document_set(doc, key, empty_table());
    }
}

/// A document keeps regular when one of its tables is replaced by a regular one; what is put
/// last under a key is what stays.
proof fn lemma_section(doc: Entries, key: Seq<char>, rows: Entries)
    requires
        regular(Toml::Table(doc)),
        regular(Toml::Table(rows)),
    ensures
        regular(Toml::Table(with_section(doc, key, rows))),
        table_in(with_section(doc, key, rows), key) == Some(rows),
        forall|others: Entries|
            with_section(with_section(doc, key, rows), key, others) == #[trigger] with_section(
                doc,
                key,
                others,
            ),
{
    lemma_put_regular(doc, key, Toml::Table(rows));
    lemma_find_put(doc, key, Toml::Table(rows), key);
    assert forall|others: Entries|
        with_section(with_section(doc, key, rows), key, others) == #[trigger] with_section(
            doc,
            key,
            others,
        ) by {
        lemma_put_put(doc, key, Toml::Table(rows), Toml::Table(others));
    }
}

/// A row of a section, seen from the document.
pub open spec fn with_row(
    doc: Entries,
    key: Seq<char>,
    rows: Entries,
    name: Seq<char>,
    row: Entries,
) -> Entries {
    with_section(doc, key, with_section(rows, name, row))
}

/// Replacing the value under a key of a row keeps the document regular.
proof fn lemma_row(doc: Entries, key: Seq<char>, rows: Entries, name: Seq<char>, row: Entries)
    requires
        regular(Toml::Table(doc)),
        regular(Toml::Table(rows)),
        regular(Toml::Table(row)),
    ensures
        regular(Toml::Table(with_row(doc, key, rows, name, row))),
        table_in(with_row(doc, key, rows, name, row), key) == Some(with_section(rows, name, row)),
        table_in(with_section(rows, name, row), name) == Some(row),
        regular(Toml::Table(with_section(rows, name, row))),
        forall|others: Entries|
            with_row(
                with_row(doc, key, rows, name, row),
                key,
                with_section(rows, name, row),
                name,
                others,
            ) == #[trigger] with_row(doc, key, rows, name, others),
{
    lemma_section(rows, name, row);
    lemma_section(doc, key, with_section(rows, name, row));
}

/// Writes a configuration to the settings of the provider `id`.
fn write_settings(doc: &mut DocumentMut, id: &str, c: &Value)
    requires
        regular_document(*old(doc)),
        can_configure(json_tree(*c)),
        table_in(document_tree(*old(doc)), "providers"@) is Some,
        table_in(table_in(document_tree(*old(doc)), "providers"@)->0, id@) is Some,
    ensures
        document_tree(*final(doc)) == ({
            let rows = table_in(document_tree(*old(doc)), "providers"@)->0;
            let p = table_in(rows, id@)->0;
            with_row(
                document_tree(*old(doc)),
                "providers"@,
                rows,
                id@,
                configured(p, json_tree(*c)),
            )
        }),
        regular_document(*final(doc)),
{
    let ghost tree = document_tree(*doc);
    let ghost rows = table_in(tree, "providers"@)->0;
    let ghost p = table_in(rows, id@)->0;
    let ghost config = json_tree(*c);
    proof {
        lemma_find_regular(tree, "providers"@);
        lemma_find_regular(rows, id@);
    }

    entry_insert(doc, "providers", id, "type", string_item(config_kind(c)));
    let ghost kinded = put(p, "type"@, Toml::Str(wanted_kind(config)));
    proof {
        lemma_put_regular(p, "type"@, Toml::Str(wanted_kind(config)));
        lemma_row(tree, "providers"@, rows, id@, kinded);
    }
    assert(document_tree(*doc) == with_row(tree, "providers"@, rows, id@, kinded));

    let ghost located = match wanted_url(config) {
        Some(s) => put(kinded, "base_url"@, Toml::Str(s)),
        None => kinded,
    };
    if let Some(s) = config_url(c) {
        entry_insert(doc, "providers", id, "base_url", string_item(s));
        proof {
            lemma_put_regular(kinded, "base_url"@, Toml::Str(s@));
            lemma_row(tree, "providers"@, rows, id@, located);
        }
    }
    assert(document_tree(*doc) == with_row(tree, "providers"@, rows, id@, located));
    assert(regular(Toml::Table(located)));

    if let Some(s) = config_key(c) {
        entry_insert(doc, "providers", id, "api_key", string_item(s));
        proof {
            lemma_put_regular(located, "api_key"@, Toml::Str(s@));
            lemma_row(tree, "providers"@, rows, id@, put(located, "api_key"@, Toml::Str(s@)));
        }
    } else if member(c, "api_key").is_some() || member(c, "apiKey").is_some() {
        proof {
            lemma_fields();
            lemma_find_put(p, "type"@, Toml::Str(wanted_kind(config)), "type"@);
            if let Some(url) = wanted_url(config) {
                lemma_find_put(kinded, "base_url"@, Toml::Str(url), "type"@);
            }
            lemma_find_without(located, "api_key"@, "type"@);
            assert(has_key(without(located, "api_key"@), "type"@));
        }
        entry_remove(doc, "providers", id, "api_key");
        proof {
            lemma_filter_regular(located, other_than("api_key"@));
            lemma_row(tree, "providers"@, rows, id@, without(located, "api_key"@));
        }
    }
}

/// What stands under a name of a section.
enum Slot {
    Vacant,
    Table,
    Other,
}

/// What stands under `name` of the table under `key`.
fn slot_in(doc: &DocumentMut, key: &str, name: &str) -> (r: Slot)
    requires
        regular_document(*doc),
        table_in(document_tree(*doc), key@) is Some,
    ensures
        match r {
            Slot::Vacant => !has_key(table_in(document_tree(*doc), key@)->0, name@),
            Slot::Table => table_in(table_in(document_tree(*doc), key@)->0, name@) is Some,
            Slot::Other => {
                &&& has_key(table_in(document_tree(*doc), key@)->0, name@)
                &&& table_in(table_in(document_tree(*doc), key@)->0, name@) is None
            },
        },
{
    if let Some(table) = section(doc, key) {
        if let Some(item) = table_get(table, name) {
            if item.is_table_like() {
                return Slot::Table;
            }
            return Slot::Other;
        }
    }
    Slot::Vacant
}

/// Whether the row of the model `name` can be written.
fn can_take(doc: &DocumentMut, name: &str) -> (r: bool)
    requires
        regular_document(*doc),
    ensures
        r == takes_model(document_tree(*doc), name@),
{
    if document_get(doc, "models").is_none() {
        return true;
    }
    if section(doc, "models").is_none() {
        return false;
    }
    match slot_in(doc, "models", name) {
        Slot::Other => false,
        _ => true,
    }
}

/// Whether the strings that giving `names` to `id` writes can be written.
fn is_giveable(doc: &DocumentMut, id: &str, names: &Vec<String>) -> (r: bool)
    requires
        regular_document(*doc),
    ensures
        r == can_give(document_tree(*doc), id@, views(names@)),
{
    let ghost tree = document_tree(*doc);
    let ghost all = views(names@);
    let mut i: usize = 0;
    while i < names.len()
        invariant
            i <= names.len(),
            regular_document(*doc),
            tree == document_tree(*doc),
            all == views(names@),
            forall|j: int|
                0 <= j < i && takes_model(tree, #[trigger] all[j]) ==> writable(id@) && writable(
                    all[j],
                ),
        decreases names.len() - i,
    {
        let name = names[i].as_str();
        assert(all[i as int] == name@);
        if can_take(doc, name) && !(is_writable(id) && is_writable(name)) {
            return false;
        }
        i += 1;
    }
    if names.len() > 0 && document_get(doc, "default_model").is_none() {
        assert(all[0] == names@[0]@);
        return is_writable(names[0].as_str());
    }
    true
}

/// Whether the strings that configuring a provider writes can be written.
fn is_preparable(doc: &DocumentMut, id: &str, c: &Value) -> (r: bool)
    requires
        regular_document(*doc),
    ensures
        r == can_prepare(document_tree(*doc), id@, json_tree(*c)),
{
    is_writable(config_kind(c)) && is_writable_if_any(config_url(c)) && is_writable_if_any(
        config_key(c),
    ) && is_giveable(doc, id, &collect_models(c))
}

/// A table with the settings of a model that `id` serves.
fn model_item(id: &str, name: &str) -> (r: Item)
    requires
        writable(id@),
        writable(name@),
    ensures
        item_tree(r) == Toml::Table(assigned(Seq::empty(), id@, name@)),
        plain(item_tree(r)),
{
    let mut table = empty_table();
    let ghost none = Seq::<(Seq<char>, Toml)>::empty();
    let ghost half = put(none, "provider"@, Toml::Str(id@));
    proof {
        lemma_plain_put(none, "provider"@, id@);
        lemma_plain_regular(Toml::Table(half));
        lemma_plain_put(half, "model"@, name@);
    }
    table_insert(&mut table, "provider", string_item(id));
    table_insert(&mut table, "model", string_item(name));
    table
}

/// Adds a model that `id` serves.
fn add_model(doc: &mut DocumentMut, id: &str, name: &str)
    requires
        regular_document(*old(doc)),
        table_in(document_tree(*old(doc)), "models"@) is Some,
        writable(id@),
        writable(name@),
    ensures
        document_tree(*final(doc)) == with_section(
            document_tree(*old(doc)),
            "models"@,
            put(
                table_in(document_tree(*old(doc)), "models"@)->0,
                name@,
                Toml::Table(assigned(Seq::empty(), id@, name@)),
            ),
        ),
        regular_document(*final(doc)),
{
    let ghost tree = document_tree(*doc);
    let ghost rows = table_in(tree, "models"@)->0;
    let item = model_item(id, name);
    proof {
        lemma_find_regular(tree, "models"@);
        lemma_plain_regular(item_tree(item));
        lemma_put_regular(rows, name@, item_tree(item));
        lemma_section(tree, "models"@, put(rows, name@, item_tree(item)));
    }
    section_insert(doc, "models", name, item);
}

/// Gives the model `name` to `id`.
fn assign_model(doc: &mut DocumentMut, id: &str, name: &str)
    requires
        regular_document(*old(doc)),
        table_in(document_tree(*old(doc)), "models"@) is Some,
        takes_model(document_tree(*old(doc)), name@) ==> writable(id@) && writable(name@),
    ensures
        document_tree(*final(doc)) == with_section(
            document_tree(*old(doc)),
            "models"@,
            with_model(table_in(document_tree(*old(doc)), "models"@)->0, id@, name@),
        ),
        regular_document(*final(doc)),
{
    let ghost tree = document_tree(*doc);
    let ghost rows = table_in(tree, "models"@)->0;
    proof {
        lemma_find_regular(tree, "models"@);
    }
    match slot_in(doc, "models", name) {
        Slot::Vacant => add_model(doc, id, name),
        Slot::Table => {
            let ghost t = table_in(rows, name@)->0;
            let ghost half = put(t, "provider"@, Toml::Str(id@));
            proof {
                lemma_find_regular(rows, name@);
                lemma_put_regular(t, "provider"@, Toml::Str(id@));
                lemma_row(tree, "models"@, rows, name@, half);
                lemma_put_regular(half, "model"@, Toml::Str(name@));
                lemma_row(tree, "models"@, rows, name@, assigned(t, id@, name@));
            }
            entry_insert(doc, "models", name, "provider", string_item(id));
            assert(document_tree(*doc) == with_row(tree, "models"@, rows, name@, half));
            entry_insert(doc, "models", name, "model", string_item(name));
        },
        Slot::Other => {
            proof {
                lemma_put_same(tree, "models"@);
            }
        },
    }
}

/// A row that is no table stays when models are given to `id`.
proof fn lemma_stays(rows: Entries, id: Seq<char>, names: Seq<Seq<char>>, key: Seq<char>)
    requires
        has_key(rows, key),
        table_in(rows, key) is None,
    ensures
        find(with_models(rows, id, names), key) == find(rows, key),
    decreases names.len(),
{
    if names.len() > 0 {
        let before = with_models(rows, id, names.drop_last());
        let name = names.last();
        lemma_stays(rows, id, names.drop_last(), key);
        match find(before, name) {
            None => {
                lemma_find_put(before, name, Toml::Table(assigned(Seq::empty(), id, name)), key);
            },
            Some(Toml::Table(t)) => {
                lemma_find_put(before, name, Toml::Table(assigned(t, id, name)), key);
            },
            Some(_) => {},
        }
    }
}

/// Gives each of `names` to `id`.
fn assign_models(doc: &mut DocumentMut, id: &str, names: &Vec<String>)
    requires
        regular_document(*old(doc)),
        table_in(document_tree(*old(doc)), "models"@) is Some,
        forall|i: int|
            0 <= i < views(names@).len() && takes_model(
                document_tree(*old(doc)),
                #[trigger] views(names@)[i],
            ) ==> writable(id@) && writable(views(names@)[i]),
    ensures
        document_tree(*final(doc)) == with_section(
            document_tree(*old(doc)),
            "models"@,
            with_models(table_in(document_tree(*old(doc)), "models"@)->0, id@, views(names@)),
        ),
        regular_document(*final(doc)),
{
    let ghost tree = document_tree(*doc);
    let ghost rows = table_in(tree, "models"@)->0;
    let ghost all = views(names@);
    proof {
        lemma_find_regular(tree, "models"@);
        lemma_put_same(tree, "models"@);
    }
    let mut i: usize = 0;
    assert(all.take(0) =~= Seq::<Seq<char>>::empty());
    while i < names.len()
        invariant
            i <= names.len(),
            all == views(names@),
            table_in(tree, "models"@) == Some(rows),
            forall|j: int|
                0 <= j < all.len() && takes_model(tree, #[trigger] all[j]) ==> writable(id@)
                    && writable(all[j]),
            regular(Toml::Table(tree)),
            regular_document(*doc),
            document_tree(*doc) == with_section(
                tree,
                "models"@,
                with_models(rows, id@, all.take(i as int)),
            ),
        decreases names.len() - i,
    {
        let ghost so_far = with_models(rows, id@, all.take(i as int));
        proof {
            lemma_find_put(tree, "models"@, Toml::Table(so_far), "models"@);
            lemma_put_put(
                tree,
                "models"@,
                Toml::Table(so_far),
                Toml::Table(with_model(so_far, id@, all[i as int])),
            );
            assert(all.take(i + 1).drop_last() =~= all.take(i as int));
            assert(all.take(i + 1).last() == all[i as int]);
            if !takes_model(tree, all[i as int]) {
                lemma_stays(rows, id@, all.take(i as int), all[i as int]);
            }
        }
        assign_model(doc, id, names[i].as_str());
        i += 1;
    }
    assert(all.take(i as int) =~= all);
}

/// Gives `names` to `id`, and makes the first of them the default model, unless there is one.
fn write_models(doc: &mut DocumentMut, id: &str, names: &Vec<String>)
    requires
        regular_document(*old(doc)),
        can_give(document_tree(*old(doc)), id@, views(names@)),
    ensures
        document_tree(*final(doc)) == with_configured_models(
            document_tree(*old(doc)),
            id@,
            views(names@),
        ),
        regular_document(*final(doc)),
{
    if names.len() == 0 {
        return;
    }
    let ghost before = document_tree(*doc);
    proof {
        lemma_sections();
        lemma_find_put(before, "models"@, Toml::Table(Seq::empty()), "models"@);
        lemma_find_put(before, "models"@, Toml::Table(Seq::empty()), "default_model"@);
    }
    ensure_section(doc, "models");
    let ghost tabled = document_tree(*doc);
    assert(model_rows(tabled) == model_rows(before));
    if section(doc, "models").is_some() {
        assert forall|i: int|
            0 <= i < views(names@).len() && takes_model(
                tabled,
                #[trigger] views(names@)[i],
            ) implies writable(id@) && writable(views(names@)[i]) by {
            assert(takes_model(before, views(names@)[i]));
        }
        proof {
            lemma_find_put(
                tabled,
                "models"@,
                Toml::Table(with_models(model_rows(tabled), id@, views(names@))),
                "default_model"@,
            );
        }
        assign_models(doc, id, names);
    }
    if document_get(doc, "default_model").is_none() {
        let ghost tree = document_tree(*doc);
        assert(views(names@)[0] == names@[0]@);
        proof {
            lemma_put_regular(tree, "default_model"@, Toml::Str(names@[0]@));
        }
        document_set(doc, "default_model", string_item(names[0].as_str()));
    }
}

/// Makes sure that there is, or can be, a table for the provider `id`.
fn check_tables(doc: &DocumentMut, id: &str) -> (r: Result<(), AppError>)
    requires
        regular_document(*doc),
    ensures
        forall|c: Json|
            match r {
                Ok(_) => (#[trigger] prepared(document_tree(*doc), id@, c)) is Ok,
                Err(e) => prepared(document_tree(*doc), id@, c) == Err::<Entries, Failure>(e@),
            },
{
    let ghost tree = document_tree(*doc);
    let ghost none: Entries = Seq::empty();
    proof {
        lemma_find_put(tree, "providers"@, Toml::Table(none), "providers"@);
        lemma_find_put(none, id@, Toml::Table(none), id@);
    }
    if document_get(doc, "providers").is_none() {
        return Ok(());
    }
    if section(doc, "providers").is_none() {
        return Err(AppError::Config("Kimi config.toml [providers] is not a table".to_owned()));
    }
    proof {
        lemma_find_put(table_in(tree, "providers"@)->0, id@, Toml::Table(none), id@);
    }
    match slot_in(doc, "providers", id) {
        Slot::Other => {
            let mut message = joined("Kimi provider table '", id);
            message.append("' is invalid");
            Err(AppError::Config(message))
        },
        _ => Ok(()),
    }
}

/// Configures the provider `id` in a document. Where that fails, the document stays as it is.
pub fn prepare_in(doc: &mut DocumentMut, id: &str, provider_config: &Value) -> (r: Result<
    (),
    AppError,
>)
    requires
        regular_document(*old(doc)),
        can_prepare(document_tree(*old(doc)), id@, json_tree(*provider_config)),
    ensures
        match r {
            Ok(_) => prepared(document_tree(*old(doc)), id@, json_tree(*provider_config)) == Ok::<
                Entries,
                Failure,
            >(document_tree(*final(doc))) && regular_document(*final(doc)),
            Err(e) => prepared(document_tree(*old(doc)), id@, json_tree(*provider_config)) == Err::<
                Entries,
                Failure,
            >(e@) && *final(doc) == *old(doc),
        },
{
    let ghost tree = document_tree(*doc);
    match check_tables(doc, id) {
        Ok(_) => {},
        Err(e) => return Err(e),
    }
    assert(prepared(document_tree(*doc), id@, json_tree(*provider_config)) is Ok);
    ensure_section(doc, "providers");
    let ghost tabled = document_tree(*doc);
    let ghost rows = table_in(tabled, "providers"@)->0;
    let ghost entered = with_table(rows, id@);
    proof {
        lemma_find_regular(tabled, "providers"@);
    }
    if let Slot::Vacant = slot_in(doc, "providers", id) {
        proof {
            lemma_put_regular(rows, id@, Toml::Table(Seq::empty()));
            lemma_find_put(rows, id@, Toml::Table(Seq::empty()), id@);
            lemma_section(tabled, "providers"@, entered);
        }
        section_insert(doc, "providers", id, empty_table());
    } else {
        proof {
            lemma_put_same(tabled, "providers"@);
            lemma_section(tabled, "providers"@, entered);
        }
    }
    assert(document_tree(*doc) == with_section(tabled, "providers"@, entered));
    let ghost p = table_in(entered, id@)->0;
    write_settings(doc, id, provider_config);
    assert(document_tree(*doc) == with_section(
        tabled,
        "providers"@,
        with_section(entered, id@, configured(p, json_tree(*provider_config))),
    ));
    let names = collect_models(provider_config);
    proof {
        lemma_sections();
        let written = document_tree(*doc);
        let none = Toml::Table(Seq::empty());
        let new = Toml::Table(
            with_section(entered, id@, configured(p, json_tree(*provider_config))),
        );
        lemma_find_put(tree, "providers"@, none, "models"@);
        lemma_find_put(tree, "providers"@, none, "default_model"@);
        lemma_find_put(tabled, "providers"@, new, "models"@);
        lemma_find_put(tabled, "providers"@, new, "default_model"@);
        assert(model_rows(written) == model_rows(tree));
        assert forall|i: int|
            0 <= i < views(names@).len() && takes_model(
                written,
                #[trigger] views(names@)[i],
            ) implies writable(id@) && writable(views(names@)[i]) by {
            assert(takes_model(tree, views(names@)[i]));
        }
    }
    write_models(doc, id, &names);
    Ok(())
}

/// The configuration file with the provider `id` configured: its settings are written, the
/// models that the configuration gives are given to it, and the first of them is made the
/// default model, unless there is one.
pub fn prepare_provider(content: Option<&str>, id: &str, provider_config: Value) -> (r: Result<
    String,
    AppError,
>)
    ensures
        match r {
            Ok(text) => opened(text_of(content)) matches Ok(doc) && regular(Toml::Table(doc)) && (
            prepared(doc, id@, json_tree(provider_config)) matches Ok(tree) && renders(
                text@,
                tree,
            )) && can_prepare(doc, id@, json_tree(provider_config)),
            Err(e) => match opened(text_of(content)) {
                Ok(doc) => match prepared(doc, id@, json_tree(provider_config)) {
                    Ok(_) => !can_prepare(doc, id@, json_tree(provider_config)) && e@
                        == unwritable(),
                    Err(f) => e@ == f,
                },
                Err(f) => e@ == f,
            },
        },
{
    let mut doc = match open_or_new(content) {
        Ok(doc) => doc,
        Err(e) => return Err(e),
    };
    if !is_preparable(&doc, id, &provider_config) {
        return match check_tables(&doc, id) {
            Ok(_) => Err(unwritable_error()),
            Err(e) => Err(e),
        };
    }
    match prepare_in(&mut doc, id, &provider_config) {
        Ok(_) => Ok(write_document(&doc)),
        Err(e) => Err(e),
    }
}

/// The error of a string that cannot be written.
fn unwritable_error() -> (r: AppError)
    ensures
        r@ == unwritable(),
{
    AppError::Config("Kimi config.toml cannot hold this many quotes in a row".to_owned())
}

/// The name of the first model that `id` serves.
fn first_served(doc: &DocumentMut, id: &str) -> (r: Option<String>)
    requires
        regular_document(*doc),
    ensures
        ({
            let served = model_rows(document_tree(*doc)).filter(served_by(id@));
            match r {
                Some(name) => served.len() > 0 && name@ == served[0].0,
                None => served.len() == 0,
            }
        }),
{
    let names = served_names(doc, id);
    let ghost served = model_rows(document_tree(*doc)).filter(served_by(id@));
    assert(views(names@).len() == served.len());
    if names.len() > 0 {
        assert(views(names@)[0] == names@[0]@);
        assert(names_in(served)[0] == served[0].0);
        Some(names[0].clone())
    } else {
        None
    }
}

/// The names in a sequence of entries.
pub open spec fn names_in(s: Entries) -> Seq<Seq<char>> {
    s.map_values(|e: (Seq<char>, Toml)| e.0)
}

/// The names of the models that `id` serves, in order.
fn served_names(doc: &DocumentMut, id: &str) -> (r: Vec<String>)
    requires
        regular_document(*doc),
    ensures
        views(r@) == names_in(model_rows(document_tree(*doc)).filter(served_by(id@))),
{
    let mut found: Vec<String> = Vec::new();
    let ghost rows = model_rows(document_tree(*doc));
    let ghost keep = served_by(id@);
    assert(views(found@) =~= names_in(rows.take(0).filter(keep))) by {
        reveal(Seq::filter);
    }
    if let Some(models) = section(doc, "models") {
        let entries = table_entries(models);
        let mut i: usize = 0;
        while i < entries.len()
            invariant
                i <= entries.len(),
                entries@.len() == rows.len(),
                regular(Toml::Table(rows)),
                keep == served_by(id@),
                forall|j: int|
                    0 <= j < entries@.len() ==> (#[trigger] entries@[j]).0@ == rows[j].0
                        && item_tree(*entries@[j].1) == rows[j].1,
                views(found@) == names_in(rows.take(i as int).filter(keep)),
            decreases entries.len() - i,
        {
            let (name, item) = entries[i];
            assert(regular(rows[i as int].1));
            proof {
                lemma_filter_step(rows, keep, i as int);
            }
            let ghost before = found@;
            let ghost kept = rows.take(i as int).filter(keep);
            if is_served(item, id) {
                assert(keep((rows[i as int].0, item_tree(*item))));
                found.push(name.to_owned());
                assert(views(found@) =~= views(before).push(name@));
                assert(names_in(kept.push(rows[i as int])) =~= names_in(kept).push(name@));
            } else {
                assert(!keep((rows[i as int].0, item_tree(*item))));
            }
            i += 1;
        }
        assert(rows.take(i as int) =~= rows);
    } else {
        assert(rows.take(0) =~= rows);
    }
    found
}

/// The model to make the default one.
fn target_name(doc: &DocumentMut, id: &str, c: &Value) -> (r: String)
    requires
        regular_document(*doc),
    ensures
        r@ == target_model(document_tree(*doc), id@, json_tree(*c)),
{
    match value_text(member(c, "model")) {
        Some(m) => m.to_owned(),
        None => match first_served(doc, id) {
            Some(name) => name,
            None => id.to_owned(),
        },
    }
}

/// Makes `name` a model that `id` serves. One that `id` serves stays as it is.
fn provide_model(doc: &mut DocumentMut, id: &str, name: &str)
    requires
        regular_document(*old(doc)),
        table_in(document_tree(*old(doc)), "models"@) is Some,
        gains_model(document_tree(*old(doc)), id@, name@) ==> writable(id@),
        writable(name@),
    ensures
        document_tree(*final(doc)) == with_section(
            document_tree(*old(doc)),
            "models"@,
            with_provider(table_in(document_tree(*old(doc)), "models"@)->0, id@, name@),
        ),
        regular_document(*final(doc)),
{
    let ghost tree = document_tree(*doc);
    let ghost rows = table_in(tree, "models"@)->0;
    proof {
        lemma_find_regular(tree, "models"@);
        lemma_put_same(tree, "models"@);
    }
    match slot_in(doc, "models", name) {
        Slot::Vacant => add_model(doc, id, name),
        Slot::Table => {
            let ghost t = table_in(rows, name@)->0;
            let ghost given = put(t, "provider"@, Toml::Str(id@));
            proof {
                lemma_find_regular(rows, name@);
                lemma_put_regular(t, "provider"@, Toml::Str(id@));
                lemma_row(tree, "models"@, rows, name@, given);
            }
            if !is_model_of(doc, id, name) {
                entry_insert(doc, "models", name, "provider", string_item(id));
            } else {
                proof {
                    lemma_put_same(t, "provider"@);
                    lemma_put_same(rows, name@);
                }
            }
        },
        Slot::Other => {},
    }
}

/// Whether the row of the model `name` names `id` as its provider.
fn is_model_of(doc: &DocumentMut, id: &str, name: &str) -> (r: bool)
    requires
        regular_document(*doc),
    ensures
        r == (table_in(model_rows(document_tree(*doc)), name@) matches Some(t) && string_in(
            t,
            "provider"@,
        ) == Some(id@)),
{
    if let Some(models) = section(doc, "models") {
        if let Some(model) = table_get(models, name) {
            let r = is_served(model, id);
            assert(r == served_by(id@)((name@, item_tree(*model))));
            return r;
        }
    }
    false
}

/// Puts the provider `id` to use in a document.
pub fn select_in(doc: &mut DocumentMut, id: &str, provider_config: &Value)
    requires
        regular_document(*old(doc)),
        can_select(document_tree(*old(doc)), id@, json_tree(*provider_config)),
    ensures
        document_tree(*final(doc)) == selected(
            document_tree(*old(doc)),
            id@,
            json_tree(*provider_config),
        ),
        regular_document(*final(doc)),
{
    let target = target_name(doc, id, provider_config);
    let ghost before = document_tree(*doc);
    proof {
        lemma_find_put(before, "models"@, Toml::Table(Seq::empty()), "models"@);
    }
    ensure_section(doc, "models");
    assert(model_rows(document_tree(*doc)) == model_rows(before));
    if section(doc, "models").is_some() {
        provide_model(doc, id, target.as_str());
    }
    set_default_in(doc, target.as_str());
}

/// Sets the default model of a document.
pub fn set_default_in(doc: &mut DocumentMut, name: &str)
    requires
        regular_document(*old(doc)),
        writable(name@),
    ensures
        document_tree(*final(doc)) == with_default(document_tree(*old(doc)), name@),
        regular_document(*final(doc)),
{
    proof {
        lemma_put_regular(document_tree(*doc), "default_model"@, Toml::Str(name@));
    }
    document_set(doc, "default_model", string_item(name));
}

/// Whether an entry stands under none of `names`.
pub open spec fn none_of(names: Seq<Seq<char>>) -> spec_fn((Seq<char>, Toml)) -> bool {
    |e: (Seq<char>, Toml)| !names.contains(e.0)
}

/// Removing one more name is keeping what stands under none of one more name.
proof fn lemma_without_name(s: Entries, names: Seq<Seq<char>>, name: Seq<char>)
    ensures
        without(s.filter(none_of(names)), name) == s.filter(none_of(names.push(name))),
    decreases s.len(),
{
    reveal(Seq::filter);
    let more = names.push(name);
    if s.len() > 0 {
        let front = s.drop_last();
        lemma_without_name(front, names, name);
        let last = s.last();
        assert(more.contains(last.0) <==> names.contains(last.0) || last.0 == name) by {
            if names.contains(last.0) {
                let k = choose|k: int| 0 <= k < names.len() && names[k] == last.0;
                assert(more[k] == last.0);
            }
            if last.0 == name {
                assert(more[names.len() as int] == last.0);
            }
        }
        if !names.contains(last.0) {
            let kept = front.filter(none_of(names));
            assert(s.filter(none_of(names)) == kept.push(last));
            assert(kept.push(last).drop_last() =~= kept);
        }
    }
}

/// The names of the models that `id` serves are those that `serves` speaks of; and where keys
/// are distinct, an entry under one of these names is served.
proof fn lemma_served_names(rows: Entries, id: Seq<char>)
    requires
        distinct(rows),
    ensures
        forall|i: int|
            0 <= i < rows.len() ==> (names_in(rows.filter(served_by(id))).contains(
                (#[trigger] rows[i]).0,
            ) <==> served_by(id)(rows[i])),
        forall|name: Seq<char>| #[trigger]
            names_in(rows.filter(served_by(id))).contains(name) <==> exists|i: int|
                0 <= i < rows.len() && (#[trigger] rows[i]).0 == name && served_by(id)(rows[i]),
{
    let keep = served_by(id);
    let kept = rows.filter(keep);
    lemma_filter_source(rows, keep);
    assert forall|name: Seq<char>| #[trigger]
        names_in(kept).contains(name) <==> exists|i: int|
            0 <= i < rows.len() && (#[trigger] rows[i]).0 == name && keep(rows[i]) by {
        if names_in(kept).contains(name) {
            let k = choose|k: int| 0 <= k < names_in(kept).len() && names_in(kept)[k] == name;
            assert(keep(kept[k]));
            let i = choose|i: int| 0 <= i < rows.len() && rows[i] == kept[k];
            assert(rows[i].0 == name && keep(rows[i]));
        }
        if exists|i: int| 0 <= i < rows.len() && (#[trigger] rows[i]).0 == name && keep(rows[i]) {
            let i = choose|i: int|
                0 <= i < rows.len() && (#[trigger] rows[i]).0 == name && keep(rows[i]);
            let k = lemma_filter_keeps(rows, keep, i);
            assert(names_in(kept)[k] == name);
        }
    }
    assert forall|i: int| 0 <= i < rows.len() implies (names_in(kept).contains(
        (#[trigger] rows[i]).0,
    ) <==> keep(rows[i])) by {
        if names_in(kept).contains(rows[i].0) {
            let j = choose|j: int|
                0 <= j < rows.len() && (#[trigger] rows[j]).0 == rows[i].0 && keep(rows[j]);
            if i < j {
                assert(rows[i].0 != rows[j].0);
            } else if j < i {
                assert(rows[j].0 != rows[i].0);
            }
        }
    }
}

/// Removes the models of these names.
fn remove_models(doc: &mut DocumentMut, names: &Vec<String>)
    requires
        regular_document(*old(doc)),
        table_in(document_tree(*old(doc)), "models"@) is Some,
    ensures
        document_tree(*final(doc)) == with_section(
            document_tree(*old(doc)),
            "models"@,
            table_in(document_tree(*old(doc)), "models"@)->0.filter(none_of(views(names@))),
        ),
        regular_document(*final(doc)),
{
    let ghost tree = document_tree(*doc);
    let ghost rows = table_in(tree, "models"@)->0;
    let ghost all = views(names@);
    proof {
        lemma_find_regular(tree, "models"@);
        lemma_put_same(tree, "models"@);
        lemma_full_filter(rows, none_of(all.take(0)));
    }
    let mut i: usize = 0;
    while i < names.len()
        invariant
            i <= names.len(),
            all == views(names@),
            regular(Toml::Table(tree)),
            regular(Toml::Table(rows)),
            regular_document(*doc),
            document_tree(*doc) == with_section(
                tree,
                "models"@,
                rows.filter(none_of(all.take(i as int))),
            ),
        decreases names.len() - i,
    {
        let ghost left = rows.filter(none_of(all.take(i as int)));
        proof {
            assert(all.take(i + 1) =~= all.take(i as int).push(all[i as int]));
            lemma_without_name(rows, all.take(i as int), all[i as int]);
            lemma_filter_regular(rows, none_of(all.take(i as int)));
            lemma_filter_regular(rows, none_of(all.take(i + 1)));
            lemma_section(tree, "models"@, left);
            lemma_section(tree, "models"@, rows.filter(none_of(all.take(i + 1))));
        }
        section_remove(doc, "models", names[i].as_str());
        assert(document_tree(*doc) == with_section(
            with_section(tree, "models"@, left),
            "models"@,
            without(left, all[i as int]),
        ));
        i += 1;
    }
    assert(all.take(i as int) =~= all);
}

/// The first name in a section.
fn first_name(doc: &DocumentMut, key: &str) -> (r: Option<String>)
    requires
        regular_document(*doc),
    ensures
        match r {
            Some(name) => table_in(document_tree(*doc), key@) matches Some(rows) && rows.len() > 0
                && name@ == rows[0].0,
            None => table_in(document_tree(*doc), key@) matches Some(rows) ==> rows.len() == 0,
        },
{
    if let Some(table) = section(doc, key) {
        let entries = table_entries(table);
        if entries.len() > 0 {
            let (name, _) = entries[0];
            return Some(name.to_owned());
        }
    }
    None
}

/// Removes the provider `id` from a document, with the models that it serves, and tells
/// whether the default model was one of them.
fn clear_in(doc: &mut DocumentMut, id: &str) -> (r: bool)
    requires
        regular_document(*old(doc)),
    ensures
        document_tree(*final(doc)) == cleared(document_tree(*old(doc)), id@),
        r == loses_default(document_tree(*old(doc)), id@),
        regular_document(*final(doc)),
{
    let ghost tree = document_tree(*doc);
    proof {
        lemma_sections();
    }
    if section(doc, "providers").is_some() {
        let ghost rows = table_in(tree, "providers"@)->0;
        proof {
            lemma_find_regular(tree, "providers"@);
            lemma_filter_regular(rows, other_than(id@));
            lemma_section(tree, "providers"@, without(rows, id@));
            lemma_find_put(tree, "providers"@, Toml::Table(without(rows, id@)), "models"@);
        }
        section_remove(doc, "providers", id);
    }
    let ghost closed = document_tree(*doc);
    assert(find(closed, "models"@) == find(tree, "models"@));
    let names = served_names(doc, id);
    if section(doc, "models").is_some() {
        let ghost rows = table_in(tree, "models"@)->0;
        proof {
            lemma_find_regular(closed, "models"@);
            lemma_served_names(rows, id@);
            lemma_same_filter(rows, none_of(views(names@)), not_served_by(id@));
        }
        remove_models(doc, &names);
    } else {
        assert(views(names@).len() == 0) by {
            reveal(Seq::filter);
        }
    }
    let ghost left = document_tree(*doc);
    assert(left == cleared(tree, id@));
    let gone = match document_string(doc, "default_model") {
        Some(m) => holds(&names, m),
        None => false,
    };
    assert(gone <==> (string_in(left, "default_model"@) matches Some(m) && serves(tree, id@, m)))
        by {
        if table_in(tree, "models"@) is Some {
            lemma_served_names(model_rows(tree), id@);
        }
    }
    gone
}

/// Makes the first model the default one, and takes the default model away where there is no
/// model. Where the name of the first model cannot be written, the document stays as it is.
fn settle_default(doc: &mut DocumentMut) -> (r: bool)
    requires
        regular_document(*old(doc)),
    ensures
        ({
            let tree = document_tree(*old(doc));
            &&& r == (model_rows(tree).len() > 0 ==> writable(model_rows(tree)[0].0))
            &&& r ==> document_tree(*final(doc)) == with_first_as_default(tree)
            &&& r ==> regular_document(*final(doc))
        }),
{
    match first_name(doc, "models") {
        Some(next) => {
            if !is_writable(next.as_str()) {
                return false;
            }
            set_default_in(doc, next.as_str());
        },
        None => {
            proof {
                lemma_filter_regular(document_tree(*doc), other_than("default_model"@));
            }
            document_remove(doc, "default_model");
        },
    }
    true
}

/// Removes the provider `id` from a document, with the models that it serves.
pub fn remove_in(doc: &mut DocumentMut, id: &str)
    requires
        regular_document(*old(doc)),
        can_remove(document_tree(*old(doc)), id@),
    ensures
        document_tree(*final(doc)) == removed(document_tree(*old(doc)), id@),
        regular_document(*final(doc)),
{
    if clear_in(doc, id) {
        settle_default(doc);
    }
}

// ---------------------------------------------------------------------------
// Changes of the configuration file
// ---------------------------------------------------------------------------

/// `w` writes a document with the entries `tree` to the configuration file in `dir`.
pub open spec fn saves(w: FileWrite, dir: PathBuf, tree: Entries) -> bool {
    &&& is_joined(w.path, dir, KIMI_CONFIG_FILE@)
    &&& renders(w.content@, tree)
    &&& w.mode == FILE_MODE
}

/// The write of a document to the configuration file in `dir`.
fn save(dir: &PathBuf, doc: &DocumentMut) -> (r: FileWrite)
    requires
        regular_document(*doc),
    ensures
        saves(r, *dir, document_tree(*doc)),
{
    FileWrite { path: get_kimi_config_path(dir), content: write_document(doc), mode: FILE_MODE }
}

/// Removes the provider `id` from the configuration file, with the models that it serves.
/// Where there is no file, there is nothing to write.
pub fn remove_provider(dir: &PathBuf, content: Option<&str>, id: &str) -> (r: Result<
    Option<FileWrite>,
    AppError,
>)
    ensures
        match (content, r) {
            (None, r) => r == Ok::<Option<FileWrite>, AppError>(None),
            (Some(text), Ok(Some(w))) => parsed(text@) matches Ok(doc) && regular(Toml::Table(doc))
                && can_remove(doc, id@) && saves(w, *dir, removed(doc, id@)),
            (Some(_), Ok(None)) => false,
            (Some(text), Err(e)) => match parsed(text@) {
                Ok(doc) => regular(Toml::Table(doc)) && !can_remove(doc, id@) && e@ == unwritable(),
                Err(f) => e@ == f,
            },
        },
{
    let text = match content {
        Some(text) => text,
        None => return Ok(None),
    };
    match open_existing(text) {
        Ok(opened_doc) => {
            let mut doc = opened_doc;
            if clear_in(&mut doc, id) {
                if !settle_default(&mut doc) {
                    return Err(unwritable_error());
                }
            }
            Ok(Some(save(dir, &doc)))
        },
        Err(e) => Err(e),
    }
}

/// Puts the provider `id` to use: its model is made the default one, and is added if it is
/// not there.
pub fn set_current_provider(
    dir: &PathBuf,
    content: Option<&str>,
    id: &str,
    provider_config: &Value,
) -> (r: Result<FileWrite, AppError>)
    ensures
        match r {
            Ok(w) => opened(text_of(content)) matches Ok(doc) && regular(Toml::Table(doc))
                && can_select(doc, id@, json_tree(*provider_config)) && saves(
                w,
                *dir,
                selected(doc, id@, json_tree(*provider_config)),
            ),
            Err(e) => match opened(text_of(content)) {
                Ok(doc) => !can_select(doc, id@, json_tree(*provider_config)) && e@ == unwritable(),
                Err(f) => e@ == f,
            },
        },
{
    match open_or_new(content) {
        Ok(opened_doc) => {
            let mut doc = opened_doc;
            let target = target_name(&doc, id, provider_config);
            let name = target.as_str();
            let gains = can_take(&doc, name) && !is_model_of(&doc, id, name);
            if !is_writable(name) || (gains && !is_writable(id)) {
                return Err(unwritable_error());
            }
            select_in(&mut doc, id, provider_config);
            Ok(save(dir, &doc))
        },
        Err(e) => Err(e),
    }
}

/// Sets the default model. The name of the model comes back with the write.
pub fn set_default_model(dir: &PathBuf, content: Option<&str>, model_name: &str) -> (r: Result<
    (FileWrite, String),
    AppError,
>)
    ensures
        match r {
            Ok((w, name)) => name@ == model_name@ && (opened(text_of(content)) matches Ok(doc)
                && regular(Toml::Table(doc)) && writable(model_name@) && saves(
                w,
                *dir,
                with_default(doc, model_name@),
            )),
            Err(e) => match opened(text_of(content)) {
                Ok(_) => !writable(model_name@) && e@ == unwritable(),
                Err(f) => e@ == f,
            },
        },
{
    match open_or_new(content) {
        Ok(opened_doc) => {
            let mut doc = opened_doc;
            if !is_writable(model_name) {
                return Err(unwritable_error());
            }
            set_default_in(&mut doc, model_name);
            Ok((save(dir, &doc), model_name.to_owned()))
        },
        Err(e) => Err(e),
    }
}

} // verus!
